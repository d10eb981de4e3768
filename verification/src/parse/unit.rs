//! The byte-size unit field of an input token, and integer unit scaling.

use vstd::prelude::*;
use crate::parse::error::ParseError;

verus! {

/// Byte-size scale factor: decimal prefixes scale by powers of 1000,
/// binary prefixes by powers of 1024.
#[derive(Debug, PartialEq, Eq, Structural, Copy, Clone)]
pub enum Unit {
    Base,
    Kilo,
    Mega,
    Giga,
    Tera,
    Kibi,
    Mibi,
    Gibi,
    Tebi,
}

impl Unit {
    /// The unit-suffix vocabulary: which suffix capture resolves to which
    /// unit; `None` for every unrecognized non-empty suffix.
    pub open spec fn spec_from_suffix(s: Seq<char>) -> Option<Unit> {
        if s.len() == 0 {
            Some(Unit::Base)
        } else if s == seq!['k'] || s == seq!['k', 'b'] {
            Some(Unit::Kilo)
        } else if s == seq!['m'] || s == seq!['m', 'b'] {
            Some(Unit::Mega)
        } else if s == seq!['g'] || s == seq!['g', 'b'] {
            Some(Unit::Giga)
        } else if s == seq!['t'] || s == seq!['t', 'b'] {
            Some(Unit::Tera)
        } else if s == seq!['k', 'i'] || s == seq!['k', 'i', 'b'] {
            Some(Unit::Kibi)
        } else if s == seq!['m', 'i'] || s == seq!['m', 'i', 'b'] || s == seq!['m', 'i', 'b', 'i']
            || s == seq!['m', 'e', 'b'] || s == seq!['m', 'e', 'b', 'i'] {
            Some(Unit::Mibi)
        } else if s == seq!['g', 'i'] || s == seq!['g', 'i', 'b'] {
            Some(Unit::Gibi)
        } else if s == seq!['t', 'i'] || s == seq!['t', 'i', 'b'] || s == seq!['t', 'i', 'b', 'i']
            || s == seq!['t', 'e', 'b'] || s == seq!['t', 'e', 'b', 'i'] {
            Some(Unit::Tebi)
        } else {
            None
        }
    }

    /// The integer scale factor of this unit.
    pub open spec fn spec_scale(self) -> nat {
        match self {
            Unit::Base => 1,
            Unit::Kilo => 1000,
            Unit::Mega => 1000000,
            Unit::Giga => 1000000000,
            Unit::Tera => 1000000000000,
            Unit::Kibi => 1024,
            Unit::Mibi => 1048576,
            Unit::Gibi => 1073741824,
            Unit::Tebi => 1099511627776,
        }
    }

    /// Parses the [`Unit`] from the normalized and validated slice of the
    /// input that corresponds to this type. The empty suffix is the base
    /// unit; an unrecognized suffix is rejected.
    pub fn from_input(part_str: &str) -> (r: Result<Self, ParseError>)
        ensures
            match Unit::spec_from_suffix(part_str@) {
                Some(u) => r matches Ok(x) && x == u,
                None => r matches Err(e) && (e matches ParseError::InvalidUnit(t) && t@
                    == part_str@),
            },
    {
        let ghost s = part_str@;
        let len = part_str.unicode_len();
        if len == 0 {
            return Ok(Unit::Base);
        }
        if len == 1 {
            let c0 = part_str.get_char(0);
            proof {
                assert(s =~= seq![s[0]]);
            }
            if c0 == 'k' {
                return Ok(Unit::Kilo);
            } else if c0 == 'm' {
                return Ok(Unit::Mega);
            } else if c0 == 'g' {
                return Ok(Unit::Giga);
            } else if c0 == 't' {
                return Ok(Unit::Tera);
            }
        } else if len == 2 {
            let c0 = part_str.get_char(0);
            let c1 = part_str.get_char(1);
            proof {
                assert(s =~= seq![s[0], s[1]]);
            }
            if c0 == 'k' && c1 == 'b' {
                return Ok(Unit::Kilo);
            } else if c0 == 'k' && c1 == 'i' {
                return Ok(Unit::Kibi);
            } else if c0 == 'm' && c1 == 'b' {
                return Ok(Unit::Mega);
            } else if c0 == 'm' && c1 == 'i' {
                return Ok(Unit::Mibi);
            } else if c0 == 'g' && c1 == 'b' {
                return Ok(Unit::Giga);
            } else if c0 == 'g' && c1 == 'i' {
                return Ok(Unit::Gibi);
            } else if c0 == 't' && c1 == 'b' {
                return Ok(Unit::Tera);
            } else if c0 == 't' && c1 == 'i' {
                return Ok(Unit::Tebi);
            }
        } else if len == 3 {
            let c0 = part_str.get_char(0);
            let c1 = part_str.get_char(1);
            let c2 = part_str.get_char(2);
            proof {
                assert(s =~= seq![s[0], s[1], s[2]]);
            }
            if c0 == 'k' && c1 == 'i' && c2 == 'b' {
                return Ok(Unit::Kibi);
            } else if c0 == 'm' && c1 == 'i' && c2 == 'b' {
                return Ok(Unit::Mibi);
            } else if c0 == 'm' && c1 == 'e' && c2 == 'b' {
                return Ok(Unit::Mibi);
            } else if c0 == 'g' && c1 == 'i' && c2 == 'b' {
                return Ok(Unit::Gibi);
            } else if c0 == 't' && c1 == 'i' && c2 == 'b' {
                return Ok(Unit::Tebi);
            } else if c0 == 't' && c1 == 'e' && c2 == 'b' {
                return Ok(Unit::Tebi);
            }
        } else if len == 4 {
            let c0 = part_str.get_char(0);
            let c1 = part_str.get_char(1);
            let c2 = part_str.get_char(2);
            let c3 = part_str.get_char(3);
            proof {
                assert(s =~= seq![s[0], s[1], s[2], s[3]]);
            }
            if c0 == 'm' && c1 == 'i' && c2 == 'b' && c3 == 'i' {
                return Ok(Unit::Mibi);
            } else if c0 == 'm' && c1 == 'e' && c2 == 'b' && c3 == 'i' {
                return Ok(Unit::Mibi);
            } else if c0 == 't' && c1 == 'i' && c2 == 'b' && c3 == 'i' {
                return Ok(Unit::Tebi);
            } else if c0 == 't' && c1 == 'e' && c2 == 'b' && c3 == 'i' {
                return Ok(Unit::Tebi);
            }
        }
        Err(ParseError::InvalidUnit(part_str.to_owned()))
    }

    /// The integer scale factor of this unit.
    pub fn scale_u64(&self) -> (r: u64)
        ensures
            r as nat == self.spec_scale(),
            r >= 1,
    {
        match self {
            Unit::Base => 1,
            Unit::Kilo => 1000,
            Unit::Mega => 1000000,
            Unit::Giga => 1000000000,
            Unit::Tera => 1000000000000,
            Unit::Kibi => 1024,
            Unit::Mibi => 1048576,
            Unit::Gibi => 1073741824,
            Unit::Tebi => 1099511627776,
        }
    }

    /// Converts a magnitude given in this unit to the base unit, in
    /// integer arithmetic. The caller owes that the product fits in 64
    /// bits; the decoder rejects tokens for which it would not.
    pub fn value_to_base_u64(self, value: u64) -> (r: u64)
        requires
            value * self.spec_scale() <= u64::MAX,
        ensures
            r as nat == value as nat * self.spec_scale(),
    {
        let s = self.scale_u64();
        value * s
    }
}

} // verus!
