//! A compact one-shot decoder: it validates a token against a smaller
//! grammar (no sign, no octal marker, no tera-scale units), decodes the
//! digit string, and folds the unit into the stored value, so that
//! [`Parsed::actual_value`] is already in base units.
//!
//! The grammar, applied to the normalized token, is
//! `^(0b|0x)?([0-9a-f]+)(k|kb|m|mb|g|gb|ki|kib|mi|mib|gi|gib)?$`, decided
//! by one left-to-right scan: a `0b`/`0x` head is always read as a
//! marker, the digit field takes the longest prefix of digit characters,
//! and the rest must be one of the unit suffixes.

use vstd::prelude::*;
use crate::parse::{lemma_num_prefix_at, num_prefix_len};
use crate::text::{digits_ok, digits_val, is_num_char, normalize_seq, num_char};

verus! {

/// Numeral system of this decoder: binary, decimal or hexadecimal.
#[derive(Debug, PartialEq, Eq, Structural, Copy, Clone)]
pub enum NumeralSystem {
    Decimal,
    Bin,
    Hex,
}

impl NumeralSystem {
    /// The system announced by the head of the normalized token; no
    /// marker means decimal.
    pub open spec fn spec_from_input(s: Seq<char>) -> NumeralSystem {
        if s.len() >= 2 && s[0] == '0' && s[1] == 'x' {
            NumeralSystem::Hex
        } else if s.len() >= 2 && s[0] == '0' && s[1] == 'b' {
            NumeralSystem::Bin
        } else {
            NumeralSystem::Decimal
        }
    }

    /// The radix used to read the digit string.
    pub open spec fn spec_radix(self) -> nat {
        match self {
            NumeralSystem::Bin => 2,
            NumeralSystem::Decimal => 10,
            NumeralSystem::Hex => 16,
        }
    }

    /// Resolves the numeral system from the head of the normalized input.
    pub fn from_input(normalized_input: &str) -> (r: NumeralSystem)
        ensures
            r == NumeralSystem::spec_from_input(normalized_input@),
    {
        if normalized_input.unicode_len() >= 2 && normalized_input.get_char(0) == '0' {
            let c = normalized_input.get_char(1);
            if c == 'x' {
                NumeralSystem::Hex
            } else if c == 'b' {
                NumeralSystem::Bin
            } else {
                NumeralSystem::Decimal
            }
        } else {
            NumeralSystem::Decimal
        }
    }

    /// The radix used to read the digit string.
    pub fn radix(&self) -> (r: u32)
        ensures
            r as nat == self.spec_radix(),
            2 <= r <= 16,
    {
        match self {
            NumeralSystem::Bin => 2,
            NumeralSystem::Decimal => 10,
            NumeralSystem::Hex => 16,
        }
    }
}

/// Byte-size scale factor of this decoder (no tera scale).
#[derive(Debug, PartialEq, Eq, Structural, Copy, Clone)]
pub enum Unit {
    Base,
    Kilo,
    Mega,
    Giga,
    Kibi,
    Mibi,
    Gibi,
}

impl Unit {
    /// The suffix vocabulary of this decoder; anything unrecognized is
    /// read as the base unit.
    pub open spec fn spec_from_str(s: Seq<char>) -> Unit {
        if s == seq!['k'] || s == seq!['k', 'b'] {
            Unit::Kilo
        } else if s == seq!['m'] || s == seq!['m', 'b'] {
            Unit::Mega
        } else if s == seq!['g'] || s == seq!['g', 'b'] {
            Unit::Giga
        } else if s == seq!['k', 'i'] || s == seq!['k', 'i', 'b'] {
            Unit::Kibi
        } else if s == seq!['m', 'i'] || s == seq!['m', 'i', 'b'] {
            Unit::Mibi
        } else if s == seq!['g', 'i'] || s == seq!['g', 'i', 'b'] {
            Unit::Gibi
        } else {
            Unit::Base
        }
    }

    /// Whether `s` is one of the suffixes the grammar accepts (the empty
    /// suffix included).
    pub open spec fn suffix_in_vocabulary(s: Seq<char>) -> bool {
        ||| s.len() == 0
        ||| s == seq!['k']
        ||| s == seq!['k', 'b']
        ||| s == seq!['m']
        ||| s == seq!['m', 'b']
        ||| s == seq!['g']
        ||| s == seq!['g', 'b']
        ||| s == seq!['k', 'i']
        ||| s == seq!['k', 'i', 'b']
        ||| s == seq!['m', 'i']
        ||| s == seq!['m', 'i', 'b']
        ||| s == seq!['g', 'i']
        ||| s == seq!['g', 'i', 'b']
    }

    /// The integer scale factor of this unit.
    pub open spec fn spec_scale(self) -> nat {
        match self {
            Unit::Base => 1,
            Unit::Kilo => 1000,
            Unit::Mega => 1000000,
            Unit::Giga => 1000000000,
            Unit::Kibi => 1024,
            Unit::Mibi => 1048576,
            Unit::Gibi => 1073741824,
        }
    }

    /// Resolves a unit from the suffix; `unit_string` must be the unit
    /// string and only the unit string, in lowercase. Unrecognized
    /// suffixes resolve to the base unit.
    pub fn from_str(unit_string: &str) -> (r: Unit)
        ensures
            r == Unit::spec_from_str(unit_string@),
    {
        let ghost s = unit_string@;
        let len = unit_string.unicode_len();
        if len == 1 {
            let c0 = unit_string.get_char(0);
            proof {
                assert(s =~= seq![s[0]]);
            }
            if c0 == 'k' {
                return Unit::Kilo;
            } else if c0 == 'm' {
                return Unit::Mega;
            } else if c0 == 'g' {
                return Unit::Giga;
            }
        } else if len == 2 {
            let c0 = unit_string.get_char(0);
            let c1 = unit_string.get_char(1);
            proof {
                assert(s =~= seq![s[0], s[1]]);
            }
            if c1 == 'b' {
                if c0 == 'k' {
                    return Unit::Kilo;
                } else if c0 == 'm' {
                    return Unit::Mega;
                } else if c0 == 'g' {
                    return Unit::Giga;
                }
            } else if c1 == 'i' {
                if c0 == 'k' {
                    return Unit::Kibi;
                } else if c0 == 'm' {
                    return Unit::Mibi;
                } else if c0 == 'g' {
                    return Unit::Gibi;
                }
            }
        } else if len == 3 {
            let c0 = unit_string.get_char(0);
            let c1 = unit_string.get_char(1);
            let c2 = unit_string.get_char(2);
            proof {
                assert(s =~= seq![s[0], s[1], s[2]]);
            }
            if c1 == 'i' && c2 == 'b' {
                if c0 == 'k' {
                    return Unit::Kibi;
                } else if c0 == 'm' {
                    return Unit::Mibi;
                } else if c0 == 'g' {
                    return Unit::Gibi;
                }
            }
        }
        Unit::Base
    }

    /// Scales a magnitude given in `from_unit` to the base unit. The
    /// caller owes that the product fits in the machine word; the decoder
    /// rejects tokens for which it would not.
    pub fn value_to_base(value: usize, from_unit: Unit) -> (r: usize)
        requires
            value * from_unit.spec_scale() <= usize::MAX,
        ensures
            r as nat == value as nat * from_unit.spec_scale(),
    {
        let s: usize = match from_unit {
            Unit::Base => 1,
            Unit::Kilo => 1000,
            Unit::Mega => 1000000,
            Unit::Giga => 1000000000,
            Unit::Kibi => 1024,
            Unit::Mibi => 1048576,
            Unit::Gibi => 1073741824,
        };
        value * s
    }
}

/// Length and contents of every unit-suffix literal of this decoder,
/// spelled out so that branch proofs can tell the literals apart.
proof fn lemma_vocab_literals()
    ensures
        seq!['k'].len() == 1 && seq!['k'][0] == 'k',
        seq!['m'].len() == 1 && seq!['m'][0] == 'm',
        seq!['g'].len() == 1 && seq!['g'][0] == 'g',
        seq!['k', 'b'].len() == 2 && seq!['k', 'b'][0] == 'k' && seq!['k', 'b'][1] == 'b',
        seq!['m', 'b'].len() == 2 && seq!['m', 'b'][0] == 'm' && seq!['m', 'b'][1] == 'b',
        seq!['g', 'b'].len() == 2 && seq!['g', 'b'][0] == 'g' && seq!['g', 'b'][1] == 'b',
        seq!['k', 'i'].len() == 2 && seq!['k', 'i'][0] == 'k' && seq!['k', 'i'][1] == 'i',
        seq!['m', 'i'].len() == 2 && seq!['m', 'i'][0] == 'm' && seq!['m', 'i'][1] == 'i',
        seq!['g', 'i'].len() == 2 && seq!['g', 'i'][0] == 'g' && seq!['g', 'i'][1] == 'i',
        seq!['k', 'i', 'b'].len() == 3 && seq!['k', 'i', 'b'][0] == 'k' && seq!['k', 'i', 'b'][1]
            == 'i' && seq!['k', 'i', 'b'][2] == 'b',
        seq!['m', 'i', 'b'].len() == 3 && seq!['m', 'i', 'b'][0] == 'm' && seq!['m', 'i', 'b'][1]
            == 'i' && seq!['m', 'i', 'b'][2] == 'b',
        seq!['g', 'i', 'b'].len() == 3 && seq!['g', 'i', 'b'][0] == 'g' && seq!['g', 'i', 'b'][1]
            == 'i' && seq!['g', 'i', 'b'][2] == 'b',
{
}

/// Where the grammar of this decoder splits a normalized token: the
/// marker length (0 or 2), and the digit / suffix fields of the rest.
pub open spec fn marker_len(s: Seq<char>) -> int {
    if NumeralSystem::spec_from_input(s) is Decimal {
        0
    } else {
        2
    }
}

/// The digit field: the longest digit prefix after the marker.
pub open spec fn number_field(s: Seq<char>) -> Seq<char> {
    let rest = s.skip(marker_len(s));
    rest.take(num_prefix_len(rest) as int)
}

/// The suffix field: whatever follows the digit field.
pub open spec fn unit_field(s: Seq<char>) -> Seq<char> {
    let rest = s.skip(marker_len(s));
    rest.skip(num_prefix_len(rest) as int)
}

/// Whether a normalized token matches the grammar of this decoder.
pub open spec fn spec_input_valid(s: Seq<char>) -> bool {
    number_field(s).len() >= 1 && Unit::suffix_in_vocabulary(unit_field(s))
}

/// Checks whether the (already normalized) input matches the grammar.
pub fn input_valid(normalized_: &str) -> (r: bool)
    ensures
        r == spec_input_valid(normalized_@),
{
    let ghost sv = normalized_@;
    let len = normalized_.unicode_len();
    let ns = NumeralSystem::from_input(normalized_);
    let pos: usize = match ns {
        NumeralSystem::Decimal => 0,
        _ => 2,
    };
    proof {
        assert(pos as int == marker_len(sv));
    }
    let dend = scan_num_end(normalized_, pos);
    proof {
        assert(number_field(sv).len() == dend - pos);
        assert(unit_field(sv) =~= sv.skip(dend as int));
    }
    if dend == pos {
        return false;
    }
    let rest_ok = suffix_in_vocabulary_str(normalized_, dend);
    rest_ok
}

/// First index at or after `start` whose character is not a digit
/// character.
fn scan_num_end(s: &str, start: usize) -> (r: usize)
    requires
        start <= s@.len(),
    ensures
        start <= r <= s@.len(),
        num_prefix_len(s@.skip(start as int)) == r - start,
        forall|j: int| start <= j < r ==> is_num_char(#[trigger] s@[j]),
        r < s@.len() ==> !is_num_char(s@[r as int]),
{
    let len = s.unicode_len();
    let mut i: usize = start;
    while i < len && num_char(s.get_char(i))
        invariant
            len == s@.len(),
            start <= i <= len,
            forall|j: int| start <= j < i ==> is_num_char(#[trigger] s@[j]),
        decreases len - i,
    {
        i = i + 1;
    }
    proof {
        let u = s@.skip(start as int);
        assert forall|j: int| 0 <= j < i - start implies is_num_char(#[trigger] u[j]) by {
            assert(u[j] == s@[start + j]);
        }
        if i < len {
            assert(u[i - start] == s@[i as int]);
        }
        lemma_num_prefix_at(u, i - start);
    }
    i
}

/// Whether the region of `s` from `start` to the end is in the unit
/// vocabulary of this decoder.
fn suffix_in_vocabulary_str(s: &str, start: usize) -> (r: bool)
    requires
        start <= s@.len(),
    ensures
        r == Unit::suffix_in_vocabulary(s@.skip(start as int)),
{
    let ghost u = s@.skip(start as int);
    let len = s.unicode_len();
    let n = len - start;
    proof {
        assert(u.len() == n);
        lemma_vocab_literals();
    }
    if n == 0 {
        return true;
    }
    if n > 3 {
        return false;
    }
    if n == 1 {
        let c0 = s.get_char(start);
        proof {
            assert(u =~= seq![s@[start as int]]);
        }
        c0 == 'k' || c0 == 'm' || c0 == 'g'
    } else if n == 2 {
        let c0 = s.get_char(start);
        let c1 = s.get_char(start + 1);
        proof {
            assert(u =~= seq![s@[start as int], s@[start + 1 as int]]);
        }
        (c0 == 'k' || c0 == 'm' || c0 == 'g') && (c1 == 'b' || c1 == 'i')
    } else {
        let c0 = s.get_char(start);
        let c1 = s.get_char(start + 1);
        let c2 = s.get_char(start + 2);
        proof {
            assert(u =~= seq![s@[start as int], s@[start + 1 as int], s@[start + 2 as int]]);
        }
        (c0 == 'k' || c0 == 'm' || c0 == 'g') && c1 == 'i' && c2 == 'b'
    }
}

/// The record of this decoder; the value already has the unit folded in.
#[derive(Debug)]
pub struct Parsed {
    original_input: String,
    normalized_input: String,
    unit_string: String,
    number_string: String,
    unit: Unit,
    numeral_sysem: NumeralSystem,
    actual_value: usize,
}

impl Parsed {
    /// The raw input as it was handed in.
    pub closed spec fn spec_original_input(self) -> Seq<char> {
        self.original_input@
    }

    /// The normalized input.
    pub closed spec fn spec_normalized_input(self) -> Seq<char> {
        self.normalized_input@
    }

    /// The unit-suffix field of the token.
    pub closed spec fn spec_unit_string(self) -> Seq<char> {
        self.unit_string@
    }

    /// The digit field of the token.
    pub closed spec fn spec_number_string(self) -> Seq<char> {
        self.number_string@
    }

    /// The resolved unit.
    pub closed spec fn spec_unit(self) -> Unit {
        self.unit
    }

    /// The resolved numeral system.
    pub closed spec fn spec_numeral_sysem(self) -> NumeralSystem {
        self.numeral_sysem
    }

    /// The decoded magnitude, scaled to base units.
    pub closed spec fn spec_actual_value(self) -> usize {
        self.actual_value
    }

    /// Getter for the raw input.
    pub fn original_input(&self) -> (r: &str)
        ensures
            r@ == self.spec_original_input(),
    {
        self.original_input.as_str()
    }

    /// Getter for the normalized input.
    pub fn normalized_input(&self) -> (r: &str)
        ensures
            r@ == self.spec_normalized_input(),
    {
        self.normalized_input.as_str()
    }

    /// Getter for the unit-suffix field (for example `k` or `mib`).
    pub fn unit_string(&self) -> (r: &str)
        ensures
            r@ == self.spec_unit_string(),
    {
        self.unit_string.as_str()
    }

    /// Getter for the digit field.
    pub fn number_string(&self) -> (r: &str)
        ensures
            r@ == self.spec_number_string(),
    {
        self.number_string.as_str()
    }

    /// Getter for the unit.
    pub fn unit(&self) -> (r: Unit)
        ensures
            r == self.spec_unit(),
    {
        self.unit
    }

    /// Getter for the numeral system.
    pub fn numeral_sysem(&self) -> (r: &NumeralSystem)
        ensures
            *r == self.spec_numeral_sysem(),
    {
        &self.numeral_sysem
    }

    /// Getter for the decoded value in base units.
    pub fn actual_value(&self) -> (r: usize)
        ensures
            r == self.spec_actual_value(),
    {
        self.actual_value
    }
}

/// Takes the input, normalizes it, checks it against the grammar and
/// resolves it into a [`Parsed`] record whose value is scaled to base
/// units. Every rejection (grammar mismatch, digits invalid under the
/// resolved radix, machine-word overflow before or after scaling) is the
/// same error text.
pub fn parse_input(input: &str) -> (r: Result<Parsed, &'static str>)
    ensures
        ({
            let n = normalize_seq(input@);
            let nsys = NumeralSystem::spec_from_input(n);
            let num = number_field(n);
            let un = Unit::spec_from_str(unit_field(n));
            if !spec_input_valid(n) {
                r matches Err(e) && e@ == "The input is not valid."@
            } else if !digits_ok(num, nsys.spec_radix()) {
                r matches Err(e) && e@ == "The input is not valid."@
            } else if digits_val(num, nsys.spec_radix()) > usize::MAX {
                r matches Err(e) && e@ == "The input is not valid."@
            } else if digits_val(num, nsys.spec_radix()) * un.spec_scale() > usize::MAX {
                r matches Err(e) && e@ == "The input is not valid."@
            } else {
                r matches Ok(p) && p.spec_original_input() == input@ && p.spec_normalized_input()
                    == n && p.spec_number_string() == num && p.spec_unit_string() == unit_field(n)
                    && p.spec_unit() == un && p.spec_numeral_sysem() == nsys
                    && p.spec_actual_value() as nat == digits_val(num, nsys.spec_radix())
                    * un.spec_scale()
            }
        }),
{
    let orig_input = input;
    let normalized_input = input_normalizer(input);
    let ghost n = normalized_input@;
    if !input_valid(normalized_input.as_str()) {
        return Err("The input is not valid.");
    }
    let ns = NumeralSystem::from_input(normalized_input.as_str());
    let pos: usize = match ns {
        NumeralSystem::Decimal => 0,
        _ => 2,
    };
    proof {
        assert(pos as int == marker_len(n));
        assert(n.len() >= pos);
    }
    let dend = scan_num_end(normalized_input.as_str(), pos);
    let num_str = normalized_input.as_str().substring_char(pos, dend).to_owned();
    let len = normalized_input.as_str().unicode_len();
    let unit_str = normalized_input.as_str().substring_char(dend, len).to_owned();
    proof {
        assert(num_str@ =~= number_field(n));
        assert(unit_str@ =~= unit_field(n));
    }
    let unit = Unit::from_str(unit_str.as_str());
    let radix = ns.radix();
    if !crate::text::check_digits(num_str.as_str(), radix) {
        return Err("The input is not valid.");
    }
    let value = match crate::text::parse_digits_usize(num_str.as_str(), radix) {
        Some(v) => v,
        None => {
            return Err("The input is not valid.");
        },
    };
    let scale: usize = match unit {
        Unit::Base => 1,
        Unit::Kilo => 1000,
        Unit::Mega => 1000000,
        Unit::Giga => 1000000000,
        Unit::Kibi => 1024,
        Unit::Mibi => 1048576,
        Unit::Gibi => 1073741824,
    };
    let actual_value = match value.checked_mul(scale) {
        Some(v) => v,
        None => {
            return Err("The input is not valid.");
        },
    };
    Ok(
        Parsed {
            original_input: orig_input.to_owned(),
            normalized_input,
            unit_string: unit_str,
            number_string: num_str,
            unit,
            numeral_sysem: ns,
            actual_value,
        },
    )
}

/// Removes all `_` from the input, trims surrounding whitespace and
/// lowercases ASCII letters.
pub fn input_normalizer(input: &str) -> (r: String)
    ensures
        r@ == normalize_seq(input@),
{
    crate::text::normalize_str(input)
}

} // verus!
