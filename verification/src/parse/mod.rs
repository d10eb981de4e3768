//! The input decoder: normalizes a raw token, matches it against the
//! input grammar, splits it into sign / numeral-system marker / digit
//! string / unit suffix, and resolves the fields into a [`Parsed`] record.
//!
//! The grammar, applied to the normalized token, is
//! `^(-)?(0b|0o|0x)?([0-9a-f]+)([a-z]{1,4})?$`, decided by a single
//! left-to-right scan: the digit field takes the longest prefix of digit
//! characters, and a `0b`/`0o`/`0x` head is read as a marker only when a
//! digit string with a valid suffix shape follows it (otherwise those
//! characters are offered to the digit field itself, so `0b` alone is the
//! decimal-looking digit string `0b`, not a marker).

use vstd::prelude::*;
use crate::text::{
    digits_ok,
    digits_val,
    is_lower_letter,
    is_num_char,
    lower_letter,
    normalize_seq,
    num_char,
    render_digits,
};

pub mod error;
pub mod ns;
pub mod sign;
pub mod unit;

use error::ParseError;
use ns::NumeralSystem;
use sign::Sign;
use unit::Unit;

verus! {

/// Length of the longest prefix of `s` made of grammar digit characters.
pub open spec fn num_prefix_len(s: Seq<char>) -> nat
    decreases s.len(),
{
    if s.len() == 0 || !is_num_char(s[0]) {
        0
    } else {
        1 + num_prefix_len(s.drop_first())
    }
}

/// Shape of a unit-suffix capture: empty, or one to four lowercase
/// letters.
pub open spec fn unit_suffix_ok(r: Seq<char>) -> bool {
    r.len() == 0 || (1 <= r.len() <= 4 && forall|i: int|
        0 <= i < r.len() ==> is_lower_letter(#[trigger] r[i]))
}

/// Whether `u` is a digit string followed by a unit-suffix-shaped rest.
pub open spec fn value_unit_match(u: Seq<char>) -> bool {
    num_prefix_len(u) >= 1 && unit_suffix_ok(u.skip(num_prefix_len(u) as int))
}

/// Whether `t` starts with a numeral-system marker.
pub open spec fn has_marker(t: Seq<char>) -> bool {
    t.len() >= 2 && t[0] == '0' && (t[1] == 'b' || t[1] == 'o' || t[1] == 'x')
}

/// Length of the sign capture (`1` when the token starts with `-`).
pub open spec fn split_sign_len(s: Seq<char>) -> int {
    if s.len() > 0 && s[0] == '-' {
        1
    } else {
        0
    }
}

/// The grammar split of a normalized token into (sign, marker, digit
/// string, unit suffix); `None` when the token does not match.
pub open spec fn spec_split(s: Seq<char>) -> Option<(Seq<char>, Seq<char>, Seq<char>, Seq<char>)> {
    let sg = s.take(split_sign_len(s));
    let t = s.skip(split_sign_len(s));
    if has_marker(t) && value_unit_match(t.skip(2)) {
        let u = t.skip(2);
        let d = num_prefix_len(u) as int;
        Some((sg, t.take(2), u.take(d), u.skip(d)))
    } else if value_unit_match(t) {
        let d = num_prefix_len(t) as int;
        Some((sg, Seq::empty(), t.take(d), t.skip(d)))
    } else {
        None
    }
}

/// The digit prefix never runs past the end.
pub proof fn lemma_num_prefix_len_le(s: Seq<char>)
    ensures
        num_prefix_len(s) <= s.len(),
    decreases s.len(),
{
    if s.len() == 0 || !is_num_char(s[0]) {
    } else {
        lemma_num_prefix_len_le(s.drop_first());
    }
}

/// The digit prefix ends exactly at the first non-digit position.
pub proof fn lemma_num_prefix_at(s: Seq<char>, i: int)
    requires
        0 <= i <= s.len(),
        forall|j: int| 0 <= j < i ==> is_num_char(#[trigger] s[j]),
        i == s.len() || !is_num_char(s[i]),
    ensures
        num_prefix_len(s) == i,
    decreases s.len(),
{
    if i == 0 {
    } else {
        assert(is_num_char(s[0]));
        lemma_num_prefix_at(s.drop_first(), i - 1);
    }
}

/// Concatenating the four captures of the grammar split reproduces the
/// normalized token.
pub proof fn lemma_split_rederives_input(s: Seq<char>)
    ensures
        spec_split(s) matches Some(parts) ==> parts.0 + parts.1 + parts.2 + parts.3 == s,
{
    if spec_split(s) is Some {
        let k = split_sign_len(s);
        let sg = s.take(k);
        let t = s.skip(k);
        assert(sg + t =~= s);
        if has_marker(t) && value_unit_match(t.skip(2)) {
            let u = t.skip(2);
            let d = num_prefix_len(u) as int;
            lemma_num_prefix_len_le(u);
            assert(u.take(d) + u.skip(d) =~= u);
            assert(t.take(2) + u =~= t);
            assert(sg + t.take(2) + u.take(d) + u.skip(d) =~= s);
        } else {
            let d = num_prefix_len(t) as int;
            lemma_num_prefix_len_le(t);
            assert(t.take(d) + t.skip(d) =~= t);
            assert(sg + Seq::<char>::empty() + t.take(d) + t.skip(d) =~= s);
        }
    }
}

/// Re-deriving the normalized token from a decoded record reproduces
/// it: the glyph of the resolved sign, the marker of the resolved
/// numeral system, the digit capture and the unit suffix, concatenated,
/// are the normalized input again.
pub proof fn lemma_parse_rederives_normalized(s: Seq<char>)
    requires
        spec_split(s) is Some,
    ensures
        ({
            let parts = spec_split(s)->Some_0;
            Sign::spec_from_input(parts.0).spec_glyph() + NumeralSystem::spec_from_input(
                parts.1,
            ).spec_marker() + parts.2 + parts.3 == s
        }),
{
    lemma_split_rederives_input(s);
    let parts = spec_split(s)->Some_0;
    let k = split_sign_len(s);
    let t = s.skip(k);
    if k == 1 {
        assert(parts.0 =~= seq!['-']);
        assert(Sign::spec_from_input(parts.0).spec_glyph() == parts.0);
    } else {
        assert(parts.0.len() == 0);
        assert(Sign::spec_from_input(parts.0) is Positive);
        assert(Sign::spec_from_input(parts.0).spec_glyph() =~= parts.0);
    }
    if has_marker(t) && value_unit_match(t.skip(2)) {
        assert(parts.1 == t.take(2));
        assert(parts.1.len() == 2 && parts.1[0] == '0');
        if t[1] == 'b' {
            assert(NumeralSystem::spec_from_input(parts.1) is Bin);
            assert(NumeralSystem::spec_from_input(parts.1).spec_marker() =~= parts.1);
        } else if t[1] == 'o' {
            assert(NumeralSystem::spec_from_input(parts.1) is Octal);
            assert(NumeralSystem::spec_from_input(parts.1).spec_marker() =~= parts.1);
        } else {
            assert(NumeralSystem::spec_from_input(parts.1) is Hex);
            assert(NumeralSystem::spec_from_input(parts.1).spec_marker() =~= parts.1);
        }
    } else {
        assert(parts.1.len() == 0);
        assert(NumeralSystem::spec_from_input(parts.1) is Decimal);
        assert(NumeralSystem::spec_from_input(parts.1).spec_marker() =~= parts.1);
    }
}

/// First index at or after `start` whose character is not a grammar
/// digit.
fn scan_num_end(s: &str, start: usize) -> (r: usize)
    requires
        start <= s@.len(),
    ensures
        start <= r <= s@.len(),
        num_prefix_len(s@.skip(start as int)) == r - start,
        forall|j: int| start <= j < r ==> is_num_char(#[trigger] s@[j]),
        r < s@.len() ==> !is_num_char(s@[r as int]),
{
    let len = s.unicode_len();
    let mut i: usize = start;
    while i < len && num_char(s.get_char(i))
        invariant
            len == s@.len(),
            start <= i <= len,
            forall|j: int| start <= j < i ==> is_num_char(#[trigger] s@[j]),
        decreases len - i,
    {
        i = i + 1;
    }
    proof {
        let u = s@.skip(start as int);
        assert forall|j: int| 0 <= j < i - start implies is_num_char(#[trigger] u[j]) by {
            assert(u[j] == s@[start + j]);
        }
        if i < len {
            assert(u[i - start] == s@[i as int]);
        }
        lemma_num_prefix_at(u, i - start);
    }
    i
}

/// Whether the region of `s` from `start` to the end has the shape of a
/// unit suffix.
fn check_unit_region(s: &str, start: usize) -> (r: bool)
    requires
        start <= s@.len(),
    ensures
        r == unit_suffix_ok(s@.skip(start as int)),
{
    let len = s.unicode_len();
    let ghost u = s@.skip(start as int);
    if start == len {
        proof {
            assert(u.len() == 0);
        }
        return true;
    }
    if len - start > 4 {
        return false;
    }
    let mut i: usize = start;
    while i < len
        invariant
            len == s@.len(),
            u == s@.skip(start as int),
            start <= i <= len,
            forall|j: int| start <= j < i ==> is_lower_letter(#[trigger] s@[j]),
        decreases len - i,
    {
        if !lower_letter(s.get_char(i)) {
            proof {
                assert(u[i - start] == s@[i as int]);
                assert(!is_lower_letter(u[i - start]));
            }
            return false;
        }
        i = i + 1;
    }
    proof {
        assert forall|j: int| 0 <= j < u.len() implies is_lower_letter(#[trigger] u[j]) by {
            assert(u[j] == s@[start + j]);
        }
    }
    true
}

/// The four captures of the grammar split, as owned strings; an absent
/// optional capture is `None`.
#[derive(Debug)]
pub struct InputSplit {
    pub sign: Option<String>,
    pub ns: Option<String>,
    pub value: String,
    pub unit: Option<String>,
}

/// How an [`InputSplit`] reflects the ghost-level split.
pub open spec fn split_matches(
    sp: InputSplit,
    parts: (Seq<char>, Seq<char>, Seq<char>, Seq<char>),
) -> bool {
    &&& (match sp.sign {
        Some(x) => parts.0.len() > 0 && x@ == parts.0,
        None => parts.0.len() == 0,
    })
    &&& (match sp.ns {
        Some(x) => parts.1.len() > 0 && x@ == parts.1,
        None => parts.1.len() == 0,
    })
    &&& sp.value@ == parts.2
    &&& (match sp.unit {
        Some(x) => parts.3.len() > 0 && x@ == parts.3,
        None => parts.3.len() == 0,
    })
}

/// Validates the (already normalized) input against the grammar and
/// returns the named captures.
pub fn get_input_split(normalized_input: &str) -> (r: Result<InputSplit, ParseError>)
    ensures
        match spec_split(normalized_input@) {
            Some(parts) => r matches Ok(sp) && split_matches(sp, parts),
            None => r matches Err(ParseError::InvalidFormat),
        },
{
    let ghost sv = normalized_input@;
    let len = normalized_input.unicode_len();
    let sign_present = if len > 0 {
        normalized_input.get_char(0) == '-'
    } else {
        false
    };
    let pos: usize = if sign_present {
        1
    } else {
        0
    };
    proof {
        assert(split_sign_len(sv) == pos as int);
    }
    let ghost t = sv.skip(pos as int);
    let marker_present = if pos + 2 <= len {
        normalized_input.get_char(pos) == '0' && {
            let c = normalized_input.get_char(pos + 1);
            c == 'b' || c == 'o' || c == 'x'
        }
    } else {
        false
    };
    proof {
        assert(t.len() == len - pos);
        if t.len() >= 2 {
            assert(t[0] == sv[pos as int]);
            assert(t[1] == sv[pos + 1 as int]);
        }
        assert(marker_present == has_marker(t));
    }
    if marker_present {
        let dstart = pos + 2;
        let dend = scan_num_end(normalized_input, dstart);
        let ghost u = t.skip(2);
        proof {
            assert(u =~= sv.skip(dstart as int));
        }
        if dend > dstart {
            if check_unit_region(normalized_input, dend) {
                let ghost d = num_prefix_len(u) as int;
                proof {
                    assert(d == dend - dstart);
                    assert(u.skip(d) =~= sv.skip(dend as int));
                    assert(value_unit_match(u));
                }
                let sign = if sign_present {
                    Some(normalized_input.substring_char(0, 1).to_owned())
                } else {
                    None
                };
                let ns_str = Some(normalized_input.substring_char(pos, pos + 2).to_owned());
                let value = normalized_input.substring_char(dstart, dend).to_owned();
                let unit = if dend < len {
                    Some(normalized_input.substring_char(dend, len).to_owned())
                } else {
                    None
                };
                let sp = InputSplit { sign, ns: ns_str, value, unit };
                proof {
                    assert(sv.take(pos as int) =~= sv.subrange(0, pos as int));
                    assert(t.take(2) =~= sv.subrange(pos as int, pos + 2 as int));
                    assert(u.take(d) =~= sv.subrange(dstart as int, dend as int));
                    assert(u.skip(d) =~= sv.subrange(dend as int, len as int));
                    assert(split_matches(
                        sp,
                        (sv.take(pos as int), t.take(2), u.take(d), u.skip(d)),
                    ));
                }
                return Ok(sp);
            }
        }
        proof {
            assert(num_prefix_len(u) == dend - dstart);
            assert(u.skip(num_prefix_len(u) as int) =~= sv.skip(dend as int));
            assert(!value_unit_match(u));
        }
    }
    let dend = scan_num_end(normalized_input, pos);
    if dend > pos {
        if check_unit_region(normalized_input, dend) {
            let ghost d = num_prefix_len(t) as int;
            proof {
                assert(t =~= sv.skip(pos as int));
                assert(num_prefix_len(t) == dend - pos);
                assert(t.skip(d) =~= sv.skip(dend as int));
                assert(value_unit_match(t));
            }
            let sign = if sign_present {
                Some(normalized_input.substring_char(0, 1).to_owned())
            } else {
                None
            };
            let value = normalized_input.substring_char(pos, dend).to_owned();
            let unit = if dend < len {
                Some(normalized_input.substring_char(dend, len).to_owned())
            } else {
                None
            };
            let sp = InputSplit { sign, ns: None, value, unit };
            proof {
                assert(sv.take(pos as int) =~= sv.subrange(0, pos as int));
                assert(t.take(d) =~= sv.subrange(pos as int, dend as int));
                assert(t.skip(d) =~= sv.subrange(dend as int, len as int));
                assert(split_matches(
                    sp,
                    (sv.take(pos as int), Seq::empty(), t.take(d), t.skip(d)),
                ));
            }
            return Ok(sp);
        }
    }
    proof {
        assert(num_prefix_len(t) == dend - pos);
        assert(t.skip(num_prefix_len(t) as int) =~= sv.skip(dend as int));
        assert(!value_unit_match(t));
        assert(spec_split(sv) is None);
    }
    Err(ParseError::InvalidFormat)
}

/// The canonical record produced by the decoder. Immutable; the
/// magnitude is stored unsigned and pre-unit-scaled, the unit is exposed
/// as metadata alongside it.
#[derive(Debug)]
pub struct Parsed {
    normalized_input: String,
    numeral_system: NumeralSystem,
    unit: Unit,
    sign: Sign,
    value: u64,
    value_str: String,
}

impl Parsed {
    /// The normalized token this record was decoded from.
    pub closed spec fn spec_normalized_input(self) -> Seq<char> {
        self.normalized_input@
    }

    /// The resolved numeral system.
    pub closed spec fn spec_numeral_system(self) -> NumeralSystem {
        self.numeral_system
    }

    /// The resolved unit.
    pub closed spec fn spec_unit(self) -> Unit {
        self.unit
    }

    /// The resolved sign.
    pub closed spec fn spec_sign(self) -> Sign {
        self.sign
    }

    /// The decoded magnitude.
    pub closed spec fn spec_value(self) -> u64 {
        self.value
    }

    /// The digit capture the magnitude was decoded from.
    pub closed spec fn spec_value_str(self) -> Seq<char> {
        self.value_str@
    }

    /// Internal consistency: the magnitude is the digit string read under
    /// the resolved radix, and scaling it to base units stays in 64 bits.
    pub open spec fn wf(self) -> bool {
        &&& digits_ok(self.spec_value_str(), self.spec_numeral_system().spec_radix())
        &&& self.spec_value() == digits_val(
            self.spec_value_str(),
            self.spec_numeral_system().spec_radix(),
        )
        &&& self.spec_value() * self.spec_unit().spec_scale() <= u64::MAX
    }

    /// Decodes the digit capture under the resolved radix and builds the
    /// record; rejects invalid digits and 64-bit overflow (of the raw
    /// magnitude, and of the magnitude scaled to base units).
    fn new(
        normalized_input: String,
        numeral_system: NumeralSystem,
        value_str: String,
        unit: Unit,
        sign: Sign,
    ) -> (r: Result<Parsed, ParseError>)
        ensures
            ({
                let radix = numeral_system.spec_radix();
                if !digits_ok(value_str@, radix) {
                    r matches Err(ParseError::RadixDigitError)
                } else if digits_val(value_str@, radix) > u64::MAX {
                    r matches Err(ParseError::Overflow)
                } else if digits_val(value_str@, radix) * unit.spec_scale() > u64::MAX {
                    r matches Err(ParseError::Overflow)
                } else {
                    r matches Ok(p) && p.wf() && p.spec_normalized_input() == normalized_input@
                        && p.spec_numeral_system() == numeral_system && p.spec_unit() == unit
                        && p.spec_sign() == sign && p.spec_value_str() == value_str@
                        && p.spec_value() == digits_val(value_str@, radix)
                }
            }),
    {
        let radix = numeral_system.radix();
        if !crate::text::check_digits(value_str.as_str(), radix) {
            return Err(ParseError::RadixDigitError);
        }
        let value = match crate::text::parse_digits_u64(value_str.as_str(), radix) {
            Some(v) => v,
            None => {
                return Err(ParseError::Overflow);
            },
        };
        let scale = unit.scale_u64();
        match value.checked_mul(scale) {
            Some(_) => Ok(
                Parsed { normalized_input, numeral_system, unit, sign, value, value_str },
            ),
            None => Err(ParseError::Overflow),
        }
    }

    /// Getter for the normalized input.
    pub fn normalized_input(&self) -> (r: &str)
        ensures
            r@ == self.spec_normalized_input(),
    {
        self.normalized_input.as_str()
    }

    /// Getter for the numeral system.
    pub fn numeral_system(&self) -> (r: NumeralSystem)
        ensures
            r == self.spec_numeral_system(),
    {
        self.numeral_system
    }

    /// Getter for the sign.
    pub fn sign(&self) -> (r: Sign)
        ensures
            r == self.spec_sign(),
    {
        self.sign
    }

    /// Getter for the decoded magnitude: the actual number as unsigned
    /// 64-bit value, before any unit scaling.
    pub fn value(&self) -> (r: u64)
        ensures
            r == self.spec_value(),
    {
        self.value
    }

    /// Getter kept beside [`Parsed::value`]: it returns the same decoded
    /// magnitude.
    pub fn value_str(&self) -> (r: u64)
        ensures
            r == self.spec_value(),
    {
        self.value
    }

    /// Getter for the unit.
    pub fn unit(&self) -> (r: Unit)
        ensures
            r == self.spec_unit(),
    {
        self.unit
    }
}

/// The string of an optional capture: the empty string when absent.
fn opt_capture_str(o: &Option<String>) -> (r: &str)
    ensures
        r@ == match *o {
            Some(s) => s@,
            None => Seq::<char>::empty(),
        },
{
    match o {
        Some(s) => s.as_str(),
        None => {
            proof {
                reveal_strlit("");
            }
            assert(""@ =~= Seq::<char>::empty());
            ""
        },
    }
}

/// Removes all `_` from the input, trims surrounding whitespace and
/// lowercases ASCII letters.
pub fn normalize_input(input: &str) -> (r: String)
    ensures
        r@ == normalize_seq(input@),
{
    crate::text::normalize_str(input)
}

/// Takes the raw input, normalizes it, validates it against the grammar
/// and resolves it into a [`Parsed`] record. The contract walks the same
/// stages: grammar match, unit vocabulary, digit validity under the
/// resolved radix, and the two 64-bit overflow checks.
pub fn parse_input(input: &str) -> (r: Result<Parsed, ParseError>)
    ensures
        ({
            let n = normalize_seq(input@);
            match spec_split(n) {
                None => r matches Err(ParseError::InvalidFormat),
                Some(parts) => {
                    let nsys = NumeralSystem::spec_from_input(parts.1);
                    let radix = nsys.spec_radix();
                    match Unit::spec_from_suffix(parts.3) {
                        None => r matches Err(ParseError::InvalidUnit(u)) && u@ == parts.3,
                        Some(un) => {
                            if !digits_ok(parts.2, radix) {
                                r matches Err(ParseError::RadixDigitError)
                            } else if digits_val(parts.2, radix) > u64::MAX {
                                r matches Err(ParseError::Overflow)
                            } else if digits_val(parts.2, radix) * un.spec_scale() > u64::MAX {
                                r matches Err(ParseError::Overflow)
                            } else {
                                r matches Ok(p) && p.wf() && p.spec_normalized_input() == n
                                    && p.spec_numeral_system() == nsys && p.spec_sign()
                                    == Sign::spec_from_input(parts.0) && p.spec_unit() == un
                                    && p.spec_value_str() == parts.2 && p.spec_value()
                                    == digits_val(parts.2, radix)
                            }
                        },
                    }
                },
            }
        }),
{
    let normalized_input = normalize_input(input);
    let input_split = match get_input_split(normalized_input.as_str()) {
        Ok(sp) => sp,
        Err(e) => {
            return Err(e);
        },
    };
    let numeral_system = NumeralSystem::from_input(opt_capture_str(&input_split.ns));
    let unit = match Unit::from_input(opt_capture_str(&input_split.unit)) {
        Ok(u) => u,
        Err(e) => {
            return Err(e);
        },
    };
    let sign = Sign::from_input(opt_capture_str(&input_split.sign));
    Parsed::new(normalized_input, numeral_system, input_split.value, unit, sign)
}

/// Round trip of plain decimal numerals: the decimal rendering of any
/// 64-bit value normalizes to itself, matches the grammar as a bare
/// digit string (no sign, no marker, no unit), and decodes back to the
/// same value.
pub proof fn lemma_decimal_round_trip(v: u64)
    ensures
        ({
            let s = render_digits(v as nat, 10);
            &&& normalize_seq(s) == s
            &&& spec_split(s) == Some(
                (Seq::<char>::empty(), Seq::<char>::empty(), s, Seq::<char>::empty()),
            )
            &&& digits_ok(s, 10)
            &&& digits_val(s, 10) == v as nat
        }),
{
    let s = render_digits(v as nat, 10);
    crate::text::lemma_render_digits_val(v as nat, 10);
    assert forall|i: int| 0 <= i < s.len() implies 48 <= #[trigger] (s[i] as u32) <= 57 by {
        assert(crate::text::digit_ok(s[i], 10));
    }
    assert forall|i: int| 0 <= i < s.len() implies s[i] != '_' by {
        assert(48 <= s[i] as u32 <= 57);
    }
    assert forall|i: int| 0 <= i < s.len() implies !(65 <= #[trigger] (s[i] as u32) <= 90) by {
        assert(48 <= s[i] as u32 <= 57);
    }
    assert(!crate::text::is_ws_char(s[0]));
    assert(!crate::text::is_ws_char(s.last()));
    crate::text::lemma_normalize_plain(s);
    assert(s[0] != '-');
    assert(split_sign_len(s) == 0);
    assert(s.take(0) =~= Seq::<char>::empty());
    assert(s.skip(0) =~= s);
    if s.len() >= 2 {
        assert(s[1] != 'b' && s[1] != 'o' && s[1] != 'x');
    }
    assert(!has_marker(s));
    lemma_num_prefix_at(s, s.len() as int);
    assert(s.skip(s.len() as int) =~= Seq::<char>::empty());
    assert(unit_suffix_ok(Seq::<char>::empty()));
    assert(value_unit_match(s));
    assert(s.take(s.len() as int) =~= s);
    assert(spec_split(s) == Some(
        (Seq::<char>::empty(), Seq::<char>::empty(), s, Seq::<char>::empty()),
    ));
}

} // verus!
