//! Fraction alignment: pads independently formatted decimal fraction
//! strings so that sign, decimal point and fraction digits line up when
//! the strings are printed stacked, after stripping insignificant
//! trailing zeroes.

use vstd::prelude::*;
use crate::text::{char_repeat, push_char, push_repeat};

verus! {

/// Decimal digit.
pub open spec fn is_dec_digit(c: char) -> bool {
    48 <= c as u32 && c as u32 <= 57
}

/// Length of the longest decimal-digit prefix of `s`.
pub open spec fn dec_prefix_len(s: Seq<char>) -> nat
    decreases s.len(),
{
    if s.len() == 0 || !is_dec_digit(s[0]) {
        0
    } else {
        1 + dec_prefix_len(s.drop_first())
    }
}

proof fn lemma_dec_prefix_at(s: Seq<char>, i: int)
    requires
        0 <= i <= s.len(),
        forall|j: int| 0 <= j < i ==> is_dec_digit(#[trigger] s[j]),
        i == s.len() || !is_dec_digit(s[i]),
    ensures
        dec_prefix_len(s) == i,
    decreases s.len(),
{
    if i == 0 {
    } else {
        assert(is_dec_digit(s[0]));
        lemma_dec_prefix_at(s.drop_first(), i - 1);
    }
}

/// The structure of a well-formed formatted fraction string: an optional
/// `-`, one or more whole-part digits, and optionally `.` followed by
/// one or more fraction digits. `None` when the string has another
/// shape.
pub open spec fn fraction_parts(s: Seq<char>) -> Option<(bool, Seq<char>, Option<Seq<char>>)> {
    let sg = s.len() > 0 && s[0] == '-';
    let t = s.skip(if sg {
        1int
    } else {
        0int
    });
    let w = dec_prefix_len(t) as int;
    if w < 1 {
        None
    } else if w == t.len() {
        Some((sg, t, None))
    } else if t[w] == '.' && t.len() > w + 1 && dec_prefix_len(t.skip(w + 1)) == t.len() - (w + 1) {
        Some((sg, t.take(w), Some(t.skip(w + 1))))
    } else {
        None
    }
}

/// Number of zeroes at the end of a fraction part.
pub open spec fn trailing_zeroes(s: Seq<char>) -> nat
    decreases s.len(),
{
    if s.len() == 0 || s.last() != '0' {
        0
    } else {
        1 + trailing_zeroes(s.drop_last())
    }
}

/// The fraction part with its trailing zeroes removed.
pub open spec fn strip_trailing_zeroes(s: Seq<char>) -> Seq<char> {
    s.take(s.len() - trailing_zeroes(s))
}

/// Trailing-zero stripping lifted to an optional fraction part: an
/// all-zero (or absent) part collapses to `None`.
pub open spec fn norm_frac(fp: Option<Seq<char>>) -> Option<Seq<char>> {
    match fp {
        None => None,
        Some(x) => {
            let t = strip_trailing_zeroes(x);
            if t.len() == 0 {
                None
            } else {
                Some(t)
            }
        },
    }
}

/// Length of an optional fraction part.
pub open spec fn frac_len(fp: Option<Seq<char>>) -> nat {
    match fp {
        None => 0,
        Some(x) => x.len(),
    }
}

/// The first output of the alignment, given the parts of both inputs
/// (the second output is the same construction with the parts swapped):
/// a space when only the other string is signed, the sign, the whole
/// part, the normalized fraction part after a `.`, a space for the
/// missing `.` when only the other string has one, and right padding up
/// to the other string's fraction length.
pub open spec fn aligned_first(
    p1: (bool, Seq<char>, Option<Seq<char>>),
    p2: (bool, Seq<char>, Option<Seq<char>>),
) -> Seq<char> {
    let f1 = norm_frac(p1.2);
    let f2 = norm_frac(p2.2);
    let l1 = frac_len(f1);
    let l2 = frac_len(f2);
    (if !p1.0 && p2.0 {
        seq![' ']
    } else {
        Seq::empty()
    }) + (if p1.0 {
        seq!['-']
    } else {
        Seq::empty()
    }) + p1.1 + (match f1 {
        Some(f) => seq!['.'] + f,
        None => Seq::empty(),
    }) + (if l1 == 0 && l2 > 0 {
        seq![' ']
    } else {
        Seq::empty()
    }) + (if l2 > l1 {
        char_repeat(' ', (l2 - l1) as nat)
    } else {
        Seq::empty()
    })
}

/// The parts of a formatted fraction string.
pub struct FractionalNumberParts {
    /// Whether the string carries a `-` sign.
    pub has_sign: bool,
    /// The whole-part digits.
    pub whole_part: String,
    /// The fraction digits, when the string has a `.`.
    pub fractional_part: Option<String>,
}

/// Exec mirror of [`is_dec_digit`].
fn dec_digit(c: char) -> (r: bool)
    ensures
        r == is_dec_digit(c),
{
    let x = c as u32;
    48 <= x && x <= 57
}

/// First index at or after `start` whose character is not a decimal
/// digit.
fn scan_dec_end(s: &str, start: usize) -> (r: usize)
    requires
        start <= s@.len(),
    ensures
        start <= r <= s@.len(),
        dec_prefix_len(s@.skip(start as int)) == r - start,
        forall|j: int| start <= j < r ==> is_dec_digit(#[trigger] s@[j]),
        r < s@.len() ==> !is_dec_digit(s@[r as int]),
{
    let len = s.unicode_len();
    let mut i: usize = start;
    while i < len && dec_digit(s.get_char(i))
        invariant
            len == s@.len(),
            start <= i <= len,
            forall|j: int| start <= j < i ==> is_dec_digit(#[trigger] s@[j]),
        decreases len - i,
    {
        i = i + 1;
    }
    proof {
        let u = s@.skip(start as int);
        assert forall|j: int| 0 <= j < i - start implies is_dec_digit(#[trigger] u[j]) by {
            assert(u[j] == s@[start + j]);
        }
        if i < len {
            assert(u[i - start] == s@[i as int]);
        }
        lemma_dec_prefix_at(u, i - start);
    }
    i
}

/// Splits a formatted fraction string into its parts. Only well-formed
/// strings are expected here.
pub fn get_fractional_number_parts(formatted_fractional_num: &str) -> (r: FractionalNumberParts)
    requires
        fraction_parts(formatted_fractional_num@) is Some,
    ensures
        ({
            let p = fraction_parts(formatted_fractional_num@)->Some_0;
            &&& r.has_sign == p.0
            &&& r.whole_part@ == p.1
            &&& match r.fractional_part {
                Some(x) => p.2 matches Some(f) && x@ == f,
                None => p.2 is None,
            }
        }),
{
    let ghost sv = formatted_fractional_num@;
    let len = formatted_fractional_num.unicode_len();
    let has_sign = if len > 0 {
        formatted_fractional_num.get_char(0) == '-'
    } else {
        false
    };
    let start: usize = if has_sign {
        1
    } else {
        0
    };
    let ghost t = sv.skip(start as int);
    let wend = scan_dec_end(formatted_fractional_num, start);
    proof {
        assert(dec_prefix_len(t) == wend - start);
    }
    let whole_part = formatted_fractional_num.substring_char(start, wend).to_owned();
    if wend == len {
        proof {
            assert(whole_part@ =~= t);
            assert(t.take(dec_prefix_len(t) as int) =~= t);
        }
        FractionalNumberParts { has_sign, whole_part, fractional_part: None }
    } else {
        let fractional_part = Some(
            formatted_fractional_num.substring_char(wend + 1, len).to_owned(),
        );
        proof {
            assert(whole_part@ =~= t.take(dec_prefix_len(t) as int));
            assert(sv.subrange(wend + 1 as int, len as int) =~= t.skip(
                dec_prefix_len(t) + 1 as int,
            ));
        }
        FractionalNumberParts { has_sign, whole_part, fractional_part }
    }
}

proof fn lemma_trailing_zeroes_at(s: Seq<char>, e: int)
    requires
        0 <= e <= s.len(),
        forall|j: int| e <= j < s.len() ==> s[j] == '0',
        e == 0 || s[e - 1] != '0',
    ensures
        trailing_zeroes(s) == s.len() - e,
    decreases s.len(),
{
    if e == s.len() {
    } else {
        assert(s.last() == '0');
        lemma_trailing_zeroes_at(s.drop_last(), e);
    }
}

/// Counts the insignificant trailing zeroes of a fraction part (in
/// `123000`, the fraction part of `0.123000`, there are three).
pub fn fractional_part_count_zeroes(fractional_part: &str) -> (r: usize)
    ensures
        r as nat == trailing_zeroes(fractional_part@),
{
    let ghost sv = fractional_part@;
    let len = fractional_part.unicode_len();
    let mut e: usize = len;
    while e > 0 && fractional_part.get_char(e - 1) == '0'
        invariant
            len == sv.len(),
            sv == fractional_part@,
            0 <= e <= len,
            forall|j: int| e <= j < len ==> sv[j] == '0',
        decreases e,
    {
        e = e - 1;
    }
    proof {
        lemma_trailing_zeroes_at(sv, e as int);
    }
    len - e
}

/// Removes the trailing zeroes of a fraction part (`123000` becomes
/// `123`).
pub fn fractional_part_remove_zeroes(fractional_part: &str) -> (r: String)
    ensures
        r@ == strip_trailing_zeroes(fractional_part@),
{
    let len = fractional_part.unicode_len();
    let zeroes = fractional_part_count_zeroes(fractional_part);
    proof {
        lemma_trailing_zeroes_le_len(fractional_part@);
    }
    let slice = fractional_part.substring_char(0, len - zeroes);
    proof {
        assert(slice@ =~= strip_trailing_zeroes(fractional_part@));
    }
    slice.to_owned()
}

proof fn lemma_trailing_zeroes_le_len(s: Seq<char>)
    ensures
        trailing_zeroes(s) <= s.len(),
    decreases s.len(),
{
    if s.len() == 0 || s.last() != '0' {
    } else {
        lemma_trailing_zeroes_le_len(s.drop_last());
    }
}

/// Strips the trailing zeroes of an optional fraction part; a part that
/// is empty afterwards becomes `None`.
pub fn normalized_fractional_part_or_none(fp: Option<String>) -> (r: Option<String>)
    ensures
        ({
            let nf = norm_frac(
                match fp {
                    Some(x) => Some(x@),
                    None => None,
                },
            );
            match r {
                Some(y) => nf matches Some(t) && y@ == t,
                None => nf is None,
            }
        }),
{
    match fp {
        None => None,
        Some(x) => {
            let stripped = fractional_part_remove_zeroes(x.as_str());
            if stripped.as_str().unicode_len() == 0 {
                None
            } else {
                Some(stripped)
            }
        },
    }
}

/// Aligns two formatted fraction strings at their sign and `.` columns
/// by inserting spaces, after stripping insignificant trailing zeroes.
/// Whole parts are left to the caller's right-alignment; only sign,
/// point and fraction columns are padded here.
pub fn fmt_align_fraction_strings(fraction1: &str, fraction2: &str) -> (r: (String, String))
    requires
        fraction_parts(fraction1@) is Some,
        fraction_parts(fraction2@) is Some,
    ensures
        r.0@ == aligned_first(
            fraction_parts(fraction1@)->Some_0,
            fraction_parts(fraction2@)->Some_0,
        ),
        r.1@ == aligned_first(
            fraction_parts(fraction2@)->Some_0,
            fraction_parts(fraction1@)->Some_0,
        ),
{
    let ghost p1 = fraction_parts(fraction1@)->Some_0;
    let ghost p2 = fraction_parts(fraction2@)->Some_0;
    let parts_frac_1 = get_fractional_number_parts(fraction1);
    let parts_frac_2 = get_fractional_number_parts(fraction2);
    let f1_has_sign = parts_frac_1.has_sign;
    let f2_has_sign = parts_frac_2.has_sign;
    let f1_whole_part = parts_frac_1.whole_part;
    let f2_whole_part = parts_frac_2.whole_part;
    let f1_fractional_part = normalized_fractional_part_or_none(parts_frac_1.fractional_part);
    let f2_fractional_part = normalized_fractional_part_or_none(parts_frac_2.fractional_part);
    let ghost f1 = norm_frac(p1.2);
    let ghost f2 = norm_frac(p2.2);

    let mut first = String::new();
    let mut second = String::new();

    // a space for the sign column when only the other string is signed
    if f1_has_sign && !f2_has_sign {
        push_char(&mut second, ' ');
    } else if !f1_has_sign && f2_has_sign {
        push_char(&mut first, ' ');
    }
    let ghost first_a = first@;
    let ghost second_a = second@;

    // the sign itself
    if f1_has_sign {
        push_char(&mut first, '-');
    }
    if f2_has_sign {
        push_char(&mut second, '-');
    }
    let ghost first_b = first@;
    let ghost second_b = second@;

    // the whole part
    first.append(f1_whole_part.as_str());
    second.append(f2_whole_part.as_str());
    let ghost first_c = first@;
    let ghost second_c = second@;

    // the normalized fraction part
    match &f1_fractional_part {
        Some(val) => {
            push_char(&mut first, '.');
            first.append(val.as_str());
        },
        None => {},
    }
    match &f2_fractional_part {
        Some(val) => {
            push_char(&mut second, '.');
            second.append(val.as_str());
        },
        None => {},
    }
    let ghost first_d = first@;
    let ghost second_d = second@;

    let f1_fractional_len = match &f1_fractional_part {
        Some(x) => x.as_str().unicode_len(),
        None => 0,
    };
    let f2_fractional_len = match &f2_fractional_part {
        Some(x) => x.as_str().unicode_len(),
        None => 0,
    };
    proof {
        assert(f1_fractional_len == frac_len(f1));
        assert(f2_fractional_len == frac_len(f2));
    }

    // a space for the decimal point when only the other string has one
    if f1_fractional_len == 0 && f2_fractional_len > 0 {
        push_char(&mut first, ' ');
    } else if f1_fractional_len > 0 && f2_fractional_len == 0 {
        push_char(&mut second, ' ');
    }
    let ghost first_e = first@;
    let ghost second_e = second@;

    // right padding so both fraction parts end at the same column
    if f1_fractional_len > f2_fractional_len {
        push_repeat(&mut second, ' ', f1_fractional_len - f2_fractional_len);
    } else if f2_fractional_len > f1_fractional_len {
        push_repeat(&mut first, ' ', f2_fractional_len - f1_fractional_len);
    }

    proof {
        assert(first@ =~= aligned_first(p1, p2));
        assert(second@ =~= aligned_first(p2, p1));
    }
    (first, second)
}

} // verus!
