//! Character classes and string helpers shared by the input decoders and
//! the renderers: ASCII normalization (trimming, underscore removal,
//! lowercasing) and digit handling for the four numeral systems.

use vstd::prelude::*;

verus! {

/// ASCII whitespace recognized when trimming input.
pub open spec fn is_ws_char(c: char) -> bool {
    c == ' ' || c == '\t' || c == '\n' || c == '\r'
}

/// The permissive digit class of the input grammar: any character that can
/// be a digit in one of the four numeral systems (`0-9` and `a-f`).
pub open spec fn is_num_char(c: char) -> bool {
    (48 <= c as u32 && c as u32 <= 57) || (97 <= c as u32 && c as u32 <= 102)
}

/// Lowercase ASCII letter, the class of unit-suffix characters.
pub open spec fn is_lower_letter(c: char) -> bool {
    97 <= c as u32 && c as u32 <= 122
}

/// ASCII lowercasing of a single character; anything but `A-Z` is kept.
pub open spec fn lower_char(c: char) -> char {
    if 65 <= c as u32 && c as u32 <= 90 {
        ((c as u32 + 32) as u8) as char
    } else {
        c
    }
}

/// Exec mirror of [`is_ws_char`].
pub fn ws_char(c: char) -> (r: bool)
    ensures
        r == is_ws_char(c),
{
    c == ' ' || c == '\t' || c == '\n' || c == '\r'
}

/// Exec mirror of [`is_num_char`].
pub fn num_char(c: char) -> (r: bool)
    ensures
        r == is_num_char(c),
{
    let x = c as u32;
    (48 <= x && x <= 57) || (97 <= x && x <= 102)
}

/// Exec mirror of [`is_lower_letter`].
pub fn lower_letter(c: char) -> (r: bool)
    ensures
        r == is_lower_letter(c),
{
    let x = c as u32;
    97 <= x && x <= 122
}

/// Exec mirror of [`lower_char`].
pub fn to_lower_char(c: char) -> (r: char)
    ensures
        r == lower_char(c),
{
    let x = c as u32;
    if 65 <= x && x <= 90 {
        ((x + 32) as u8) as char
    } else {
        c
    }
}

/// Relies on `String::push`: appends exactly one character at the end.
#[verifier::external_body]
pub fn push_char(s: &mut String, c: char)
    ensures
        final(s)@ == old(s)@.push(c),
{
    s.push(c);
}

/// Number of whitespace characters at the front of `s`.
pub open spec fn leading_ws_count(s: Seq<char>) -> nat
    decreases s.len(),
{
    if s.len() == 0 || !is_ws_char(s[0]) {
        0
    } else {
        1 + leading_ws_count(s.drop_first())
    }
}

/// Number of whitespace characters at the back of `s`.
pub open spec fn trailing_ws_count(s: Seq<char>) -> nat
    decreases s.len(),
{
    if s.len() == 0 || !is_ws_char(s.last()) {
        0
    } else {
        1 + trailing_ws_count(s.drop_last())
    }
}

/// `s` with surrounding whitespace removed.
pub open spec fn trim_seq(s: Seq<char>) -> Seq<char> {
    if leading_ws_count(s) == s.len() {
        Seq::empty()
    } else {
        s.subrange(leading_ws_count(s) as int, s.len() - trailing_ws_count(s))
    }
}

/// `s` with every underscore removed.
pub open spec fn strip_underscores(s: Seq<char>) -> Seq<char>
    decreases s.len(),
{
    if s.len() == 0 {
        Seq::empty()
    } else if s[0] == '_' {
        strip_underscores(s.drop_first())
    } else {
        seq![s[0]] + strip_underscores(s.drop_first())
    }
}

/// Pointwise ASCII lowercasing.
pub open spec fn lower_seq(s: Seq<char>) -> Seq<char> {
    Seq::new(s.len(), |i: int| lower_char(s[i]))
}

/// The normalization every decoder applies before matching the grammar:
/// trim surrounding whitespace, drop all underscores, lowercase.
pub open spec fn normalize_seq(s: Seq<char>) -> Seq<char> {
    lower_seq(strip_underscores(trim_seq(s)))
}

proof fn lemma_leading_ws_at(s: Seq<char>, i: int)
    requires
        0 <= i <= s.len(),
        forall|j: int| 0 <= j < i ==> is_ws_char(s[j]),
        i == s.len() || !is_ws_char(s[i]),
    ensures
        leading_ws_count(s) == i,
    decreases s.len(),
{
    if i == 0 {
    } else {
        assert(is_ws_char(s[0]));
        lemma_leading_ws_at(s.drop_first(), i - 1);
    }
}

proof fn lemma_trailing_ws_at(s: Seq<char>, e: int)
    requires
        0 <= e <= s.len(),
        forall|j: int| e <= j < s.len() ==> is_ws_char(s[j]),
        e == 0 || !is_ws_char(s[e - 1]),
    ensures
        trailing_ws_count(s) == s.len() - e,
    decreases s.len(),
{
    if e == s.len() {
    } else {
        assert(is_ws_char(s.last()));
        lemma_trailing_ws_at(s.drop_last(), e);
    }
}

proof fn lemma_strip_distributes(a: Seq<char>, b: Seq<char>)
    ensures
        strip_underscores(a + b) == strip_underscores(a) + strip_underscores(b),
    decreases a.len(),
{
    if a.len() == 0 {
        assert(a + b =~= b);
        assert(Seq::empty() + strip_underscores(b) =~= strip_underscores(b));
    } else {
        assert((a + b).drop_first() =~= a.drop_first() + b);
        lemma_strip_distributes(a.drop_first(), b);
        if a[0] == '_' {
        } else {
            assert(seq![a[0]] + (strip_underscores(a.drop_first()) + strip_underscores(b)) =~= (
            seq![a[0]] + strip_underscores(a.drop_first())) + strip_underscores(b));
        }
    }
}

proof fn lemma_lower_distributes(a: Seq<char>, b: Seq<char>)
    ensures
        lower_seq(a + b) == lower_seq(a) + lower_seq(b),
{
    assert(lower_seq(a + b) =~= lower_seq(a) + lower_seq(b));
}

/// A sequence without underscores, uppercase letters or surrounding
/// whitespace normalizes to itself.
pub proof fn lemma_normalize_plain(s: Seq<char>)
    requires
        forall|i: int| 0 <= i < s.len() ==> s[i] != '_',
        forall|i: int| 0 <= i < s.len() ==> !(65 <= #[trigger] (s[i] as u32) <= 90),
        s.len() > 0 ==> !is_ws_char(s[0]),
        s.len() > 0 ==> !is_ws_char(s.last()),
    ensures
        normalize_seq(s) == s,
{
    if s.len() == 0 {
        assert(trim_seq(s) =~= s);
        lemma_strip_plain(s);
        assert(lower_seq(s) =~= s);
    } else {
        lemma_leading_ws_at(s, 0);
        lemma_trailing_ws_at(s, s.len() as int);
        assert(trim_seq(s) =~= s);
        lemma_strip_plain(s);
        assert(lower_seq(s) =~= s);
    }
}

proof fn lemma_strip_singleton(c: char)
    ensures
        strip_underscores(seq![c]) == if c == '_' {
            Seq::<char>::empty()
        } else {
            seq![c]
        },
{
    assert(seq![c].drop_first() =~= Seq::<char>::empty());
    assert(strip_underscores(Seq::<char>::empty()) =~= Seq::<char>::empty());
    if c != '_' {
        assert(seq![c] + Seq::<char>::empty() =~= seq![c]);
    }
}

proof fn lemma_strip_plain(s: Seq<char>)
    requires
        forall|i: int| 0 <= i < s.len() ==> s[i] != '_',
    ensures
        strip_underscores(s) == s,
    decreases s.len(),
{
    if s.len() == 0 {
    } else {
        lemma_strip_plain(s.drop_first());
        assert(seq![s[0]] + s.drop_first() =~= s);
    }
}

/// Normalizes an input token: trims surrounding ASCII whitespace, removes
/// every `_`, and lowercases ASCII letters.
pub fn normalize_str(input: &str) -> (r: String)
    ensures
        r@ == normalize_seq(input@),
{
    let ghost s = input@;
    let len = input.unicode_len();
    let mut start: usize = 0;
    while start < len && ws_char(input.get_char(start))
        invariant
            len == s.len(),
            s == input@,
            0 <= start <= len,
            forall|j: int| 0 <= j < start ==> is_ws_char(s[j]),
        decreases len - start,
    {
        start = start + 1;
    }
    let mut out = String::new();
    if start == len {
        proof {
            lemma_leading_ws_at(s, len as int);
            assert(out@ =~= normalize_seq(s));
        }
        return out;
    }
    proof {
        lemma_leading_ws_at(s, start as int);
    }
    let mut end: usize = len;
    while end > start && ws_char(input.get_char(end - 1))
        invariant
            len == s.len(),
            s == input@,
            0 <= start <= end <= len,
            start < len,
            !is_ws_char(s[start as int]),
            forall|j: int| end <= j < len ==> is_ws_char(s[j]),
        decreases end,
    {
        end = end - 1;
    }
    assert(end > start);
    proof {
        lemma_trailing_ws_at(s, end as int);
        assert(trim_seq(s) == s.subrange(start as int, end as int));
    }
    let mut i: usize = start;
    while i < end
        invariant
            len == s.len(),
            s == input@,
            0 <= start <= i <= end <= len,
            out@ == lower_seq(strip_underscores(s.subrange(start as int, i as int))),
        decreases end - i,
    {
        let c = input.get_char(i);
        let ghost pre = s.subrange(start as int, i as int);
        let ghost post = s.subrange(start as int, i + 1 as int);
        proof {
            assert(post =~= pre + seq![s[i as int]]);
            lemma_strip_distributes(pre, seq![s[i as int]]);
            lemma_strip_singleton(s[i as int]);
            if s[i as int] == '_' {
                assert(strip_underscores(post) =~= strip_underscores(pre));
            } else {
                lemma_lower_distributes(strip_underscores(pre), seq![s[i as int]]);
                assert(lower_seq(seq![s[i as int]]) =~= seq![lower_char(s[i as int])]);
            }
        }
        if c != '_' {
            let lc = to_lower_char(c);
            push_char(&mut out, lc);
            proof {
                assert(out@ =~= lower_seq(strip_underscores(pre)) + seq![lower_char(
                    s[i as int],
                )]);
                assert(out@ =~= lower_seq(strip_underscores(post)));
            }
        }
        i = i + 1;
    }
    out
}

/// Value of one digit character (`'0'`..`'9'` and `'a'`..`'f'`).
pub open spec fn digit_val(c: char) -> nat {
    if 48 <= c as u32 && c as u32 <= 57 {
        (c as u32 - 48) as nat
    } else if 97 <= c as u32 && c as u32 <= 102 {
        (c as u32 - 87) as nat
    } else {
        0
    }
}

/// Whether `c` is a valid digit under `radix`.
pub open spec fn digit_ok(c: char, radix: nat) -> bool {
    is_num_char(c) && digit_val(c) < radix
}

/// Whether every character of `s` is a valid digit under `radix`.
pub open spec fn digits_ok(s: Seq<char>, radix: nat) -> bool {
    forall|i: int| 0 <= i < s.len() ==> digit_ok(#[trigger] s[i], radix)
}

/// The unsigned value of the digit string `s` read under `radix`.
pub open spec fn digits_val(s: Seq<char>, radix: nat) -> nat
    decreases s.len(),
{
    if s.len() == 0 {
        0
    } else {
        digits_val(s.drop_last(), radix) * radix + digit_val(s.last())
    }
}

/// Exec mirror of [`digit_val`], restricted to real digit characters.
pub fn digit_value(c: char) -> (d: u32)
    requires
        is_num_char(c),
    ensures
        d == digit_val(c),
        d <= 15,
{
    let x = c as u32;
    if x <= 57 {
        x - 48
    } else {
        x - 87
    }
}

/// A prefix never exceeds the value of the whole digit string.
proof fn lemma_digits_val_prefix_le(s: Seq<char>, i: int, radix: nat)
    requires
        0 <= i <= s.len(),
        radix >= 1,
    ensures
        digits_val(s.take(i), radix) <= digits_val(s, radix),
    decreases s.len(),
{
    if i == s.len() {
        assert(s.take(i) =~= s);
    } else {
        assert(s.take(i) =~= s.drop_last().take(i));
        lemma_digits_val_prefix_le(s.drop_last(), i, radix);
        assert(digits_val(s.drop_last(), radix) * radix >= digits_val(s.drop_last(), radix))
            by (nonlinear_arith)
            requires radix >= 1;
    }
}

/// Checks that every character of `digits` is a valid digit under `radix`.
pub fn check_digits(digits: &str, radix: u32) -> (r: bool)
    ensures
        r == digits_ok(digits@, radix as nat),
{
    let len = digits.unicode_len();
    let mut i: usize = 0;
    while i < len
        invariant
            len == digits@.len(),
            0 <= i <= len,
            forall|j: int| 0 <= j < i ==> digit_ok(#[trigger] digits@[j], radix as nat),
        decreases len - i,
    {
        let c = digits.get_char(i);
        if !num_char(c) {
            return false;
        }
        if digit_value(c) >= radix {
            return false;
        }
        i = i + 1;
    }
    true
}

/// Reads the digit string under `radix` into a `u64`; `None` means the
/// value does not fit in 64 bits.
pub fn parse_digits_u64(digits: &str, radix: u32) -> (r: Option<u64>)
    requires
        2 <= radix <= 16,
        digits_ok(digits@, radix as nat),
    ensures
        match r {
            Some(v) => v == digits_val(digits@, radix as nat),
            None => digits_val(digits@, radix as nat) > u64::MAX,
        },
{
    let ghost s = digits@;
    let len = digits.unicode_len();
    let mut acc: u64 = 0;
    let mut i: usize = 0;
    while i < len
        invariant
            len == s.len(),
            s == digits@,
            2 <= radix <= 16,
            digits_ok(s, radix as nat),
            0 <= i <= len,
            acc == digits_val(s.take(i as int), radix as nat),
        decreases len - i,
    {
        let c = digits.get_char(i);
        let d = digit_value(c);
        proof {
            assert(s.take(i + 1 as int).drop_last() =~= s.take(i as int));
            assert(s.take(i + 1 as int).last() == s[i as int]);
        }
        let next = match acc.checked_mul(radix as u64) {
            Some(m) => m.checked_add(d as u64),
            None => None,
        };
        match next {
            Some(v) => {
                acc = v;
            },
            None => {
                proof {
                    lemma_digits_val_prefix_le(s, i + 1, radix as nat);
                }
                return None;
            },
        }
        i = i + 1;
    }
    proof {
        assert(s.take(len as int) =~= s);
    }
    Some(acc)
}

/// Reads the digit string under `radix` into a `usize`; `None` means the
/// value does not fit in the machine word.
pub fn parse_digits_usize(digits: &str, radix: u32) -> (r: Option<usize>)
    requires
        2 <= radix <= 16,
        digits_ok(digits@, radix as nat),
    ensures
        match r {
            Some(v) => v == digits_val(digits@, radix as nat),
            None => digits_val(digits@, radix as nat) > usize::MAX,
        },
{
    let ghost s = digits@;
    let len = digits.unicode_len();
    let mut acc: usize = 0;
    let mut i: usize = 0;
    while i < len
        invariant
            len == s.len(),
            s == digits@,
            2 <= radix <= 16,
            digits_ok(s, radix as nat),
            0 <= i <= len,
            acc == digits_val(s.take(i as int), radix as nat),
        decreases len - i,
    {
        let c = digits.get_char(i);
        let d = digit_value(c);
        proof {
            assert(s.take(i + 1 as int).drop_last() =~= s.take(i as int));
            assert(s.take(i + 1 as int).last() == s[i as int]);
        }
        let next = match acc.checked_mul(radix as usize) {
            Some(m) => m.checked_add(d as usize),
            None => None,
        };
        match next {
            Some(v) => {
                acc = v;
            },
            None => {
                proof {
                    lemma_digits_val_prefix_le(s, i + 1, radix as nat);
                }
                return None;
            },
        }
        i = i + 1;
    }
    proof {
        assert(s.take(len as int) =~= s);
    }
    Some(acc)
}

/// The digit character for value `d` (`0-9` then `a-f`).
pub open spec fn char_of_digit(d: nat) -> char {
    if d < 10 {
        ((48 + d) as u8) as char
    } else {
        ((87 + d) as u8) as char
    }
}

/// Exec mirror of [`char_of_digit`].
pub fn digit_to_char(d: u32) -> (r: char)
    requires
        d <= 15,
    ensures
        r == char_of_digit(d as nat),
{
    if d < 10 {
        ((48 + d) as u8) as char
    } else {
        ((87 + d) as u8) as char
    }
}

/// The digit string of `n` under `radix`, without leading zeroes (`0`
/// itself is rendered as one digit).
pub open spec fn render_digits(n: nat, radix: nat) -> Seq<char>
    decreases n,
    via render_digits_decreases
{
    if radix < 2 {
        Seq::empty()
    } else if n < radix {
        seq![char_of_digit(n)]
    } else {
        render_digits(n / radix, radix).push(char_of_digit(n % radix))
    }
}

#[via_fn]
proof fn render_digits_decreases(n: nat, radix: nat) {
    if radix >= 2 && n >= radix {
        vstd::arithmetic::div_mod::lemma_div_decreases(n as int, radix as int);
    }
}

/// The digit characters round-trip through [`digit_val`].
pub proof fn lemma_char_of_digit_val(d: nat)
    requires
        d <= 15,
    ensures
        is_num_char(char_of_digit(d)),
        digit_val(char_of_digit(d)) == d,
{
}

/// Rendering then reading back is the identity, and rendering produces
/// only valid digits.
pub proof fn lemma_render_digits_val(n: nat, radix: nat)
    requires
        2 <= radix <= 16,
    ensures
        render_digits(n, radix).len() >= 1,
        digits_ok(render_digits(n, radix), radix),
        digits_val(render_digits(n, radix), radix) == n,
    decreases n,
{
    if n < radix {
        let s = render_digits(n, radix);
        lemma_char_of_digit_val(n);
        assert(s.len() == 1);
        assert(s.last() == char_of_digit(n));
        assert(s.drop_last() =~= Seq::<char>::empty());
        assert(digits_val(Seq::<char>::empty(), radix) == 0);
        assert(digits_val(s, radix) == digits_val(s.drop_last(), radix) * radix + digit_val(
            s.last(),
        ));
        assert(digits_val(s, radix) == digit_val(char_of_digit(n)));
    } else {
        lemma_char_of_digit_val(n % radix);
        vstd::arithmetic::div_mod::lemma_div_decreases(n as int, radix as int);
        lemma_render_digits_val(n / radix, radix);
        let p = render_digits(n / radix, radix);
        let s = render_digits(n, radix);
        assert(s.drop_last() =~= p);
        assert(s.last() == char_of_digit(n % radix));
        assert(digits_val(s, radix) == (n / radix) * radix + (n % radix));
        assert((n / radix) * radix + (n % radix) == n) by (nonlinear_arith)
            requires radix >= 2;
        assert forall|i: int| 0 <= i < s.len() implies digit_ok(#[trigger] s[i], radix) by {
            if i < p.len() {
                assert(s[i] == p[i]);
            }
        }
    }
}

/// A value below `radix^k` renders to at most `k` digits.
pub proof fn lemma_render_digits_len(n: nat, radix: nat, k: nat)
    requires
        2 <= radix <= 16,
        k >= 1,
        n < vstd::arithmetic::power::pow(radix as int, k),
    ensures
        render_digits(n, radix).len() <= k,
    decreases n,
{
    if n < radix {
    } else {
        assert(vstd::arithmetic::power::pow(radix as int, k) == radix * vstd::arithmetic::power::pow(
            radix as int,
            (k - 1) as nat,
        )) by {
            vstd::arithmetic::power::lemma_pow1(radix as int);
            vstd::arithmetic::power::lemma_pow_adds(radix as int, 1, (k - 1) as nat);
        }
        let p = vstd::arithmetic::power::pow(radix as int, (k - 1) as nat);
        assert(p >= 1) by {
            vstd::arithmetic::power::lemma_pow_positive(radix as int, (k - 1) as nat);
        }
        assert(n / radix < p) by (nonlinear_arith)
            requires radix >= 2, p >= 1, n < radix * p, n >= 0;
        assert(k - 1 >= 1) by {
            if k == 1 {
                assert(vstd::arithmetic::power::pow(radix as int, 1) == radix) by {
                    vstd::arithmetic::power::lemma_pow1(radix as int);
                }
            }
        }
        vstd::arithmetic::div_mod::lemma_div_decreases(n as int, radix as int);
        lemma_render_digits_len(n / radix, radix, (k - 1) as nat);
    }
}

/// `n` copies of the character `c`.
pub open spec fn char_repeat(c: char, n: nat) -> Seq<char> {
    Seq::new(n, |i: int| c)
}

/// Appends `n` copies of `c` to `s`.
pub fn push_repeat(s: &mut String, c: char, n: usize)
    ensures
        final(s)@ == old(s)@ + char_repeat(c, n as nat),
{
    let mut i: usize = 0;
    while i < n
        invariant
            0 <= i <= n,
            s@ == old(s)@ + char_repeat(c, i as nat),
        decreases n - i,
    {
        push_char(s, c);
        proof {
            assert(old(s)@ + char_repeat(c, i as nat + 1) =~= (old(s)@ + char_repeat(
                c,
                i as nat,
            )).push(c));
        }
        i = i + 1;
    }
    proof {
        assert(s@ =~= old(s)@ + char_repeat(c, n as nat));
    }
}

/// Renders `v` under `radix` without padding.
pub fn u64_to_radix_string(v: u64, radix: u32) -> (r: String)
    requires
        2 <= radix <= 16,
    ensures
        r@ == render_digits(v as nat, radix as nat),
{
    let mut out = String::new();
    if v == 0 {
        push_char(&mut out, '0');
        proof {
            assert(char_of_digit(0) == '0');
            assert(out@ =~= render_digits(0, radix as nat));
        }
        return out;
    }
    let mut digs: Vec<char> = Vec::new();
    let mut n: u64 = v;
    while n > 0
        invariant
            2 <= radix <= 16,
            n > 0 ==> render_digits(v as nat, radix as nat) == render_digits(n as nat, radix as nat)
                + digs@.reverse(),
            n == 0 ==> render_digits(v as nat, radix as nat) == digs@.reverse(),
        decreases n,
    {
        let d = (n % (radix as u64)) as u32;
        let ch = digit_to_char(d);
        let ghost old_digs = digs@;
        digs.push(ch);
        proof {
            assert(digs@.reverse() =~= seq![ch] + old_digs.reverse());
        }
        if n < radix as u64 {
            proof {
                vstd::arithmetic::div_mod::lemma_small_mod(n as nat, radix as nat);
                assert(render_digits(n as nat, radix as nat) =~= seq![ch]);
                assert(render_digits(v as nat, radix as nat) =~= digs@.reverse());
            }
            n = 0;
        } else {
            proof {
                vstd::arithmetic::div_mod::lemma_div_decreases(n as int, radix as int);
                vstd::arithmetic::div_mod::lemma_div_non_zero(n as int, radix as int);
                assert(render_digits(n as nat, radix as nat) =~= render_digits(
                    (n as nat / radix as nat),
                    radix as nat,
                ) + seq![ch]);
                assert(render_digits((n as nat / radix as nat), radix as nat) + seq![ch]
                    + old_digs.reverse() =~= render_digits((n as nat / radix as nat), radix as nat)
                    + digs@.reverse());
            }
            n = n / (radix as u64);
        }
    }
    let len = digs.len();
    let mut j: usize = 0;
    while j < len
        invariant
            len == digs@.len(),
            0 <= j <= len,
            out@ == digs@.reverse().take(j as int),
        decreases len - j,
    {
        let ch = digs[len - 1 - j];
        push_char(&mut out, ch);
        proof {
            assert(digs@.reverse().take(j + 1 as int) =~= digs@.reverse().take(j as int).push(
                digs@[len - 1 - j as int],
            ));
        }
        j = j + 1;
    }
    proof {
        assert(digs@.reverse().take(len as int) =~= digs@.reverse());
    }
    out
}

/// Renders `v` under `radix`, left-padded with zeroes to `width` digits.
pub fn u64_to_radix_string_padded(v: u64, radix: u32, width: usize) -> (r: String)
    requires
        2 <= radix <= 16,
        render_digits(v as nat, radix as nat).len() <= width,
    ensures
        r@ == char_repeat('0', (width - render_digits(v as nat, radix as nat).len()) as nat)
            + render_digits(v as nat, radix as nat),
{
    let digits = u64_to_radix_string(v, radix);
    let len = digits.as_str().unicode_len();
    let mut out = String::new();
    push_repeat(&mut out, '0', width - len);
    out.append(digits.as_str());
    proof {
        assert(out@ =~= char_repeat('0', (width - len) as nat) + digits@);
    }
    out
}

/// The decimal digit string of a signed value, with `-` for negatives.
pub open spec fn render_i64_dec(v: int) -> Seq<char> {
    if v < 0 {
        seq!['-'] + render_digits((-v) as nat, 10)
    } else {
        render_digits(v as nat, 10)
    }
}

/// Renders a signed value in decimal.
pub fn i64_to_dec_string(v: i64) -> (r: String)
    ensures
        r@ == render_i64_dec(v as int),
{
    if v >= 0 {
        u64_to_radix_string(v as u64, 10)
    } else {
        let m: u64 = ((-(v + 1)) as u64) + 1;
        assert(m as nat == (-(v as int)) as nat);
        let digits = u64_to_radix_string(m, 10);
        let mut out = String::new();
        push_char(&mut out, '-');
        out.append(digits.as_str());
        proof {
            assert(out@ =~= seq!['-'] + digits@);
        }
        out
    }
}

} // verus!
