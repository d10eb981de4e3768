//! The representation generator and the alignment engine: builds the
//! interpretation groups of a decoded value (numeral systems, bit
//! patterns, signed and unsigned truncations) and pads each group's
//! lines so keys and values form aligned columns.
//!
//! The lenses that need floating-point formatting (IEEE-754
//! reinterpretation and the byte-size ladders) cannot be rendered here;
//! the generator returns `None` for them and leaves them to the
//! presentation layer.

use vstd::prelude::*;
use crate::parse::Parsed;
use crate::parse::ns::NumeralSystem;
use crate::text::{
    char_repeat,
    push_repeat,
    render_digits,
    render_i64_dec,
    u64_to_radix_string,
    u64_to_radix_string_padded,
};

pub mod fraction_fmt;

verus! {

/// The semantic lens an output group renders the value under.
#[derive(Debug, PartialEq, Eq, Structural, Copy, Clone)]
pub enum Interpretation {
    NumeralSystems,
    Bit64BigEndian,
    SignedIntegers,
    UnsignedIntegers,
    IEEE754,
    Bytes,
    Ibibytes,
}

impl Interpretation {
    /// The display title of this lens.
    pub open spec fn spec_label(self) -> Seq<char> {
        match self {
            Interpretation::NumeralSystems => "Numeral Systems"@,
            Interpretation::Bit64BigEndian => "64 bit (Big Endian)"@,
            Interpretation::SignedIntegers => "Signed Integers"@,
            Interpretation::UnsignedIntegers => "Unsigned Integers"@,
            Interpretation::IEEE754 => "Integer Bits as IEEE-754"@,
            Interpretation::Bytes => "Size in Bytes"@,
            Interpretation::Ibibytes => "Size in *ebi/*ibi Bytes"@,
        }
    }

    /// The display title of this lens.
    pub fn label(&self) -> (r: String)
        ensures
            r@ == self.spec_label(),
    {
        match self {
            Interpretation::NumeralSystems => String::from_str("Numeral Systems"),
            Interpretation::Bit64BigEndian => String::from_str("64 bit (Big Endian)"),
            Interpretation::SignedIntegers => String::from_str("Signed Integers"),
            Interpretation::UnsignedIntegers => String::from_str("Unsigned Integers"),
            Interpretation::IEEE754 => String::from_str("Integer Bits as IEEE-754"),
            Interpretation::Bytes => String::from_str("Size in Bytes"),
            Interpretation::Ibibytes => String::from_str("Size in *ebi/*ibi Bytes"),
        }
    }
}

/// Alignment of a line's value against the other values of its group.
#[derive(Debug, PartialEq, Eq, Structural, Copy, Clone)]
pub enum ValueAlignment {
    /// Values start at the same column.
    Left,
    /// Values end at the same column.
    Right,
}

/// One key/value line of an output group.
#[derive(Clone, Debug)]
pub struct OutputLine {
    pub key: String,
    pub value: String,
}

impl OutputLine {
    /// The label of this line.
    pub fn key(&self) -> (r: &str)
        ensures
            r@ == self.key@,
    {
        self.key.as_str()
    }

    /// The rendered value of this line.
    pub fn value(&self) -> (r: &str)
        ensures
            r@ == self.value@,
    {
        self.value.as_str()
    }
}

/// Everything needed to print several renderings of one value line by
/// line with aligned columns.
#[derive(Clone, Debug)]
pub struct OutputGroup {
    pub title: Interpretation,
    pub lines: Vec<OutputLine>,
    pub value_alignment: ValueAlignment,
}

/// Length of the longest key among `lines`.
pub open spec fn max_key_len(lines: Seq<OutputLine>) -> nat
    decreases lines.len(),
{
    if lines.len() == 0 {
        0
    } else {
        let m = max_key_len(lines.drop_last());
        let k = lines.last().key@.len();
        if k > m {
            k
        } else {
            m
        }
    }
}

/// Length of the longest value among `lines`.
pub open spec fn max_value_len(lines: Seq<OutputLine>) -> nat
    decreases lines.len(),
{
    if lines.len() == 0 {
        0
    } else {
        let m = max_value_len(lines.drop_last());
        let k = lines.last().value@.len();
        if k > m {
            k
        } else {
            m
        }
    }
}

/// No key is longer than the longest key.
pub proof fn lemma_max_key_ge(lines: Seq<OutputLine>, i: int)
    requires
        0 <= i < lines.len(),
    ensures
        lines[i].key@.len() <= max_key_len(lines),
    decreases lines.len(),
{
    if i < lines.len() - 1 {
        lemma_max_key_ge(lines.drop_last(), i);
    }
}

/// No value is longer than the longest value.
pub proof fn lemma_max_value_ge(lines: Seq<OutputLine>, i: int)
    requires
        0 <= i < lines.len(),
    ensures
        lines[i].value@.len() <= max_value_len(lines),
    decreases lines.len(),
{
    if i < lines.len() - 1 {
        lemma_max_value_ge(lines.drop_last(), i);
    }
}

/// The number of spaces put before line `i`'s value: enough to clear the
/// longest key, and for right alignment also enough to right-justify the
/// value against the longest value.
pub open spec fn line_padding(og: OutputGroup, i: int) -> int {
    let keypad = max_key_len(og.lines@) - og.lines@[i].key@.len();
    if og.value_alignment is Left {
        keypad
    } else {
        keypad + (max_value_len(og.lines@) - og.lines@[i].value@.len())
    }
}

impl OutputGroup {
    /// Length of the longest value string of this group.
    fn find_longest_value_string(&self) -> (r: usize)
        requires
            self.lines@.len() > 0,
        ensures
            r as nat == max_value_len(self.lines@),
    {
        let n = self.lines.len();
        let mut m: usize = 0;
        let mut i: usize = 0;
        while i < n
            invariant
                n == self.lines@.len(),
                0 <= i <= n,
                m as nat == max_value_len(self.lines@.take(i as int)),
            decreases n - i,
        {
            let l = self.lines[i].value.as_str().unicode_len();
            proof {
                assert(self.lines@.take(i + 1 as int).drop_last() =~= self.lines@.take(i as int));
                assert(self.lines@.take(i + 1 as int).last() == self.lines@[i as int]);
            }
            if l > m {
                m = l;
            }
            i = i + 1;
        }
        proof {
            assert(self.lines@.take(n as int) =~= self.lines@);
        }
        m
    }

    /// Length of the longest key string of this group.
    fn find_longest_key_string(&self) -> (r: usize)
        requires
            self.lines@.len() > 0,
        ensures
            r as nat == max_key_len(self.lines@),
    {
        let n = self.lines.len();
        let mut m: usize = 0;
        let mut i: usize = 0;
        while i < n
            invariant
                n == self.lines@.len(),
                0 <= i <= n,
                m as nat == max_key_len(self.lines@.take(i as int)),
            decreases n - i,
        {
            let l = self.lines[i].key.as_str().unicode_len();
            proof {
                assert(self.lines@.take(i + 1 as int).drop_last() =~= self.lines@.take(i as int));
                assert(self.lines@.take(i + 1 as int).last() == self.lines@[i as int]);
            }
            if l > m {
                m = l;
            }
            i = i + 1;
        }
        proof {
            assert(self.lines@.take(n as int) =~= self.lines@);
        }
        m
    }

    /// The lens this group renders.
    pub fn title(&self) -> (r: Interpretation)
        ensures
            r == self.title,
    {
        self.title
    }

    /// An iterator over the aligned lines of this group.
    pub fn iter(&self) -> (r: OutputGroupIterator)
        ensures
            r.og == self,
            r.line == 0,
    {
        OutputGroupIterator::new(self)
    }
}

/// Iterator over the lines of an [`OutputGroup`]. It yields pairs of
/// key and value, where the value is preceded by exactly the spaces that
/// align it; there is no space between key and value themselves, a
/// separator such as `": "` is left to the consumer.
pub struct OutputGroupIterator<'a> {
    pub og: &'a OutputGroup,
    pub line: usize,
}

impl<'a> OutputGroupIterator<'a> {
    fn new(og: &'a OutputGroup) -> (r: Self)
        ensures
            r.og == og,
            r.line == 0,
    {
        OutputGroupIterator { og, line: 0 }
    }

    /// The next aligned line, or `None` when the group is exhausted.
    /// The length bound is a machine limit: the padding is computed in a
    /// machine word.
    pub fn next(&mut self) -> (r: Option<(String, String)>)
        requires
            max_key_len(old(self).og.lines@) + max_value_len(old(self).og.lines@) <= usize::MAX,
        ensures
            ({
                let og = *old(self).og;
                if old(self).line >= og.lines@.len() {
                    &&& r is None
                    &&& final(self).og == old(self).og
                    &&& final(self).line == old(self).line
                } else {
                    &&& r matches Some(kv) && kv.0@ == og.lines@[old(self).line as int].key@
                        && kv.1@ == char_repeat(
                        ' ',
                        line_padding(og, old(self).line as int) as nat,
                    ) + og.lines@[old(self).line as int].value@
                    &&& final(self).og == old(self).og
                    &&& final(self).line == old(self).line + 1
                }
            }),
    {
        let og = self.og;
        let n = og.lines.len();
        if self.line >= n {
            return None;
        }
        let i = self.line;
        let longest_key = og.find_longest_key_string();
        let line = &og.lines[i];
        let key_len = line.key.as_str().unicode_len();
        proof {
            lemma_max_key_ge(og.lines@, i as int);
        }
        let additional_spaces: usize = match og.value_alignment {
            ValueAlignment::Left => longest_key - key_len,
            ValueAlignment::Right => {
                let longest_value = og.find_longest_value_string();
                let value_len = line.value.as_str().unicode_len();
                proof {
                    lemma_max_value_ge(og.lines@, i as int);
                }
                longest_key - key_len + (longest_value - value_len)
            },
        };
        let mut value = String::new();
        push_repeat(&mut value, ' ', additional_spaces);
        value.append(line.value.as_str());
        let key = line.key.clone();
        self.line = i + 1;
        proof {
            assert(value@ =~= char_repeat(' ', line_padding(*og, i as int) as nat)
                + og.lines@[i as int].value@);
        }
        Some((key, value))
    }
}

/// `s` with a `_` between every two adjacent chunks of `k` characters
/// (sequences whose length is no multiple of `k` keep their short tail
/// as the last chunk).
pub open spec fn with_delimiters(s: Seq<char>, k: nat) -> Seq<char>
    decreases s.len(),
{
    if k < 1 {
        s
    } else if s.len() <= k {
        s
    } else {
        s.take(k as int) + seq!['_'] + with_delimiters(s.skip(k as int), k)
    }
}

/// The rest of the delimited rendering once the first `i` characters of
/// `s` have been emitted (at a chunk boundary).
spec fn delimiters_rest(s: Seq<char>, i: int, k: nat) -> Seq<char> {
    if i == 0 {
        with_delimiters(s, k)
    } else if i == s.len() {
        Seq::empty()
    } else {
        seq!['_'] + with_delimiters(s.skip(i), k)
    }
}

/// Interleaves `_` between chunks of `chunksize` characters, turning for
/// example `1111000010101010` into `11110000_10101010`.
pub fn format_num_add_delimiters(digits: &str, chunksize: usize) -> (r: String)
    requires
        chunksize >= 1,
        digits@.len() % (chunksize as nat) == 0,
    ensures
        r@ == with_delimiters(digits@, chunksize as nat),
{
    let ghost s = digits@;
    let len = digits.unicode_len();
    let mut out = String::new();
    let mut i: usize = 0;
    proof {
        assert(Seq::<char>::empty() + delimiters_rest(s, 0, chunksize as nat) =~= delimiters_rest(
            s,
            0,
            chunksize as nat,
        ));
    }
    while i < len
        invariant
            len == s.len(),
            s == digits@,
            chunksize >= 1,
            s.len() % (chunksize as nat) == 0,
            0 <= i <= len,
            i as nat % (chunksize as nat) == 0,
            with_delimiters(s, chunksize as nat) == out@ + delimiters_rest(
                s,
                i as int,
                chunksize as nat,
            ),
        decreases len - i,
    {
        let ghost k = chunksize as nat;
        let ghost out_at_entry = out@;
        if i > 0 {
            crate::text::push_char(&mut out, '_');
        }
        let ghost base = out@;
        let mut j: usize = 0;
        proof {
            vstd::arithmetic::div_mod::lemma_sub_mod_noop(len as int, i as int, chunksize as int);
            if len - i < chunksize {
                vstd::arithmetic::div_mod::lemma_small_mod((len - i) as nat, chunksize as nat);
            }
            assert(i + chunksize <= len);
            assert(s.subrange(i as int, i as int) =~= Seq::<char>::empty());
            assert(base + s.subrange(i as int, i as int) =~= base);
        }
        while j < chunksize
            invariant
                len == s.len(),
                s == digits@,
                chunksize >= 1,
                0 <= j <= chunksize,
                i + chunksize <= len,
                out@ == base + s.subrange(i as int, i + j as int),
            decreases chunksize - j,
        {
            let c = digits.get_char(i + j);
            crate::text::push_char(&mut out, c);
            proof {
                assert(base + s.subrange(i as int, i + j + 1 as int) =~= (base + s.subrange(
                    i as int,
                    i + j as int,
                )).push(s[i + j as int]));
            }
            j = j + 1;
        }
        proof {
            let ii = i as int;
            let rest = if ii == 0 {
                with_delimiters(s, k)
            } else {
                with_delimiters(s.skip(ii), k)
            };
            let tail = s.skip(ii);
            assert(tail.len() == len - ii);
            if tail.len() <= k {
                assert(with_delimiters(tail, k) == tail);
                assert(tail =~= s.subrange(ii, ii + chunksize as int));
                assert(out@ =~= out_at_entry + delimiters_rest(s, ii, k).take(
                    delimiters_rest(s, ii, k).len() as int,
                ));
                assert(out@ =~= out_at_entry + delimiters_rest(s, ii, k));
                assert(delimiters_rest(s, ii + chunksize as int, k) =~= Seq::<char>::empty());
                assert(with_delimiters(s, k) =~= out@ + delimiters_rest(
                    s,
                    ii + chunksize as int,
                    k,
                ));
            } else {
                assert(with_delimiters(tail, k) == tail.take(k as int) + seq!['_']
                    + with_delimiters(tail.skip(k as int), k));
                assert(tail.take(k as int) =~= s.subrange(ii, ii + chunksize as int));
                assert(tail.skip(k as int) =~= s.skip(ii + chunksize as int));
                assert(with_delimiters(s, k) =~= out@ + delimiters_rest(
                    s,
                    ii + chunksize as int,
                    k,
                ));
            }
        }
        proof {
            vstd::arithmetic::div_mod::lemma_mod_multiples_vanish(
                1,
                i as int,
                chunksize as int,
            );
        }
        i = i + chunksize;
    }
    proof {
        assert(out@ + delimiters_rest(s, len as int, chunksize as nat) =~= out@);
    }
    out
}

/// The 64-digit binary rendering of `number` with a `_` every eight
/// digits, for readability.
pub fn format_64bit_bin_rust_style(number: u64) -> (r: String)
    ensures
        r@ == with_delimiters(
            char_repeat('0', (64 - render_digits(number as nat, 2).len()) as nat) + render_digits(
                number as nat,
                2,
            ),
            8,
        ),
{
    proof {
        lemma_u64_render_lens(number);
    }
    let string_fixed_len = u64_to_radix_string_padded(number, 2, 64);
    format_num_add_delimiters(string_fixed_len.as_str(), 8)
}

/// Digit-count bounds of the fixed-width renderings: 64 binary digits
/// and 16 hexadecimal digits always suffice for a 64-bit value.
pub proof fn lemma_u64_render_lens(v: u64)
    ensures
        render_digits(v as nat, 2).len() <= 64,
        render_digits(v as nat, 16).len() <= 16,
{
    vstd::arithmetic::power2::lemma2_to64();
    vstd::arithmetic::power2::lemma_pow2(64);
    vstd::arithmetic::power2::lemma_pow2(4);
    assert((v as nat) < vstd::arithmetic::power::pow(2, 64));
    crate::text::lemma_render_digits_len(v as nat, 2, 64);
    vstd::arithmetic::power::lemma_pow_multiplies(2, 4, 16);
    assert(vstd::arithmetic::power::pow(2, 4) == 16);
    assert(vstd::arithmetic::power::pow(vstd::arithmetic::power::pow(2, 4), 16)
        == vstd::arithmetic::power::pow(2, 64));
    assert((v as nat) < vstd::arithmetic::power::pow(16, 16));
    crate::text::lemma_render_digits_len(v as nat, 16, 16);
}

/// The value of the low bits of `v` reinterpreted as a two's-complement
/// signed integer of modulus `m`.
pub open spec fn signed_trunc(v: u64, m: nat) -> int {
    if (v as nat % m) >= m / 2 {
        v as nat % m - m
    } else {
        (v as nat % m) as int
    }
}

/// The numeral-systems group: the value under all four radices, sign
/// glyph in front, right-aligned.
pub open spec fn numeral_systems_group_ok(g: OutputGroup, p: Parsed) -> bool {
    let v = p.spec_value() as nat;
    let glyph = p.spec_sign().spec_glyph();
    &&& g.title is NumeralSystems
    &&& g.value_alignment is Right
    &&& g.lines@.len() == 4
    &&& g.lines@[0].key@ == NumeralSystem::Decimal.spec_label()
    &&& g.lines@[0].value@ == glyph + render_digits(v, 10)
    &&& g.lines@[1].key@ == NumeralSystem::Bin.spec_label()
    &&& g.lines@[1].value@ == glyph + render_digits(v, 2)
    &&& g.lines@[2].key@ == NumeralSystem::Octal.spec_label()
    &&& g.lines@[2].value@ == glyph + render_digits(v, 8)
    &&& g.lines@[3].key@ == NumeralSystem::Hex.spec_label()
    &&& g.lines@[3].value@ == glyph + render_digits(v, 16)
}

/// The 64-bit pattern group: the full big-endian bit pattern in two
/// binary spellings and in hexadecimal, left-aligned.
pub open spec fn bits_group_ok(g: OutputGroup, p: Parsed) -> bool {
    let v = p.spec_value() as nat;
    let bin64 = char_repeat('0', (64 - render_digits(v, 2).len()) as nat) + render_digits(v, 2);
    let hex16 = char_repeat('0', (16 - render_digits(v, 16).len()) as nat) + render_digits(v, 16);
    &&& g.title is Bit64BigEndian
    &&& g.value_alignment is Left
    &&& g.lines@.len() == 3
    &&& g.lines@[0].key@ == "Bin (Rust-style)"@
    &&& g.lines@[0].value@ == "0b"@ + with_delimiters(bin64, 8)
    &&& g.lines@[1].key@ == "Bin (C-style)"@
    &&& g.lines@[1].value@ == "0b"@ + bin64
    &&& g.lines@[2].key@ == "Hex"@
    &&& g.lines@[2].value@ == "0x"@ + hex16
}

/// The signed-integer group: the low 8, 16, 32 and 64 bits reinterpreted
/// in two's complement, sign glyph in front, right-aligned.
pub open spec fn signed_integers_group_ok(g: OutputGroup, p: Parsed) -> bool {
    let v = p.spec_value();
    let glyph = p.spec_sign().spec_glyph();
    &&& g.title is SignedIntegers
    &&& g.value_alignment is Right
    &&& g.lines@.len() == 4
    &&& g.lines@[0].key@ == " i8"@
    &&& g.lines@[0].value@ == glyph + render_i64_dec(signed_trunc(v, 0x100))
    &&& g.lines@[1].key@ == "i16"@
    &&& g.lines@[1].value@ == glyph + render_i64_dec(signed_trunc(v, 0x10000))
    &&& g.lines@[2].key@ == "i32"@
    &&& g.lines@[2].value@ == glyph + render_i64_dec(signed_trunc(v, 0x100000000))
    &&& g.lines@[3].key@ == "i64"@
    &&& g.lines@[3].value@ == glyph + render_i64_dec(signed_trunc(v, 0x10000000000000000))
}

/// The unsigned-integer group: the low 8, 16, 32 and 64 bits as plain
/// unsigned values, right-aligned (no sign glyph).
pub open spec fn unsigned_integers_group_ok(g: OutputGroup, p: Parsed) -> bool {
    let v = p.spec_value() as nat;
    &&& g.title is UnsignedIntegers
    &&& g.value_alignment is Right
    &&& g.lines@.len() == 4
    &&& g.lines@[0].key@ == " u8"@
    &&& g.lines@[0].value@ == render_digits(v % 0x100, 10)
    &&& g.lines@[1].key@ == "u16"@
    &&& g.lines@[1].value@ == render_digits(v % 0x10000, 10)
    &&& g.lines@[2].key@ == "u32"@
    &&& g.lines@[2].value@ == render_digits(v % 0x100000000, 10)
    &&& g.lines@[3].key@ == "u64"@
    &&& g.lines@[3].value@ == render_digits(v, 10)
}

/// One value string of the numeral-systems group: glyph, then digits.
fn glyph_and_digits(p: &Parsed, radix: u32) -> (r: String)
    requires
        2 <= radix <= 16,
    ensures
        r@ == p.spec_sign().spec_glyph() + render_digits(p.spec_value() as nat, radix as nat),
{
    let mut s = p.sign().glyph();
    let digits = u64_to_radix_string(p.value(), radix);
    s.append(digits.as_str());
    s
}

fn build_numeral_systems_og(parsed: &Parsed) -> (g: OutputGroup)
    ensures
        numeral_systems_group_ok(g, *parsed),
{
    let mut lines: Vec<OutputLine> = Vec::new();
    lines.push(
        OutputLine {
            key: NumeralSystem::Decimal.label(),
            value: glyph_and_digits(parsed, 10),
        },
    );
    lines.push(
        OutputLine { key: NumeralSystem::Bin.label(), value: glyph_and_digits(parsed, 2) },
    );
    lines.push(
        OutputLine { key: NumeralSystem::Octal.label(), value: glyph_and_digits(parsed, 8) },
    );
    lines.push(
        OutputLine { key: NumeralSystem::Hex.label(), value: glyph_and_digits(parsed, 16) },
    );
    OutputGroup {
        title: Interpretation::NumeralSystems,
        value_alignment: ValueAlignment::Right,
        lines,
    }
}

fn build_bits_og(parsed: &Parsed) -> (g: OutputGroup)
    ensures
        bits_group_ok(g, *parsed),
{
    let v = parsed.value();
    proof {
        lemma_u64_render_lens(v);
    }
    let mut rust_style = String::from_str("0b");
    let delimited = format_64bit_bin_rust_style(v);
    rust_style.append(delimited.as_str());
    let mut c_style = String::from_str("0b");
    let bin = u64_to_radix_string_padded(v, 2, 64);
    c_style.append(bin.as_str());
    let mut hex = String::from_str("0x");
    let hex_digits = u64_to_radix_string_padded(v, 16, 16);
    hex.append(hex_digits.as_str());
    let mut lines: Vec<OutputLine> = Vec::new();
    lines.push(OutputLine { key: String::from_str("Bin (Rust-style)"), value: rust_style });
    lines.push(OutputLine { key: String::from_str("Bin (C-style)"), value: c_style });
    lines.push(OutputLine { key: String::from_str("Hex"), value: hex });
    OutputGroup {
        title: Interpretation::Bit64BigEndian,
        value_alignment: ValueAlignment::Left,
        lines,
    }
}

/// The low bits of `v` under `modulus`, as a signed 64-bit value in
/// two's complement.
fn trunc_signed(v: u64, modulus: u64) -> (r: i64)
    requires
        modulus == 0x100 || modulus == 0x10000 || modulus == 0x100000000,
    ensures
        r as int == signed_trunc(v, modulus as nat),
{
    let rem = v % modulus;
    if rem >= modulus / 2 {
        (rem as i64) - (modulus as i64)
    } else {
        rem as i64
    }
}

/// The full 64 bits of `v` as a signed value in two's complement.
fn trunc_signed_64(v: u64) -> (r: i64)
    ensures
        r as int == signed_trunc(v, 0x10000000000000000),
{
    proof {
        vstd::arithmetic::div_mod::lemma_small_mod(v as nat, 0x10000000000000000);
    }
    if v >= 0x8000000000000000 {
        let d = u64::MAX - v;
        -(d as i64) - 1
    } else {
        v as i64
    }
}

/// Glyph followed by the decimal rendering of a signed value.
fn glyph_and_signed(p: &Parsed, t: i64) -> (r: String)
    ensures
        r@ == p.spec_sign().spec_glyph() + render_i64_dec(t as int),
{
    let mut s = p.sign().glyph();
    let digits = crate::text::i64_to_dec_string(t);
    s.append(digits.as_str());
    s
}

fn build_signed_integers_og(parsed: &Parsed) -> (g: OutputGroup)
    ensures
        signed_integers_group_ok(g, *parsed),
{
    let v = parsed.value();
    let mut lines: Vec<OutputLine> = Vec::new();
    lines.push(
        OutputLine {
            key: String::from_str(" i8"),
            value: glyph_and_signed(parsed, trunc_signed(v, 0x100)),
        },
    );
    lines.push(
        OutputLine {
            key: String::from_str("i16"),
            value: glyph_and_signed(parsed, trunc_signed(v, 0x10000)),
        },
    );
    lines.push(
        OutputLine {
            key: String::from_str("i32"),
            value: glyph_and_signed(parsed, trunc_signed(v, 0x100000000)),
        },
    );
    lines.push(
        OutputLine {
            key: String::from_str("i64"),
            value: glyph_and_signed(parsed, trunc_signed_64(v)),
        },
    );
    OutputGroup {
        title: Interpretation::SignedIntegers,
        value_alignment: ValueAlignment::Right,
        lines,
    }
}

fn build_unsigned_integers_og(parsed: &Parsed) -> (g: OutputGroup)
    ensures
        unsigned_integers_group_ok(g, *parsed),
{
    let v = parsed.value();
    let mut lines: Vec<OutputLine> = Vec::new();
    lines.push(
        OutputLine {
            key: String::from_str(" u8"),
            value: u64_to_radix_string(v % 0x100, 10),
        },
    );
    lines.push(
        OutputLine {
            key: String::from_str("u16"),
            value: u64_to_radix_string(v % 0x10000, 10),
        },
    );
    lines.push(
        OutputLine {
            key: String::from_str("u32"),
            value: u64_to_radix_string(v % 0x100000000, 10),
        },
    );
    lines.push(
        OutputLine { key: String::from_str("u64"), value: u64_to_radix_string(v, 10) },
    );
    OutputGroup {
        title: Interpretation::UnsignedIntegers,
        value_alignment: ValueAlignment::Right,
        lines,
    }
}

/// Builds the output group of one interpretation of the decoded value.
/// The lenses that need floating-point rendering (IEEE-754 and the two
/// byte-size ladders) are left to the presentation layer: they yield
/// `None` here.
pub fn get_output_group(parsed: &Parsed, representation: Interpretation) -> (r: Option<
    OutputGroup,
>)
    ensures
        match representation {
            Interpretation::NumeralSystems => r matches Some(g) && numeral_systems_group_ok(
                g,
                *parsed,
            ),
            Interpretation::Bit64BigEndian => r matches Some(g) && bits_group_ok(g, *parsed),
            Interpretation::SignedIntegers => r matches Some(g) && signed_integers_group_ok(
                g,
                *parsed,
            ),
            Interpretation::UnsignedIntegers => r matches Some(g) && unsigned_integers_group_ok(
                g,
                *parsed,
            ),
            Interpretation::IEEE754 => r is None,
            Interpretation::Bytes => r is None,
            Interpretation::Ibibytes => r is None,
        },
{
    match representation {
        Interpretation::NumeralSystems => Some(build_numeral_systems_og(parsed)),
        Interpretation::Bit64BigEndian => Some(build_bits_og(parsed)),
        Interpretation::SignedIntegers => Some(build_signed_integers_og(parsed)),
        Interpretation::UnsignedIntegers => Some(build_unsigned_integers_og(parsed)),
        Interpretation::IEEE754 => None,
        Interpretation::Bytes => None,
        Interpretation::Ibibytes => None,
    }
}

} // verus!
