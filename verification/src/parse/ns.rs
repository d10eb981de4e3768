//! The numeral-system field of an input token, resolved from the
//! optional `0b` / `0o` / `0x` marker.

use vstd::prelude::*;

verus! {

/// Numeral system of the digit string.
#[derive(Debug, PartialEq, Eq, Structural, Copy, Clone)]
pub enum NumeralSystem {
    /// Base of 2 (0-1).
    Bin,
    /// Base of 8 (0-7).
    Octal,
    /// Base of 10 (0-9).
    Decimal,
    /// Base of 16 (0-f).
    Hex,
}

impl NumeralSystem {
    /// The system resolved from the marker capture of the grammar; no
    /// marker (or anything unrecognized) means decimal.
    pub open spec fn spec_from_input(s: Seq<char>) -> NumeralSystem {
        if s.len() >= 2 && s[0] == '0' && s[1] == 'b' {
            NumeralSystem::Bin
        } else if s.len() >= 2 && s[0] == '0' && s[1] == 'o' {
            NumeralSystem::Octal
        } else if s.len() >= 2 && s[0] == '0' && s[1] == 'x' {
            NumeralSystem::Hex
        } else {
            NumeralSystem::Decimal
        }
    }

    /// The radix used to read the digit string.
    pub open spec fn spec_radix(self) -> nat {
        match self {
            NumeralSystem::Bin => 2,
            NumeralSystem::Octal => 8,
            NumeralSystem::Decimal => 10,
            NumeralSystem::Hex => 16,
        }
    }

    /// The marker that announces this system in an input token.
    pub open spec fn spec_marker(self) -> Seq<char> {
        match self {
            NumeralSystem::Bin => seq!['0', 'b'],
            NumeralSystem::Octal => seq!['0', 'o'],
            NumeralSystem::Decimal => Seq::empty(),
            NumeralSystem::Hex => seq!['0', 'x'],
        }
    }

    /// The display name of this system.
    pub open spec fn spec_label(self) -> Seq<char> {
        match self {
            NumeralSystem::Bin => "Bin (0b)"@,
            NumeralSystem::Octal => "Oct (0o)"@,
            NumeralSystem::Decimal => "Dec"@,
            NumeralSystem::Hex => "Hex (0x)"@,
        }
    }

    /// Parses the [`NumeralSystem`] from the normalized and validated
    /// slice of the input that corresponds to this type.
    pub fn from_input(part_str: &str) -> (r: Self)
        ensures
            r == NumeralSystem::spec_from_input(part_str@),
    {
        if part_str.unicode_len() >= 2 && part_str.get_char(0) == '0' {
            let c = part_str.get_char(1);
            if c == 'b' {
                NumeralSystem::Bin
            } else if c == 'o' {
                NumeralSystem::Octal
            } else if c == 'x' {
                NumeralSystem::Hex
            } else {
                NumeralSystem::Decimal
            }
        } else {
            NumeralSystem::Decimal
        }
    }

    /// The radix used to read the digit string.
    pub fn radix(&self) -> (r: u32)
        ensures
            r as nat == self.spec_radix(),
            2 <= r <= 16,
    {
        match self {
            NumeralSystem::Bin => 2,
            NumeralSystem::Octal => 8,
            NumeralSystem::Decimal => 10,
            NumeralSystem::Hex => 16,
        }
    }

    /// The display name of this system.
    pub fn label(&self) -> (r: String)
        ensures
            r@ == self.spec_label(),
    {
        match self {
            NumeralSystem::Bin => String::from_str("Bin (0b)"),
            NumeralSystem::Octal => String::from_str("Oct (0o)"),
            NumeralSystem::Decimal => String::from_str("Dec"),
            NumeralSystem::Hex => String::from_str("Hex (0x)"),
        }
    }
}

} // verus!
