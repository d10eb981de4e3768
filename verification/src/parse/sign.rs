//! The sign field of an input token. It carries only a display glyph;
//! the decoded magnitude is always stored unsigned.

use vstd::prelude::*;

verus! {

/// Sign of the input token.
#[derive(Debug, PartialEq, Eq, Structural, Copy, Clone)]
pub enum Sign {
    Positive,
    Negative,
}

impl Sign {
    /// The sign resolved from the sign capture of the grammar: exactly
    /// `-` is negative, everything else (notably the empty capture) is
    /// positive.
    pub open spec fn spec_from_input(s: Seq<char>) -> Sign {
        if s == seq!['-'] {
            Sign::Negative
        } else {
            Sign::Positive
        }
    }

    /// The display glyph: `-` for negative, nothing for positive.
    pub open spec fn spec_glyph(self) -> Seq<char> {
        if self is Negative {
            seq!['-']
        } else {
            Seq::empty()
        }
    }

    /// Parses the sign from the slice of the normalized and validated
    /// input that corresponds to this type.
    pub fn from_input(normalized_input: &str) -> (r: Sign)
        ensures
            r == Sign::spec_from_input(normalized_input@),
    {
        if normalized_input.unicode_len() == 1 && normalized_input.get_char(0) == '-' {
            proof {
                assert(normalized_input@ =~= seq!['-']);
            }
            Sign::Negative
        } else {
            Sign::Positive
        }
    }

    /// Whether the sign is positive.
    pub fn is_pos(&self) -> (r: bool)
        ensures
            r == (*self is Positive),
    {
        match self {
            Sign::Positive => true,
            Sign::Negative => false,
        }
    }

    /// Whether the sign is negative.
    pub fn is_neg(&self) -> (r: bool)
        ensures
            r == (*self is Negative),
    {
        !self.is_pos()
    }

    /// The display glyph as a string.
    pub fn glyph(&self) -> (r: String)
        ensures
            r@ == self.spec_glyph(),
    {
        let mut out = String::new();
        if self.is_neg() {
            crate::text::push_char(&mut out, '-');
        }
        proof {
            assert(out@ =~= self.spec_glyph());
        }
        out
    }
}

} // verus!
