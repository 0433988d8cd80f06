//! The character that separates the entries of a path list.

use vstd::prelude::*;

verus! {

/// The separator between the entries of a path list: `;` on platforms whose
/// paths are written with backslashes, `:` everywhere else.
#[derive(Clone, Copy, Debug, PartialEq, Eq, Structural)]
pub enum Delimiter {
    Colon,
    Semicolon,
}

/// The delimiter that goes with a path convention: `;` where a backslash
/// separates path components, `:` where it does not.
pub open spec fn delimiter_of(backslash_separates: bool) -> Delimiter {
    if backslash_separates {
        Delimiter::Semicolon
    } else {
        Delimiter::Colon
    }
}

/// `std::path::is_separator`: whether `c` separates path components on the
/// platform the library runs on. The answer belongs to that platform, so
/// nothing is said of it here.
#[verifier::external_body]
fn is_path_separator(c: char) -> bool {
    std::path::is_separator(c)
}

impl Delimiter {
    /// The delimiter as a character.
    pub open spec fn as_char(self) -> char {
        match self {
            Delimiter::Colon => ':',
            Delimiter::Semicolon => ';',
        }
    }

    /// The delimiter as a one-character text.
    pub open spec fn text(self) -> Seq<char> {
        seq![self.as_char()]
    }

    /// Chooses the delimiter for a path convention.
    pub fn of_convention(backslash_separates: bool) -> (d: Delimiter)
        ensures
            d == delimiter_of(backslash_separates),
    {
        if backslash_separates {
            Delimiter::Semicolon
        } else {
            Delimiter::Colon
        }
    }

    /// The delimiter of the platform the library runs on: the one that
    /// `of_convention` chooses for what the platform says of the backslash.
    pub fn native() -> (d: Delimiter) {
        Delimiter::of_convention(is_path_separator('\\'))
    }

    /// The delimiter as a character.
    pub fn to_char(self) -> (c: char)
        ensures
            c == self.as_char(),
    {
        match self {
            Delimiter::Colon => ':',
            Delimiter::Semicolon => ';',
        }
    }

    /// The delimiter as a string slice of one character.
    pub fn as_str(self) -> (s: &'static str)
        ensures
            s@ == self.text(),
    {
        proof {
            reveal_strlit(":");
            reveal_strlit(";");
        }
        match self {
            Delimiter::Colon => ":",
            Delimiter::Semicolon => ";",
        }
    }
}

} // verus!
