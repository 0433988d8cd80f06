//! The ways in which an operation on a path list fails.

use vstd::prelude::*;
use vstd::string::StringExecFns;

verus! {

/// Why an operation on a path list did not take place. Every failure ends
/// the operation it occurs in and leaves the list as it was.
#[derive(Debug, PartialEq, Eq)]
pub enum PathError {
    /// The variable `name` could not be read; `cause` says why.
    Lookup { name: String, cause: String },
    /// The candidate does not name an existing directory.
    NotADirectory,
    /// The candidate could not be brought into canonical absolute form.
    Resolution { candidate: String },
    /// No entry of the list equals the directory that was to be removed.
    NotOnPath,
    /// There is no entry at `index` in a list of `length` entries.
    IndexOutOfRange { index: usize, length: usize },
    /// A removal named neither a directory nor an index.
    NoTargetSpecified,
    /// `pattern` is not a regular expression that can be compiled.
    InvalidPattern { pattern: String },
    /// The entries of `directory` could not be listed.
    Listing { directory: String },
}

/// A `PathError` with its texts as sequences of characters.
pub enum PathErrorView {
    Lookup { name: Seq<char>, cause: Seq<char> },
    NotADirectory,
    Resolution { candidate: Seq<char> },
    NotOnPath,
    IndexOutOfRange { index: usize, length: usize },
    NoTargetSpecified,
    InvalidPattern { pattern: Seq<char> },
    Listing { directory: Seq<char> },
}

impl View for PathError {
    type V = PathErrorView;

    open spec fn view(&self) -> PathErrorView {
        match self {
            PathError::Lookup { name, cause } => PathErrorView::Lookup {
                name: name@,
                cause: cause@,
            },
            PathError::NotADirectory => PathErrorView::NotADirectory,
            PathError::Resolution { candidate } => PathErrorView::Resolution {
                candidate: candidate@,
            },
            PathError::NotOnPath => PathErrorView::NotOnPath,
            PathError::IndexOutOfRange { index, length } => PathErrorView::IndexOutOfRange {
                index: *index,
                length: *length,
            },
            PathError::NoTargetSpecified => PathErrorView::NoTargetSpecified,
            PathError::InvalidPattern { pattern } => PathErrorView::InvalidPattern {
                pattern: pattern@,
            },
            PathError::Listing { directory } => PathErrorView::Listing { directory: directory@ },
        }
    }
}

/// The decimal digit for a number below ten.
pub open spec fn digit(d: nat) -> char {
    if d == 0 {
        '0'
    } else if d == 1 {
        '1'
    } else if d == 2 {
        '2'
    } else if d == 3 {
        '3'
    } else if d == 4 {
        '4'
    } else if d == 5 {
        '5'
    } else if d == 6 {
        '6'
    } else if d == 7 {
        '7'
    } else if d == 8 {
        '8'
    } else {
        '9'
    }
}

/// A number written in decimal digits, without leading zeros.
pub open spec fn decimal(n: nat) -> Seq<char>
    decreases n,
{
    if n < 10 {
        seq![digit(n)]
    } else {
        decimal(n / 10).push(digit(n % 10))
    }
}

/// What is said of an error when it is reported.
pub open spec fn message_of(error: PathErrorView) -> Seq<char> {
    match error {
        PathErrorView::Lookup { name, cause } => "Unable to get path "@ + name + ". becuase "@
            + cause,
        PathErrorView::NotADirectory => "path provided is not a directory"@,
        PathErrorView::Resolution { candidate } => "Unable to convert "@ + candidate
            + " to a full path"@,
        PathErrorView::NotOnPath => "The given directory is not on the path"@,
        PathErrorView::IndexOutOfRange { index, length } => "Attempt to remove at index "@
            + decimal(index as nat) + " however the length of the path is only "@ + decimal(
            length as nat,
        ),
        PathErrorView::NoTargetSpecified => "No folder has been set to be removed"@,
        PathErrorView::InvalidPattern { pattern } => "Unable to use "@ + pattern
            + " as a pattern"@,
        PathErrorView::Listing { directory } => "Unable to list the directory "@ + directory,
    }
}

/// The decimal digit for a number below ten, as a string slice.
fn digit_str(d: usize) -> (s: &'static str)
    requires
        d < 10,
    ensures
        s@ == seq![digit(d as nat)],
{
    proof {
        reveal_strlit("0");
        reveal_strlit("1");
        reveal_strlit("2");
        reveal_strlit("3");
        reveal_strlit("4");
        reveal_strlit("5");
        reveal_strlit("6");
        reveal_strlit("7");
        reveal_strlit("8");
        reveal_strlit("9");
    }
    if d == 0 {
        "0"
    } else if d == 1 {
        "1"
    } else if d == 2 {
        "2"
    } else if d == 3 {
        "3"
    } else if d == 4 {
        "4"
    } else if d == 5 {
        "5"
    } else if d == 6 {
        "6"
    } else if d == 7 {
        "7"
    } else if d == 8 {
        "8"
    } else {
        "9"
    }
}

/// Writes a number in decimal digits.
pub fn decimal_text(n: usize) -> (text: String)
    ensures
        text@ == decimal(n as nat),
    decreases n,
{
    if n < 10 {
        digit_str(n).to_owned()
    } else {
        let mut text = decimal_text(n / 10);
        text.append(digit_str(n % 10));
        text
    }
}

impl PathError {
    /// The message that reports this error.
    pub fn message(&self) -> (text: String)
        ensures
            text@ == message_of(self@),
    {
        match self {
            PathError::Lookup { name, cause } => {
                let mut text = "Unable to get path ".to_owned();
                text.append(name.as_str());
                text.append(". becuase ");
                text.append(cause.as_str());
                text
            },
            PathError::NotADirectory => "path provided is not a directory".to_owned(),
            PathError::Resolution { candidate } => {
                let mut text = "Unable to convert ".to_owned();
                text.append(candidate.as_str());
                text.append(" to a full path");
                text
            },
            PathError::NotOnPath => "The given directory is not on the path".to_owned(),
            PathError::IndexOutOfRange { index, length } => {
                let mut text = "Attempt to remove at index ".to_owned();
                text.append(decimal_text(*index).as_str());
                text.append(" however the length of the path is only ");
                text.append(decimal_text(*length).as_str());
                text
            },
            PathError::NoTargetSpecified => "No folder has been set to be removed".to_owned(),
            PathError::InvalidPattern { pattern } => {
                let mut text = "Unable to use ".to_owned();
                text.append(pattern.as_str());
                text.append(" as a pattern");
                text
            },
            PathError::Listing { directory } => {
                let mut text = "Unable to list the directory ".to_owned();
                text.append(directory.as_str());
                text
            },
        }
    }
}

} // verus!
