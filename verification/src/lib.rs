//! Editing an ordered, delimiter-separated list of directories of the kind
//! that a `PATH`-like variable holds.
//!
//! A [`SystemPath`] is read from the text of such a variable, changed by
//! adding a directory or removing one by name or by position, searched for
//! files whose names match a pattern, and written back as text. The library
//! touches neither the environment nor the file system: whoever calls it
//! reads the variable, asks the file system about a directory or for its
//! listing, and hands over what came back. A change is made to the list in
//! memory alone and returns the list as it is then written; to put that text
//! into effect, in a shell or a profile, is left to the caller.
//!
//! - [`delimiter`]: the character between the entries.
//! - [`text`]: splitting a text into entries and joining entries into a text.
//! - [`path`]: the list and the changes to it.
//! - [`finder`]: the search for files by pattern.
//! - [`error`]: how an operation fails, and what is said of the failure.

pub mod delimiter;
pub mod error;
pub mod finder;
pub mod path;
pub mod text;

pub use crate::delimiter::Delimiter;
pub use crate::error::{PathError, PathErrorView};
pub use crate::finder::{Found, Pattern};
pub use crate::path::{Candidate, SystemPath};
