//! The path list itself: an ordered sequence of directories with the
//! delimiter that separates them when the list is written as one text.

use vstd::prelude::*;
use crate::delimiter::Delimiter;
use crate::error::{PathError, PathErrorView};
use crate::text::{
    all_delimiter_free, delimiter_free, join, join_text, lemma_join_of_split, lemma_split_of_join,
    lemma_split_pieces, split, split_text,
};

verus! {

/// A directory that is to be added or removed, together with what the file
/// system said about it when it was asked.
#[derive(Debug, PartialEq, Eq)]
pub struct Candidate {
    /// The directory as it was named.
    pub path: String,
    /// Whether `path` named an existing directory.
    pub is_directory: bool,
    /// The canonical absolute form of `path`, where it could be resolved.
    pub canonical: Option<String>,
}

/// An ordered list of directories. The order is the search order and is
/// kept; the same directory may stand in the list more than once.
#[derive(Debug, PartialEq, Eq)]
pub struct SystemPath {
    directories: Vec<String>,
    delimiter: Delimiter,
}

/// The position of the last entry equal to `target`, or -1 where no entry
/// equals it.
pub open spec fn last_position(entries: Seq<Seq<char>>, target: Seq<char>) -> int
    decreases entries.len(),
{
    if entries.len() == 0 {
        -1
    } else if entries.last() == target {
        entries.len() - 1
    } else {
        last_position(entries.drop_last(), target)
    }
}

/// What adding `candidate` makes of `entries`: the entries with the
/// canonical form of the candidate at the end, whether or not it is among
/// them already. A candidate that is no directory is refused, and so is one
/// that has no canonical form.
pub open spec fn added(entries: Seq<Seq<char>>, candidate: Candidate) -> Result<
    Seq<Seq<char>>,
    PathErrorView,
> {
    if !candidate.is_directory {
        Err(PathErrorView::NotADirectory)
    } else {
        match candidate.canonical {
            Some(full) => Ok(entries.push(full@)),
            None => Err(PathErrorView::Resolution { candidate: candidate.path@ }),
        }
    }
}

/// What removing `candidate` makes of `entries`: the entries without the
/// last one that equals the candidate as it was named, character for
/// character. A candidate that is no directory is refused, and so is one
/// that no entry equals.
pub open spec fn removed(entries: Seq<Seq<char>>, candidate: Candidate) -> Result<
    Seq<Seq<char>>,
    PathErrorView,
> {
    if !candidate.is_directory {
        Err(PathErrorView::NotADirectory)
    } else if !entries.contains(candidate.path@) {
        Err(PathErrorView::NotOnPath)
    } else {
        Ok(entries.remove(last_position(entries, candidate.path@)))
    }
}

/// What removing the entry at `index` makes of `entries`. An index that is
/// not below the number of entries is refused.
pub open spec fn removed_at(entries: Seq<Seq<char>>, index: usize) -> Result<
    Seq<Seq<char>>,
    PathErrorView,
> {
    if index < entries.len() {
        Ok(entries.remove(index as int))
    } else {
        Err(PathErrorView::IndexOutOfRange { index, length: entries.len() as usize })
    }
}

/// What a removal by directory or by index makes of `entries`. A directory,
/// where one is given, decides alone; the index counts only without one.
pub open spec fn removed_either(
    entries: Seq<Seq<char>>,
    dir: Option<Candidate>,
    index: Option<usize>,
) -> Result<Seq<Seq<char>>, PathErrorView> {
    match dir {
        Some(candidate) => removed(entries, candidate),
        None => match index {
            Some(i) => removed_at(entries, i),
            None => Err(PathErrorView::NoTargetSpecified),
        },
    }
}

/// Whether a change to a list went as `expected`: on success the list holds
/// the expected entries and `r` is the list as it is then written; on
/// failure `r` is the expected error and the entries are as before. The
/// delimiter stays either way.
pub open spec fn carried_out(
    before: SystemPath,
    after: SystemPath,
    r: Result<String, PathError>,
    expected: Result<Seq<Seq<char>>, PathErrorView>,
) -> bool {
    &&& after.delimiter() == before.delimiter()
    &&& match expected {
        Ok(entries) => r matches Ok(text) && after@ == entries && text@ == after.serialized(),
        Err(error) => r matches Err(e) && e@ == error && after@ == before@,
    }
}

impl View for SystemPath {
    type V = Seq<Seq<char>>;

    /// The entries of the list, in order.
    closed spec fn view(&self) -> Seq<Seq<char>> {
        self.directories.deep_view()
    }
}

impl SystemPath {
    /// The delimiter that separates the entries when the list is written.
    pub closed spec fn spec_delimiter(&self) -> Delimiter {
        self.delimiter
    }

    /// The list written as one text.
    pub open spec fn serialized(&self) -> Seq<char> {
        join(self@, self.delimiter().as_char())
    }

    /// Whether no entry holds the delimiter. A list read from a text is well
    /// formed; removing an entry keeps it so, and adding one keeps it so
    /// unless the canonical form of the directory holds the delimiter.
    /// Reading a written list back gives the same list only if it is well
    /// formed.
    pub open spec fn well_formed(&self) -> bool {
        all_delimiter_free(self@, self.delimiter().as_char())
    }

    /// The delimiter of the platform as a text: `":"` or `";"`.
    pub fn seporator() -> (text: String)
        ensures
            text@ == Delimiter::Colon.text() || text@ == Delimiter::Semicolon.text(),
    {
        Delimiter::native().as_str().to_owned()
    }

    /// Reads a list from `raw`, whose entries `delimiter` separates. Every
    /// piece between two delimiters is an entry as it stands, so the empty
    /// text gives a list of one empty entry.
    pub fn parse(raw: &str, delimiter: Delimiter) -> (path: SystemPath)
        ensures
            path@ == split(raw@, delimiter.as_char()),
            path.delimiter() == delimiter,
            path.well_formed(),
    {
        proof {
            lemma_split_pieces(raw@, delimiter.as_char());
        }
        SystemPath { directories: split_text(raw, delimiter), delimiter }
    }

    /// Reads the list that the variable `path_name` holds, given the outcome
    /// `lookup` of reading that variable: its text, or the reason why it
    /// could not be read. The entries are separated by the delimiter of the
    /// platform.
    pub fn from(path_name: String, lookup: Result<String, String>) -> (r: Result<
        SystemPath,
        PathError,
    >)
        ensures
            match lookup {
                Ok(raw) => {
                    &&& r matches Ok(path)
                    &&& path@ == split(raw@, path.delimiter().as_char())
                    &&& path.well_formed()
                },
                Err(cause) => r matches Err(e) && e@ == (PathErrorView::Lookup {
                    name: path_name@,
                    cause: cause@,
                }),
            },
    {
        match lookup {
            Ok(raw) => Ok(SystemPath::parse(raw.as_str(), Delimiter::native())),
            Err(cause) => Err(PathError::Lookup { name: path_name, cause }),
        }
    }

    /// The number of entries.
    pub fn len(&self) -> (n: usize)
        ensures
            n == self@.len(),
    {
        self.directories.len()
    }

    /// The entries, in order.
    pub fn directories(&self) -> (entries: &Vec<String>)
        ensures
            entries.deep_view() == self@,
    {
        &self.directories
    }

    /// The delimiter that separates the entries when the list is written.
    #[verifier::when_used_as_spec(spec_delimiter)]
    pub fn delimiter(&self) -> (d: Delimiter)
        ensures
            d == self.spec_delimiter(),
    {
        self.delimiter
    }

    /// Writes the list as one text: the entries in order, empty ones
    /// included, with the delimiter between each two neighbours.
    pub fn to_string(&self) -> (r: Result<String, PathError>)
        ensures
            r matches Ok(text) && text@ == self.serialized(),
    {
        Ok(join_text(&self.directories, self.delimiter))
    }

    /// Appends the canonical form of `directory` to the list and returns
    /// the list as it is then written.
    pub fn add(&mut self, directory: &Candidate) -> (r: Result<String, PathError>)
        ensures
            carried_out(*old(self), *final(self), r, added(old(self)@, *directory)),
            r is Ok ==> (final(self).well_formed() <==> old(self).well_formed() && delimiter_free(
                directory.canonical->0@,
                old(self).delimiter().as_char(),
            )),
    {
        if !directory.is_directory {
            return Err(PathError::NotADirectory);
        }
        let full = match &directory.canonical {
            Some(full) => full.clone(),
            None => {
                return Err(PathError::Resolution { candidate: directory.path.clone() });
            },
        };
        let ghost before = self.directories.deep_view();
        self.directories.push(full);
        assert(self.directories.deep_view() =~= before.push(full@));
        proof {
            lemma_push_delimiter_free(before, full@, self.delimiter.as_char());
        }
        Ok(join_text(&self.directories, self.delimiter))
    }

    /// Removes the last entry that equals `directory` as it was named and
    /// returns the list as it is then written.
    pub fn remove(&mut self, directory: &Candidate) -> (r: Result<String, PathError>)
        ensures
            carried_out(*old(self), *final(self), r, removed(old(self)@, *directory)),
            old(self).well_formed() ==> final(self).well_formed(),
    {
        if !directory.is_directory {
            return Err(PathError::NotADirectory);
        }
        let ghost entries = self.directories.deep_view();
        let ghost target = directory.path@;
        let mut found: Option<usize> = None;
        let mut i: usize = 0;
        while i < self.directories.len()
            invariant
                i <= self.directories.len(),
                entries == self.directories.deep_view(),
                target == directory.path@,
                match found {
                    Some(p) => p as int == last_position(entries.take(i as int), target),
                    None => last_position(entries.take(i as int), target) == -1,
                },
            decreases self.directories.len() - i,
        {
            proof {
                let longer = entries.take(i + 1);
                assert(longer.drop_last() =~= entries.take(i as int));
            }
            if self.directories[i] == directory.path {
                found = Some(i);
            }
            i += 1;
        }
        proof {
            assert(entries.take(i as int) =~= entries);
            lemma_last_position(entries, target);
        }
        match found {
            Some(index) => self.remove_at(&index),
            None => Err(PathError::NotOnPath),
        }
    }

    /// Removes the entry at `index` and returns the list as it is then
    /// written.
    pub fn remove_at(&mut self, index: &usize) -> (r: Result<String, PathError>)
        ensures
            carried_out(*old(self), *final(self), r, removed_at(old(self)@, *index)),
            old(self).well_formed() ==> final(self).well_formed(),
    {
        if *index >= self.directories.len() {
            return Err(
                PathError::IndexOutOfRange { index: *index, length: self.directories.len() },
            );
        }
        let ghost before = self.directories.deep_view();
        self.directories.remove(*index);
        assert(self.directories.deep_view() =~= before.remove(*index as int));
        Ok(join_text(&self.directories, self.delimiter))
    }

    /// Removes an entry by directory or by index and returns the list as it
    /// is then written. Where both are given the directory decides and the
    /// index is not looked at; where neither is given nothing is removed.
    pub fn remove_either(&mut self, dir: &Option<Candidate>, index: &Option<usize>) -> (r: Result<
        String,
        PathError,
    >)
        ensures
            carried_out(*old(self), *final(self), r, removed_either(old(self)@, *dir, *index)),
            old(self).well_formed() ==> final(self).well_formed(),
    {
        match dir {
            Some(directory) => self.remove(directory),
            None => match index {
                Some(i) => self.remove_at(i),
                None => Err(PathError::NoTargetSpecified),
            },
        }
    }
}

/// A list writes as the text it was read from, whatever that text holds.
pub proof fn lemma_written_as_read(path: SystemPath, raw: Seq<char>)
    requires
        path@ == split(raw, path.delimiter().as_char()),
    ensures
        path.serialized() == raw,
{
    lemma_join_of_split(raw, path.delimiter().as_char());
}

/// A list reads back from the text it writes as, provided it has an entry
/// and none of its entries holds the delimiter.
pub proof fn lemma_read_as_written(path: SystemPath)
    requires
        path@.len() >= 1,
        path.well_formed(),
    ensures
        split(path.serialized(), path.delimiter().as_char()) == path@,
{
    lemma_split_of_join(path@, path.delimiter().as_char());
}

/// A removal by directory leaves out one entry that equals the directory as
/// it was named, keeps every other entry in its place relative to the
/// others, and takes the last one where several are equal.
pub proof fn lemma_removed(entries: Seq<Seq<char>>, candidate: Candidate)
    requires
        candidate.is_directory,
    ensures
        removed(entries, candidate) is Ok <==> entries.contains(candidate.path@),
        removed(entries, candidate) is Err ==> removed(entries, candidate) == Err::<
            Seq<Seq<char>>,
            PathErrorView,
        >(PathErrorView::NotOnPath),
        removed(entries, candidate) matches Ok(after) ==> {
            let p = last_position(entries, candidate.path@);
            &&& 0 <= p < entries.len()
            &&& entries[p] == candidate.path@
            &&& after.len() == entries.len() - 1
            &&& forall|j: int| 0 <= j < p ==> after[j] == entries[j]
            &&& forall|j: int| p <= j < after.len() ==> after[j] == entries[j + 1]
            &&& forall|j: int| p <= j < after.len() ==> after[j] != candidate.path@
        },
{
    lemma_last_position(entries, candidate.path@);
}

/// Where a directory is given it decides alone: the outcome is that of the
/// removal by directory, whatever index stands beside it.
pub proof fn lemma_directory_takes_precedence(
    entries: Seq<Seq<char>>,
    candidate: Candidate,
    index: Option<usize>,
)
    ensures
        removed_either(entries, Some(candidate), index) == removed(entries, candidate),
        removed_either(entries, Some(candidate), index) == removed_either(
            entries,
            Some(candidate),
            None,
        ),
{
}

/// Removing the entry at `index` and then adding a directory puts the
/// directory at the end, not where the removed entry stood. The list is
/// the same as before only where every entry from `index` on equals the
/// canonical form of the directory.
pub proof fn lemma_remove_then_add(entries: Seq<Seq<char>>, index: usize, candidate: Candidate)
    requires
        index < entries.len(),
        candidate.is_directory,
        candidate.canonical is Some,
    ensures
        removed_at(entries, index) matches Ok(between) && added(between, candidate) matches Ok(
            after,
        ) && {
            let full = candidate.canonical->0@;
            &&& after == entries.remove(index as int).push(full)
            &&& after.len() == entries.len()
            &&& after.last() == full
            &&& forall|j: int| 0 <= j < index ==> after[j] == entries[j]
            &&& forall|j: int| index <= j < entries.len() - 1 ==> after[j] == entries[j + 1]
            &&& after != entries <==> exists|k: int|
                index <= k < entries.len() && #[trigger] entries[k] != full
        },
{
    let full = candidate.canonical->0@;
    let after = entries.remove(index as int).push(full);
    if forall|k: int| index <= k < entries.len() ==> #[trigger] entries[k] == full {
        assert(after =~= entries);
    } else {
        let k = choose|k: int| index <= k < entries.len() && #[trigger] entries[k] != full;
        if after == entries {
            lemma_equal_from(entries, index as int, full, k);
        }
    }
}

/// In a list that removing the entry at `index` and appending `full` leaves
/// as it was, every entry from `index` on equals `full`.
proof fn lemma_equal_from(entries: Seq<Seq<char>>, index: int, full: Seq<char>, k: int)
    requires
        0 <= index <= k < entries.len(),
        entries.remove(index).push(full) == entries,
    ensures
        entries[k] == full,
    decreases entries.len() - k,
{
    if k < entries.len() - 1 {
        lemma_equal_from(entries, index, full, k + 1);
    }
}

/// Taking an entry out of a list whose entries hold no delimiter leaves
/// such a list.
pub proof fn lemma_remove_delimiter_free(entries: Seq<Seq<char>>, index: int, delimiter: char)
    requires
        0 <= index < entries.len(),
        all_delimiter_free(entries, delimiter),
    ensures
        all_delimiter_free(entries.remove(index), delimiter),
{
}

/// A list with one more entry at its end holds no delimiter exactly where
/// neither the list nor the new entry holds one.
pub proof fn lemma_push_delimiter_free(entries: Seq<Seq<char>>, entry: Seq<char>, delimiter: char)
    ensures
        all_delimiter_free(entries.push(entry), delimiter) <==> all_delimiter_free(
            entries,
            delimiter,
        ) && delimiter_free(entry, delimiter),
{
    let after = entries.push(entry);
    if all_delimiter_free(after, delimiter) {
        assert(after[entries.len() as int] == entry);
        assert forall|i: int| 0 <= i < entries.len() implies delimiter_free(
            #[trigger] entries[i],
            delimiter,
        ) by {
            assert(after[i] == entries[i]);
        }
    }
}

/// `last_position` is -1 exactly where no entry equals the target; otherwise
/// it is the position of an entry that equals it, and no later entry does.
pub proof fn lemma_last_position(entries: Seq<Seq<char>>, target: Seq<char>)
    ensures
        -1 <= last_position(entries, target) < entries.len(),
        last_position(entries, target) == -1 <==> !entries.contains(target),
        last_position(entries, target) >= 0 ==> entries[last_position(entries, target)] == target,
        forall|j: int| last_position(entries, target) < j < entries.len() ==> entries[j] != target,
    decreases entries.len(),
{
    if entries.len() > 0 && entries.last() != target {
        let front = entries.drop_last();
        lemma_last_position(front, target);
        let p = last_position(front, target);
        assert forall|j: int| p < j < entries.len() implies entries[j] != target by {
            if j < front.len() {
                assert(front[j] == entries[j]);
            }
        }
    }
}

} // verus!
