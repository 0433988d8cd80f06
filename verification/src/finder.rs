//! Finding the files on a path list whose names match a pattern.

use regex::Regex;
use vstd::prelude::*;
use crate::error::{PathError, PathErrorView};
use crate::path::SystemPath;

verus! {

/// A compiled regular expression of the `regex` crate. Nothing of its inside
/// is known here.
#[verifier::external_type_specification]
#[verifier::external_body]
pub struct ExRegex(regex::Regex);

/// The error of the `regex` crate for a pattern that cannot be compiled.
#[verifier::external_type_specification]
#[verifier::external_body]
pub struct ExRegexError(regex::Error);

/// Whether `Regex::new` compiles `pattern`: whether the pattern is well
/// formed and its program stays within the crate's size limit.
pub uninterp spec fn regex_compiles(pattern: Seq<char>) -> bool;

/// Whether `Regex::is_match`, asked of the expression that `pattern`
/// compiles to, finds a match anywhere in `haystack`.
pub uninterp spec fn regex_finds(pattern: Seq<char>, haystack: Seq<char>) -> bool;

/// `Regex::new` compiles the pattern it is given with the crate's default
/// settings, so whether it succeeds is a function of the pattern alone. It
/// returns an error for a pattern it does not accept and does not panic. The
/// crate documents the empty pattern as valid.
pub assume_specification[ Regex::new ](re: &str) -> (r: Result<Regex, regex::Error>)
    ensures
        r is Ok <==> regex_compiles(re@),
        re@.len() == 0 ==> r is Ok,
;

/// A pattern for file names: a regular expression in its written form and
/// compiled. The compiled expression is always what the written form
/// compiles to; `Pattern::new` alone makes a pattern, and nothing changes
/// one.
#[derive(Debug)]
pub struct Pattern {
    source: String,
    regex: Regex,
}

impl View for Pattern {
    type V = Seq<char>;

    /// The pattern as it is written.
    closed spec fn view(&self) -> Seq<char> {
        self.source@
    }
}

/// `Regex::is_match` on the compiled expression of `pattern`, which is what
/// the written form of the pattern compiles to. It answers whether the
/// expression matches anywhere in the haystack; the search starts at the
/// beginning of the haystack, where it cannot panic, and the answer is a
/// function of the expression and the haystack alone. The crate documents
/// that the empty pattern matches the empty string, which stands at the
/// beginning of every haystack.
#[verifier::external_body]
fn is_match(pattern: &Pattern, haystack: &str) -> (matched: bool)
    ensures
        matched == regex_finds(pattern@, haystack@),
        pattern@.len() == 0 ==> matched,
{
    pattern.regex.is_match(haystack)
}

/// `std::path::Path::join`: `name` adjoined to `directory` by the path rules
/// of the platform the library runs on, as text. The rules belong to that
/// platform, so nothing is said of the path here.
#[verifier::external_body]
fn join_path(directory: &str, name: &str) -> String {
    std::path::Path::new(directory).join(name).display().to_string()
}

/// A file that a search has found: the directory of the list it lies in and
/// its name in that directory.
#[derive(Debug, PartialEq, Eq)]
pub struct Found {
    /// The directory, as the list holds it.
    pub directory: String,
    /// The name of the file within the directory.
    pub name: String,
}

impl View for Found {
    type V = (Seq<char>, Seq<char>);

    /// The directory and the name.
    open spec fn view(&self) -> (Seq<char>, Seq<char>) {
        (self.directory@, self.name@)
    }
}

impl DeepView for Found {
    type V = (Seq<char>, Seq<char>);

    open spec fn deep_view(&self) -> (Seq<char>, Seq<char>) {
        self@
    }
}

/// The text of a pattern that may be absent: no pattern is the empty
/// pattern.
pub open spec fn pattern_text(pattern: Option<String>) -> Seq<char> {
    match pattern {
        Some(text) => text@,
        None => Seq::empty(),
    }
}

/// What compiling the written form `source` gives: the pattern, or the error
/// that names what was refused.
pub open spec fn compilation(source: Seq<char>) -> Result<Seq<char>, PathErrorView> {
    if regex_compiles(source) {
        Ok(source)
    } else {
        Err(PathErrorView::InvalidPattern { pattern: source })
    }
}

/// The names that are kept: each name whose position holds `true` in
/// `keep`, in the order of `names`. A name without a verdict is not kept.
pub open spec fn selected(names: Seq<Seq<char>>, keep: Seq<bool>) -> Seq<Seq<char>>
    decreases names.len(),
{
    if names.len() == 0 {
        Seq::empty()
    } else {
        let front = selected(names.drop_last(), keep);
        if names.len() <= keep.len() && keep[names.len() - 1] {
            front.push(names.last())
        } else {
            front
        }
    }
}

/// The test that `pattern` puts a name to: whether it matches anywhere in
/// it.
pub open spec fn accepts(pattern: Seq<char>) -> spec_fn(Seq<char>) -> bool {
    |name: Seq<char>| regex_finds(pattern, name)
}

/// The test that every name passes.
pub open spec fn any_name() -> spec_fn(Seq<char>) -> bool {
    |name: Seq<char>| true
}

/// The names that `pattern` matches, in the order of `names`.
pub open spec fn matching(pattern: Seq<char>, names: Seq<Seq<char>>) -> Seq<Seq<char>> {
    names.filter(accepts(pattern))
}

/// Each of `names` as a file found in `directory`, in the order of `names`.
pub open spec fn files_in(directory: Seq<char>, names: Seq<Seq<char>>) -> Seq<
    (Seq<char>, Seq<char>),
> {
    Seq::new(names.len(), |i: int| (directory, names[i]))
}

/// The listing of the directory at `position`: the names of its entries, or
/// nothing where it could not be listed or no listing was supplied for it.
pub open spec fn listing_at(listings: Seq<Option<Seq<Seq<char>>>>, position: int) -> Option<
    Seq<Seq<char>>,
> {
    if 0 <= position < listings.len() {
        listings[position]
    } else {
        None
    }
}

/// Whether each of the first `n` directories has a listing.
pub open spec fn all_listed(listings: Seq<Option<Seq<Seq<char>>>>, n: int) -> bool {
    forall|j: int| 0 <= j < n ==> (#[trigger] listing_at(listings, j)) is Some
}

/// The position of the directory that is to be listed next, given the
/// listings gathered so far: the first directory without one, as long as
/// every directory before it could be listed. There is none once every
/// directory has its listing or one could not be listed.
pub open spec fn next_position(
    entries: Seq<Seq<char>>,
    listings: Seq<Option<Seq<Seq<char>>>>,
) -> Option<int> {
    if listings.len() < entries.len() && all_listed(listings, listings.len() as int) {
        Some(listings.len() as int)
    } else {
        None
    }
}

/// What a search of `entries` finds that keeps the names passing `keep`:
/// for each directory in order, the names in its listing that pass, in the
/// order of the listing, each with the directory. The first directory
/// without a listing ends the search with an error, whatever the directories
/// after it hold.
pub open spec fn found_by(
    keep: spec_fn(Seq<char>) -> bool,
    entries: Seq<Seq<char>>,
    listings: Seq<Option<Seq<Seq<char>>>>,
) -> Result<Seq<(Seq<char>, Seq<char>)>, PathErrorView>
    decreases entries.len(),
{
    if entries.len() == 0 {
        Ok(Seq::empty())
    } else {
        let last = entries.len() - 1;
        match found_by(keep, entries.drop_last(), listings) {
            Err(error) => Err(error),
            Ok(files) => match listing_at(listings, last) {
                Some(names) => Ok(files + files_in(entries[last], names.filter(keep))),
                None => Err(PathErrorView::Listing { directory: entries[last] }),
            },
        }
    }
}

/// What a search of `entries` for the names that `pattern` matches finds.
pub open spec fn found(
    pattern: Seq<char>,
    entries: Seq<Seq<char>>,
    listings: Seq<Option<Seq<Seq<char>>>>,
) -> Result<Seq<(Seq<char>, Seq<char>)>, PathErrorView> {
    found_by(accepts(pattern), entries, listings)
}

/// What a search of `entries` finds that keeps every name.
pub open spec fn listed(entries: Seq<Seq<char>>, listings: Seq<Option<Seq<Seq<char>>>>) -> Result<
    Seq<(Seq<char>, Seq<char>)>,
    PathErrorView,
> {
    found_by(any_name(), entries, listings)
}

/// What a search for a pattern in its written form finds. A pattern that
/// does not compile ends the search before any listing is looked at.
pub open spec fn search(
    source: Seq<char>,
    entries: Seq<Seq<char>>,
    listings: Seq<Option<Seq<Seq<char>>>>,
) -> Result<Seq<(Seq<char>, Seq<char>)>, PathErrorView> {
    match compilation(source) {
        Ok(pattern) => found(pattern, entries, listings),
        Err(error) => Err(error),
    }
}

/// Whether a search ended as `expected`: with the expected files, or with
/// the expected error.
pub open spec fn reported(
    r: Result<Vec<Found>, PathError>,
    expected: Result<Seq<(Seq<char>, Seq<char>)>, PathErrorView>,
) -> bool {
    match expected {
        Ok(files) => r matches Ok(found) && found.deep_view() == files,
        Err(error) => r matches Err(e) && e@ == error,
    }
}

impl Pattern {
    /// Compiles the written form `source` of a pattern. The empty pattern
    /// always compiles.
    pub fn new(source: &str) -> (r: Result<Pattern, PathError>)
        ensures
            match compilation(source@) {
                Ok(pattern) => r matches Ok(compiled) && compiled@ == pattern,
                Err(error) => r matches Err(e) && e@ == error,
            },
            source@.len() == 0 ==> r is Ok,
    {
        match Regex::new(source) {
            Ok(regex) => Ok(Pattern { source: source.to_owned(), regex }),
            Err(_) => Err(PathError::InvalidPattern { pattern: source.to_owned() }),
        }
    }

    /// The pattern as it is written.
    pub fn source(&self) -> (source: &String)
        ensures
            source@ == self@,
    {
        &self.source
    }
}

impl Found {
    /// The path of the file: its name joined to its directory, as the
    /// platform joins paths.
    pub fn path(&self) -> String {
        join_path(self.directory.as_str(), self.name.as_str())
    }
}

impl SystemPath {
    /// Compiles `pattern`; no pattern stands for the empty pattern, which
    /// always compiles.
    pub fn compile(pattern: &Option<String>) -> (r: Result<Pattern, PathError>)
        ensures
            match compilation(pattern_text(*pattern)) {
                Ok(text) => r matches Ok(compiled) && compiled@ == text,
                Err(error) => r matches Err(e) && e@ == error,
            },
            pattern_text(*pattern).len() == 0 ==> r is Ok,
    {
        proof {
            reveal_strlit("");
            assert(""@ =~= Seq::<char>::empty());
        }
        match pattern {
            Some(text) => Pattern::new(text.as_str()),
            None => Pattern::new(""),
        }
    }

    /// Keeps each name whose position holds `true` in `keep`.
    pub fn select(names: &Vec<String>, keep: &Vec<bool>) -> (kept: Vec<String>)
        ensures
            kept.deep_view() == selected(names.deep_view(), keep@),
    {
        let ghost all = names.deep_view();
        let mut kept: Vec<String> = Vec::new();
        let mut i: usize = 0;
        while i < names.len()
            invariant
                i <= names.len(),
                all == names.deep_view(),
                kept.deep_view() == selected(all.take(i as int), keep@),
            decreases names.len() - i,
        {
            proof {
                let longer = all.take(i + 1);
                assert(longer.drop_last() =~= all.take(i as int));
            }
            if i < keep.len() && keep[i] {
                kept.push(names[i].clone());
            }
            i += 1;
        }
        assert(all.take(i as int) =~= all);
        kept
    }

    /// The names among `names` that `pattern` matches, in their order. The
    /// empty pattern matches every name.
    pub fn get_file_matches(pattern: &Pattern, names: &Vec<String>) -> (results: Vec<String>)
        ensures
            results.deep_view() == matching(pattern@, names.deep_view()),
            pattern@.len() == 0 ==> results.deep_view() == names.deep_view(),
    {
        let ghost all = names.deep_view();
        let mut keep: Vec<bool> = Vec::new();
        let mut i: usize = 0;
        while i < names.len()
            invariant
                i <= names.len(),
                all == names.deep_view(),
                keep@.len() == i,
                forall|j: int| 0 <= j < i ==> keep@[j] == regex_finds(pattern@, #[trigger] all[j]),
                pattern@.len() == 0 ==> forall|j: int| 0 <= j < i ==> #[trigger] keep@[j],
            decreases names.len() - i,
        {
            let verdict = is_match(pattern, names[i].as_str());
            keep.push(verdict);
            i += 1;
        }
        proof {
            lemma_selected_by_test(all, keep@, accepts(pattern@));
            if pattern@.len() == 0 {
                lemma_selected_by_test(all, keep@, any_name());
                lemma_filter_by_any_name(all);
            }
        }
        SystemPath::select(names, &keep)
    }

    /// The directory to list next in a search, given the listings gathered
    /// so far, or nothing where the search needs no further listing: the
    /// directories are listed in order, and none is listed after one that
    /// could not be.
    pub fn next_directory(&self, listings: &Vec<Option<Vec<String>>>) -> (next: Option<&String>)
        ensures
            match next_position(self@, listings.deep_view()) {
                Some(position) => next matches Some(directory) && directory@ == self@[position],
                None => next is None,
            },
    {
        let directories = self.directories();
        if listings.len() >= directories.len() {
            return None;
        }
        let mut i: usize = 0;
        while i < listings.len()
            invariant
                i <= listings.len(),
                all_listed(listings.deep_view(), i as int),
            decreases listings.len() - i,
        {
            if listings[i].is_none() {
                assert(listing_at(listings.deep_view(), i as int) is None);
                return None;
            }
            i += 1;
        }
        Some(&directories[listings.len()])
    }

    /// Searches the directories of the list, in order, for files whose names
    /// `pattern` matches. `listings` holds, for each directory of the list by
    /// position, the names of its entries, or nothing where it could not be
    /// listed. The empty pattern finds every name.
    pub fn find_matches(&self, pattern: &Pattern, listings: &Vec<Option<Vec<String>>>) -> (r:
        Result<Vec<Found>, PathError>)
        ensures
            reported(r, found(pattern@, self@, listings.deep_view())),
            pattern@.len() == 0 ==> reported(r, listed(self@, listings.deep_view())),
    {
        let directories = self.directories();
        let ghost entries = self@;
        let ghost lists = listings.deep_view();
        let mut files: Vec<Found> = Vec::new();
        let mut i: usize = 0;
        assert(files.deep_view() =~= Seq::<(Seq<char>, Seq<char>)>::empty());
        while i < directories.len()
            invariant
                i <= directories.len(),
                entries == directories.deep_view(),
                entries == self@,
                lists == listings.deep_view(),
                found_by(accepts(pattern@), entries.take(i as int), lists) == Ok::<
                    Seq<(Seq<char>, Seq<char>)>,
                    PathErrorView,
                >(files.deep_view()),
                pattern@.len() == 0 ==> found_by(any_name(), entries.take(i as int), lists) == Ok::<
                    Seq<(Seq<char>, Seq<char>)>,
                    PathErrorView,
                >(files.deep_view()),
            decreases directories.len() - i,
        {
            proof {
                let longer = entries.take(i + 1);
                assert(longer.drop_last() =~= entries.take(i as int));
            }
            if i >= listings.len() {
                proof {
                    lemma_found_by_fails(accepts(pattern@), entries, lists, i + 1);
                    lemma_found_by_fails(any_name(), entries, lists, i + 1);
                }
                return Err(PathError::Listing { directory: directories[i].clone() });
            }
            match &listings[i] {
                None => {
                    proof {
                        lemma_found_by_fails(accepts(pattern@), entries, lists, i + 1);
                        lemma_found_by_fails(any_name(), entries, lists, i + 1);
                    }
                    return Err(PathError::Listing { directory: directories[i].clone() });
                },
                Some(names) => {
                    let matches = SystemPath::get_file_matches(pattern, names);
                    let mut here = SystemPath::place(&directories[i], &matches);
                    let ghost before = files.deep_view();
                    let ghost more = here.deep_view();
                    files.append(&mut here);
                    assert(files.deep_view() =~= before + more);
                    proof {
                        lemma_filter_by_any_name(names.deep_view());
                    }
                },
            }
            i += 1;
        }
        assert(entries.take(i as int) =~= entries);
        Ok(files)
    }

    /// Compiles `pattern` and searches the list with it: the files whose
    /// paths a search prints, or the error that ends it. A pattern that does
    /// not compile is refused before any listing is looked at. No pattern,
    /// like the empty pattern, finds every name.
    pub fn find_and_print(
        &self,
        pattern: &Option<String>,
        listings: &Vec<Option<Vec<String>>>,
    ) -> (r: Result<Vec<Found>, PathError>)
        ensures
            reported(r, search(pattern_text(*pattern), self@, listings.deep_view())),
            pattern_text(*pattern).len() == 0 ==> reported(
                r,
                listed(self@, listings.deep_view()),
            ),
    {
        match SystemPath::compile(pattern) {
            Ok(compiled) => self.find_matches(&compiled, listings),
            Err(error) => Err(error),
        }
    }

    /// Each of `names` as a file found in `directory`.
    fn place(directory: &String, names: &Vec<String>) -> (files: Vec<Found>)
        ensures
            files.deep_view() == files_in(directory@, names.deep_view()),
    {
        let mut files: Vec<Found> = Vec::new();
        let mut i: usize = 0;
        while i < names.len()
            invariant
                i <= names.len(),
                files.deep_view() == files_in(directory@, names.deep_view()).take(i as int),
            decreases names.len() - i,
        {
            let ghost before = files.deep_view();
            let file = Found { directory: directory.clone(), name: names[i].clone() };
            files.push(file);
            assert(files.deep_view() =~= before.push(file@));
            i += 1;
        }
        files
    }
}

/// A pattern that does not compile ends the search with the same error
/// whatever the list and the listings hold.
pub proof fn lemma_invalid_pattern_fails(
    source: Seq<char>,
    entries: Seq<Seq<char>>,
    listings: Seq<Option<Seq<Seq<char>>>>,
)
    requires
        !regex_compiles(source),
    ensures
        search(source, entries, listings) == Err::<Seq<(Seq<char>, Seq<char>)>, PathErrorView>(
            PathErrorView::InvalidPattern { pattern: source },
        ),
{
}

/// A search succeeds exactly where every directory of the list has a
/// listing. Where one has none, the error names the first such directory.
pub proof fn lemma_found_needs_every_listing(
    keep: spec_fn(Seq<char>) -> bool,
    entries: Seq<Seq<char>>,
    listings: Seq<Option<Seq<Seq<char>>>>,
)
    ensures
        found_by(keep, entries, listings) is Ok <==> all_listed(listings, entries.len() as int),
        found_by(keep, entries, listings) matches Err(error) ==> exists|i: int|
            {
                &&& 0 <= i < entries.len()
                &&& (#[trigger] listing_at(listings, i)) is None
                &&& all_listed(listings, i)
                &&& error == (PathErrorView::Listing { directory: entries[i] })
            },
    decreases entries.len(),
{
    if entries.len() > 0 {
        let front = entries.drop_last();
        let last = entries.len() - 1;
        lemma_found_needs_every_listing(keep, front, listings);
        match found_by(keep, front, listings) {
            Err(error) => {
                let i = choose|i: int|
                    {
                        &&& 0 <= i < front.len()
                        &&& (#[trigger] listing_at(listings, i)) is None
                        &&& all_listed(listings, i)
                        &&& error == (PathErrorView::Listing { directory: front[i] })
                    };
                assert(front[i] == entries[i]);
                assert(listing_at(listings, i) is None);
            },
            Ok(files) => {
                if listing_at(listings, last) is None {
                    assert(all_listed(listings, last));
                }
            },
        }
    }
}

/// Once no directory is left to list, listings that are added make no
/// difference to what the search finds.
pub proof fn lemma_search_is_settled(
    keep: spec_fn(Seq<char>) -> bool,
    entries: Seq<Seq<char>>,
    listings: Seq<Option<Seq<Seq<char>>>>,
    more: Seq<Option<Seq<Seq<char>>>>,
)
    requires
        next_position(entries, listings) is None,
    ensures
        found_by(keep, entries, listings + more) == found_by(keep, entries, listings),
{
    let longer = listings + more;
    assert forall|i: int| 0 <= i < listings.len() implies listing_at(longer, i) == listing_at(
        listings,
        i,
    ) by {
        assert(longer[i] == listings[i]);
    }
    if listings.len() >= entries.len() {
        lemma_found_by_agrees(keep, entries, listings, longer);
    } else {
        let j = choose|j: int|
            0 <= j < listings.len() && (#[trigger] listing_at(listings, j)) is None;
        lemma_found_needs_every_listing(keep, entries, listings);
        lemma_found_needs_every_listing(keep, entries, longer);
        assert(listing_at(longer, j) is None);
        let error = found_by(keep, entries, listings)->Err_0;
        let other = found_by(keep, entries, longer)->Err_0;
        let i = choose|i: int|
            {
                &&& 0 <= i < entries.len()
                &&& (#[trigger] listing_at(listings, i)) is None
                &&& all_listed(listings, i)
                &&& error == (PathErrorView::Listing { directory: entries[i] })
            };
        let o = choose|o: int|
            {
                &&& 0 <= o < entries.len()
                &&& (#[trigger] listing_at(longer, o)) is None
                &&& all_listed(longer, o)
                &&& other == (PathErrorView::Listing { directory: entries[o] })
            };
        assert(i <= j && o <= j);
        assert(listing_at(longer, i) == listing_at(listings, i));
        assert(listing_at(longer, o) == listing_at(listings, o));
        assert(i == o);
    }
}

/// A search finds the same with two sets of listings that agree on every
/// directory of the list.
pub proof fn lemma_found_by_agrees(
    keep: spec_fn(Seq<char>) -> bool,
    entries: Seq<Seq<char>>,
    listings: Seq<Option<Seq<Seq<char>>>>,
    others: Seq<Option<Seq<Seq<char>>>>,
)
    requires
        forall|i: int| 0 <= i < entries.len() ==> listing_at(listings, i) == listing_at(others, i),
    ensures
        found_by(keep, entries, listings) == found_by(keep, entries, others),
    decreases entries.len(),
{
    if entries.len() > 0 {
        lemma_found_by_agrees(keep, entries.drop_last(), listings, others);
    }
}

/// The files of a search come directory by directory in the order of the
/// list: a search of two directories gives the files of the first and then
/// the files of the second, each the names of the listing that pass, in the
/// order of the listing.
pub proof fn lemma_found_in_order(
    keep: spec_fn(Seq<char>) -> bool,
    first: Seq<char>,
    second: Seq<char>,
    first_names: Seq<Seq<char>>,
    second_names: Seq<Seq<char>>,
)
    ensures
        found_by(keep, seq![first, second], seq![Some(first_names), Some(second_names)]) == Ok::<
            Seq<(Seq<char>, Seq<char>)>,
            PathErrorView,
        >(files_in(first, first_names.filter(keep)) + files_in(second, second_names.filter(keep))),
{
    let entries = seq![first, second];
    let listings = seq![Some(first_names), Some(second_names)];
    let front = entries.drop_last();
    let first_files = files_in(first, first_names.filter(keep));
    assert(found_by(keep, front.drop_last(), listings) == Ok::<
        Seq<(Seq<char>, Seq<char>)>,
        PathErrorView,
    >(Seq::empty()));
    assert(found_by(keep, front, listings) == Ok::<Seq<(Seq<char>, Seq<char>)>, PathErrorView>(
        Seq::<(Seq<char>, Seq<char>)>::empty() + first_files,
    ));
}

/// Keeping every name keeps the listing as it is.
pub proof fn lemma_filter_by_any_name(names: Seq<Seq<char>>)
    ensures
        names.filter(any_name()) == names,
    decreases names.len(),
{
    reveal(Seq::filter);
    if names.len() > 0 {
        lemma_filter_by_any_name(names.drop_last());
    }
}

/// Selecting by verdicts that agree with a test keeps the names that pass
/// the test.
proof fn lemma_selected_by_test(
    names: Seq<Seq<char>>,
    keep: Seq<bool>,
    test: spec_fn(Seq<char>) -> bool,
)
    requires
        names.len() <= keep.len(),
        forall|i: int| 0 <= i < names.len() ==> keep[i] == test(#[trigger] names[i]),
    ensures
        selected(names, keep) == names.filter(test),
    decreases names.len(),
{
    reveal(Seq::filter);
    if names.len() > 0 {
        lemma_selected_by_test(names.drop_last(), keep, test);
    }
}

/// A search that has failed on the first `n` directories fails in the same
/// way on the whole list.
proof fn lemma_found_by_fails(
    keep: spec_fn(Seq<char>) -> bool,
    entries: Seq<Seq<char>>,
    listings: Seq<Option<Seq<Seq<char>>>>,
    n: int,
)
    requires
        0 <= n <= entries.len(),
        found_by(keep, entries.take(n), listings) is Err,
    ensures
        found_by(keep, entries, listings) == found_by(keep, entries.take(n), listings),
    decreases entries.len() - n,
{
    if n == entries.len() {
        assert(entries.take(n) =~= entries);
    } else {
        let longer = entries.take(n + 1);
        assert(longer.drop_last() =~= entries.take(n));
        lemma_found_by_fails(keep, entries, listings, n + 1);
    }
}

} // verus!
