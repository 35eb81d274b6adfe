//! Completion candidates for the line being edited: entries of the directory
//! the buffer points into, or executables found on PATH.
use vstd::prelude::*;
use vstd::relations::sorted_by;
use crate::text::{dedup_adjacent, dedup_texts, sort_texts, starts_with, text_order, texts};

verus! {

/// What the completion engine needs to know of one directory entry.
pub struct DirEntryInfo {
    pub name: String,
    pub is_dir: bool,
    pub is_file: bool,
    /// Unix permission bits of the entry.
    pub mode: u32,
}

/// Index of the last occurrence of `c` in `s`, or -1.
pub open spec fn last_index_of(s: Seq<char>, c: char) -> int
    decreases s.len(),
{
    if s.len() == 0 {
        -1
    } else if s.last() == c {
        s.len() - 1
    } else {
        last_index_of(s.drop_last(), c)
    }
}

/// The directory that completion searches: everything up to and including
/// the last `/`, or `.` when there is none.
pub open spec fn search_dir(buffer: Seq<char>) -> Seq<char> {
    let k = last_index_of(buffer, '/');
    if k < 0 {
        seq!['.']
    } else {
        buffer.subrange(0, k + 1)
    }
}

/// The part of the buffer after the last `/`, which entries must start with.
pub open spec fn search_prefix(buffer: Seq<char>) -> Seq<char> {
    let k = last_index_of(buffer, '/');
    if k < 0 {
        buffer
    } else {
        buffer.subrange(k + 1, buffer.len() as int)
    }
}

/// An entry as it is offered: directories carry a trailing `/`.
pub open spec fn entry_candidate(e: DirEntryInfo) -> Seq<char> {
    if e.is_dir {
        e.name@.push('/')
    } else {
        e.name@
    }
}

/// A regular file with at least one execute bit.
pub open spec fn executable_entry(e: DirEntryInfo) -> bool {
    e.is_file && e.mode & 0o111 != 0
}

/// The entries of a directory listing whose names start with `prefix`, in
/// listing order, as they are offered.
pub open spec fn listing_matches(prefix: Seq<char>, es: Seq<DirEntryInfo>) -> Seq<Seq<char>>
    decreases es.len(),
{
    if es.len() == 0 {
        Seq::empty()
    } else {
        let rest = listing_matches(prefix, es.drop_last());
        if prefix.is_prefix_of(es.last().name@) {
            rest.push(entry_candidate(es.last()))
        } else {
            rest
        }
    }
}

/// The names of the executable entries whose names start with `prefix`.
pub open spec fn executable_matches(prefix: Seq<char>, es: Seq<DirEntryInfo>) -> Seq<Seq<char>>
    decreases es.len(),
{
    if es.len() == 0 {
        Seq::empty()
    } else {
        let rest = executable_matches(prefix, es.drop_last());
        if prefix.is_prefix_of(es.last().name@) && executable_entry(es.last()) {
            rest.push(es.last().name@)
        } else {
            rest
        }
    }
}

/// Whether PATH is searched: the buffer is non-empty, holds no `/`, and no
/// entry of the current directory matches.
pub open spec fn falls_back_to_path(buffer: Seq<char>, listing: Seq<DirEntryInfo>) -> bool {
    &&& buffer.len() > 0
    &&& search_dir(buffer) == seq!['.']
    &&& listing_matches(search_prefix(buffer), listing).len() == 0
}

/// The candidates offered for `buffer`, given the listing of its search
/// directory and the entries of the PATH directories, before sorting.
pub open spec fn unsorted_candidates(
    buffer: Seq<char>,
    listing: Seq<DirEntryInfo>,
    path_listing: Seq<DirEntryInfo>,
) -> Seq<Seq<char>> {
    if buffer.len() == 0 {
        Seq::empty()
    } else if falls_back_to_path(buffer, listing) {
        executable_matches(search_prefix(buffer), path_listing)
    } else {
        listing_matches(search_prefix(buffer), listing)
    }
}

/// The candidates offered for `buffer`: sorted, each name once (two PATH
/// directories may hold the same program).
pub open spec fn candidates(
    buffer: Seq<char>,
    listing: Seq<DirEntryInfo>,
    path_listing: Seq<DirEntryInfo>,
) -> Seq<Seq<char>> {
    dedup_adjacent(unsorted_candidates(buffer, listing, path_listing).sort_by(text_order()))
}

/// Whether the entry is a regular file with an execute bit set.
pub fn is_executable(entry: &DirEntryInfo) -> (r: bool)
    ensures
        r == executable_entry(*entry),
{
    entry.is_file && entry.mode & 0o111 != 0
}

/// Splits the buffer into the directory to search and the prefix to match.
pub fn search_location(buffer: &str) -> (r: (String, String))
    ensures
        r.0@ == search_dir(buffer@),
        r.1@ == search_prefix(buffer@),
{
    let n = buffer.unicode_len();
    let mut i: usize = n;
    assert(buffer@.subrange(0, n as int) =~= buffer@);
    while i > 0
        invariant
            i <= n,
            n == buffer@.len(),
            last_index_of(buffer@, '/') == last_index_of(buffer@.subrange(0, i as int), '/'),
        decreases i,
    {
        if buffer.get_char(i - 1) == '/' {
            let dir = buffer.substring_char(0, i).to_owned();
            let prefix = buffer.substring_char(i, n).to_owned();
            return (dir, prefix);
        }
        assert(buffer@.subrange(0, i as int).drop_last() =~= buffer@.subrange(0, i - 1));
        i = i - 1;
    }
    let here = String::from_str(".");
    proof {
        reveal_strlit(".");
        assert(buffer@.subrange(0, 0) =~= Seq::<char>::empty());
    }
    (here, buffer.to_owned())
}

/// The entries of `listing` whose names start with `prefix`, in listing
/// order; directories carry a trailing `/`.
pub fn listing_candidates(prefix: &str, listing: &Vec<DirEntryInfo>) -> (r: Vec<String>)
    ensures
        texts(r@) == listing_matches(prefix@, listing@),
{
    let mut out: Vec<String> = Vec::new();
    let mut i: usize = 0;
    assert(listing@.subrange(0, 0) =~= Seq::<DirEntryInfo>::empty());
    while i < listing.len()
        invariant
            i <= listing.len(),
            texts(out@) == listing_matches(prefix@, listing@.subrange(0, i as int)),
        decreases listing.len() - i,
    {
        let e = &listing[i];
        assert(listing@.subrange(0, i + 1).drop_last() =~= listing@.subrange(0, i as int));
        if starts_with(e.name.as_str(), prefix) {
            let mut c = e.name.clone();
            if e.is_dir {
                c.push('/');
            }
            out.push(c);
            assert(texts(out@) =~= texts(out@.drop_last()).push(c@));
        }
        i = i + 1;
    }
    assert(listing@.subrange(0, i as int) =~= listing@);
    out
}

/// The names of the executable entries of `path_listing` that start with
/// `prefix`, in listing order.
pub fn executable_candidates(prefix: &str, path_listing: &Vec<DirEntryInfo>) -> (r: Vec<String>)
    ensures
        texts(r@) == executable_matches(prefix@, path_listing@),
{
    let mut out: Vec<String> = Vec::new();
    let mut i: usize = 0;
    assert(path_listing@.subrange(0, 0) =~= Seq::<DirEntryInfo>::empty());
    while i < path_listing.len()
        invariant
            i <= path_listing.len(),
            texts(out@) == executable_matches(prefix@, path_listing@.subrange(0, i as int)),
        decreases path_listing.len() - i,
    {
        let e = &path_listing[i];
        assert(path_listing@.subrange(0, i + 1).drop_last() =~= path_listing@.subrange(0, i as int));
        if starts_with(e.name.as_str(), prefix) && is_executable(e) {
            let c = e.name.clone();
            out.push(c);
            assert(texts(out@) =~= texts(out@.drop_last()).push(c@));
        }
        i = i + 1;
    }
    assert(path_listing@.subrange(0, i as int) =~= path_listing@);
    out
}

/// Whether completing `buffer` must look through the PATH directories, given
/// the listing of the current directory. Only then are `path_listing`'s
/// contents read by `completion_candidates`.
pub fn needs_path_search(buffer: &str, listing: &Vec<DirEntryInfo>) -> (r: bool)
    ensures
        r == falls_back_to_path(buffer@, listing@),
{
    if buffer.unicode_len() == 0 {
        return false;
    }
    let (dir, prefix) = search_location(buffer);
    let found = listing_candidates(prefix.as_str(), listing);
    proof {
        reveal_strlit(".");
        assert("."@ =~= seq!['.']);
        assert(texts(found@).len() == found@.len());
    }
    crate::text::text_eq(dir.as_str(), ".") && found.len() == 0
}

/// The completion candidates for `buffer`, sorted ascending, each name once.
/// `listing` is the listing of the buffer's search directory; `path_listing`
/// holds the entries of the PATH directories and is read only when
/// `needs_path_search` holds.
pub fn completion_candidates(
    buffer: &str,
    listing: &Vec<DirEntryInfo>,
    path_listing: &Vec<DirEntryInfo>,
) -> (r: Vec<String>)
    ensures
        texts(r@) == candidates(buffer@, listing@, path_listing@),
        sorted_by(texts(r@), text_order()),
        texts(r@).no_duplicates(),
{
    proof {
        lemma_candidates_sorted_unique(buffer@, listing@, path_listing@);
    }
    let found = if buffer.unicode_len() == 0 {
        Vec::new()
    } else {
        let (dir, prefix) = search_location(buffer);
        let found = listing_candidates(prefix.as_str(), listing);
        proof {
            reveal_strlit(".");
            assert("."@ =~= seq!['.']);
            assert(texts(found@).len() == found@.len());
        }
        if found.len() == 0 && crate::text::text_eq(dir.as_str(), ".") {
            executable_candidates(prefix.as_str(), path_listing)
        } else {
            found
        }
    };
    assert(texts(found@) == unsorted_candidates(buffer@, listing@, path_listing@)) by {
        if buffer@.len() == 0 {
            assert(texts(found@) =~= Seq::<Seq<char>>::empty());
        }
    }
    let sorted = sort_texts(&found);
    dedup_texts(&sorted)
}

/// Completion candidates are sorted ascending for every buffer and listing,
/// and no name appears twice, also when several PATH directories hold it.
pub proof fn lemma_candidates_sorted_unique(
    buffer: Seq<char>,
    listing: Seq<DirEntryInfo>,
    path_listing: Seq<DirEntryInfo>,
)
    ensures
        sorted_by(candidates(buffer, listing, path_listing), text_order()),
        candidates(buffer, listing, path_listing).no_duplicates(),
{
    let u = unsorted_candidates(buffer, listing, path_listing);
    crate::text::lemma_text_order_total();
    u.lemma_sort_by_ensures(text_order());
    crate::text::lemma_dedup_sorted(u.sort_by(text_order()));
}

} // verus!
