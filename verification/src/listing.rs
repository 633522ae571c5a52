//! What a directory holds.

use vstd::prelude::*;

use crate::text::{lemma_views_push, views};

verus! {

/// What a directory entry is.
#[derive(Debug, Clone, Copy, PartialEq, Eq, Structural)]
pub enum EntryKind {
    File,
    Directory,
    Other,
}

/// An entry of a directory, as far as it could be read.
#[derive(Debug)]
pub enum ListedEntry {
    /// The entry could not be read, and why.
    Unreadable(String),
    /// What stands at this path could not be told, and why.
    Uninspectable(String, String),
    Found(String, EntryKind),
}

/// A directory, as far as it could be read.
#[derive(Debug)]
pub enum Listing {
    /// The directory could not be read, and why.
    Unreadable(String),
    Entries(Vec<ListedEntry>),
}

/// Why a directory could not be listed.
#[derive(Debug, PartialEq, Eq)]
pub enum ListingError {
    Directory(String),
    Entry(String),
    Inspection(String, String),
}

/// Whether an entry could be read.
pub open spec fn is_found(entry: ListedEntry) -> bool {
    entry is Found
}

/// Whether `error` says what is wrong with an entry.
pub open spec fn is_entry_fault(entry: ListedEntry, error: ListingError) -> bool {
    match entry {
        ListedEntry::Unreadable(detail) => error matches ListingError::Entry(text) && text@
            == detail@,
        ListedEntry::Uninspectable(path, detail) => error matches ListingError::Inspection(
            place,
            text,
        ) && place@ == path@ && text@ == detail@,
        ListedEntry::Found(..) => false,
    }
}

/// Whether the entry at `at` is the first that could not be read, and `error` says why.
pub open spec fn is_first_fault(entries: Seq<ListedEntry>, at: int, error: ListingError) -> bool {
    &&& 0 <= at < entries.len()
    &&& is_entry_fault(entries[at], error)
    &&& forall|before: int| 0 <= before < at ==> is_found(#[trigger] entries[before])
}

/// The paths of the entries of a kind, in their order.
pub open spec fn paths_of_kind(entries: Seq<ListedEntry>, kind: EntryKind) -> Seq<Seq<char>>
    decreases entries.len(),
{
    if entries.len() == 0 {
        Seq::empty()
    } else {
        let before = paths_of_kind(entries.drop_last(), kind);
        match entries.last() {
            ListedEntry::Found(path, found) => if found == kind {
                before.push(path@)
            } else {
                before
            },
            _ => before,
        }
    }
}

/// Whether picking the entries of a kind has this result: all their paths, or what is wrong with
/// the first entry that could not be read.
pub open spec fn is_pick_result(
    entries: Seq<ListedEntry>,
    kind: EntryKind,
    result: Result<Vec<String>, ListingError>,
) -> bool {
    match result {
        Ok(paths) => {
            &&& forall|at: int| 0 <= at < entries.len() ==> is_found(#[trigger] entries[at])
            &&& views(paths@) == paths_of_kind(entries, kind)
        },
        Err(error) => exists|at: int| is_first_fault(entries, at, error),
    }
}

/// Whether asking for the entries of a kind has this result: a directory that could not be read has
/// none.
pub open spec fn is_listing_result(
    listing: Listing,
    kind: EntryKind,
    result: Result<Vec<String>, ListingError>,
) -> bool {
    match listing {
        Listing::Unreadable(detail) => {
            &&& result matches Err(ListingError::Directory(text))
            &&& text@ == detail@
        },
        Listing::Entries(entries) => is_pick_result(entries@, kind, result),
    }
}

/// Picks the entries of a kind.
fn pick_entries(entries: &Vec<ListedEntry>, kind: EntryKind) -> (result: Result<
    Vec<String>,
    ListingError,
>)
    ensures
        is_pick_result(entries@, kind, result),
{
    let mut paths: Vec<String> = Vec::new();
    let mut at: usize = 0;
    assert(views(paths@) =~= paths_of_kind(entries@.take(0), kind));
    while at < entries.len()
        invariant
            at <= entries@.len(),
            forall|before: int| 0 <= before < at ==> is_found(#[trigger] entries@[before]),
            views(paths@) == paths_of_kind(entries@.take(at as int), kind),
        decreases entries@.len() - at,
    {
        let ghost longer = entries@.take(at + 1);
        assert(longer.drop_last() =~= entries@.take(at as int));
        assert(longer.last() == entries@[at as int]);
        match &entries[at] {
            ListedEntry::Unreadable(detail) => {
                let error = ListingError::Entry(detail.clone());
                assert(is_first_fault(entries@, at as int, error));
                return Err(error);
            },
            ListedEntry::Uninspectable(path, detail) => {
                let error = ListingError::Inspection(path.clone(), detail.clone());
                assert(is_first_fault(entries@, at as int, error));
                return Err(error);
            },
            ListedEntry::Found(path, found) => {
                if *found == kind {
                    let copy = path.clone();
                    proof {
                        lemma_views_push(paths@, copy);
                    }
                    paths.push(copy);
                }
            },
        }
        at += 1;
    }
    assert(entries@.take(at as int) =~= entries@);
    Ok(paths)
}

/// Lists the entries of a kind.
pub fn entries_of_kind(listing: &Listing, kind: EntryKind) -> (result: Result<
    Vec<String>,
    ListingError,
>)
    ensures
        is_listing_result(*listing, kind, result),
{
    match listing {
        Listing::Unreadable(detail) => Err(ListingError::Directory(detail.clone())),
        Listing::Entries(entries) => pick_entries(entries, kind),
    }
}

/// Whether an entry was found to be of a kind.
pub open spec fn is_of_kind(entry: ListedEntry, kind: EntryKind) -> bool {
    entry matches ListedEntry::Found(_, found) && found == kind
}

/// A listing gives the path of every entry of the kind, once and in order, and of no other: each
/// has its place among the entries, the places ascend and miss no entry of the kind.
pub proof fn law_paths_are_those_of_the_kind(entries: Seq<ListedEntry>, kind: EntryKind) -> (places:
    Seq<int>)
    ensures
        places.len() == paths_of_kind(entries, kind).len(),
        forall|left: int, right: int|
            0 <= left < right < places.len() ==> #[trigger] places[left] < #[trigger] places[right],
        forall|at: int|
            0 <= at < places.len() ==> 0 <= #[trigger] places[at] < entries.len() && is_of_kind(
                entries[places[at]],
                kind,
            ) && entries[places[at]]->Found_0@ == paths_of_kind(entries, kind)[at],
        forall|place: int|
            0 <= place < entries.len() && is_of_kind(#[trigger] entries[place], kind)
                ==> places.contains(place),
    decreases entries.len(),
{
    if entries.len() == 0 {
        Seq::empty()
    } else {
        let rest = entries.drop_last();
        let before = law_paths_are_those_of_the_kind(rest, kind);
        let last = entries.len() - 1;
        let earlier = paths_of_kind(rest, kind);
        let paths = paths_of_kind(entries, kind);
        let places = if is_of_kind(entries.last(), kind) {
            before.push(last)
        } else {
            before
        };
        assert forall|at: int| 0 <= at < places.len() implies 0 <= #[trigger] places[at]
            < entries.len() && is_of_kind(entries[places[at]], kind)
            && entries[places[at]]->Found_0@ == paths[at] by {
            if at < before.len() {
                assert(places[at] == before[at]);
                assert(paths[at] == earlier[at]);
                assert(entries[before[at]] == rest[before[at]]);
            }
        }
        assert forall|left: int, right: int| 0 <= left < right < places.len() implies
            #[trigger] places[left] < #[trigger] places[right] by {
            assert(places[left] == before[left]);
            if right < before.len() {
                assert(places[right] == before[right]);
            }
        }
        assert forall|place: int|
            0 <= place < entries.len() && is_of_kind(
                #[trigger] entries[place],
                kind,
            ) implies places.contains(place) by {
            if place < last {
                assert(entries[place] == rest[place]);
                let at = choose|at: int| 0 <= at < before.len() && before[at] == place;
                assert(places[at] == place);
            } else {
                assert(places[places.len() - 1] == last);
            }
        }
        places
    }
}

/// A directory that can be read, with entries that all can be, is listed; otherwise the first thing
/// that could not be read is named with what was wrong.
pub proof fn law_first_fault_is_named(
    listing: Listing,
    kind: EntryKind,
    result: Result<Vec<String>, ListingError>,
)
    requires
        is_listing_result(listing, kind, result),
    ensures
        match listing {
            Listing::Unreadable(detail) => result matches Err(ListingError::Directory(text))
                && text@ == detail@,
            Listing::Entries(entries) => {
                &&& (forall|at: int| 0 <= at < entries@.len() ==> #[trigger] entries@[at] is Found)
                    <==> result is Ok
                &&& result matches Ok(paths) ==> views(paths@) == paths_of_kind(entries@, kind)
                &&& result matches Err(error) ==> exists|at: int|
                    0 <= at < entries@.len() && (forall|before: int|
                        0 <= before < at ==> #[trigger] entries@[before] is Found) && match (
                        #[trigger] entries@[at],
                        error,
                    ) {
                        (
                            ListedEntry::Unreadable(detail),
                            ListingError::Entry(text),
                        ) => text@ == detail@,
                        (
                            ListedEntry::Uninspectable(path, detail),
                            ListingError::Inspection(place, text),
                        ) => place@ == path@ && text@ == detail@,
                        _ => false,
                    }
            },
        },
{
    if let Listing::Entries(entries) = listing {
        if result is Ok {
            assert forall|at: int| 0 <= at < entries@.len() implies #[trigger] entries@[at]
                is Found by {
                assert(is_found(entries@[at]));
            }
        } else {
            let error = result->Err_0;
            let at = choose|at: int| is_first_fault(entries@, at, error);
            assert(!(entries@[at] is Found));
            assert forall|before: int| 0 <= before < at implies #[trigger] entries@[before]
                is Found by {
                assert(is_found(entries@[before]));
            }
        }
    }
}

} // verus!
