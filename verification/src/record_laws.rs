//! What writing a record does to the records that are listed.

use vstd::prelude::*;

use crate::layout::{
    is_records_result, is_sound, is_tool_name, lemma_record_file_is_plain, metadata_in, record_in,
    record_order, records_among, InstalledToolRecord, LayoutError, LayoutView, RecordEntry,
    RecordListing,
};
use crate::listing::{EntryKind, ListedEntry};
use crate::order::lemma_place_fits;
use crate::path_laws::lemma_joined_names_differ;
use crate::sorting::{is_arranged, is_sorted_copy, is_stable_listing};

verus! {

/// What a record says.
pub struct RecordView {
    pub tool: Seq<char>,
    pub package: Seq<char>,
    pub commit: Seq<char>,
    pub commit_date: Seq<char>,
    pub installed_at: Seq<char>,
    pub repository: Seq<char>,
}

/// What a record says.
pub open spec fn view_of(record: InstalledToolRecord) -> RecordView {
    RecordView {
        tool: record.tool_name@,
        package: record.package_name@,
        commit: record.commit@,
        commit_date: record.commit_date@,
        installed_at: record.installed_at@,
        repository: record.repository_url@,
    }
}

/// The entries of the directory of records, as far as they are listed.
pub open spec fn entries_in(listing: RecordListing) -> Seq<RecordEntry> {
    match listing {
        RecordListing::Entries(entries) => entries@,
        _ => Seq::empty(),
    }
}

/// Whether an entry is a file with a record.
pub open spec fn is_record(entry: RecordEntry) -> bool {
    entry.entry matches ListedEntry::Found(_, EntryKind::File) && entry.record is Ok
}

/// Whether an entry is the file at a path, with this record.
pub open spec fn is_record_at(entry: RecordEntry, path: Seq<char>, record: RecordView) -> bool {
    &&& is_record(entry)
    &&& entry.entry->Found_0@ == path
    &&& view_of(entry.record->Ok_0) == record
}

/// Whether a file with this record stands at a path.
pub open spec fn holds_record(
    entries: Seq<RecordEntry>,
    path: Seq<char>,
    record: RecordView,
) -> bool {
    exists|at: int| 0 <= at < entries.len() && is_record_at(#[trigger] entries[at], path, record)
}

/// Whether the entries are those of a directory, in which no two files stand at one path.
pub open spec fn has_each_path_once(entries: Seq<RecordEntry>) -> bool {
    forall|left: int, right: int|
        0 <= left < right < entries.len() && is_record(#[trigger] entries[left]) && is_record(
            #[trigger] entries[right],
        ) ==> entries[left].entry->Found_0@ != entries[right].entry->Found_0@
}

/// Whether every record stands in the file that is named after its tool.
pub open spec fn stand_in_their_files(layout: LayoutView, entries: Seq<RecordEntry>) -> bool {
    forall|at: int|
        0 <= at < entries.len() && is_record(#[trigger] entries[at]) ==> {
            let tool = entries[at].record->Ok_0.tool_name@;
            is_tool_name(layout, tool) && entries[at].entry->Found_0@ == record_in(layout, tool)
        }
}

/// Whether a record is among those that are listed.
pub open spec fn is_listed(records: Seq<InstalledToolRecord>, record: RecordView) -> bool {
    exists|at: int| 0 <= at < records.len() && view_of(#[trigger] records[at]) == record
}

/// Whether no tool has two records.
pub open spec fn has_each_tool_once(records: Seq<InstalledToolRecord>) -> bool {
    forall|left: int, right: int|
        0 <= left < right < records.len() ==> (#[trigger] records[left]).tool_name@ != (
        #[trigger] records[right]).tool_name@
}

/// Whether the directory of records holds, behind the writing of a record to a path, that record in
/// the file there and all else as before.
pub open spec fn is_written(
    before: Seq<RecordEntry>,
    path: Seq<char>,
    written: RecordView,
    after: Seq<RecordEntry>,
) -> bool {
    forall|place: Seq<char>, record: RecordView| #[trigger]
        holds_record(after, place, record) <==> if place == path {
            record == written
        } else {
            holds_record(before, place, record)
        }
}

/// The records among the entries are those in the files.
proof fn lemma_records_among(entries: Seq<RecordEntry>, record: RecordView)
    ensures
        is_listed(records_among(entries), record) <==> exists|path: Seq<char>| #[trigger]
            holds_record(entries, path, record),
    decreases entries.len(),
{
    let records = records_among(entries);
    if entries.len() > 0 {
        let front = entries.drop_last();
        let last = entries.last();
        let fewer = records_among(front);
        lemma_records_among(front, record);
        if is_listed(records, record) {
            let at = choose|at: int|
                0 <= at < records.len() && view_of(#[trigger] records[at]) == record;
            if at < fewer.len() {
                assert(view_of(fewer[at]) == record);
                let path = choose|path: Seq<char>| #[trigger] holds_record(front, path, record);
                let place = choose|place: int|
                    0 <= place < front.len() && is_record_at(#[trigger] front[place], path, record);
                assert(is_record_at(entries[place], path, record));
                assert(holds_record(entries, path, record));
            } else {
                let path = last.entry->Found_0@;
                assert(is_record_at(entries[entries.len() - 1], path, record));
                assert(holds_record(entries, path, record));
            }
        }
        if exists|path: Seq<char>| #[trigger] holds_record(entries, path, record) {
            let path = choose|path: Seq<char>| #[trigger] holds_record(entries, path, record);
            let place = choose|place: int|
                0 <= place < entries.len() && is_record_at(#[trigger] entries[place], path, record);
            if place < front.len() {
                assert(is_record_at(front[place], path, record));
                assert(holds_record(front, path, record));
                let at = choose|at: int|
                    0 <= at < fewer.len() && view_of(#[trigger] fewer[at]) == record;
                assert(view_of(records[at]) == record);
            } else {
                assert(view_of(records[records.len() - 1]) == record);
            }
        }
    }
}

/// Where every record stands in the file that is named after its tool, no tool has two records.
proof fn lemma_each_tool_once(layout: LayoutView, entries: Seq<RecordEntry>)
    requires
        has_each_path_once(entries),
        stand_in_their_files(layout, entries),
    ensures
        has_each_tool_once(records_among(entries)),
    decreases entries.len(),
{
    if entries.len() > 0 {
        let front = entries.drop_last();
        let last = entries.last();
        let fewer = records_among(front);
        let records = records_among(entries);
        assert(has_each_path_once(front)) by {
            assert forall|left: int, right: int|
                0 <= left < right < front.len() && is_record(#[trigger] front[left]) && is_record(
                    #[trigger] front[right],
                ) implies front[left].entry->Found_0@ != front[right].entry->Found_0@ by {
                assert(is_record(entries[left]) && is_record(entries[right]));
            }
        }
        assert(stand_in_their_files(layout, front)) by {
            assert forall|at: int| 0 <= at < front.len() && is_record(#[trigger] front[at]) implies {
                let tool = front[at].record->Ok_0.tool_name@;
                is_tool_name(layout, tool) && front[at].entry->Found_0@ == record_in(layout, tool)
            } by {
                assert(is_record(entries[at]));
            }
        }
        lemma_each_tool_once(layout, front);
        assert forall|left: int, right: int| 0 <= left < right < records.len() implies (
        #[trigger] records[left]).tool_name@ != (#[trigger] records[right]).tool_name@ by {
            assert(records[left] == fewer[left]);
            if right < fewer.len() {
                assert(records[right] == fewer[right]);
            } else if records[left].tool_name@ == records[right].tool_name@ {
                let record = view_of(fewer[left]);
                lemma_records_among(front, record);
                assert(is_listed(fewer, record));
                let path = choose|path: Seq<char>| #[trigger] holds_record(front, path, record);
                let place = choose|place: int|
                    0 <= place < front.len() && is_record_at(#[trigger] front[place], path, record);
                assert(is_record(entries[place]) && is_record(entries[entries.len() - 1]));
            }
        }
    }
}

/// Sorting loses no record, adds none and repeats none.
proof fn lemma_sorting_keeps_records(
    records: Seq<InstalledToolRecord>,
    sorted: Seq<InstalledToolRecord>,
)
    requires
        is_sorted_copy(records, sorted, record_order()),
    ensures
        forall|record: RecordView| #[trigger]
            is_listed(sorted, record) == is_listed(records, record),
        has_each_tool_once(records) ==> has_each_tool_once(sorted),
{
    let order = choose|order: Seq<usize>|
        is_stable_listing(records, order, record_order()) && is_arranged(records, order, sorted);
    assert forall|record: RecordView| #[trigger] is_listed(sorted, record) == is_listed(
        records,
        record,
    ) by {
        if is_listed(sorted, record) {
            let at = choose|at: int|
                0 <= at < sorted.len() && view_of(#[trigger] sorted[at]) == record;
            assert(sorted[at] == records[order[at] as int]);
        }
        if is_listed(records, record) {
            let place = choose|place: int|
                0 <= place < records.len() && view_of(#[trigger] records[place]) == record;
            lemma_place_fits(order, records.len(), place);
            let at = choose|at: int| 0 <= at < order.len() && order[at] == place;
            assert(sorted[at] == records[place]);
        }
    }
    if has_each_tool_once(records) {
        assert forall|left: int, right: int| 0 <= left < right < sorted.len() implies (
        #[trigger] sorted[left]).tool_name@ != (#[trigger] sorted[right]).tool_name@ by {
            assert(sorted[left] == records[order[left] as int]);
            assert(sorted[right] == records[order[right] as int]);
            assert(order[left] != order[right]);
            if order[left] < order[right] {
                assert(records[order[left] as int].tool_name@
                    != records[order[right] as int].tool_name@);
            } else {
                assert(records[order[right] as int].tool_name@
                    != records[order[left] as int].tool_name@);
            }
        }
    }
}

/// Records of different tools stand in different files.
proof fn lemma_record_paths_differ(layout: LayoutView, left: Seq<char>, right: Seq<char>)
    requires
        is_tool_name(layout, left),
        is_tool_name(layout, right),
        left != right,
    ensures
        record_in(layout, left) != record_in(layout, right),
{
    lemma_record_file_is_plain(layout, left);
    lemma_record_file_is_plain(layout, right);
    let left_file = left + ".json"@;
    let right_file = right + ".json"@;
    if record_in(layout, left) == record_in(layout, right) {
        lemma_joined_names_differ(layout.platform, metadata_in(layout), left_file, right_file);
        assert(left.len() == right.len());
        assert(left =~= left_file.take(left.len() as int));
        assert(right =~= right_file.take(right.len() as int));
    }
}

/// A record that was written is listed, in place of the one that its tool had before. The records
/// of all other tools are listed as before, and no others are.
pub proof fn law_written_record_is_listed(
    layout: LayoutView,
    before: RecordListing,
    old_records: Vec<InstalledToolRecord>,
    record: InstalledToolRecord,
    after: RecordListing,
    result: Result<Vec<InstalledToolRecord>, LayoutError>,
)
    requires
        is_records_result(layout, before, Ok::<_, LayoutError>(old_records)),
        stand_in_their_files(layout, entries_in(before)),
        is_tool_name(layout, record.tool_name@),
        after is Entries,
        has_each_path_once(entries_in(after)),
        forall|at: int|
            0 <= at < entries_in(after).len() ==> is_sound(#[trigger] entries_in(after)[at]),
        is_written(
            entries_in(before),
            record_in(layout, record.tool_name@),
            view_of(record),
            entries_in(after),
        ),
        is_records_result(layout, after, result),
    ensures
        result matches Ok(new_records) && has_each_tool_once(new_records@) && forall|
            other: RecordView,
        |
            #[trigger] is_listed(new_records@, other) <==> if other.tool == record.tool_name@ {
                other == view_of(record)
            } else {
                is_listed(old_records@, other)
            },
{
    let earlier = entries_in(before);
    let later = entries_in(after);
    let tool = record.tool_name@;
    let path = record_in(layout, tool);
    let written = view_of(record);
    let new_records = result->Ok_0;
    assert(result is Ok);
    lemma_sorting_keeps_records(records_among(later), new_records@);
    if before is Entries {
        lemma_sorting_keeps_records(records_among(earlier), old_records@);
    }
    assert(stand_in_their_files(layout, later)) by {
        assert forall|at: int| 0 <= at < later.len() && is_record(#[trigger] later[at]) implies {
            let name = later[at].record->Ok_0.tool_name@;
            is_tool_name(layout, name) && later[at].entry->Found_0@ == record_in(layout, name)
        } by {
            let place = later[at].entry->Found_0@;
            let other = view_of(later[at].record->Ok_0);
            assert(is_record_at(later[at], place, other));
            assert(holds_record(later, place, other));
            if place != path {
                assert(holds_record(earlier, place, other));
                let spot = choose|spot: int|
                    0 <= spot < earlier.len() && is_record_at(#[trigger] earlier[spot], place, other);
                assert(is_record(earlier[spot]));
            }
        }
    }
    lemma_each_tool_once(layout, later);
    assert forall|other: RecordView| #[trigger] is_listed(new_records@, other) <==> if other.tool
        == tool {
        other == written
    } else {
        is_listed(old_records@, other)
    } by {
        lemma_records_among(later, other);
        lemma_records_among(earlier, other);
        assert(is_listed(records_among(earlier), other) == is_listed(old_records@, other)) by {
            if !(before is Entries) {
                assert(records_among(earlier) =~= old_records@);
            }
        }
        assert(forall|place: Seq<char>| #[trigger]
            holds_record(earlier, place, other) ==> is_tool_name(layout, other.tool) && place
                == record_in(layout, other.tool)) by {
            assert forall|place: Seq<char>| #[trigger]
                holds_record(earlier, place, other) implies is_tool_name(layout, other.tool)
                && place == record_in(layout, other.tool) by {
                let spot = choose|spot: int|
                    0 <= spot < earlier.len() && is_record_at(#[trigger] earlier[spot], place, other);
                assert(is_record(earlier[spot]));
            }
        }
        if other == written {
            assert(holds_record(later, path, other));
        }
        if other.tool != tool && is_listed(old_records@, other) {
            let place = choose|place: Seq<char>| #[trigger] holds_record(earlier, place, other);
            lemma_record_paths_differ(layout, other.tool, tool);
            assert(holds_record(later, place, other));
        }
        if is_listed(new_records@, other) {
            let place = choose|place: Seq<char>| #[trigger] holds_record(later, place, other);
            if place != path {
                assert(holds_record(earlier, place, other));
            }
        }
    }
}

} // verus!
