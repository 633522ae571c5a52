//! Where managed binaries and their records live.

use vstd::prelude::*;

use crate::exe_names::{exe_name, shown_name, with_exe_suffix};
use crate::listing::{
    entries_of_kind, is_entry_fault, is_found, is_listing_result, is_of_kind,
    law_first_fault_is_named, law_paths_are_those_of_the_kind, paths_of_kind, EntryKind,
    ListedEntry, Listing, ListingError,
};
use crate::path_laws::{
    is_one_piece, is_plain_name, law_join_adds_a_component, lemma_letters_have_no_prefix,
    lemma_name_with_suffix, takes_names,
};
use crate::path_order::{path_order, sort_paths};
use crate::paths::{file_name_of, is_inside, join_path, joined_path};
use crate::platform::Platform;
use crate::prefixes::prefix_of;
use crate::sorting::{
    arrange, is_arranged, is_sorted_copy, is_stable_listing, law_sorting_is_stable,
    law_sorting_keeps_all, text_sorting,
};
use crate::text::{
    concat, holds_part, is_smaller_at, law_first_difference_decides, lemma_part_is_held, owned,
    text_at_most, views,
};

verus! {

/// Where managed binaries and their records live.
#[derive(Debug, PartialEq, Eq)]
pub struct InstallLayout {
    platform: Platform,
    home_dir: String,
    bin_dir: String,
    metadata_dir: String,
    repo_dir: String,
    worktrees_dir: String,
}

/// A layout is made of two directories of a platform: the home, which all other data is kept in,
/// and the one for binaries.
pub struct LayoutView {
    pub platform: Platform,
    pub home: Seq<char>,
    pub bin: Seq<char>,
}

/// What was installed for a tool.
#[derive(Debug, PartialEq, Eq)]
pub struct InstalledToolRecord {
    pub tool_name: String,
    pub package_name: String,
    pub commit: String,
    pub commit_date: String,
    pub installed_at: String,
    pub repository_url: String,
}

/// Why the file of a record gives no record.
#[derive(Debug, PartialEq, Eq)]
pub enum RecordFault {
    Unreadable(String),
    Unparsable(String),
}

/// An entry of the directory of records, with the record in it if it is a file.
#[derive(Debug)]
pub struct RecordEntry {
    pub entry: ListedEntry,
    pub record: Result<InstalledToolRecord, RecordFault>,
}

/// The directory of records, as far as it could be read.
#[derive(Debug)]
pub enum RecordListing {
    Missing,
    Unreadable(String),
    Entries(Vec<RecordEntry>),
}

/// A file to be written.
#[derive(Debug, PartialEq, Eq)]
pub struct RecordFile {
    pub path: String,
    pub contents: String,
}

/// What to do about the directories of a layout.
#[derive(Debug, PartialEq, Eq)]
pub enum DirectoryStep {
    /// Create this one, with its parents.
    Create(String),
    Done,
    Failed(LayoutError),
}

/// What is wrong with a layout.
#[derive(Debug, PartialEq, Eq)]
pub enum LayoutError {
    UncreatableDirectory(String, String),
    Listing(String, ListingError),
    UnreadableRecord(String, String),
    UnparsableRecord(String, String),
    UnserializableRecord(String, String),
    UnwritableRecord(String, String),
}

impl LayoutError {
    /// What the error says.
    pub open spec fn text(self) -> Seq<char> {
        match self {
            LayoutError::UncreatableDirectory(path, detail) =>
                "failed to create managed directory at "@ + path@ + ": "@ + detail@,
            LayoutError::Listing(directory, cause) => match cause {
                ListingError::Directory(detail) => "failed to read "@ + directory@ + ": "@
                    + detail@,
                ListingError::Entry(detail) => "failed to read an entry from "@ + directory@
                    + ": "@ + detail@,
                ListingError::Inspection(path, detail) => "failed to inspect "@ + path@ + ": "@
                    + detail@,
            },
            LayoutError::UnreadableRecord(path, detail) => "failed to read "@ + path@ + ": "@
                + detail@,
            LayoutError::UnparsableRecord(path, detail) => "failed to parse "@ + path@ + ": "@
                + detail@,
            LayoutError::UnserializableRecord(tool, detail) => "failed to serialize metadata for "@
                + tool@ + ": "@ + detail@,
            LayoutError::UnwritableRecord(path, detail) => "failed to write "@ + path@ + ": "@
                + detail@,
        }
    }

    /// Says what is wrong.
    pub fn message(&self) -> (message: String)
        ensures
            message@ == self.text(),
    {
        let (what, place, detail) = match self {
            LayoutError::UncreatableDirectory(path, detail) => (
                "failed to create managed directory at ",
                path,
                detail,
            ),
            LayoutError::Listing(directory, cause) => match cause {
                ListingError::Directory(detail) => ("failed to read ", directory, detail),
                ListingError::Entry(detail) => (
                    "failed to read an entry from ",
                    directory,
                    detail,
                ),
                ListingError::Inspection(path, detail) => ("failed to inspect ", path, detail),
            },
            LayoutError::UnreadableRecord(path, detail) => ("failed to read ", path, detail),
            LayoutError::UnparsableRecord(path, detail) => ("failed to parse ", path, detail),
            LayoutError::UnserializableRecord(tool, detail) => (
                "failed to serialize metadata for ",
                tool,
                detail,
            ),
            LayoutError::UnwritableRecord(path, detail) => ("failed to write ", path, detail),
        };
        let mut message = concat(what, place.as_str());
        message.append(": ");
        message.append(detail.as_str());
        message
    }
}

impl Clone for InstalledToolRecord {
    fn clone(&self) -> (copy: Self)
        ensures
            copy == *self,
    {
        InstalledToolRecord {
            tool_name: self.tool_name.clone(),
            package_name: self.package_name.clone(),
            commit: self.commit.clone(),
            commit_date: self.commit_date.clone(),
            installed_at: self.installed_at.clone(),
            repository_url: self.repository_url.clone(),
        }
    }
}

impl View for InstallLayout {
    type V = LayoutView;

    closed spec fn view(&self) -> LayoutView {
        LayoutView { platform: self.platform, home: self.home_dir@, bin: self.bin_dir@ }
    }
}

/// The directory of records.
pub open spec fn metadata_in(layout: LayoutView) -> Seq<char> {
    joined_path(layout.platform, layout.home, "installed"@)
}

/// The clone of the source repository.
pub open spec fn repo_in(layout: LayoutView) -> Seq<char> {
    joined_path(layout.platform, layout.home, "repo"@)
}

/// The directory of temporary worktrees.
pub open spec fn worktrees_in(layout: LayoutView) -> Seq<char> {
    joined_path(layout.platform, layout.home, "worktrees"@)
}

/// The directories that have to be there.
pub open spec fn directories_of(layout: LayoutView) -> Seq<Seq<char>> {
    seq![layout.home, layout.bin, metadata_in(layout), worktrees_in(layout)]
}

/// The path of a binary.
pub open spec fn binary_in(layout: LayoutView, name: Seq<char>) -> Seq<char> {
    joined_path(layout.platform, layout.bin, exe_name(layout.platform, name))
}

/// The path of the record of a binary.
pub open spec fn record_in(layout: LayoutView, name: Seq<char>) -> Seq<char> {
    joined_path(layout.platform, metadata_in(layout), name + ".json"@)
}

/// Whether the directories of a layout have all been created, or which one comes next or could not
/// be, given how the first ones went.
pub open spec fn is_directory_step(
    directories: Seq<Seq<char>>,
    outcomes: Seq<Result<(), String>>,
    step: DirectoryStep,
) -> bool {
    if outcomes.len() > 0 && outcomes.last() is Err {
        &&& step matches DirectoryStep::Failed(LayoutError::UncreatableDirectory(path, detail))
        &&& path@ == directories[outcomes.len() - 1]
        &&& detail@ == outcomes.last()->Err_0@
    } else if outcomes.len() < directories.len() {
        step matches DirectoryStep::Create(path) && path@ == directories[outcomes.len() as int]
    } else {
        step == DirectoryStep::Done
    }
}

/// The order of records: by the name of the tool.
pub open spec fn record_order() -> spec_fn(InstalledToolRecord, InstalledToolRecord) -> bool {
    |left: InstalledToolRecord, right: InstalledToolRecord|
        text_at_most(left.tool_name@, right.tool_name@)
}

/// Whether an entry is a file with a record, or no file at all.
pub open spec fn is_sound(entry: RecordEntry) -> bool {
    match entry.entry {
        ListedEntry::Found(path, kind) => kind == EntryKind::File ==> entry.record is Ok,
        _ => false,
    }
}

/// Whether `error` says what is wrong with an entry of the directory of records.
pub open spec fn is_record_fault(
    directory: Seq<char>,
    entry: RecordEntry,
    error: LayoutError,
) -> bool {
    match entry.entry {
        ListedEntry::Found(path, kind) => kind == EntryKind::File && match entry.record {
            Ok(_) => false,
            Err(RecordFault::Unreadable(detail)) => {
                &&& error matches LayoutError::UnreadableRecord(place, text)
                &&& place@ == path@
                &&& text@ == detail@
            },
            Err(RecordFault::Unparsable(detail)) => {
                &&& error matches LayoutError::UnparsableRecord(place, text)
                &&& place@ == path@
                &&& text@ == detail@
            },
        },
        _ => {
            &&& error matches LayoutError::Listing(place, cause)
            &&& place@ == directory
            &&& is_entry_fault(entry.entry, cause)
        },
    }
}

/// Whether the entry at `at` is the first that is not sound, and `error` says why.
pub open spec fn is_first_record_fault(
    directory: Seq<char>,
    entries: Seq<RecordEntry>,
    at: int,
    error: LayoutError,
) -> bool {
    &&& 0 <= at < entries.len()
    &&& is_record_fault(directory, entries[at], error)
    &&& forall|before: int| 0 <= before < at ==> is_sound(#[trigger] entries[before])
}

/// The records in the files among the entries, in their order.
pub open spec fn records_among(entries: Seq<RecordEntry>) -> Seq<InstalledToolRecord>
    decreases entries.len(),
{
    if entries.len() == 0 {
        Seq::empty()
    } else {
        let before = records_among(entries.drop_last());
        match (entries.last().entry, entries.last().record) {
            (ListedEntry::Found(_, EntryKind::File), Ok(record)) => before.push(record),
            _ => before,
        }
    }
}

/// Whether reading the entries has this result: all records, or what is wrong with the first entry
/// that is not sound.
pub open spec fn is_reading(
    directory: Seq<char>,
    entries: Seq<RecordEntry>,
    result: Result<Vec<InstalledToolRecord>, LayoutError>,
) -> bool {
    match result {
        Ok(records) => {
            &&& forall|at: int| 0 <= at < entries.len() ==> is_sound(#[trigger] entries[at])
            &&& records@ == records_among(entries)
        },
        Err(error) => exists|at: int| is_first_record_fault(directory, entries, at, error),
    }
}

/// Whether listing the records has this result: sorted by tool, none where the directory is
/// missing.
pub open spec fn is_records_result(
    layout: LayoutView,
    listing: RecordListing,
    result: Result<Vec<InstalledToolRecord>, LayoutError>,
) -> bool {
    match listing {
        RecordListing::Missing => result matches Ok(records) && records@.len() == 0,
        RecordListing::Unreadable(detail) => {
            &&& result matches Err(LayoutError::Listing(directory, ListingError::Directory(text)))
            &&& directory@ == metadata_in(layout)
            &&& text@ == detail@
        },
        RecordListing::Entries(entries) => match result {
            Ok(records) => {
                &&& forall|at: int| 0 <= at < entries@.len() ==> is_sound(#[trigger] entries@[at])
                &&& is_sorted_copy(records_among(entries@), records@, record_order())
            },
            Err(error) => exists|at: int|
                is_first_record_fault(metadata_in(layout), entries@, at, error),
        },
    }
}

/// Whether listing the binaries has this result: sorted, none where the directory is missing.
pub open spec fn is_binaries_result(
    layout: LayoutView,
    listing: Option<Listing>,
    result: Result<Vec<String>, LayoutError>,
) -> bool {
    match listing {
        None => result matches Ok(binaries) && binaries@.len() == 0,
        Some(listing) => match result {
            Ok(binaries) => {
                &&& listing matches Listing::Entries(entries)
                &&& forall|at: int| 0 <= at < entries@.len() ==> is_found(#[trigger] entries@[at])
                &&& is_sorted_copy(
                    paths_of_kind(entries@, EntryKind::File),
                    views(binaries@),
                    path_order(layout.platform),
                )
            },
            Err(error) => {
                &&& error matches LayoutError::Listing(directory, cause)
                &&& directory@ == layout.bin
                &&& is_listing_result(
                    listing,
                    EntryKind::File,
                    Err::<Vec<String>, ListingError>(cause),
                )
            },
        },
    }
}

/// Reads the records in the files among the entries.
fn read_records(directory: &str, entries: &Vec<RecordEntry>) -> (result: Result<
    Vec<InstalledToolRecord>,
    LayoutError,
>)
    ensures
        is_reading(directory@, entries@, result),
{
    let mut records: Vec<InstalledToolRecord> = Vec::new();
    let mut at: usize = 0;
    assert(records@ =~= records_among(entries@.take(0)));
    while at < entries.len()
        invariant
            at <= entries@.len(),
            forall|before: int| 0 <= before < at ==> is_sound(#[trigger] entries@[before]),
            records@ == records_among(entries@.take(at as int)),
        decreases entries@.len() - at,
    {
        let ghost longer = entries@.take(at + 1);
        assert(longer.drop_last() =~= entries@.take(at as int));
        assert(longer.last() == entries@[at as int]);
        match &entries[at].entry {
            ListedEntry::Unreadable(detail) => {
                let error = LayoutError::Listing(
                    owned(directory),
                    ListingError::Entry(detail.clone()),
                );
                assert(is_first_record_fault(directory@, entries@, at as int, error));
                return Err(error);
            },
            ListedEntry::Uninspectable(path, detail) => {
                let error = LayoutError::Listing(
                    owned(directory),
                    ListingError::Inspection(path.clone(), detail.clone()),
                );
                assert(is_first_record_fault(directory@, entries@, at as int, error));
                return Err(error);
            },
            ListedEntry::Found(path, kind) => {
                if *kind == EntryKind::File {
                    match &entries[at].record {
                        Ok(record) => {
                            records.push(record.clone());
                        },
                        Err(RecordFault::Unreadable(detail)) => {
                            let error = LayoutError::UnreadableRecord(path.clone(), detail.clone());
                            assert(is_first_record_fault(directory@, entries@, at as int, error));
                            return Err(error);
                        },
                        Err(RecordFault::Unparsable(detail)) => {
                            let error = LayoutError::UnparsableRecord(path.clone(), detail.clone());
                            assert(is_first_record_fault(directory@, entries@, at as int, error));
                            return Err(error);
                        },
                    }
                }
            },
        }
        at += 1;
    }
    assert(entries@.take(at as int) =~= entries@);
    Ok(records)
}

/// Sorts records by the name of the tool.
fn sort_records(records: Vec<InstalledToolRecord>) -> (sorted: Vec<InstalledToolRecord>)
    ensures
        is_sorted_copy(records@, sorted@, record_order()),
{
    let mut names: Vec<String> = Vec::new();
    let mut at: usize = 0;
    while at < records.len()
        invariant
            at <= records@.len(),
            names@.len() == at,
            forall|done: int|
                0 <= done < at ==> (#[trigger] names@[done])@ == records@[done].tool_name@,
        decreases records@.len() - at,
    {
        names.push(records[at].tool_name.clone());
        at += 1;
    }
    let order = text_sorting(&names);
    let ghost items = records@;
    proof {
        assert forall|left: int, right: int| 0 <= left < right < order@.len() implies {
            let before = #[trigger] order@[left];
            let behind = #[trigger] order@[right];
            record_order()(items[before as int], items[behind as int]) && (record_order()(
                items[behind as int],
                items[before as int],
            ) ==> before < behind)
        } by {
            let before = order@[left] as int;
            let behind = order@[right] as int;
            assert(views(names@)[before] == items[before].tool_name@);
            assert(views(names@)[behind] == items[behind].tool_name@);
        }
        assert(is_stable_listing(items, order@, record_order()));
    }
    let sorted = arrange(records, &order);
    assert(is_arranged(items, order@, sorted@));
    sorted
}

impl InstallLayout {
    /// The data directories are all in the home.
    #[verifier::type_invariant]
    spec fn keeps_data_at_home(self) -> bool {
        &&& self.metadata_dir@ == metadata_in(self@)
        &&& self.repo_dir@ == repo_in(self@)
        &&& self.worktrees_dir@ == worktrees_in(self@)
    }

    /// A layout with its binaries in the home too.
    pub fn for_home(platform: Platform, home_dir: String) -> (layout: InstallLayout)
        ensures
            layout@ == (LayoutView {
                platform,
                home: home_dir@,
                bin: joined_path(platform, home_dir@, "bin"@),
            }),
    {
        let bin_dir = join_path(platform, home_dir.as_str(), "bin");
        Self::for_paths(platform, home_dir, bin_dir)
    }

    /// A layout with a home and another directory for the binaries.
    pub fn for_paths(platform: Platform, home_dir: String, bin_dir: String) -> (layout:
        InstallLayout)
        ensures
            layout@ == (LayoutView { platform, home: home_dir@, bin: bin_dir@ }),
    {
        let metadata_dir = join_path(platform, home_dir.as_str(), "installed");
        let repo_dir = join_path(platform, home_dir.as_str(), "repo");
        let worktrees_dir = join_path(platform, home_dir.as_str(), "worktrees");
        InstallLayout { platform, home_dir, bin_dir, metadata_dir, repo_dir, worktrees_dir }
    }

    /// The platform of the directories.
    pub fn platform(&self) -> (platform: Platform)
        ensures
            platform == self@.platform,
    {
        self.platform
    }

    /// The directory that everything but the binaries is kept in.
    pub fn home_dir(&self) -> (path: &str)
        ensures
            path@ == self@.home,
    {
        self.home_dir.as_str()
    }

    /// The directory of the binaries.
    pub fn bin_dir(&self) -> (path: &str)
        ensures
            path@ == self@.bin,
    {
        self.bin_dir.as_str()
    }

    /// The directory of the records.
    pub fn metadata_dir(&self) -> (path: &str)
        ensures
            path@ == metadata_in(self@),
    {
        proof {
            use_type_invariant(self);
        }
        self.metadata_dir.as_str()
    }

    /// The clone of the source repository.
    pub fn repo_dir(&self) -> (path: &str)
        ensures
            path@ == repo_in(self@),
    {
        proof {
            use_type_invariant(self);
        }
        self.repo_dir.as_str()
    }

    /// The directory of temporary worktrees.
    pub fn worktrees_dir(&self) -> (path: &str)
        ensures
            path@ == worktrees_in(self@),
    {
        proof {
            use_type_invariant(self);
        }
        self.worktrees_dir.as_str()
    }

    /// The directories that have to be there.
    pub fn managed_directories(&self) -> (directories: Vec<String>)
        ensures
            views(directories@) == directories_of(self@),
    {
        let mut directories: Vec<String> = Vec::new();
        directories.push(owned(self.home_dir()));
        directories.push(owned(self.bin_dir()));
        directories.push(owned(self.metadata_dir()));
        directories.push(owned(self.worktrees_dir()));
        assert(views(directories@) =~= directories_of(self@));
        directories
    }

    /// What comes next in creating the directories, given how the first ones went.
    pub fn ensure_exists(&self, outcomes: &Vec<Result<(), String>>) -> (step: DirectoryStep)
        requires
            outcomes@.len() <= directories_of(self@).len(),
        ensures
            is_directory_step(directories_of(self@), outcomes@, step),
    {
        let directories = self.managed_directories();
        assert(forall|at: int|
            0 <= at < directories@.len() ==> (#[trigger] directories@[at])@ == views(
                directories@,
            )[at]);
        let count: usize = outcomes.len();
        if count > 0 {
            match &outcomes[count - 1] {
                Ok(_) => {},
                Err(detail) => {
                    let path = directories[count - 1].clone();
                    return DirectoryStep::Failed(
                        LayoutError::UncreatableDirectory(path, detail.clone()),
                    );
                },
            }
        }
        if count < directories.len() {
            DirectoryStep::Create(directories[count].clone())
        } else {
            DirectoryStep::Done
        }
    }

    /// The path of a binary.
    pub fn binary_path(&self, binary_name: &str) -> (path: String)
        ensures
            path@ == binary_in(self@, binary_name@),
    {
        let file = with_exe_suffix(self.platform, binary_name);
        join_path(self.platform, self.bin_dir(), file.as_str())
    }

    /// The path of the record of a binary.
    pub fn metadata_path(&self, binary_name: &str) -> (path: String)
        ensures
            path@ == record_in(self@, binary_name@),
    {
        join_path(self.platform, self.metadata_dir(), concat(binary_name, ".json").as_str())
    }

    /// The files in the directory of binaries, sorted.
    pub fn managed_binaries(&self, listing: &Option<Listing>) -> (result: Result<
        Vec<String>,
        LayoutError,
    >)
        ensures
            is_binaries_result(self@, *listing, result),
    {
        match listing {
            None => Ok(Vec::new()),
            Some(listing) => match entries_of_kind(listing, EntryKind::File) {
                Ok(found) => Ok(sort_paths(self.platform, found)),
                Err(cause) => Err(LayoutError::Listing(owned(self.bin_dir()), cause)),
            },
        }
    }

    /// The records of what is installed, sorted by tool.
    pub fn installed_records(&self, listing: &RecordListing) -> (result: Result<
        Vec<InstalledToolRecord>,
        LayoutError,
    >)
        ensures
            is_records_result(self@, *listing, result),
    {
        match listing {
            RecordListing::Missing => Ok(Vec::new()),
            RecordListing::Unreadable(detail) => Err(
                LayoutError::Listing(
                    owned(self.metadata_dir()),
                    ListingError::Directory(detail.clone()),
                ),
            ),
            RecordListing::Entries(entries) => match read_records(self.metadata_dir(), entries) {
                Ok(records) => Ok(sort_records(records)),
                Err(error) => Err(error),
            },
        }
    }

    /// The file to write for a record, given its text.
    pub fn write_installed_record(
        &self,
        record: &InstalledToolRecord,
        serialized: Result<String, String>,
    ) -> (result: Result<RecordFile, LayoutError>)
        ensures
            match (serialized, result) {
                (Ok(text), Ok(file)) => file.path@ == record_in(self@, record.tool_name@)
                    && file.contents@ == text@,
                (Err(detail), Err(error)) => {
                    &&& error matches LayoutError::UnserializableRecord(tool, text)
                    &&& tool@ == record.tool_name@
                    &&& text@ == detail@
                },
                _ => false,
            },
    {
        match serialized {
            Ok(contents) => Ok(
                RecordFile { path: self.metadata_path(record.tool_name.as_str()), contents },
            ),
            Err(detail) => Err(
                LayoutError::UnserializableRecord(record.tool_name.clone(), detail),
            ),
        }
    }
}

/// All data directories are inside the home.
pub proof fn law_data_stays_at_home(layout: LayoutView)
    requires
        takes_names(layout.platform, layout.home),
    ensures
        is_inside(layout.platform, metadata_in(layout), layout.home),
        is_inside(layout.platform, repo_in(layout), layout.home),
        is_inside(layout.platform, worktrees_in(layout), layout.home),
        takes_names(layout.platform, metadata_in(layout)),
        takes_names(layout.platform, repo_in(layout)),
        takes_names(layout.platform, worktrees_in(layout)),
{
    reveal_strlit("installed");
    reveal_strlit("repo");
    reveal_strlit("worktrees");
    let names = seq!["installed"@, "repo"@, "worktrees"@];
    assert forall|which: int| 0 <= which < 3 implies is_plain_name(
        layout.platform,
        #[trigger] names[which],
    ) by {
        let name = names[which];
        assert(name.len() > 2);
        assert(name[1] != ':');
        lemma_letters_have_no_prefix(layout.platform, name);
    }
    assert(is_plain_name(layout.platform, names[0]));
    assert(is_plain_name(layout.platform, names[1]));
    assert(is_plain_name(layout.platform, names[2]));
    law_join_adds_a_component(layout.platform, layout.home, "installed"@);
    law_join_adds_a_component(layout.platform, layout.home, "repo"@);
    law_join_adds_a_component(layout.platform, layout.home, "worktrees"@);
}

/// A binary installed under a plain name is shown under that name, without the suffix of an
/// executable, and stands in the directory of binaries.
pub proof fn law_binary_is_shown_by_its_name(layout: LayoutView, name: Seq<char>)
    requires
        is_plain_name(layout.platform, name),
        takes_names(layout.platform, layout.bin),
    ensures
        is_inside(layout.platform, binary_in(layout, name), layout.bin),
        file_name_of(layout.platform, binary_in(layout, name)) is Some,
        shown_name(
            layout.platform,
            file_name_of(layout.platform, binary_in(layout, name))->Some_0,
        ) == shown_name(layout.platform, name),
{
    reveal_strlit(".exe");
    let file = exe_name(layout.platform, name);
    assert(is_plain_name(layout.platform, file)) by {
        if file != name {
            lemma_name_with_suffix(layout.platform, name, ".exe"@);
        }
    }
    law_join_adds_a_component(layout.platform, layout.bin, file);
    crate::exe_names::law_suffix_does_not_show(layout.platform, name);
}

/// Whether a tool has a name under which its record stands in the directory of records.
pub open spec fn is_tool_name(layout: LayoutView, name: Seq<char>) -> bool {
    is_one_piece(layout.platform, name) && prefix_of(layout.platform, name) is None
}

/// The file of a record has a plain name.
pub proof fn lemma_record_file_is_plain(layout: LayoutView, name: Seq<char>)
    requires
        is_tool_name(layout, name),
    ensures
        is_plain_name(layout.platform, name + ".json"@),
{
    reveal_strlit(".json");
    lemma_name_with_suffix(layout.platform, name, ".json"@);
}

/// The record of a tool with a plain name stands in the directory of records, under the name of the
/// tool.
pub proof fn law_record_is_named_after_its_tool(layout: LayoutView, name: Seq<char>)
    requires
        is_tool_name(layout, name),
        takes_names(layout.platform, layout.home),
    ensures
        file_name_of(layout.platform, record_in(layout, name)) == Some(name + ".json"@),
        is_inside(layout.platform, record_in(layout, name), metadata_in(layout)),
{
    law_data_stays_at_home(layout);
    lemma_record_file_is_plain(layout, name);
    law_join_adds_a_component(layout.platform, metadata_in(layout), name + ".json"@);
}

/// Whether an entry of the directory of records is a file with a record.
pub open spec fn has_record(entry: RecordEntry) -> bool {
    (entry.entry matches ListedEntry::Found(_, kind) && kind == EntryKind::File) && entry.record
        is Ok
}

/// The records of a directory are those of all its files, one for each and in their order.
pub proof fn law_every_file_has_its_record(entries: Seq<RecordEntry>) -> (places: Seq<int>)
    ensures
        places.len() == records_among(entries).len(),
        forall|left: int, right: int|
            0 <= left < right < places.len() ==> #[trigger] places[left] < #[trigger] places[right],
        forall|at: int|
            0 <= at < places.len() ==> 0 <= #[trigger] places[at] < entries.len() && has_record(
                entries[places[at]],
            ) && entries[places[at]].record->Ok_0 == records_among(entries)[at],
        forall|place: int|
            0 <= place < entries.len() && has_record(#[trigger] entries[place]) ==> places.contains(
                place,
            ),
    decreases entries.len(),
{
    if entries.len() == 0 {
        Seq::empty()
    } else {
        let rest = entries.drop_last();
        let before = law_every_file_has_its_record(rest);
        let last = entries.len() - 1;
        let earlier = records_among(rest);
        let all = records_among(entries);
        let places = if has_record(entries.last()) {
            before.push(last)
        } else {
            before
        };
        assert forall|at: int| 0 <= at < places.len() implies 0 <= #[trigger] places[at]
            < entries.len() && has_record(entries[places[at]]) && entries[places[at]].record->Ok_0
            == all[at] by {
            if at < before.len() {
                assert(places[at] == before[at]);
                assert(all[at] == earlier[at]);
                assert(entries[before[at]] == rest[before[at]]);
            }
        }
        assert forall|left: int, right: int| 0 <= left < right < places.len() implies
            #[trigger] places[left] < #[trigger] places[right] by {
            assert(places[left] == before[left]);
            if right < before.len() {
                assert(places[right] == before[right]);
            }
        }
        assert forall|place: int|
            0 <= place < entries.len() && has_record(
                #[trigger] entries[place],
            ) implies places.contains(place) by {
            if place < last {
                assert(entries[place] == rest[place]);
                let at = choose|at: int| 0 <= at < before.len() && before[at] == place;
                assert(places[at] == place);
            } else {
                assert(places[places.len() - 1] == last);
            }
        }
        places
    }
}

/// All records are listed: each file of the directory has its record in the list once, and the list
/// is sorted by the first difference of the names of the tools.
pub proof fn law_all_records_are_listed(
    layout: LayoutView,
    entries: Vec<RecordEntry>,
    records: Vec<InstalledToolRecord>,
) -> (places: Seq<int>)
    requires
        is_records_result(
            layout,
            RecordListing::Entries(entries),
            Ok::<Vec<InstalledToolRecord>, LayoutError>(records),
        ),
    ensures
        places.len() == records@.len(),
        places.no_duplicates(),
        forall|at: int|
            0 <= at < places.len() ==> 0 <= #[trigger] places[at] < entries@.len() && has_record(
                entries@[places[at]],
            ) && entries@[places[at]].record->Ok_0 == records@[at],
        forall|place: int|
            0 <= place < entries@.len() && is_of_kind(
                (#[trigger] entries@[place]).entry,
                EntryKind::File,
            ) ==> places.contains(place),
        forall|left: int, right: int|
            0 <= left < right < records@.len() ==> (#[trigger] records@[left]).tool_name@ == (
            #[trigger] records@[right]).tool_name@ || exists|at: int|
                is_smaller_at(records@[left].tool_name@, records@[right].tool_name@, at),
{
    let found = records_among(entries@);
    let all = law_every_file_has_its_record(entries@);
    law_sorting_keeps_all(found, records@, record_order());
    let order = law_sorting_is_stable(found, records@, record_order());
    let places = Seq::new(order.len(), |at: int| all[order[at]]);
    assert forall|at: int| 0 <= at < places.len() implies 0 <= #[trigger] places[at]
        < entries@.len() && has_record(entries@[places[at]]) && entries@[places[at]].record->Ok_0
        == records@[at] by {
        let next = order[at];
        assert(records@[at] == found[next]);
        assert(0 <= all[next] < entries@.len());
    }
    assert forall|place: int|
        0 <= place < entries@.len() && is_of_kind(
            (#[trigger] entries@[place]).entry,
            EntryKind::File,
        ) implies places.contains(place) by {
        assert(is_sound(entries@[place]));
        assert(has_record(entries@[place]));
        let next = choose|next: int| 0 <= next < all.len() && all[next] == place;
        assert(order.contains(next));
        let at = choose|at: int| 0 <= at < order.len() && order[at] == next;
        assert(places[at] == place);
    }
    assert forall|left: int, right: int|
        0 <= left < places.len() && 0 <= right < places.len() && left != right implies places[left]
        != places[right] by {
        let one = order[left];
        let other = order[right];
        assert(one != other);
        if one < other {
            assert(all[one] < all[other]);
        } else {
            assert(all[other] < all[one]);
        }
    }
    assert forall|left: int, right: int| 0 <= left < right < records@.len() implies (
    #[trigger] records@[left]).tool_name@ == (#[trigger] records@[right]).tool_name@ || exists|
        at: int,
    |
        is_smaller_at(records@[left].tool_name@, records@[right].tool_name@, at) by {
        assert(record_order()(records@[left], records@[right]));
        law_first_difference_decides(records@[left].tool_name@, records@[right].tool_name@);
    }
    places
}

/// Records are read unless the directory, an entry of it or the record of a file cannot be; without
/// a directory there are none.
pub proof fn law_records_fail_for_a_reason(
    layout: LayoutView,
    listing: RecordListing,
    result: Result<Vec<InstalledToolRecord>, LayoutError>,
)
    requires
        is_records_result(layout, listing, result),
    ensures
        listing is Missing ==> (result matches Ok(records) && records@.len() == 0),
        listing matches RecordListing::Unreadable(detail) ==> (result matches Err(
            LayoutError::Listing(directory, ListingError::Directory(why)),
        ) && why@ == detail@ && directory@ == joined_path(
            layout.platform,
            layout.home,
            "installed"@,
        )),
        listing matches RecordListing::Entries(entries) ==> (result is Ok <==> forall|at: int|
            0 <= at < entries@.len() ==> match (#[trigger] entries@[at]).entry {
                ListedEntry::Found(_, EntryKind::File) => entries@[at].record is Ok,
                ListedEntry::Found(..) => true,
                _ => false,
            }),
{
    if let RecordListing::Entries(entries) = listing {
        match result {
            Ok(_) => {
                assert forall|at: int| 0 <= at < entries@.len() implies match (
                #[trigger] entries@[at]).entry {
                    ListedEntry::Found(_, EntryKind::File) => entries@[at].record is Ok,
                    ListedEntry::Found(..) => true,
                    _ => false,
                } by {
                    assert(is_sound(entries@[at]));
                }
            },
            Err(error) => {
                let at = choose|at: int|
                    is_first_record_fault(metadata_in(layout), entries@, at, error);
                assert(is_record_fault(metadata_in(layout), entries@[at], error));
                assert(entries@[at] == entries@[at]);
            },
        }
    }
}

/// All binaries are listed: each file of the directory stands in the list once.
pub proof fn law_all_binaries_are_listed(
    layout: LayoutView,
    entries: Vec<ListedEntry>,
    binaries: Vec<String>,
) -> (places: Seq<int>)
    requires
        is_binaries_result(
            layout,
            Some(Listing::Entries(entries)),
            Ok::<Vec<String>, LayoutError>(binaries),
        ),
    ensures
        places.len() == binaries@.len(),
        places.no_duplicates(),
        forall|at: int|
            0 <= at < places.len() ==> 0 <= #[trigger] places[at] < entries@.len() && (
            entries@[places[at]] matches ListedEntry::Found(path, kind) && kind == EntryKind::File
                && path@ == binaries@[at]@),
        forall|place: int|
            0 <= place < entries@.len() && is_of_kind(#[trigger] entries@[place], EntryKind::File)
                ==> places.contains(place),
{
    let found = paths_of_kind(entries@, EntryKind::File);
    let sorted = views(binaries@);
    let all = law_paths_are_those_of_the_kind(entries@, EntryKind::File);
    law_sorting_keeps_all(found, sorted, path_order(layout.platform));
    let order = law_sorting_is_stable(found, sorted, path_order(layout.platform));
    let places = Seq::new(order.len(), |at: int| all[order[at]]);
    assert forall|at: int| 0 <= at < places.len() implies 0 <= #[trigger] places[at]
        < entries@.len() && (entries@[places[at]] matches ListedEntry::Found(path, kind) && kind
        == EntryKind::File && path@ == binaries@[at]@) by {
        let next = order[at];
        assert(sorted[at] == found[next]);
        assert(sorted[at] == binaries@[at]@);
        assert(0 <= all[next] < entries@.len());
    }
    assert forall|place: int|
        0 <= place < entries@.len() && is_of_kind(
            #[trigger] entries@[place],
            EntryKind::File,
        ) implies places.contains(place) by {
        assert(is_of_kind(entries@[place], EntryKind::File));
        let next = choose|next: int| 0 <= next < all.len() && all[next] == place;
        assert(order.contains(next));
        let at = choose|at: int| 0 <= at < order.len() && order[at] == next;
        assert(places[at] == place);
    }
    assert forall|left: int, right: int|
        0 <= left < places.len() && 0 <= right < places.len() && left != right implies places[left]
        != places[right] by {
        let one = order[left];
        let other = order[right];
        assert(one != other);
        if one < other {
            assert(all[one] < all[other]);
        } else {
            assert(all[other] < all[one]);
        }
    }
    places
}

/// The directories of a layout are created one behind the other, until one cannot be.
pub proof fn law_directories_are_created_in_order(
    directories: Seq<Seq<char>>,
    outcomes: Seq<Result<(), String>>,
    step: DirectoryStep,
)
    requires
        is_directory_step(directories, outcomes, step),
        outcomes.len() <= directories.len(),
    ensures
        step is Failed <==> outcomes.len() > 0 && outcomes.last() is Err,
        step is Done <==> outcomes.len() == directories.len() && (outcomes.len() > 0
            ==> outcomes.last() is Ok),
        step matches DirectoryStep::Create(path) ==> outcomes.len() < directories.len() && path@
            == directories[outcomes.len() as int],
        step matches DirectoryStep::Failed(error) ==> (
        error matches LayoutError::UncreatableDirectory(path, detail) && path@
            == directories[outcomes.len() - 1] && (outcomes.last() matches Err(why) && detail@
            == why@)),
{
}

/// The directories of a layout: its home, that of the binaries, and those of the records and of the
/// worktrees at home.
pub proof fn law_directories_of_a_layout(layout: LayoutView)
    ensures
        directories_of(layout).len() == 4,
        directories_of(layout).contains(layout.home),
        directories_of(layout).contains(layout.bin),
        directories_of(layout).contains(joined_path(layout.platform, layout.home, "installed"@)),
        directories_of(layout).contains(joined_path(layout.platform, layout.home, "worktrees"@)),
        directories_of(layout)[0] == layout.home,
{
    let all = directories_of(layout);
    assert(all[0] == layout.home);
    assert(all[1] == layout.bin);
    assert(all[2] == metadata_in(layout));
    assert(all[3] == worktrees_in(layout));
}

/// An error names the path or the tool that it is about, and what was wrong.
pub proof fn law_errors_name_their_subject(error: LayoutError)
    ensures
        ({
            let text = error.text();
            match error {
                LayoutError::UncreatableDirectory(path, detail) => {
                    &&& holds_part(text, path@)
                    &&& holds_part(text, detail@)
                },
                LayoutError::Listing(directory, ListingError::Directory(detail)) => {
                    &&& holds_part(text, directory@)
                    &&& holds_part(text, detail@)
                },
                LayoutError::Listing(directory, ListingError::Entry(detail)) => {
                    &&& holds_part(text, directory@)
                    &&& holds_part(text, detail@)
                },
                LayoutError::Listing(_, ListingError::Inspection(path, detail)) => {
                    &&& holds_part(text, path@)
                    &&& holds_part(text, detail@)
                },
                LayoutError::UnreadableRecord(path, detail) => {
                    &&& holds_part(text, path@)
                    &&& holds_part(text, detail@)
                },
                LayoutError::UnparsableRecord(path, detail) => {
                    &&& holds_part(text, path@)
                    &&& holds_part(text, detail@)
                },
                LayoutError::UnserializableRecord(tool, detail) => {
                    &&& holds_part(text, tool@)
                    &&& holds_part(text, detail@)
                },
                LayoutError::UnwritableRecord(path, detail) => {
                    &&& holds_part(text, path@)
                    &&& holds_part(text, detail@)
                },
            }
        }),
{
    let text = error.text();
    match error {
        LayoutError::UncreatableDirectory(path, detail) => {
            let front = "failed to create managed directory at "@;
            let back = ": "@ + detail@;
            assert(text =~= front + path@ + back);
            lemma_part_is_held(front, path@, back);
            let front = "failed to create managed directory at "@ + path@ + ": "@;
            let back = Seq::<char>::empty();
            assert(text =~= front + detail@ + back);
            lemma_part_is_held(front, detail@, back);
        },
        LayoutError::Listing(directory, ListingError::Directory(detail)) => {
            let front = "failed to read "@;
            let back = ": "@ + detail@;
            assert(text =~= front + directory@ + back);
            lemma_part_is_held(front, directory@, back);
            let front = "failed to read "@ + directory@ + ": "@;
            let back = Seq::<char>::empty();
            assert(text =~= front + detail@ + back);
            lemma_part_is_held(front, detail@, back);
        },
        LayoutError::Listing(directory, ListingError::Entry(detail)) => {
            let front = "failed to read an entry from "@;
            let back = ": "@ + detail@;
            assert(text =~= front + directory@ + back);
            lemma_part_is_held(front, directory@, back);
            let front = "failed to read an entry from "@ + directory@ + ": "@;
            let back = Seq::<char>::empty();
            assert(text =~= front + detail@ + back);
            lemma_part_is_held(front, detail@, back);
        },
        LayoutError::Listing(_, ListingError::Inspection(path, detail)) => {
            let front = "failed to inspect "@;
            let back = ": "@ + detail@;
            assert(text =~= front + path@ + back);
            lemma_part_is_held(front, path@, back);
            let front = "failed to inspect "@ + path@ + ": "@;
            let back = Seq::<char>::empty();
            assert(text =~= front + detail@ + back);
            lemma_part_is_held(front, detail@, back);
        },
        LayoutError::UnreadableRecord(path, detail) => {
            let front = "failed to read "@;
            let back = ": "@ + detail@;
            assert(text =~= front + path@ + back);
            lemma_part_is_held(front, path@, back);
            let front = "failed to read "@ + path@ + ": "@;
            let back = Seq::<char>::empty();
            assert(text =~= front + detail@ + back);
            lemma_part_is_held(front, detail@, back);
        },
        LayoutError::UnparsableRecord(path, detail) => {
            let front = "failed to parse "@;
            let back = ": "@ + detail@;
            assert(text =~= front + path@ + back);
            lemma_part_is_held(front, path@, back);
            let front = "failed to parse "@ + path@ + ": "@;
            let back = Seq::<char>::empty();
            assert(text =~= front + detail@ + back);
            lemma_part_is_held(front, detail@, back);
        },
        LayoutError::UnserializableRecord(tool, detail) => {
            let front = "failed to serialize metadata for "@;
            let back = ": "@ + detail@;
            assert(text =~= front + tool@ + back);
            lemma_part_is_held(front, tool@, back);
            let front = "failed to serialize metadata for "@ + tool@ + ": "@;
            let back = Seq::<char>::empty();
            assert(text =~= front + detail@ + back);
            lemma_part_is_held(front, detail@, back);
        },
        LayoutError::UnwritableRecord(path, detail) => {
            let front = "failed to write "@;
            let back = ": "@ + detail@;
            assert(text =~= front + path@ + back);
            lemma_part_is_held(front, path@, back);
            let front = "failed to write "@ + path@ + ": "@;
            let back = Seq::<char>::empty();
            assert(text =~= front + detail@ + back);
            lemma_part_is_held(front, detail@, back);
        },
    }
}

/// Reading records fails at the first entry of the directory that is at fault, and names it: an entry
/// that could not be read, or a file whose record could not be.
pub proof fn law_first_faulty_record_is_named(
    layout: LayoutView,
    entries: Vec<RecordEntry>,
    error: LayoutError,
) -> (at: int)
    requires
        is_records_result(
            layout,
            RecordListing::Entries(entries),
            Err::<Vec<InstalledToolRecord>, LayoutError>(error),
        ),
    ensures
        0 <= at < entries@.len(),
        forall|before: int|
            0 <= before < at ==> (#[trigger] entries@[before]).entry is Found && (is_of_kind(
                entries@[before].entry,
                EntryKind::File,
            ) ==> entries@[before].record is Ok),
        match error {
            LayoutError::UnreadableRecord(path, why) => {
                &&& is_of_kind(entries@[at].entry, EntryKind::File)
                &&& path@ == entries@[at].entry->Found_0@
                &&& entries@[at].record matches Err(RecordFault::Unreadable(detail))
                &&& why@ == detail@
            },
            LayoutError::UnparsableRecord(path, why) => {
                &&& is_of_kind(entries@[at].entry, EntryKind::File)
                &&& path@ == entries@[at].entry->Found_0@
                &&& entries@[at].record matches Err(RecordFault::Unparsable(detail))
                &&& why@ == detail@
            },
            LayoutError::Listing(directory, cause) => {
                &&& directory@ == joined_path(layout.platform, layout.home, "installed"@)
                &&& match (entries@[at].entry, cause) {
                    (ListedEntry::Unreadable(detail), ListingError::Entry(why)) => why@ == detail@,
                    (
                        ListedEntry::Uninspectable(path, detail),
                        ListingError::Inspection(place, why),
                    ) => place@ == path@ && why@ == detail@,
                    _ => false,
                }
            },
            _ => false,
        },
{
    let at = choose|at: int| is_first_record_fault(metadata_in(layout), entries@, at, error);
    assert forall|before: int| 0 <= before < at implies (#[trigger] entries@[before]).entry is Found
        && (is_of_kind(entries@[before].entry, EntryKind::File) ==> entries@[before].record
        is Ok) by {
        assert(is_sound(entries@[before]));
    }
    at
}

/// Binaries are listed unless their directory or an entry of it cannot be read; the error names the
/// directory. Without a directory there are none.
pub proof fn law_binaries_fail_for_a_reason(
    layout: LayoutView,
    listing: Option<Listing>,
    result: Result<Vec<String>, LayoutError>,
)
    requires
        is_binaries_result(layout, listing, result),
    ensures
        listing is None ==> (result matches Ok(binaries) && binaries@.len() == 0),
        listing matches Some(Listing::Unreadable(detail)) ==> (result matches Err(
            LayoutError::Listing(_, ListingError::Directory(why)),
        ) && why@ == detail@),
        listing matches Some(Listing::Entries(entries)) ==> (result is Ok <==> forall|at: int|
            0 <= at < entries@.len() ==> #[trigger] entries@[at] is Found),
        result matches Err(error) ==> (error matches LayoutError::Listing(directory, cause)
            && directory@ == layout.bin && is_listing_result(
            listing->Some_0,
            EntryKind::File,
            Err::<Vec<String>, ListingError>(cause),
        )),
{
    if let Some(Listing::Entries(entries)) = listing {
        match result {
            Ok(_) => {
                assert forall|at: int| 0 <= at < entries@.len() implies #[trigger] entries@[at]
                    is Found by {
                    assert(is_found(entries@[at]));
                }
            },
            Err(LayoutError::Listing(_, cause)) => {
                law_first_fault_is_named(
                    listing->Some_0,
                    EntryKind::File,
                    Err::<Vec<String>, ListingError>(cause),
                );
            },
            _ => {},
        }
    }
}

} // verus!
