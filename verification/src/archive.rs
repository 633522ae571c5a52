//! Zip archives in memory, read and written with the `zip` crate.

use std::io::{Cursor, Read, Write};

use vstd::prelude::*;
use vstd::utf8::encode_utf8;

verus! {

/// `std::io::Cursor`: bytes in memory, read and written like a file.
#[verifier::external_type_specification]
#[verifier::external_body]
#[verifier::reject_recursive_types(T)]
pub struct ExCursor<T>(std::io::Cursor<T>);

/// `zip::ZipArchive`: an archive that is open for reading.
#[verifier::external_type_specification]
#[verifier::external_body]
#[verifier::reject_recursive_types(R)]
pub struct ExZipArchive<R>(zip::ZipArchive<R>);

/// `zip::result::ZipError`: why an archive could not be read or written.
#[verifier::external_type_specification]
#[verifier::external_body]
pub struct ExZipError(zip::result::ZipError);

/// How the contents of an entry are packed.
#[derive(Debug, Clone, Copy, PartialEq, Eq, Structural)]
pub enum Compression {
    Stored,
    Deflated,
    Other,
}

/// What is known of an entry before its contents are read.
#[derive(Debug)]
pub struct EntryHeader {
    pub name: String,
    pub is_directory: bool,
    pub compression: Compression,
}

/// An entry of an archive. Its contents are missing where they cannot be unpacked.
#[verifier::ext_equal]
pub struct EntryView {
    pub name: Seq<char>,
    pub compression: Compression,
    pub contents: Option<Seq<u8>>,
}

/// An archive that is open for reading, all of it in memory.
pub type OpenArchive = zip::ZipArchive<Cursor<Vec<u8>>>;

/// An archive that is being written in memory: a `zip::ZipWriter`.
#[verifier::external_body]
pub struct ArchiveWriter {
    writer: zip::ZipWriter<Cursor<Vec<u8>>>,
}

/// The entries that `zip::ZipArchive::new` finds in an archive, if it is one. An entry is missing
/// where it cannot be opened.
pub uninterp spec fn zip_entries(bytes: Seq<u8>) -> Option<Seq<Option<EntryView>>>;

/// The entries of an open archive.
pub uninterp spec fn opened_entries(archive: OpenArchive) -> Seq<Option<EntryView>>;

/// The entries that have been added to an archive, with what has been written to them.
pub uninterp spec fn written_entries(writer: ArchiveWriter) -> Seq<EntryView>;

/// Whether an entry of this name is a directory.
pub open spec fn is_directory_name(name: Seq<char>) -> bool {
    name.len() > 0 && (name.last() == '/' || name.last() == '\\')
}

/// The name of a directory entry: it ends with a slash of either kind.
pub open spec fn directory_entry_name(name: Seq<char>) -> Seq<char> {
    if is_directory_name(name) {
        name
    } else {
        name.push('/')
    }
}

/// Whether the mark of the records of large archives stands in a name: `PK` and two control
/// characters.
pub open spec fn holds_mark(name: Seq<char>) -> bool {
    exists|at: int|
        0 <= at && at + 4 <= name.len() && #[trigger] name[at] == 'P' && name[at + 1] == 'K'
            && name[at + 2] == '\u{6}' && name[at + 3] == '\u{7}'
}

/// Whether it is plain from an archive of these bytes and entries if it has the records of large
/// archives. It is where the archive is well below or above the sizes from which it has them. In
/// between, what stands before its end must not look like one of them: the name of the last entry,
/// if that is long enough to be all that stands there, does not hold their mark.
pub open spec fn is_plain_size(bytes: Seq<u8>, entries: Seq<EntryView>) -> bool {
    ||| entries.len() < 0xffff && bytes.len() < 0xffff_ffff
    ||| entries.len() > 0xffff
    ||| bytes.len() > 0x2_0000_0014
    ||| encode_utf8(entries.last().name).len() >= 20 && !holds_mark(entries.last().name)
}

/// How many bytes the name of an entry has at most.
pub const LONGEST_NAME: u64 = 0xffff;

/// How many bytes the contents of an entry have at most.
pub const LONGEST_CONTENTS: u64 = 0xffff_ffff;

/// How many bytes of any kind can be deflated without growing past what an entry holds: the
/// documentation of `zlib_rs::deflate::bound` says that they grow by less than a seventh.
pub const LONGEST_DEFLATED: u64 = 0xe000_0000;

/// Whether a further entry can have this name: it is not too long, and no entry has it.
pub open spec fn is_free_name(entries: Seq<EntryView>, name: Seq<char>) -> bool {
    &&& encode_utf8(name).len() <= LONGEST_NAME
    &&& forall|at: int| 0 <= at < entries.len() ==> (#[trigger] entries[at]).name != name
}

/// Whether the last of the entries, if there is one, fits into an archive however badly it packs.
/// One that is longer may fit or not.
pub open spec fn can_be_closed(entries: Seq<EntryView>) -> bool {
    ||| entries.len() == 0
    ||| entries.last().compression == Compression::Stored
    ||| entries.last().contents matches Some(bytes) && bytes.len() <= LONGEST_DEFLATED
}

/// The entries as they are found when all of them can be opened.
pub open spec fn all_present(entries: Seq<EntryView>) -> Seq<Option<EntryView>> {
    entries.map_values(|entry: EntryView| Some(entry))
}

/// Calls `zip::ZipArchive::new`. What it finds depends on the bytes alone: it is named
/// `zip_entries`.
#[verifier::external_body]
pub(crate) fn open_archive(bytes: Vec<u8>) -> (result: Result<OpenArchive, zip::result::ZipError>)
    ensures
        match result {
            Ok(archive) => zip_entries(bytes@) == Some(opened_entries(archive)),
            Err(_) => zip_entries(bytes@) is None,
        },
{
    zip::ZipArchive::new(Cursor::new(bytes))
}

/// Calls `zip::ZipArchive::len`: the number of entries.
#[verifier::external_body]
pub(crate) fn entry_count(archive: &OpenArchive) -> (count: usize)
    ensures
        count == opened_entries(*archive).len(),
{
    archive.len()
}

/// Calls `zip::ZipArchive::by_index` and reads the header of what it returns: the name, whether it
/// is a directory, which its name decides, and how it is packed. It fails where the entry cannot
/// be opened. The archive holds the same entries afterwards.
#[verifier::external_body]
pub(crate) fn entry_header(archive: &mut OpenArchive, index: usize) -> (result: Result<
    EntryHeader,
    zip::result::ZipError,
>)
    requires
        index < opened_entries(*old(archive)).len(),
    ensures
        opened_entries(*final(archive)) == opened_entries(*old(archive)),
        match result {
            Ok(header) => opened_entries(*old(archive))[index as int] matches Some(entry)
                && header.name@ == entry.name && header.compression == entry.compression
                && header.is_directory == is_directory_name(entry.name),
            Err(_) => opened_entries(*old(archive))[index as int] is None,
        },
{
    let entry = archive.by_index(index)?;
    let compression = match entry.compression() {
        zip::CompressionMethod::Stored => Compression::Stored,
        zip::CompressionMethod::Deflated => Compression::Deflated,
        _ => Compression::Other,
    };
    Ok(EntryHeader { name: entry.name().to_string(), is_directory: entry.is_dir(), compression })
}

/// Calls `zip::ZipArchive::by_index` and reads what it returns to the end: the contents of the
/// entry. It fails where they cannot be unpacked or do not match their checksum. The archive holds
/// the same entries afterwards.
#[verifier::external_body]
pub(crate) fn entry_contents(archive: &mut OpenArchive, index: usize) -> (result: Result<
    Vec<u8>,
    zip::result::ZipError,
>)
    requires
        index < opened_entries(*old(archive)).len(),
        opened_entries(*old(archive))[index as int] is Some,
    ensures
        opened_entries(*final(archive)) == opened_entries(*old(archive)),
        match result {
            Ok(bytes) => opened_entries(*old(archive))[index as int]->Some_0.contents == Some(bytes@),
            Err(_) => opened_entries(*old(archive))[index as int]->Some_0.contents is None,
        },
{
    let mut bytes = Vec::new();
    archive.by_index(index)?.read_to_end(&mut bytes)?;
    Ok(bytes)
}

/// The message of a `zip::result::ZipError` and those of its causes, as `anyhow::Error` writes them
/// out; nothing is claimed of it.
#[verifier::external_body]
pub(crate) fn zip_error_text(error: zip::result::ZipError) -> (text: String) {
    format!("{:#}", anyhow::Error::new(error))
}

/// The message of the I/O error in a `zip::result::ZipError` and those of its causes, as
/// `anyhow::Error` writes them out; nothing is claimed of it.
#[verifier::external_body]
pub(crate) fn io_error_text(error: zip::result::ZipError) -> (text: String) {
    match error {
        zip::result::ZipError::Io(error) => format!("{:#}", anyhow::Error::new(error)),
        error => format!("{:#}", anyhow::Error::new(error)),
    }
}

/// Calls `zip::ZipWriter::new` on an empty buffer.
#[verifier::external_body]
pub(crate) fn new_archive() -> (writer: ArchiveWriter)
    ensures
        written_entries(writer) == Seq::<EntryView>::empty(),
{
    ArchiveWriter { writer: zip::ZipWriter::new(Cursor::new(Vec::new())) }
}

/// Calls `zip::ZipWriter::add_directory`, which adds an entry without contents and sees to it that
/// its name ends with a slash. It first closes the last entry. It fails where that does not fit or
/// where the name is taken or too long, and nowhere else.
#[verifier::external_body]
pub(crate) fn add_directory(writer: ArchiveWriter, name: &str) -> (result: Result<
    ArchiveWriter,
    zip::result::ZipError,
>)
    ensures
        match result {
            Ok(longer) => is_free_name(written_entries(writer), directory_entry_name(name@))
                && written_entries(longer) == written_entries(writer).push(
                EntryView {
                    name: directory_entry_name(name@),
                    compression: Compression::Stored,
                    contents: Some(Seq::empty()),
                },
            ),
            Err(_) => !is_free_name(written_entries(writer), directory_entry_name(name@))
                || !can_be_closed(written_entries(writer)),
        },
{
    let mut writer = writer;
    writer.writer.add_directory(name, zip::write::SimpleFileOptions::default())?;
    Ok(writer)
}

/// Calls `zip::ZipWriter::start_file`, which adds an entry with the compression asked for and
/// nothing in it yet. It first closes the last entry. It fails where that does not fit or where the
/// name is taken or too long, and nowhere else.
#[verifier::external_body]
pub(crate) fn start_file(writer: ArchiveWriter, name: &str, compression: Compression) -> (result:
    Result<ArchiveWriter, zip::result::ZipError>)
    requires
        compression != Compression::Other,
    ensures
        match result {
            Ok(longer) => is_free_name(written_entries(writer), name@) && written_entries(longer)
                == written_entries(writer).push(
                (EntryView { name: name@, compression, contents: Some(Seq::empty()) }),
            ),
            Err(_) => !is_free_name(written_entries(writer), name@) || !can_be_closed(
                written_entries(writer),
            ),
        },
{
    let mut writer = writer;
    let method = match compression {
        Compression::Stored => zip::CompressionMethod::Stored,
        _ => zip::CompressionMethod::Deflated,
    };
    writer.writer.start_file(name, zip::write::SimpleFileOptions::default().compression_method(method))?;
    Ok(writer)
}

/// Calls `write_all` of `zip::ZipWriter`, which appends to the file that was added last. It fails
/// where the contents become too long, and nowhere else.
#[verifier::external_body]
pub(crate) fn write_bytes(writer: ArchiveWriter, bytes: &[u8]) -> (result: Result<
    ArchiveWriter,
    zip::result::ZipError,
>)
    requires
        written_entries(writer).len() > 0,
        written_entries(writer).last().contents is Some,
        !is_directory_name(written_entries(writer).last().name),
    ensures
        ({
            let contents = written_entries(writer).last().contents->Some_0 + bytes@;
            match result {
                Ok(fuller) => contents.len() <= LONGEST_CONTENTS && written_entries(fuller)
                    == written_entries(writer).drop_last().push(
                    EntryView { contents: Some(contents), ..written_entries(writer).last() },
                ),
                Err(_) => contents.len() > LONGEST_CONTENTS,
            }
        }),
{
    let mut writer = writer;
    writer.writer.write_all(bytes)?;
    Ok(writer)
}

/// Calls `zip::ZipWriter::finish`, and takes the buffer. It fails where the last entry does not
/// fit, and nowhere else. `zip::ZipArchive::new` finds in the buffer the entries that were added,
/// in their order, with their names, their compression and what was written to them, as long as it
/// is plain whether the archive is a large one. The bytes themselves depend on the time of day,
/// which every entry records.
#[verifier::external_body]
pub(crate) fn finish_archive(writer: ArchiveWriter) -> (result: Result<
    Vec<u8>,
    zip::result::ZipError,
>)
    ensures
        match result {
            Ok(bytes) => is_plain_size(bytes@, written_entries(writer)) ==> zip_entries(bytes@)
                == Some(all_present(written_entries(writer))),
            Err(_) => !can_be_closed(written_entries(writer)),
        },
{
    Ok(writer.writer.finish()?.into_inner())
}

} // verus!
