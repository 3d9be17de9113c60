//! The calls that this library makes into other crates. Verus takes the
//! contracts in this file on trust: each says what the called function
//! does, and none is proved here.

use vstd::prelude::*;

verus! {

/// `csv::Error`: why the reader could not read a record. Nothing is
/// known of it but its text.
#[verifier::external_type_specification]
#[verifier::external_body]
pub struct ExCsvError(csv::Error);

/// The records that `csv::Reader::records` yields for `data`, read with
/// the given field delimiter and otherwise the reader's defaults, so the
/// first line is taken as the header and is not among them. A record that
/// the reader reports as an error stands as `None`, one that it reads as
/// `Some` of its fields.
pub uninterp spec fn delimited_records(data: Seq<u8>, delimiter: u8) -> Seq<Option<Seq<Seq<char>>>>;

/// The texts that a list of strings holds.
pub open spec fn texts(fields: Seq<String>) -> Seq<Seq<char>> {
    Seq::new(fields.len(), |i: int| fields[i]@)
}

/// Calls `csv::ReaderBuilder::from_reader` on `data` with the given
/// delimiter and collects what `csv::Reader::records` yields, each record
/// as the list of its fields. The reader is deterministic, so the result
/// is [`delimited_records`] of the same arguments.
#[verifier::external_body]
pub(crate) fn read_records(data: &[u8], delimiter: u8) -> (rows: Vec<Result<Vec<String>, csv::Error>>)
    ensures
        rows.len() == delimited_records(data@, delimiter).len(),
        forall|i: int|
            0 <= i < rows.len() ==> match #[trigger] rows[i] {
                Ok(fields) => delimited_records(data@, delimiter)[i] == Some(texts(fields@)),
                Err(_) => delimited_records(data@, delimiter)[i] is None,
            },
{
    csv::ReaderBuilder::new()
        .delimiter(delimiter)
        .from_reader(data)
        .records()
        .map(|row| row.map(|record| record.iter().map(|field| field.to_string()).collect()))
        .collect()
}

/// The header that `csv::Reader::headers` gives for `data`, read with
/// the given field delimiter and otherwise the reader's defaults: the
/// fields of the first line, or `None` where the reader reports an error.
pub uninterp spec fn delimited_header(data: Seq<u8>, delimiter: u8) -> Option<Seq<Seq<char>>>;

/// Calls `csv::ReaderBuilder::from_reader` on `data` with the given
/// delimiter and then `csv::Reader::headers`, and returns the header as
/// the list of its fields: [`delimited_header`] of the same arguments.
#[verifier::external_body]
pub(crate) fn read_header(data: &[u8], delimiter: u8) -> (header: Result<Vec<String>, csv::Error>)
    ensures
        match header {
            Ok(fields) => delimited_header(data@, delimiter) == Some(texts(fields@)),
            Err(_) => delimited_header(data@, delimiter) is None,
        },
{
    csv::ReaderBuilder::new()
        .delimiter(delimiter)
        .from_reader(data)
        .headers()
        .map(|record| record.iter().map(|field| field.to_string()).collect())
}

/// `std::io::Cursor`: the reader over the bytes of an archive. It is
/// only handed to the archive.
#[verifier::external_type_specification]
#[verifier::external_body]
#[verifier::reject_recursive_types(T)]
pub struct ExCursor<T>(std::io::Cursor<T>);

/// `zip::ZipArchive`: an archive that was opened. What it holds is
/// [`archive_members`].
#[verifier::external_type_specification]
#[verifier::external_body]
#[verifier::reject_recursive_types(R)]
pub struct ExZipArchive<R>(zip::ZipArchive<R>);

/// `zip::result::ZipError`: why an archive or a member could not be
/// read. Nothing is known of it but its text.
#[verifier::external_type_specification]
#[verifier::external_body]
pub struct ExZipError(zip::result::ZipError);

/// The members that a `zip::ZipArchive` holds, in their stored order. A
/// member whose place in the archive cannot be found, so that
/// `ZipArchive::by_index_raw` reports an error, stands as `None`. Any
/// other stands as `Some` of its name (`ZipFile::name`) and of its
/// content. The content is what `ZipArchive::by_index_decrypt` with an
/// empty password and `std::io::Read::read_to_end` give; it is `None`
/// where the member cannot be opened for reading, as one that needs a
/// password or is packed by a method that is not built in, and where
/// reading it to its end fails.
pub uninterp spec fn archive_members(archive: zip::ZipArchive<std::io::Cursor<Vec<u8>>>) -> Seq<
    Option<(Seq<char>, Option<Seq<u8>>)>,
>;

/// The members of the archive that `zip::ZipArchive::new` reads from
/// `data`, or `None` where it reports an error.
pub uninterp spec fn zip_members(data: Seq<u8>) -> Option<Seq<Option<(Seq<char>, Option<Seq<u8>>)>>>;

/// Calls `zip::ZipArchive::new` on a cursor over `data`. The archive that
/// comes back holds the members that [`zip_members`] names for `data`;
/// an error comes back exactly where it names none.
#[verifier::external_body]
pub(crate) fn open_archive(data: Vec<u8>) -> (opened: Result<
    zip::ZipArchive<std::io::Cursor<Vec<u8>>>,
    zip::result::ZipError,
>)
    ensures
        match opened {
            Ok(archive) => zip_members(data@) == Some(archive_members(archive)),
            Err(_) => zip_members(data@) is None,
        },
{
    zip::ZipArchive::new(std::io::Cursor::new(data))
}

/// Calls `zip::ZipArchive::len`: the number of members.
#[verifier::external_body]
pub(crate) fn member_count(archive: &zip::ZipArchive<std::io::Cursor<Vec<u8>>>) -> (count: usize)
    ensures
        count == archive_members(*archive).len(),
{
    archive.len()
}

/// Calls `zip::ZipArchive::by_index_raw` and, on the member that it
/// finds, `ZipFile::name`. This reads the member's header and nothing of
/// its content: no reader is built for the content, so nothing of the
/// content can make the call fail. Finding a member moves the archive's
/// cursor and leaves its members as they were.
#[verifier::external_body]
pub(crate) fn member_name(
    archive: &mut zip::ZipArchive<std::io::Cursor<Vec<u8>>>,
    index: usize,
) -> (name: Result<String, zip::result::ZipError>)
    requires
        index < archive_members(*old(archive)).len(),
    ensures
        archive_members(*final(archive)) == archive_members(*old(archive)),
        match name {
            Ok(text) => archive_members(*old(archive))[index as int] matches Some(member)
                && member.0 == text@,
            Err(_) => archive_members(*old(archive))[index as int] is None,
        },
{
    archive.by_index_raw(index).map(|file| file.name().to_string())
}

/// Calls `zip::ZipArchive::by_index_decrypt` with an empty password and
/// reads the member that it opens to its end with
/// `std::io::Read::read_to_end`. Where the archive refuses the password,
/// the error that comes back is the one that the archive gives for a
/// member that needs a password. An error comes back where the member
/// cannot be opened or its content cannot be read.
#[verifier::external_body]
pub(crate) fn member_content(
    archive: &mut zip::ZipArchive<std::io::Cursor<Vec<u8>>>,
    index: usize,
) -> (content: Result<Vec<u8>, zip::result::ZipError>)
    requires
        index < archive_members(*old(archive)).len(),
    ensures
        archive_members(*final(archive)) == archive_members(*old(archive)),
        match content {
            Ok(bytes) => archive_members(*old(archive))[index as int] matches Some(member)
                && member.1 == Some(bytes@),
            Err(_) => archive_members(*old(archive))[index as int] matches Some(member)
                ==> member.1 is None,
        },
{
    let mut bytes = Vec::new();
    match archive.by_index_decrypt(index, &[])? {
        Ok(mut file) => std::io::Read::read_to_end(&mut file, &mut bytes)?,
        Err(_) => return Err(
            zip::result::ZipError::UnsupportedArchive(zip::result::ZipError::PASSWORD_REQUIRED),
        ),
    };
    Ok(bytes)
}

/// Whether the regular expression `pattern` matches somewhere in `text`:
/// what `regex::Regex::is_match` returns for the expression that
/// `regex::Regex::new` builds from `pattern`, or `None` where it builds
/// none.
pub uninterp spec fn pattern_match(pattern: Seq<char>, text: Seq<char>) -> Option<bool>;

/// Builds a `regex::Regex` from `pattern` with `Regex::new` and calls
/// `Regex::is_match` on `text`. Both depend on their arguments alone.
/// The expression is built at every call: one that is kept is opaque, and
/// of a match made with it nothing could be stated.
#[verifier::external_body]
pub(crate) fn match_pattern(pattern: &str, text: &str) -> (matched: Option<bool>)
    ensures
        matched == pattern_match(pattern@, text@),
{
    regex::Regex::new(pattern).ok().map(|expression| expression.is_match(text))
}

/// Whether `id` is the number of a random UUID: its version is 4 and its
/// variant is that of RFC 9562. These are the six bits that
/// `uuid::Uuid::new_v4` sets in every identifier; the other 122 are drawn
/// at random.
pub open spec fn is_random_id(id: u128) -> bool {
    id & 0xF000_C000_0000_0000_0000u128 == 0x4000_8000_0000_0000_0000u128
}

/// Calls `uuid::Uuid::new_v4` and returns the identifier as a number
/// (`Uuid::as_u128`). The identifier is random: all that is known of it
/// is its version and variant.
#[verifier::external_body]
pub(crate) fn fresh_id() -> (id: u128)
    ensures
        is_random_id(id),
{
    uuid::Uuid::new_v4().as_u128()
}

/// Calls `chrono::Utc::now` and returns the time in microseconds since
/// the Unix epoch (`DateTime::timestamp_micros`). Nothing is known of it.
#[verifier::external_body]
pub(crate) fn now_micros() -> i64 {
    chrono::Utc::now().timestamp_micros()
}

} // verus!
