//! ZIP archives (the container of `.docx` and `.xlsx` files), read and written with the
//! `zip` crate, and UTF-8 decoding of their members.

use vstd::prelude::*;
use std::io::{Read, Write};

verus! {

/// Why reading a member failed: the archive did not open, the member was not found or
/// could not be opened, or its data did not read.
pub enum ZipFailure {
    Archive(String),
    Member(String),
    Read(String),
}

pub enum ZipFailureView {
    Archive(Seq<char>),
    Member(Seq<char>),
    Read(Seq<char>),
}

impl View for ZipFailure {
    type V = ZipFailureView;

    open spec fn view(&self) -> ZipFailureView {
        match self {
            ZipFailure::Archive(s) => ZipFailureView::Archive(s@),
            ZipFailure::Member(s) => ZipFailureView::Member(s@),
            ZipFailure::Read(s) => ZipFailureView::Read(s@),
        }
    }
}

/// The decompressed data of the member called `name` of the archive in `data`, or why
/// it could not be had.
pub uninterp spec fn zip_member(data: Seq<u8>, name: Seq<char>) -> Result<Seq<u8>, ZipFailureView>;

/// The number of members of the archive in `data`, or the message of the error met
/// opening it.
pub uninterp spec fn zip_count(data: Seq<u8>) -> Result<nat, Seq<char>>;

/// The name and decompressed data of the member at `index` of the archive in `data`, or
/// why they could not be had.
pub uninterp spec fn zip_entry(data: Seq<u8>, index: nat) -> Result<(Seq<char>, Seq<u8>), ZipFailureView>;

/// `ZipArchive::new` over the bytes, `by_name`, then `read_to_end` of the member.
#[verifier::external_body]
pub(crate) fn read_member(data: &[u8], name: &str) -> (r: Result<Vec<u8>, ZipFailure>)
    ensures
        match r {
            Ok(v) => zip_member(data@, name@) == Ok::<Seq<u8>, ZipFailureView>(v@),
            Err(f) => zip_member(data@, name@) == Err::<Seq<u8>, ZipFailureView>(f@),
        },
{
    let mut z = zip::ZipArchive::new(std::io::Cursor::new(data)).map_err(|e| ZipFailure::Archive(e.to_string()))?;
    let mut f = z.by_name(name).map_err(|e| ZipFailure::Member(e.to_string()))?;
    let mut out = Vec::new();
    f.read_to_end(&mut out).map_err(|e| ZipFailure::Read(e.to_string()))?;
    Ok(out)
}

/// `ZipArchive::new` over the bytes, then `len`.
#[verifier::external_body]
pub(crate) fn member_count(data: &[u8]) -> (r: Result<usize, String>)
    ensures
        match r {
            Ok(n) => zip_count(data@) == Ok::<nat, Seq<char>>(n as nat),
            Err(m) => zip_count(data@) == Err::<nat, Seq<char>>(m@),
        },
{
    let z = zip::ZipArchive::new(std::io::Cursor::new(data)).map_err(|e| e.to_string())?;
    Ok(z.len())
}

/// `ZipArchive::new` over the bytes, `by_index`, the member's `name`, then `read_to_end`.
#[verifier::external_body]
pub(crate) fn read_entry(data: &[u8], index: usize) -> (r: Result<(String, Vec<u8>), ZipFailure>)
    ensures
        match r {
            Ok((n, v)) => zip_entry(data@, index as nat) == Ok::<(Seq<char>, Seq<u8>), ZipFailureView>((n@, v@)),
            Err(f) => zip_entry(data@, index as nat) == Err::<(Seq<char>, Seq<u8>), ZipFailureView>(f@),
        },
{
    let mut z = zip::ZipArchive::new(std::io::Cursor::new(data)).map_err(|e| ZipFailure::Archive(e.to_string()))?;
    let mut f = z.by_index(index).map_err(|e| ZipFailure::Member(e.to_string()))?;
    let name = f.name().to_string();
    let mut out = Vec::new();
    f.read_to_end(&mut out).map_err(|e| ZipFailure::Read(e.to_string()))?;
    Ok((name, out))
}

/// The name of the member at `index` of the archive in `data`, or the message of the
/// error met opening the archive or that member.
pub uninterp spec fn zip_entry_name(data: Seq<u8>, index: nat) -> Result<Seq<char>, Seq<char>>;

/// `ZipArchive::new` over the bytes, `by_index`, then the member's `name`.
#[verifier::external_body]
pub(crate) fn entry_name(data: &[u8], index: usize) -> (r: Result<String, String>)
    ensures
        match r {
            Ok(n) => zip_entry_name(data@, index as nat) == Ok::<Seq<char>, Seq<char>>(n@),
            Err(m) => zip_entry_name(data@, index as nat) == Err::<Seq<char>, Seq<char>>(m@),
        },
{
    let mut z = zip::ZipArchive::new(std::io::Cursor::new(data)).map_err(|e| e.to_string())?;
    let f = z.by_index(index).map_err(|e| e.to_string())?;
    Ok(f.name().to_string())
}

/// `ZipArchive::new`, `by_name`, then one `read` of at most 8 bytes: what comes back is a
/// start of the member's data (empty when that read fails); `None` when the archive or
/// the member does not open. How many bytes one read yields is the decompressor's
/// business and is not stated.
#[verifier::external_body]
pub(crate) fn read_member_head(data: &[u8], name: &str) -> (r: Option<Vec<u8>>)
    ensures
        r matches Some(h) ==> h@.len() <= 8,
        r matches Some(h) ==> (zip_member(data@, name@) matches Ok(c) ==> h@ == c.take(h@.len() as int)),
        r is None ==> !(zip_member(data@, name@) is Ok),
{
    let mut z = zip::ZipArchive::new(std::io::Cursor::new(data)).ok()?;
    let mut f = z.by_name(name).ok()?;
    let mut header = [0u8; 8];
    let n = f.read(&mut header).unwrap_or(0);
    Some(header[..n].to_vec())
}

/// An archive being built in memory: a `zip::ZipWriter` over a `Cursor<Vec<u8>>`, held
/// here whole because its `Write + Seek` bound keeps it from being declared on its own.
#[verifier::external_body]
pub struct ArchiveBuilder {
    inner: zip::ZipWriter<std::io::Cursor<Vec<u8>>>,
}

/// The members written so far into an archive being built, in order: name and data.
pub uninterp spec fn zip_written(w: ArchiveBuilder) -> Seq<(Seq<char>, Seq<u8>)>;

pub open spec fn no_members() -> Seq<(Seq<char>, Seq<u8>)> {
    Seq::empty()
}

/// `ZipWriter::new` over an empty in-memory buffer.
#[verifier::external_body]
pub(crate) fn new_archive() -> (w: ArchiveBuilder)
    ensures
        zip_written(w) == no_members(),
{
    ArchiveBuilder { inner: zip::ZipWriter::new(std::io::Cursor::new(Vec::new())) }
}

/// No member of `members` before position `k` is called `name`.
pub open spec fn name_unused(members: Seq<(Seq<char>, Seq<u8>)>, name: Seq<char>) -> bool {
    forall|k: int| 0 <= k < members.len() ==> (#[trigger] members[k]).0 != name
}

/// The archive in `b` holds exactly `members`, in order: their number, each one's name
/// at its position, and each one's data under its name.
pub open spec fn archive_holds(b: Seq<u8>, members: Seq<(Seq<char>, Seq<u8>)>) -> bool {
    &&& zip_count(b) == Ok::<nat, Seq<char>>(members.len())
    &&& forall|i: int| 0 <= i < members.len() ==> zip_entry_name(b, i as nat) == Ok::<Seq<char>, Seq<char>>((#[trigger] members[i]).0)
    &&& forall|i: int| 0 <= i < members.len() ==> zip_member(b, (#[trigger] members[i]).0) == Ok::<Seq<u8>, ZipFailureView>(members[i].1)
    &&& forall|i: int| 0 <= i < members.len() ==> zip_entry(b, i as nat) == Ok::<(Seq<char>, Seq<u8>), ZipFailureView>(#[trigger] members[i])
}

/// The largest member data written here that is sure to be stored: the writer refuses
/// data (or deflated data) over `u32::MAX` bytes unless the large-file option is set,
/// and the deflater never grows a block much beyond its raw size.
pub const MEMBER_DATA_LIMIT: usize = 0x7FFF_FFFF;

/// Every member written so far has data within `MEMBER_DATA_LIMIT`.
pub open spec fn members_fit(members: Seq<(Seq<char>, Seq<u8>)>) -> bool {
    forall|k: int| 0 <= k < members.len() ==> (#[trigger] members[k]).1.len() <= MEMBER_DATA_LIMIT
}

/// `ZipWriter::start_file` with deflate compression, then `write_all` of the data. The
/// writer refuses a name it has already written (`insert_file_data`), and data, or the
/// previous member's deflated data, over `u32::MAX` bytes without the large-file option
/// (`Write::write`, `update_local_file_header`); miniz_oxide's deflater falls back to
/// raw blocks when a block would grow (`deflate/core.rs`, `compress_block`), so data
/// within `MEMBER_DATA_LIMIT` deflates under that bound. Writing to memory fails in no
/// other way. A name of more than `u16::MAX` UTF-8 bytes makes the header writer panic
/// (`local_block`), so it is left out.
#[verifier::external_body]
pub(crate) fn add_member(w: &mut ArchiveBuilder, name: &str, data: &[u8]) -> (r: Result<(), String>)
    requires
        vstd::utf8::encode_utf8(name@).len() <= 0xFFFF,
    ensures
        r is Ok ==> zip_written(*final(w)) == zip_written(*old(w)).push((name@, data@)),
        r is Ok ==> name_unused(zip_written(*old(w)), name@),
        name_unused(zip_written(*old(w)), name@) && members_fit(zip_written(*old(w)))
            && data@.len() <= MEMBER_DATA_LIMIT ==> r is Ok,
{
    let options = zip::write::SimpleFileOptions::default().compression_method(zip::CompressionMethod::Deflated);
    w.inner.start_file(name, options).map_err(|e| e.to_string())?;
    w.inner.write_all(data).map_err(|e| e.to_string())
}

/// `ZipWriter::finish`, giving the archive's bytes. The bytes themselves (headers,
/// compressed data, directory) are the zip crate's; what is stated is that reading them
/// back gives the members written, in order. Finishing deflates the last member's tail
/// and writes the directory into memory; as for `add_member`, it fails only on a member
/// over the size bound.
#[verifier::external_body]
pub(crate) fn finish_archive(w: ArchiveBuilder) -> (r: Result<Vec<u8>, String>)
    ensures
        r matches Ok(b) ==> archive_holds(b@, zip_written(w)),
        members_fit(zip_written(w)) ==> r is Ok,
{
    w.inner.finish().map(|c| c.into_inner()).map_err(|e| e.to_string())
}

/// `members` can be written one after the other into a new archive: every name short
/// enough for a header and used once, every member's data within the size bound.
pub open spec fn packable(members: Seq<(Seq<char>, Seq<u8>)>) -> bool {
    &&& forall|i: int| 0 <= i < members.len() ==> vstd::utf8::encode_utf8((#[trigger] members[i]).0).len() <= 0xFFFF
    &&& forall|i: int, j: int| 0 <= i < j < members.len() ==> (#[trigger] members[i]).0 != (#[trigger] members[j]).0
    &&& members_fit(members)
}

/// A character takes at most four bytes in UTF-8.
pub(crate) proof fn lemma_utf8_len_bound(s: Seq<char>)
    ensures
        vstd::utf8::encode_utf8(s).len() <= 4 * s.len(),
    decreases s.len(),
{
    if s.len() > 0 {
        lemma_utf8_len_bound(s.drop_first());
    }
}

/// The message `String::from_utf8` reports for bytes that are not valid UTF-8.
pub uninterp spec fn utf8_error_text(bytes: Seq<u8>) -> Seq<char>;

/// `String::from_utf8`: the text when the bytes are valid UTF-8, else the error's message.
#[verifier::external_body]
pub(crate) fn utf8_to_string(bytes: Vec<u8>) -> (r: Result<String, String>)
    ensures
        r is Ok <==> vstd::utf8::valid_utf8(bytes@),
        r matches Ok(s) ==> s@ == vstd::utf8::decode_utf8(bytes@),
        r matches Err(m) ==> m@ == utf8_error_text(bytes@),
{
    String::from_utf8(bytes).map_err(|e| e.to_string())
}

} // verus!
