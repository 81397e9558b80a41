//! OLE compound files (the wrapper Office puts around some embedded objects), read with
//! the `cfb` crate.

use vstd::prelude::*;
use std::io::Read;

verus! {

/// The number of entries (the root storage, storages and streams) that walking the
/// compound file in `data` visits, or none when it does not open.
pub uninterp spec fn ole_entry_total(data: Seq<u8>) -> Option<nat>;

/// The path of the entry at position `index` of that walk.
pub uninterp spec fn ole_entry_path(data: Seq<u8>, index: nat) -> Option<Seq<char>>;

/// The data of the stream at `path`, or none when the file does not open, there is no
/// stream at that path, or reading it fails.
pub uninterp spec fn ole_stream(data: Seq<u8>, path: Seq<char>) -> Option<Seq<u8>>;

/// `CompoundFile::open` over the bytes, then the length of `walk()`.
#[verifier::external_body]
pub(crate) fn entry_total(data: &[u8]) -> (r: Option<usize>)
    ensures
        match r {
            Some(n) => ole_entry_total(data@) == Some(n as nat),
            None => ole_entry_total(data@) is None,
        },
{
    let comp = cfb::CompoundFile::open(std::io::Cursor::new(data)).ok()?;
    let n = comp.walk().count();
    Some(n)
}

/// `CompoundFile::open` over the bytes, then the path of the `index`-th entry of
/// `walk()`.
#[verifier::external_body]
pub(crate) fn entry_path(data: &[u8], index: usize) -> (r: Option<String>)
    ensures
        match r {
            Some(p) => ole_entry_path(data@, index as nat) == Some(p@),
            None => ole_entry_path(data@, index as nat) is None,
        },
{
    let comp = cfb::CompoundFile::open(std::io::Cursor::new(data)).ok()?;
    let entry = comp.walk().nth(index)?;
    Some(entry.path().to_string_lossy().into_owned())
}

/// `CompoundFile::open` over the bytes, `open_stream`, then `read_to_end`.
#[verifier::external_body]
pub(crate) fn stream_data(data: &[u8], path: &str) -> (r: Option<Vec<u8>>)
    ensures
        match r {
            Some(b) => ole_stream(data@, path@) == Some(b@),
            None => ole_stream(data@, path@) is None,
        },
{
    let mut comp = cfb::CompoundFile::open(std::io::Cursor::new(data)).ok()?;
    let mut stream = comp.open_stream(path).ok()?;
    let mut buf = Vec::new();
    stream.read_to_end(&mut buf).ok()?;
    Some(buf)
}

} // verus!
