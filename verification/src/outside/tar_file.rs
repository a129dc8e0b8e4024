//! The `tar` crate: the list of files that a payload is.

use vstd::prelude::*;
use crate::payload::{TarRecord, TarRecordView};

verus! {

/// A `tar::Archive` over bytes in memory.
#[verifier::external_body]
pub struct TapeSource<'a> {
    inner: tar::Archive<&'a [u8]>,
}

/// The `tar::Entries` of such an archive.
#[verifier::external_body]
pub struct TapeReader<'a> {
    inner: tar::Entries<'a, &'a [u8]>,
}

/// A `tar::Builder` that writes into a vector.
#[verifier::external_body]
pub struct TapeWriter {
    inner: tar::Builder<Vec<u8>>,
}

/// What reading the given bytes with `tar::Archive::entries` yields, item after
/// item: for each item, the entry as the crate shows it (the bytes of its path
/// and of its link name, the byte of its type, its mode and all of its
/// contents), or a failure where the crate reports an error for the item or
/// for one of these. Where `entries` itself reports an error, the whole is one
/// failure.
pub uninterp spec fn tar_parse(bytes: Seq<u8>) -> Seq<Option<TarRecordView>>;

/// What reading the archive will yield, as `tar_parse` counts it.
pub uninterp spec fn tar_stream(source: TapeSource) -> Seq<Option<TarRecordView>>;

/// What the reader will still yield, as `tar_parse` counts it.
pub uninterp spec fn tar_pending(reader: TapeReader) -> Seq<Option<TarRecordView>>;

/// The bytes that the writer has written so far.
pub uninterp spec fn tar_written(writer: TapeWriter) -> Seq<u8>;

/// The header of an entry: the block that `tar::Header::new_gnu` gives once
/// path, mode, type, link name (where there is one) and size are set and the
/// checksum is computed. Nothing where the header does not take the path or
/// the link name.
pub uninterp spec fn tar_header_image(
    path: Seq<char>,
    kind: u8,
    mode: u32,
    link: Option<Seq<char>>,
    size: nat,
) -> Option<Seq<u8>>;

/// The path as a header holds it: what `tar::Header::path_bytes` gives, as
/// text, once `set_path` took the path on a header of `tar::Header::new_gnu`.
/// The crate leaves out the parts of a path that are `.`. Nothing where
/// `set_path` refuses the path.
pub uninterp spec fn tar_stored_path(path: Seq<char>) -> Option<Seq<char>>;

/// What is written after contents of the given size: zeros up to the next
/// multiple of 512 bytes, the length of a block.
pub open spec fn tar_padding(size: nat) -> Seq<u8> {
    Seq::new(((512 - size % 512) % 512) as nat, |i: int| 0u8)
}

/// The end of an archive: 1024 bytes of zero, which `tar::Builder::finish`
/// writes.
pub open spec fn tar_end() -> Seq<u8> {
    Seq::new(1024, |i: int| 0u8)
}

/// `tar::Archive::new` on a slice.
#[verifier::external_body]
pub(crate) fn tar_open<'a>(bytes: &'a [u8]) -> (source: TapeSource<'a>)
    ensures
        tar_stream(source) == tar_parse(bytes@),
{
    TapeSource { inner: tar::Archive::new(bytes) }
}

/// `tar::Archive::entries`.
#[verifier::external_body]
pub(crate) fn tar_entries<'a>(source: &'a mut TapeSource<'a>) -> (started: Result<
    TapeReader<'a>,
    std::io::Error,
>)
    ensures
        match started {
            Ok(reader) => tar_pending(reader) == tar_stream(*old(source)),
            Err(_) => tar_stream(*old(source)) == seq![None::<TarRecordView>],
        },
{
    Ok(TapeReader { inner: source.inner.entries()? })
}

/// `tar::Entries::next`, with the entry it yields read to its end. The result
/// is the reader's next outcome, and the reader is left with the rest.
#[verifier::external_body]
pub(crate) fn tar_next<'a>(reader: &mut TapeReader<'a>) -> (item: Option<
    Result<TarRecord, std::io::Error>,
>)
    ensures
        match item {
            None => tar_pending(*old(reader)).len() == 0,
            Some(outcome) => {
                &&& tar_pending(*old(reader)).len() > 0
                &&& tar_pending(*final(reader)) == tar_pending(*old(reader)).drop_first()
                &&& match outcome {
                    Ok(record) => tar_pending(*old(reader))[0] == Some(record@),
                    Err(_) => tar_pending(*old(reader))[0] is None,
                }
            },
        },
{
    reader.inner.next().map(
        |item|
            {
                let mut entry = item?;
                let path = entry.path_bytes().into_owned();
                let link = entry.link_name_bytes().map(|name| name.into_owned());
                let kind = entry.header().entry_type().as_byte();
                let mode = entry.header().mode()?;
                let mut contents = Vec::new();
                std::io::Read::read_to_end(&mut entry, &mut contents)?;
                Ok(TarRecord { path, kind, mode, link, contents })
            },
    )
}

/// `tar::Header::set_path` on a header of `tar::Header::new_gnu`, and then
/// `path_bytes` of that header, as text.
#[verifier::external_body]
pub(crate) fn tar_store_path(path: &str) -> (stored: Result<String, std::io::Error>)
    ensures
        match stored {
            Ok(text) => tar_stored_path(path@) == Some(text@),
            Err(_) => tar_stored_path(path@) is None,
        },
{
    let mut header = tar::Header::new_gnu();
    header.set_path(path)?;
    String::from_utf8(header.path_bytes().into_owned()).map_err(
        |error| std::io::Error::new(std::io::ErrorKind::InvalidData, error),
    )
}

/// `tar::Builder::new` on an empty vector. Nothing is written yet.
#[verifier::external_body]
pub(crate) fn tar_create() -> (writer: TapeWriter)
    ensures
        tar_written(writer).len() == 0,
{
    TapeWriter { inner: tar::Builder::new(Vec::new()) }
}

/// `tar::Builder::append` of one entry, under a header of `tar::Header::new_gnu`
/// in which `set_path`, `set_mode`, `set_entry_type`, `set_link_name` (where a
/// link name is given), `set_size` with the length of the contents and
/// `set_cksum` were called. It writes the header, the contents as they are, and
/// the padding.
#[verifier::external_body]
pub(crate) fn tar_append(
    writer: &mut TapeWriter,
    path: &str,
    kind: u8,
    mode: u32,
    link: Option<&str>,
    contents: &[u8],
) -> (done: Result<(), std::io::Error>)
    ensures
        match done {
            Ok(_) => {
                &&& tar_header_image(
                    path@,
                    kind,
                    mode,
                    match link {
                        Some(target) => Some(target@),
                        None => None,
                    },
                    contents@.len(),
                ) matches Some(header)
                &&& tar_written(*final(writer)) == tar_written(*old(writer)) + header + contents@
                    + tar_padding(contents@.len())
            },
            Err(_) => tar_header_image(
                path@,
                kind,
                mode,
                match link {
                    Some(target) => Some(target@),
                    None => None,
                },
                contents@.len(),
            ) is None,
        },
{
    let mut header = tar::Header::new_gnu();
    header.set_path(path)?;
    header.set_mode(mode);
    header.set_entry_type(tar::EntryType::new(kind));
    if let Some(target) = link {
        header.set_link_name(target)?;
    }
    header.set_size(contents.len() as u64);
    header.set_cksum();
    writer.inner.append(&header, contents)
}

/// `tar::Builder::into_inner`: the vector that was written into, with the end
/// of the archive written after everything else. Writing into a vector never
/// fails.
#[verifier::external_body]
pub(crate) fn tar_finish(writer: TapeWriter) -> (done: Result<Vec<u8>, std::io::Error>)
    ensures
        done is Ok,
        done matches Ok(bytes) ==> bytes@ == tar_written(writer) + tar_end(),
{
    writer.inner.into_inner()
}

} // verus!
