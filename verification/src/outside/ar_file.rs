//! The `ar` crate: the container of named members that a Debian package is.

use vstd::prelude::*;
use crate::archive::{ArchiveMember, MemberRecord, MemberRecordView};

verus! {

/// An `ar::Archive` that reads from bytes in memory.
#[verifier::external_body]
pub struct MemberReader<'a> {
    inner: ar::Archive<&'a [u8]>,
}

/// An `ar::Builder` that writes into a vector.
#[verifier::external_body]
pub struct MemberWriter {
    inner: ar::Builder<Vec<u8>>,
}

/// What `ar::Archive::next_entry` yields, call after call, on a fresh reader
/// over the given bytes: for each call that yields something, the member it
/// read (identifier, mode and size of its header, and all the contents that
/// the entry gives), or a failure where it reports an error. This is what the
/// calls yield as long as every header they come to is a plain one (see
/// `plain_header`); past another header nothing is said.
pub uninterp spec fn ar_parse(bytes: Seq<u8>) -> Seq<Option<MemberRecordView>>;

/// What the reader will still yield, as `ar_parse` counts it.
pub uninterp spec fn ar_pending(reader: MemberReader) -> Seq<Option<MemberRecordView>>;

/// The bytes that the reader reads from.
pub uninterp spec fn ar_source(reader: MemberReader) -> Seq<u8>;

/// The offset in its bytes at which the reader takes the next header to start:
/// after the magic number at first, and then after the header, the declared
/// size and the padding of the member before. Where the bytes end before that,
/// the reader finds no header more.
pub uninterp spec fn ar_header_at(reader: MemberReader) -> int;

/// The length of a header.
pub open spec fn ar_header_len() -> int {
    60
}

/// No whole header starts at `at`, or the one that does starts neither with
/// `/` nor with `#1/`: its name stands in the header itself. The crate reads
/// the other headers as references into tables and into the data, and on some
/// of them it panics.
pub open spec fn plain_header(bytes: Seq<u8>, at: int) -> bool {
    0 <= at && at + ar_header_len() <= bytes.len() ==> {
        &&& bytes[at] != 0x2f
        &&& !(bytes[at] == 0x23 && bytes[at + 1] == 0x31 && bytes[at + 2] == 0x2f)
    }
}

/// The bytes that the writer has written so far.
pub uninterp spec fn ar_written(writer: MemberWriter) -> Seq<u8>;

/// The bytes that `ar::Builder::append` writes for the header of a member: a
/// header of the given identifier, mode and size, with zero in its other
/// fields. Nothing where no header is written.
pub uninterp spec fn ar_header_image(identifier: Seq<u8>, mode: u32, size: nat) -> Option<Seq<u8>>;

/// What is written after contents of the given size: a line feed after an odd
/// number of bytes, so that every header starts at an even offset.
pub open spec fn ar_padding(size: nat) -> Seq<u8> {
    if size % 2 == 1 {
        seq![0x0au8]
    } else {
        Seq::empty()
    }
}

/// The eight bytes that every file of this kind begins with: `!<arch>` and a
/// line feed.
pub open spec fn ar_magic() -> Seq<u8> {
    seq![0x21u8, 0x3c, 0x61, 0x72, 0x63, 0x68, 0x3e, 0x0a]
}

/// `ar::Archive::new` on a slice. The reader has read nothing yet, and looks
/// for the first header after the eight bytes of the magic number.
#[verifier::external_body]
pub(crate) fn ar_open<'a>(bytes: &'a [u8]) -> (reader: MemberReader<'a>)
    ensures
        ar_pending(reader) == ar_parse(bytes@),
        ar_source(reader) == bytes@,
        ar_header_at(reader) == 8,
{
    MemberReader { inner: ar::Archive::new(bytes) }
}

/// `ar::Archive::next_entry`, with the entry it yields read to its end. The
/// result is the reader's next outcome, and the reader is left with the rest.
/// After a member, the next header is looked for behind the member's header,
/// the size that the header declares, and the padding (one byte after an odd
/// size). The call is made only where the header it will read is a plain one:
/// the crate indexes its table of long names without a test of the bounds when
/// a header refers to it.
#[verifier::external_body]
pub(crate) fn ar_next<'a>(reader: &mut MemberReader<'a>) -> (item: Option<
    Result<MemberRecord, std::io::Error>,
>)
    requires
        plain_header(ar_source(*old(reader)), ar_header_at(*old(reader))),
    ensures
        ar_source(*final(reader)) == ar_source(*old(reader)),
        match item {
            None => ar_pending(*old(reader)).len() == 0,
            Some(outcome) => {
                &&& ar_pending(*old(reader)).len() > 0
                &&& ar_pending(*final(reader)) == ar_pending(*old(reader)).drop_first()
                &&& match outcome {
                    Ok(record) => {
                        &&& ar_pending(*old(reader))[0] == Some(record@)
                        &&& ar_header_at(*final(reader)) == ar_header_at(*old(reader))
                            + ar_header_len() + record.size + record.size % 2
                    },
                    Err(_) => ar_pending(*old(reader))[0] is None,
                }
            },
        },
{
    reader.inner.next_entry().map(
        |item|
            {
                let mut entry = item?;
                let identifier = entry.header().identifier().to_vec();
                let mode = entry.header().mode();
                let size = entry.header().size();
                let mut contents = Vec::new();
                std::io::Read::read_to_end(&mut entry, &mut contents)?;
                Ok(MemberRecord { identifier, mode, size, contents })
            },
    )
}

/// `ar::Builder::new` on an empty vector. Nothing is written yet.
#[verifier::external_body]
pub(crate) fn ar_create() -> (writer: MemberWriter)
    ensures
        ar_written(writer).len() == 0,
{
    MemberWriter { inner: ar::Builder::new(Vec::new()) }
}

/// `ar::Builder::append` of one member, under a header made by
/// `ar::Header::new` and `set_mode`. It writes the header, the contents as they
/// are, and the padding. The first member that is written is preceded by the
/// magic number of the file. It reports an error only where the writer does or
/// where the contents have not the size of the header: a vector takes every
/// write, and the size is that of the contents.
#[verifier::external_body]
pub(crate) fn ar_append(writer: &mut MemberWriter, member: &ArchiveMember) -> (done: Result<
    (),
    std::io::Error,
>)
    ensures
        done is Ok,
        done is Ok ==> {
            &&& ar_header_image(
                member.identifier@,
                member.mode,
                member.contents@.len(),
            ) matches Some(header)
            &&& ar_written(*final(writer)) == (if ar_written(*old(writer)).len() == 0 {
                ar_magic()
            } else {
                ar_written(*old(writer))
            }) + header + member.contents@ + ar_padding(member.contents@.len())
        },
{
    let mut header = ar::Header::new(member.identifier.clone(), member.contents.len() as u64);
    header.set_mode(member.mode);
    writer.inner.append(&header, member.contents.as_slice())
}

/// `ar::Builder::into_inner`: the vector that was written into. It never
/// reports an error.
#[verifier::external_body]
pub(crate) fn ar_finish(writer: MemberWriter) -> (done: Result<Vec<u8>, std::io::Error>)
    ensures
        done is Ok,
        done matches Ok(bytes) ==> bytes@ == ar_written(writer),
{
    writer.inner.into_inner()
}

} // verus!
