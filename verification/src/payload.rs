//! The payload of a package: a compressed list of the files to install.

use vstd::prelude::*;
use vstd::string::{StrSliceExecFns, StringSliceAdditionalSpecFns};
use vstd::utf8::{decode_utf8, valid_utf8};
use crate::bytes::{bytes_end_in, ends_in};
use crate::error::{IoCause, IoCauseView, PatchError, PatchFailure, PatchStage};
use crate::links::{link_views, SymlinkEntry, SymlinkEntryView};
use crate::outside::codec::{
    xz_decode,
    xz_decoded,
    xz_encode,
    xz_encoded,
    zstd_decode,
    zstd_decoded,
    zstd_encode,
    zstd_encoded,
};
use crate::outside::io::io_error_text;
use crate::outside::tar_file::{
    tar_append,
    tar_create,
    tar_end,
    tar_entries,
    tar_header_image,
    tar_finish,
    tar_next,
    tar_open,
    tar_padding,
    tar_store_path,
    tar_stored_path,
    tar_parse,
    tar_pending,
    tar_written,
};
use crate::outside::text::utf8_text;
use crate::stream::{first_where, is_first, lemma_first_where, read_items};

verus! {

/// The codec of a payload.
#[derive(Clone, Copy, PartialEq, Eq, Debug, Structural)]
pub enum CompressionCodec {
    Xz,
    Zstd,
}

/// The level that a new payload is compressed at with zstd: the codec's default.
pub const ZSTD_LEVEL: i32 = 0;

/// The level that a new payload is compressed at with xz: the highest preset.
pub const XZ_LEVEL: u32 = 9;

impl CompressionCodec {
    /// The codec that the name of a payload stands for, by its suffix.
    pub open spec fn of_name(name: Seq<u8>) -> Option<CompressionCodec> {
        if ends_in(name, ".zst".spec_bytes()) {
            Some(CompressionCodec::Zstd)
        } else if ends_in(name, ".xz".spec_bytes()) {
            Some(CompressionCodec::Xz)
        } else {
            None
        }
    }

    /// The codec that the name of a payload stands for, if it stands for one.
    pub fn from_name(name: &[u8]) -> (codec: Option<CompressionCodec>)
        ensures
            codec == Self::of_name(name@),
    {
        if bytes_end_in(name, ".zst".as_bytes()) {
            Some(CompressionCodec::Zstd)
        } else if bytes_end_in(name, ".xz".as_bytes()) {
            Some(CompressionCodec::Xz)
        } else {
            None
        }
    }

    /// The bytes that the compressed payload stands for, or nothing where the
    /// codec refuses it.
    pub open spec fn decompressed(self, data: Seq<u8>) -> Option<Seq<u8>> {
        match self {
            CompressionCodec::Zstd => zstd_decoded(data),
            CompressionCodec::Xz => xz_decoded(data),
        }
    }

    /// The compressed form of the bytes, or nothing where the codec fails.
    pub open spec fn compressed(self, data: Seq<u8>) -> Option<Seq<u8>> {
        match self {
            CompressionCodec::Zstd => zstd_encoded(data, ZSTD_LEVEL),
            CompressionCodec::Xz => xz_encoded(data, XZ_LEVEL),
        }
    }

    /// Decompresses a payload.
    pub fn decompress(&self, data: &[u8]) -> (done: Result<Vec<u8>, PatchError>)
        ensures
            match done {
                Ok(plain) => self.decompressed(data@) == Some(plain@),
                Err(error) => self.decompressed(data@) is None && error@ == PatchFailure::Io(
                    PatchStage::Decompress,
                    IoCauseView::Reported,
                ),
            },
    {
        let decoded = match self {
            CompressionCodec::Zstd => zstd_decode(data),
            CompressionCodec::Xz => xz_decode(data),
        };
        match decoded {
            Ok(plain) => Ok(plain),
            Err(error) => Err(
                PatchError::Io(PatchStage::Decompress, IoCause::Reported(io_error_text(&error))),
            ),
        }
    }

    /// Compresses a payload.
    pub fn compress(&self, data: &[u8]) -> (done: Result<Vec<u8>, PatchError>)
        ensures
            match done {
                Ok(packed) => self.compressed(data@) == Some(packed@),
                Err(error) => self.compressed(data@) is None && error@ == PatchFailure::Io(
                    PatchStage::Compress,
                    IoCauseView::Reported,
                ),
            },
    {
        let encoded = match self {
            CompressionCodec::Zstd => zstd_encode(data, ZSTD_LEVEL),
            CompressionCodec::Xz => xz_encode(data, XZ_LEVEL),
        };
        match encoded {
            Ok(packed) => Ok(packed),
            Err(error) => Err(
                PatchError::Io(PatchStage::Compress, IoCause::Reported(io_error_text(&error))),
            ),
        }
    }
}

/// What kind of file an entry is.
#[derive(Clone, Copy, PartialEq, Eq, Debug, Structural)]
pub enum EntryType {
    File,
    Directory,
    Symlink,
    HardLink,
    /// Any other kind, with the byte that stands for it in a header.
    Other(u8),
}

impl EntryType {
    /// The kind that a type byte of a header stands for.
    pub open spec fn of_byte(kind: u8) -> EntryType {
        if kind == 0 || kind == 0x30 {
            EntryType::File
        } else if kind == 0x31 {
            EntryType::HardLink
        } else if kind == 0x32 {
            EntryType::Symlink
        } else if kind == 0x35 {
            EntryType::Directory
        } else {
            EntryType::Other(kind)
        }
    }

    /// The type byte that a header gets for the kind.
    pub open spec fn byte(self) -> u8 {
        match self {
            EntryType::File => 0x30,
            EntryType::HardLink => 0x31,
            EntryType::Symlink => 0x32,
            EntryType::Directory => 0x35,
            EntryType::Other(kind) => kind,
        }
    }

    /// A link, symbolic or hard: the kinds that have a target.
    pub open spec fn is_link(self) -> bool {
        self is Symlink || self is HardLink
    }

    /// The kind that a type byte stands for.
    pub fn from_byte(kind: u8) -> (entry_type: EntryType)
        ensures
            entry_type == Self::of_byte(kind),
    {
        if kind == 0 || kind == 0x30 {
            EntryType::File
        } else if kind == 0x31 {
            EntryType::HardLink
        } else if kind == 0x32 {
            EntryType::Symlink
        } else if kind == 0x35 {
            EntryType::Directory
        } else {
            EntryType::Other(kind)
        }
    }

    /// The type byte that stands for the kind.
    pub fn as_byte(&self) -> (kind: u8)
        ensures
            kind == self.byte(),
    {
        match self {
            EntryType::File => 0x30,
            EntryType::HardLink => 0x31,
            EntryType::Symlink => 0x32,
            EntryType::Directory => 0x35,
            EntryType::Other(kind) => *kind,
        }
    }

    /// Whether entries of this kind point somewhere.
    pub fn has_target(&self) -> (link: bool)
        ensures
            link == self.is_link(),
    {
        match self {
            EntryType::Symlink => true,
            EntryType::HardLink => true,
            _ => false,
        }
    }
}

/// A type byte comes back as it was read, but for the old byte of a plain
/// file, zero, which comes back as the digit.
pub proof fn lemma_type_byte_kept(kind: u8)
    ensures
        EntryType::of_byte(kind).byte() == (if kind == 0 {
            0x30u8
        } else {
            kind
        }),
        EntryType::of_byte(EntryType::of_byte(kind).byte()) == EntryType::of_byte(kind),
{
}

/// One entry of a payload as it is read: names are bytes still.
#[derive(Clone, PartialEq, Eq, Debug)]
pub struct TarRecord {
    pub path: Vec<u8>,
    pub kind: u8,
    pub mode: u32,
    pub link: Option<Vec<u8>>,
    pub contents: Vec<u8>,
}

/// A record as a value of mathematics.
pub struct TarRecordView {
    pub path: Seq<u8>,
    pub kind: u8,
    pub mode: u32,
    pub link: Option<Seq<u8>>,
    pub contents: Seq<u8>,
}

impl View for TarRecord {
    type V = TarRecordView;

    open spec fn view(&self) -> TarRecordView {
        TarRecordView {
            path: self.path@,
            kind: self.kind,
            mode: self.mode,
            link: match self.link {
                Some(name) => Some(name@),
                None => None,
            },
            contents: self.contents@,
        }
    }
}

/// One entry of a payload.
#[derive(Clone, PartialEq, Eq, Debug)]
pub struct PayloadEntry {
    pub path: String,
    pub entry_type: EntryType,
    pub mode: u32,
    /// Where a link points to. Other kinds of entry have none.
    pub link_target: Option<String>,
    pub contents: Vec<u8>,
}

/// An entry as a value of mathematics.
pub struct PayloadEntryView {
    pub path: Seq<char>,
    pub entry_type: EntryType,
    pub mode: u32,
    pub link_target: Option<Seq<char>>,
    pub contents: Seq<u8>,
}

impl View for PayloadEntry {
    type V = PayloadEntryView;

    open spec fn view(&self) -> PayloadEntryView {
        PayloadEntryView {
            path: self.path@,
            entry_type: self.entry_type,
            mode: self.mode,
            link_target: match self.link_target {
                Some(target) => Some(target@),
                None => None,
            },
            contents: self.contents@,
        }
    }
}

/// The entries of a list as values of mathematics.
pub open spec fn entry_views(entries: Seq<PayloadEntry>) -> Seq<PayloadEntryView> {
    Seq::new(entries.len(), |i: int| entries[i]@)
}

/// The entry that a record stands for: path and link target as text, the
/// target kept for links only. Nothing where a name that is kept is no text.
pub open spec fn entry_of(record: TarRecordView) -> Option<PayloadEntryView> {
    let entry_type = EntryType::of_byte(record.kind);
    let link = if entry_type.is_link() {
        record.link
    } else {
        None
    };
    if !valid_utf8(record.path) {
        None
    } else if link matches Some(name) && !valid_utf8(name) {
        None
    } else {
        Some(
            PayloadEntryView {
                path: decode_utf8(record.path),
                entry_type,
                mode: record.mode,
                link_target: match link {
                    Some(name) => Some(decode_utf8(name)),
                    None => None,
                },
                contents: record.contents,
            },
        )
    }
}

impl PayloadEntry {
    /// The entry that a record stands for, or nothing where a name of the
    /// record is no text.
    pub fn from_record(record: TarRecord) -> (entry: Option<PayloadEntry>)
        ensures
            match entry {
                Some(e) => entry_of(record@) == Some(e@),
                None => entry_of(record@) is None,
            },
    {
        let TarRecord { path, kind, mode, link, contents } = record;
        let entry_type = EntryType::from_byte(kind);
        let path = match utf8_text(path) {
            Some(text) => text,
            None => {
                return None;
            },
        };
        let link_target = if entry_type.has_target() {
            match link {
                Some(name) => match utf8_text(name) {
                    Some(text) => Some(text),
                    None => {
                        return None;
                    },
                },
                None => None,
            }
        } else {
            None
        };
        Some(PayloadEntry { path, entry_type, mode, link_target, contents })
    }
}

/// The outcomes of reading a payload, each one as an entry.
pub open spec fn entry_stream(stream: Seq<Option<TarRecordView>>) -> Seq<Option<PayloadEntryView>> {
    Seq::new(
        stream.len(),
        |i: int|
            match stream[i] {
                Some(record) => entry_of(record),
                None => None,
            },
    )
}

/// Reading stops at place `k`: the record there cannot be read, or a name of
/// it is no text.
pub open spec fn read_stops(stream: Seq<Option<TarRecordView>>, k: int) -> bool {
    entry_stream(stream)[k] is None
}

/// Why reading stops at place `k`, where it does.
pub open spec fn read_cause(stream: Seq<Option<TarRecordView>>, k: int) -> IoCauseView {
    if stream[k] is None {
        IoCauseView::Reported
    } else {
        IoCauseView::NameNotText
    }
}

/// The first place at which reading stops, if it stops.
pub open spec fn first_unread(stream: Seq<Option<TarRecordView>>) -> Option<int> {
    first_where(stream.len() as int, |k: int| read_stops(stream, k))
}

/// The entries that the bytes of a payload hold, in their order, or why they
/// cannot be read: the cause at the first place at which reading stops.
pub open spec fn payload_entries(tape: Seq<u8>) -> Result<Seq<PayloadEntryView>, IoCauseView> {
    let stream = tar_parse(tape);
    match first_unread(stream) {
        Some(k) => Err(read_cause(stream, k)),
        None => Ok(read_items(entry_stream(stream))),
    }
}

/// Reading stops at one first place at most, and it stops where it stops
/// anywhere.
pub proof fn lemma_first_unread(stream: Seq<Option<TarRecordView>>)
    ensures
        forall|at: int|
            (0 <= at < stream.len() && read_stops(stream, at) && forall|k: int|
                0 <= k < at ==> !#[trigger] read_stops(stream, k)) <==> first_unread(stream)
                == Some(at),
        first_unread(stream) is None <==> forall|k: int|
            0 <= k < stream.len() ==> !#[trigger] read_stops(stream, k),
{
    let wanted = |k: int| read_stops(stream, k);
    lemma_first_where(stream.len() as int, wanted);
    assert forall|at: int|
        (0 <= at < stream.len() && read_stops(stream, at) && forall|k: int|
            0 <= k < at ==> !#[trigger] read_stops(stream, k)) <==> is_first(
            stream.len() as int,
            wanted,
            at,
        ) by {
        if 0 <= at < stream.len() && read_stops(stream, at) && forall|k: int|
            0 <= k < at ==> !#[trigger] read_stops(stream, k) {
            assert forall|k: int| 0 <= k < at implies !#[trigger] wanted(k) by {
                assert(!read_stops(stream, k));
            }
        }
        if is_first(stream.len() as int, wanted, at) {
            assert forall|k: int| 0 <= k < at implies !#[trigger] read_stops(stream, k) by {
                assert(!wanted(k));
            }
        }
    }
    if forall|k: int| 0 <= k < stream.len() ==> !#[trigger] wanted(k) {
        assert forall|k: int| 0 <= k < stream.len() implies !#[trigger] read_stops(stream, k) by {
            assert(!wanted(k));
        }
    }
    if forall|k: int| 0 <= k < stream.len() ==> !#[trigger] read_stops(stream, k) {
        assert forall|k: int| 0 <= k < stream.len() implies !#[trigger] wanted(k) by {
            assert(!read_stops(stream, k));
        }
    }
}

/// Reads all the entries of a payload that is not compressed.
pub fn read_entries(tape: &[u8]) -> (read: Result<Vec<PayloadEntry>, PatchError>)
    ensures
        match read {
            Ok(entries) => payload_entries(tape@) == Ok::<Seq<PayloadEntryView>, IoCauseView>(
                entry_views(entries@),
            ),
            Err(error) => payload_entries(tape@) matches Err(cause) && error@ == PatchFailure::Io(
                PatchStage::Payload,
                cause,
            ),
        },
{
    let ghost stream = tar_parse(tape@);
    let ghost outcomes = entry_stream(stream);
    let mut source = tar_open(tape);
    let mut reader = match tar_entries(&mut source) {
        Ok(reader) => reader,
        Err(error) => {
            proof {
                assert(read_stops(stream, 0));
                lemma_first_unread(stream);
            }
            return Err(
                PatchError::Io(PatchStage::Payload, IoCause::Reported(io_error_text(&error))),
            );
        },
    };
    let mut entries: Vec<PayloadEntry> = Vec::new();
    assert(stream.skip(0) =~= stream);
    loop
        invariant
            stream == tar_parse(tape@),
            outcomes == entry_stream(stream),
            entries.len() <= stream.len(),
            tar_pending(reader) == stream.skip(entries.len() as int),
            forall|i: int|
                0 <= i < entries.len() ==> (#[trigger] outcomes[i]) == Some(entries[i]@),
            forall|k: int| 0 <= k < entries.len() ==> !#[trigger] read_stops(stream, k),
        decreases tar_pending(reader).len(),
    {
        let ghost seen = entries.len() as int;
        match tar_next(&mut reader) {
            None => {
                proof {
                    assert(stream.skip(seen).len() == 0);
                    lemma_first_unread(stream);
                    assert(read_items(outcomes) =~= entry_views(entries@));
                }
                return Ok(entries);
            },
            Some(Ok(record)) => {
                assert(stream.skip(seen)[0] == stream[seen]);
                assert(stream.skip(seen).drop_first() =~= stream.skip(seen + 1));
                match PayloadEntry::from_record(record) {
                    Some(entry) => {
                        assert(!read_stops(stream, seen));
                        entries.push(entry);
                    },
                    None => {
                        proof {
                            assert(read_stops(stream, seen));
                            lemma_first_unread(stream);
                        }
                        return Err(PatchError::Io(PatchStage::Payload, IoCause::NameNotText));
                    },
                }
            },
            Some(Err(error)) => {
                proof {
                    assert(stream.skip(seen)[0] == stream[seen]);
                    assert(read_stops(stream, seen));
                    lemma_first_unread(stream);
                }
                return Err(
                    PatchError::Io(PatchStage::Payload, IoCause::Reported(io_error_text(&error))),
                );
            },
        }
    }
}

/// The bytes that stand for one entry in a payload: its header, its contents
/// and the padding after them. Nothing where no header can be written for it.
pub open spec fn entry_image(entry: PayloadEntryView) -> Option<Seq<u8>> {
    match tar_header_image(
        entry.path,
        entry.entry_type.byte(),
        entry.mode,
        entry.link_target,
        entry.contents.len(),
    ) {
        Some(header) => Some(header + entry.contents + tar_padding(entry.contents.len())),
        None => None,
    }
}

/// The path of an entry as the payload holds it once the entry is written:
/// the writer leaves out the parts of a path that are `.`, so that `./a` and
/// `a` are one path of the payload. Nothing where the writer refuses the path.
pub open spec fn stored_path(path: Seq<char>) -> Option<Seq<char>> {
    tar_stored_path(path)
}

/// The entry can be written: a header takes its path, and the whole of it.
pub open spec fn entry_writable(entry: PayloadEntryView) -> bool {
    stored_path(entry.path) is Some && entry_image(entry) is Some
}

/// Every entry can be written.
pub open spec fn entries_encodable(entries: Seq<PayloadEntryView>) -> bool {
    forall|i: int| 0 <= i < entries.len() ==> entry_writable(#[trigger] entries[i])
}

/// The bytes of the entries, one after the other.
pub open spec fn entry_images(entries: Seq<PayloadEntryView>) -> Seq<Seq<u8>> {
    Seq::new(entries.len(), |i: int| entry_image(entries[i])->0)
}

/// The payload, not compressed, that holds the given entries in their order.
/// Nothing where an entry cannot be written.
pub open spec fn payload_image(entries: Seq<PayloadEntryView>) -> Option<Seq<u8>> {
    if entries_encodable(entries) {
        Some(entry_images(entries).flatten() + tar_end())
    } else {
        None
    }
}

/// The path of a link inside the payload: the link's path without one `/` at
/// its start.
pub open spec fn archive_path(link_path: Seq<char>) -> Seq<char> {
    if link_path.len() > 0 && link_path[0] == '/' {
        link_path.subrange(1, link_path.len() as int)
    } else {
        link_path
    }
}

/// The mode of every symlink that is added: all may read, write and search.
pub const SYMLINK_MODE: u32 = 0o777;

/// The entry that is added for a link: a symlink without contents.
pub open spec fn symlink_entry(link: SymlinkEntryView) -> PayloadEntryView {
    PayloadEntryView {
        path: archive_path(link.link_path),
        entry_type: EntryType::Symlink,
        mode: SYMLINK_MODE,
        link_target: Some(link.target_path),
        contents: Seq::empty(),
    }
}

/// Some entry is held at the given path of the payload.
pub open spec fn holds_path(entries: Seq<PayloadEntryView>, stored: Seq<char>) -> bool {
    exists|i: int| 0 <= i < entries.len() && stored_path((#[trigger] entries[i]).path) == Some(stored)
}

/// The link would land on a path that the payload holds already.
pub open spec fn link_collides(entries: Seq<PayloadEntryView>, link: SymlinkEntryView) -> bool {
    stored_path(archive_path(link.link_path)) matches Some(stored) && holds_path(entries, stored)
}

/// The link cannot be added: its path is taken, or its entry cannot be written.
pub open spec fn link_refused(entries: Seq<PayloadEntryView>, link: SymlinkEntryView) -> bool {
    link_collides(entries, link) || !entry_writable(symlink_entry(link))
}

/// `at` is the place of the first link that cannot be added.
pub open spec fn is_first_refusal(
    entries: Seq<PayloadEntryView>,
    links: Seq<SymlinkEntryView>,
    at: int,
) -> bool {
    &&& 0 <= at < links.len()
    &&& link_refused(entries, links[at])
    &&& forall|i: int| 0 <= i < at ==> !link_refused(entries, #[trigger] links[i])
}

/// The place of the first link that cannot be added, if there is one.
pub open spec fn first_refusal(
    entries: Seq<PayloadEntryView>,
    links: Seq<SymlinkEntryView>,
) -> Option<int> {
    first_where(links.len() as int, |i: int| link_refused(entries, links[i]))
}

/// There is one first refusal at most, and there is one where any link is
/// refused.
pub proof fn lemma_first_refusal(entries: Seq<PayloadEntryView>, links: Seq<SymlinkEntryView>)
    ensures
        forall|at: int|
            is_first_refusal(entries, links, at) <==> first_refusal(entries, links) == Some(at),
        first_refusal(entries, links) is None <==> forall|i: int|
            0 <= i < links.len() ==> !link_refused(entries, #[trigger] links[i]),
{
    let wanted = |i: int| link_refused(entries, links[i]);
    lemma_first_where(links.len() as int, wanted);
    assert forall|at: int| is_first_refusal(entries, links, at) <==> is_first(
        links.len() as int,
        wanted,
        at,
    ) by {
        if is_first_refusal(entries, links, at) {
            assert forall|i: int| 0 <= i < at implies !#[trigger] wanted(i) by {
                assert(!link_refused(entries, links[i]));
            }
        }
        if is_first(links.len() as int, wanted, at) {
            assert forall|i: int| 0 <= i < at implies !link_refused(
                entries,
                #[trigger] links[i],
            ) by {
                assert(!wanted(i));
            }
        }
    }
    if forall|i: int| 0 <= i < links.len() ==> !#[trigger] wanted(i) {
        assert forall|i: int| 0 <= i < links.len() implies !link_refused(
            entries,
            #[trigger] links[i],
        ) by {
            assert(!wanted(i));
        }
    }
}

/// The entries of the patched payload: those it had, in their order, and then
/// one symlink for each link, in the order of the links.
pub open spec fn patched_entries(
    entries: Seq<PayloadEntryView>,
    links: Seq<SymlinkEntryView>,
) -> Seq<PayloadEntryView> {
    entries + Seq::new(links.len(), |i: int| symlink_entry(links[i]))
}

/// The payload, not compressed, that holds the given entries and the links
/// after them. The entries are written first: where one of them cannot be
/// written, that is the failure. Then each link is taken in turn, and the first
/// that cannot be added decides: a path that is taken is a conflict, which
/// names the path as the payload holds it.
pub open spec fn repacked(
    entries: Seq<PayloadEntryView>,
    links: Seq<SymlinkEntryView>,
) -> Result<Seq<u8>, PatchFailure> {
    if !entries_encodable(entries) {
        Err(PatchFailure::Io(PatchStage::Payload, IoCauseView::Reported))
    } else {
        match first_refusal(entries, links) {
            Some(at) => if link_collides(entries, links[at]) {
                Err(PatchFailure::PathConflict(stored_path(archive_path(links[at].link_path))->0))
            } else {
                Err(PatchFailure::Io(PatchStage::Payload, IoCauseView::Reported))
            },
            None => Ok(payload_image(patched_entries(entries, links))->0),
        }
    }
}

/// Without links the patched payload has the entries it had, and is written
/// from them alone.
pub proof fn lemma_without_links_same_entries(entries: Seq<PayloadEntryView>)
    ensures
        patched_entries(entries, Seq::empty()) == entries,
        repacked(entries, Seq::empty()) == (if entries_encodable(entries) {
            Ok::<Seq<u8>, PatchFailure>(payload_image(entries)->0)
        } else {
            Err::<Seq<u8>, PatchFailure>(
                PatchFailure::Io(PatchStage::Payload, IoCauseView::Reported),
            )
        }),
{
    assert(patched_entries(entries, Seq::empty()) =~= entries);
    lemma_first_refusal(entries, Seq::empty());
}

/// A payload that was patched holds the entries it had and then the symlinks,
/// all of them written, and no symlink landed on a path that was taken.
pub proof fn lemma_repacked_holds_all(entries: Seq<PayloadEntryView>, links: Seq<SymlinkEntryView>)
    requires
        repacked(entries, links) is Ok,
    ensures
        payload_image(patched_entries(entries, links)) == Some(repacked(entries, links)->Ok_0),
        forall|j: int| 0 <= j < links.len() ==> !link_collides(entries, #[trigger] links[j]),
{
    lemma_first_refusal(entries, links);
    let all = patched_entries(entries, links);
    assert forall|i: int| 0 <= i < all.len() implies entry_writable(#[trigger] all[i]) by {
        if i < entries.len() {
            assert(all[i] == entries[i]);
        } else {
            assert(all[i] == symlink_entry(links[i - entries.len()]));
            assert(!link_refused(entries, links[i - entries.len()]));
        }
    }
    assert forall|j: int| 0 <= j < links.len() implies !link_collides(
        entries,
        #[trigger] links[j],
    ) by {
        assert(!link_refused(entries, links[j]));
    }
}

/// A symlink whose path the payload already holds is rejected as a conflict
/// that names the path, provided that the entries of the payload can be
/// written and every link before it can be added.
pub proof fn lemma_collision_is_rejected(
    entries: Seq<PayloadEntryView>,
    links: Seq<SymlinkEntryView>,
    at: int,
)
    requires
        entries_encodable(entries),
        0 <= at < links.len(),
        link_collides(entries, links[at]),
        forall|i: int| 0 <= i < at ==> !link_refused(entries, #[trigger] links[i]),
    ensures
        repacked(entries, links) == Err::<Seq<u8>, PatchFailure>(
            PatchFailure::PathConflict(stored_path(archive_path(links[at].link_path))->0),
        ),
{
    assert(is_first_refusal(entries, links, at));
    lemma_first_refusal(entries, links);
}

/// No payload is written when a symlink would land on a path that the payload
/// already holds.
pub proof fn lemma_collision_never_patched(
    entries: Seq<PayloadEntryView>,
    links: Seq<SymlinkEntryView>,
    at: int,
)
    requires
        0 <= at < links.len(),
        link_collides(entries, links[at]),
    ensures
        repacked(entries, links) is Err,
{
    lemma_first_refusal(entries, links);
    if first_refusal(entries, links) is None {
        assert(!link_refused(entries, links[at]));
    }
}

/// No two entries are held at the same path of the payload.
pub open spec fn paths_differ(entries: Seq<PayloadEntryView>) -> bool {
    forall|p: int, q: int|
        0 <= p < q < entries.len() ==> stored_path((#[trigger] entries[p]).path) != stored_path(
            (#[trigger] entries[q]).path,
        )
}

/// The links land on different paths of the payload.
pub open spec fn links_land_apart(links: Seq<SymlinkEntryView>) -> bool {
    forall|i: int, j: int|
        0 <= i < j < links.len() ==> stored_path(archive_path((#[trigger] links[i]).link_path))
            != stored_path(archive_path((#[trigger] links[j]).link_path))
}

/// A payload in which no path occurs twice stays so when it is patched with
/// links that land on different paths.
pub proof fn lemma_patched_paths_differ(
    entries: Seq<PayloadEntryView>,
    links: Seq<SymlinkEntryView>,
)
    requires
        paths_differ(entries),
        links_land_apart(links),
        repacked(entries, links) is Ok,
    ensures
        paths_differ(patched_entries(entries, links)),
{
    lemma_repacked_holds_all(entries, links);
    lemma_first_refusal(entries, links);
    let all = patched_entries(entries, links);
    let held = entries.len() as int;
    assert forall|p: int, q: int| 0 <= p < q < all.len() implies stored_path(
        (#[trigger] all[p]).path,
    ) != stored_path((#[trigger] all[q]).path) by {
        if q < held {
            assert(all[p] == entries[p] && all[q] == entries[q]);
        } else if p < held {
            assert(all[p] == entries[p]);
            assert(all[q] == symlink_entry(links[q - held]));
            assert(!link_refused(entries, links[q - held]));
            assert(!link_collides(entries, links[q - held]));
        } else {
            assert(all[p] == symlink_entry(links[p - held]));
            assert(all[q] == symlink_entry(links[q - held]));
        }
    }
}

/// The outcome of a step as a value of mathematics.
pub open spec fn bytes_outcome(done: Result<Vec<u8>, PatchError>) -> Result<Seq<u8>, PatchFailure> {
    match done {
        Ok(bytes) => Ok(bytes@),
        Err(error) => Err(error@),
    }
}

/// The path of a link inside the payload.
pub fn archive_path_of(link_path: &str) -> (path: String)
    ensures
        path@ == archive_path(link_path@),
{
    let length = link_path.unicode_len();
    if length > 0 && link_path.get_char(0) == '/' {
        link_path.substring_char(1, length).to_owned()
    } else {
        link_path.to_owned()
    }
}

/// Whether one of the paths is the given one.
pub fn has_path(paths: &Vec<String>, path: &String) -> (found: bool)
    ensures
        found == exists|i: int| 0 <= i < paths.len() && (#[trigger] paths[i])@ == path@,
{
    let mut at: usize = 0;
    while at < paths.len()
        invariant
            at <= paths.len(),
            forall|i: int| 0 <= i < at ==> (#[trigger] paths[i])@ != path@,
        decreases paths.len() - at,
    {
        if paths[at] == *path {
            return true;
        }
        at += 1;
    }
    false
}

/// Writes the entries and, after them, one symlink for each link.
pub fn repack(entries: &Vec<PayloadEntry>, links: &Vec<SymlinkEntry>) -> (done: Result<
    Vec<u8>,
    PatchError,
>)
    ensures
        bytes_outcome(done) == repacked(entry_views(entries@), link_views(links@)),
{
    let ghost held = entry_views(entries@);
    let ghost wanted = link_views(links@);
    let mut writer = tar_create();
    // The paths of the entries as the payload holds them.
    let mut taken: Vec<String> = Vec::new();
    let ghost mut written: Seq<PayloadEntryView> = Seq::empty();
    assert(entry_images(written).flatten() =~= Seq::<u8>::empty());
    assert(tar_written(writer) =~= Seq::<u8>::empty());
    let mut at: usize = 0;
    while at < entries.len()
        invariant
            at <= entries.len(),
            held == entry_views(entries@),
            written == held.take(at as int),
            entries_encodable(written),
            tar_written(writer) == entry_images(written).flatten(),
            taken.len() == at,
            forall|i: int|
                0 <= i < at ==> stored_path(held[i].path) == Some((#[trigger] taken[i])@),
        decreases entries.len() - at,
    {
        let entry = &entries[at];
        let target: Option<&str> = match &entry.link_target {
            Some(text) => Some(text.as_str()),
            None => None,
        };
        assert(held[at as int] == entry@);
        let stored = match tar_store_path(entry.path.as_str()) {
            Ok(stored) => stored,
            Err(error) => {
                assert(!entry_writable(held[at as int]));
                return Err(
                    PatchError::Io(PatchStage::Payload, IoCause::Reported(io_error_text(&error))),
                );
            },
        };
        match tar_append(
            &mut writer,
            entry.path.as_str(),
            entry.entry_type.as_byte(),
            entry.mode,
            target,
            entry.contents.as_slice(),
        ) {
            Ok(_) => {
                proof {
                    let image = entry_image(entry@)->0;
                    let longer = written.push(entry@);
                    assert(longer =~= held.take(at + 1));
                    assert(entry_images(longer) =~= entry_images(written).push(image));
                    entry_images(written).lemma_flatten_push(image);
                    written = longer;
                }
            },
            Err(error) => {
                assert(!entry_writable(held[at as int]));
                return Err(
                    PatchError::Io(PatchStage::Payload, IoCause::Reported(io_error_text(&error))),
                );
            },
        }
        taken.push(stored);
        at += 1;
    }
    assert(held.take(at as int) =~= held);
    let nothing: Vec<u8> = Vec::new();
    let mut next: usize = 0;
    assert(written =~= patched_entries(held, wanted.take(0)));
    while next < links.len()
        invariant
            next <= links.len(),
            held == entry_views(entries@),
            wanted == link_views(links@),
            nothing@.len() == 0,
            entries_encodable(held),
            taken.len() == held.len(),
            forall|i: int|
                0 <= i < held.len() ==> stored_path(held[i].path) == Some((#[trigger] taken[i])@),
            forall|i: int| 0 <= i < next ==> !link_refused(held, #[trigger] wanted[i]),
            written == patched_entries(held, wanted.take(next as int)),
            entries_encodable(written),
            tar_written(writer) == entry_images(written).flatten(),
        decreases links.len() - next,
    {
        let link = &links[next];
        assert(wanted[next as int] == link@);
        let path = archive_path_of(link.link_path.as_str());
        let stored = match tar_store_path(path.as_str()) {
            Ok(stored) => stored,
            Err(error) => {
                proof {
                    assert(!entry_writable(symlink_entry(wanted[next as int])));
                    assert(is_first_refusal(held, wanted, next as int));
                    lemma_first_refusal(held, wanted);
                }
                return Err(
                    PatchError::Io(PatchStage::Payload, IoCause::Reported(io_error_text(&error))),
                );
            },
        };
        if has_path(&taken, &stored) {
            proof {
                let i = choose|i: int| 0 <= i < taken.len() && (#[trigger] taken[i])@ == stored@;
                assert(stored_path(held[i].path) == Some(stored@));
                assert(holds_path(held, stored@));
                assert(is_first_refusal(held, wanted, next as int));
                lemma_first_refusal(held, wanted);
            }
            return Err(PatchError::PathConflict(stored));
        }
        proof {
            if holds_path(held, stored@) {
                let i = choose|i: int|
                    0 <= i < held.len() && stored_path((#[trigger] held[i]).path) == Some(stored@);
                assert(taken[i]@ == stored@);
            }
            assert(!link_collides(held, wanted[next as int]));
        }
        assert(nothing@ =~= Seq::<u8>::empty());
        match tar_append(
            &mut writer,
            path.as_str(),
            EntryType::Symlink.as_byte(),
            SYMLINK_MODE,
            Some(link.target_path.as_str()),
            nothing.as_slice(),
        ) {
            Ok(_) => {
                proof {
                    let added = symlink_entry(link@);
                    let image = entry_image(added)->0;
                    let longer = written.push(added);
                    assert(longer =~= patched_entries(held, wanted.take(next + 1)));
                    assert(entry_images(longer) =~= entry_images(written).push(image));
                    entry_images(written).lemma_flatten_push(image);
                    written = longer;
                }
            },
            Err(error) => {
                proof {
                    assert(!entry_writable(symlink_entry(wanted[next as int])));
                    assert(is_first_refusal(held, wanted, next as int));
                    lemma_first_refusal(held, wanted);
                }
                return Err(
                    PatchError::Io(PatchStage::Payload, IoCause::Reported(io_error_text(&error))),
                );
            },
        }
        next += 1;
    }
    proof {
        assert(wanted.take(next as int) =~= wanted);
        lemma_first_refusal(held, wanted);
    }
    match tar_finish(writer) {
        Ok(bytes) => Ok(bytes),
        Err(error) => Err(
            PatchError::Io(PatchStage::Payload, IoCause::Reported(io_error_text(&error))),
        ),
    }
}

} // verus!
