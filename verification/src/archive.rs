//! The package as a container: an ordered list of named members, one of which
//! is the payload.

use vstd::prelude::*;
use vstd::slice::slice_subrange;
use vstd::slice::slice_to_vec;
use vstd::string::StringSliceAdditionalSpecFns;
use crate::bytes::bytes_equal;
use crate::error::{IoCause, IoCauseView, PatchError, PatchFailure, PatchStage};
use crate::outside::ar_file::{
    ar_append,
    ar_create,
    ar_finish,
    ar_header_at,
    ar_header_len,
    ar_magic,
    ar_header_image,
    ar_next,
    ar_open,
    ar_padding,
    ar_parse,
    ar_pending,
    ar_source,
    ar_written,
    plain_header,
};
use crate::outside::io::io_error_text;
use crate::stream::{first_where, is_first, lemma_first_where};

verus! {

/// One member of the container.
#[derive(Clone, PartialEq, Eq, Debug)]
pub struct ArchiveMember {
    /// The name as the header holds it, without its padding.
    pub identifier: Vec<u8>,
    pub mode: u32,
    pub contents: Vec<u8>,
}

/// A member as a value of mathematics.
pub struct ArchiveMemberView {
    pub identifier: Seq<u8>,
    pub mode: u32,
    pub contents: Seq<u8>,
}

impl View for ArchiveMember {
    type V = ArchiveMemberView;

    open spec fn view(&self) -> ArchiveMemberView {
        ArchiveMemberView {
            identifier: self.identifier@,
            mode: self.mode,
            contents: self.contents@,
        }
    }
}

/// The members of a list as values of mathematics.
pub open spec fn member_views(members: Seq<ArchiveMember>) -> Seq<ArchiveMemberView> {
    Seq::new(members.len(), |i: int| members[i]@)
}

/// A member as it is read: with the size that its header declares, which the
/// contents may fall short of where the package was cut off.
#[derive(Clone, PartialEq, Eq, Debug)]
pub struct MemberRecord {
    pub identifier: Vec<u8>,
    pub mode: u32,
    pub size: u64,
    pub contents: Vec<u8>,
}

/// A record as a value of mathematics.
pub struct MemberRecordView {
    pub identifier: Seq<u8>,
    pub mode: u32,
    pub size: u64,
    pub contents: Seq<u8>,
}

impl View for MemberRecord {
    type V = MemberRecordView;

    open spec fn view(&self) -> MemberRecordView {
        MemberRecordView {
            identifier: self.identifier@,
            mode: self.mode,
            size: self.size,
            contents: self.contents@,
        }
    }
}

/// The record holds all the contents that its header declares.
pub open spec fn is_whole(record: MemberRecordView) -> bool {
    record.contents.len() == record.size
}

/// The member that a record stands for.
pub open spec fn member_of(record: MemberRecordView) -> ArchiveMemberView {
    ArchiveMemberView {
        identifier: record.identifier,
        mode: record.mode,
        contents: record.contents,
    }
}

/// The identifier without the spaces at its end.
pub open spec fn without_trailing_spaces(identifier: Seq<u8>) -> Seq<u8>
    decreases identifier.len(),
{
    if identifier.len() > 0 && identifier.last() == 0x20 {
        without_trailing_spaces(identifier.drop_last())
    } else {
        identifier
    }
}

/// The name that an identifier stands for: the identifier without the spaces
/// at its end, and then without one `/` at its end.
pub open spec fn canonical_name(identifier: Seq<u8>) -> Seq<u8> {
    let trimmed = without_trailing_spaces(identifier);
    if trimmed.len() > 0 && trimmed.last() == 0x2f {
        trimmed.drop_last()
    } else {
        trimmed
    }
}

/// The name that an identifier stands for.
pub fn ar_identifier_to_name(identifier: &[u8]) -> (name: Vec<u8>)
    ensures
        name@ == canonical_name(identifier@),
{
    let mut end: usize = identifier.len();
    assert(identifier@.take(end as int) =~= identifier@);
    while end > 0 && identifier[end - 1] == 0x20
        invariant
            end <= identifier.len(),
            without_trailing_spaces(identifier@) == without_trailing_spaces(
                identifier@.take(end as int),
            ),
        decreases end,
    {
        assert(identifier@.take(end as int).drop_last() =~= identifier@.take(end - 1));
        end -= 1;
    }
    if end > 0 && identifier[end - 1] == 0x2f {
        end -= 1;
    }
    slice_to_vec(slice_subrange(identifier, 0, end))
}

/// The two names under which a package holds its payload.
pub open spec fn is_payload_name(name: Seq<u8>) -> bool {
    name == "data.tar.zst".spec_bytes() || name == "data.tar.xz".spec_bytes()
}

/// The member is a payload, by its name.
pub open spec fn is_payload(member: ArchiveMemberView) -> bool {
    is_payload_name(canonical_name(member.identifier))
}

/// `at` is the place of the first payload among the members.
pub open spec fn is_first_payload(members: Seq<ArchiveMemberView>, at: int) -> bool {
    &&& 0 <= at < members.len()
    &&& is_payload(members[at])
    &&& forall|i: int| 0 <= i < at ==> !is_payload(#[trigger] members[i])
}

/// The place of the first payload, if the members hold one.
pub open spec fn first_payload(members: Seq<ArchiveMemberView>) -> Option<int> {
    first_where(members.len() as int, |i: int| is_payload(members[i]))
}

/// There is one first payload at most, and there is one where any member is a
/// payload.
pub proof fn lemma_first_payload(members: Seq<ArchiveMemberView>)
    ensures
        forall|at: int| is_first_payload(members, at) <==> first_payload(members) == Some(at),
        first_payload(members) is None <==> forall|i: int|
            0 <= i < members.len() ==> !is_payload(#[trigger] members[i]),
{
    let wanted = |i: int| is_payload(members[i]);
    lemma_first_where(members.len() as int, wanted);
    assert forall|at: int| is_first_payload(members, at) <==> is_first(
        members.len() as int,
        wanted,
        at,
    ) by {
        if is_first(members.len() as int, wanted, at) {
            assert forall|i: int| 0 <= i < at implies !is_payload(#[trigger] members[i]) by {
                assert(!wanted(i));
            }
        }
    }
    if forall|i: int| 0 <= i < members.len() ==> !#[trigger] wanted(i) {
        assert forall|i: int| 0 <= i < members.len() implies !is_payload(
            #[trigger] members[i],
        ) by {
            assert(!wanted(i));
        }
    }
}

fn is_payload_member(member: &ArchiveMember) -> (found: bool)
    ensures
        found == is_payload(member@),
{
    let name = ar_identifier_to_name(member.identifier.as_slice());
    bytes_equal(name.as_slice(), "data.tar.zst".as_bytes()) || bytes_equal(
        name.as_slice(),
        "data.tar.xz".as_bytes(),
    )
}

/// Finds the payload: the first member whose name is one of the two.
pub fn find_payload(members: &Vec<ArchiveMember>) -> (found: Option<usize>)
    ensures
        match found {
            Some(at) => first_payload(member_views(members@)) == Some(at as int),
            None => first_payload(member_views(members@)) is None,
        },
{
    let ghost views = member_views(members@);
    let mut at: usize = 0;
    while at < members.len()
        invariant
            at <= members.len(),
            views == member_views(members@),
            forall|i: int| 0 <= i < at ==> !is_payload(#[trigger] views[i]),
        decreases members.len() - at,
    {
        if is_payload_member(&members[at]) {
            proof {
                assert(is_first_payload(views, at as int));
                lemma_first_payload(views);
            }
            return Some(at);
        }
        at += 1;
    }
    proof {
        lemma_first_payload(views);
    }
    None
}

/// Where the header of the member at place `k` starts, given the members
/// before it: the first one after the magic number, and each later one after
/// the header, the declared size and the padding of the one before. With `k`
/// the number of members, this is where the package ends.
pub open spec fn header_offset(stream: Seq<Option<MemberRecordView>>, k: int) -> int
    decreases k,
{
    if k <= 0 {
        8
    } else {
        let size = stream[k - 1]->0.size;
        header_offset(stream, k - 1) + ar_header_len() + size + size % 2
    }
}

/// Reading stops at place `k`: the header that would be read there has not
/// its name in itself (it starts with `/` or with `#1/`, which stand for names
/// that are held elsewhere), or the member there cannot be read, or it is cut
/// short. At the place after the last member, only the header counts.
pub open spec fn decode_stops(
    bytes: Seq<u8>,
    stream: Seq<Option<MemberRecordView>>,
    k: int,
) -> bool {
    ||| !plain_header(bytes, header_offset(stream, k))
    ||| (k < stream.len() && (stream[k] is None || !is_whole(stream[k]->0)))
}

/// Why reading stops at place `k`, where it does: the header is looked at
/// first, then whether the member was read, then whether it is whole.
pub open spec fn decode_cause(
    bytes: Seq<u8>,
    stream: Seq<Option<MemberRecordView>>,
    k: int,
) -> IoCauseView {
    if !plain_header(bytes, header_offset(stream, k)) {
        IoCauseView::NamelessMember
    } else if stream[k] is None {
        IoCauseView::Reported
    } else {
        IoCauseView::MemberCutShort
    }
}

/// The first place at which reading stops, if it stops.
pub open spec fn first_stop(bytes: Seq<u8>, stream: Seq<Option<MemberRecordView>>) -> Option<int> {
    first_where(stream.len() as int + 1, |k: int| decode_stops(bytes, stream, k))
}

/// The members that a package holds, or why it cannot be read: the cause at
/// the first place at which reading stops.
pub open spec fn decoded_members(bytes: Seq<u8>) -> Result<Seq<ArchiveMemberView>, IoCauseView> {
    let stream = ar_parse(bytes);
    match first_stop(bytes, stream) {
        Some(k) => Err(decode_cause(bytes, stream, k)),
        None => Ok(Seq::new(stream.len(), |k: int| member_of(stream[k]->0))),
    }
}

/// Reading stops at one first place at most, and it stops where it stops
/// anywhere.
pub proof fn lemma_first_stop(bytes: Seq<u8>, stream: Seq<Option<MemberRecordView>>)
    ensures
        forall|at: int|
            (0 <= at <= stream.len() && decode_stops(bytes, stream, at) && forall|k: int|
                0 <= k < at ==> !#[trigger] decode_stops(bytes, stream, k)) <==> first_stop(
                bytes,
                stream,
            ) == Some(at),
        first_stop(bytes, stream) is None <==> forall|k: int|
            0 <= k <= stream.len() ==> !#[trigger] decode_stops(bytes, stream, k),
{
    let wanted = |k: int| decode_stops(bytes, stream, k);
    lemma_first_where(stream.len() as int + 1, wanted);
    assert forall|at: int|
        (0 <= at <= stream.len() && decode_stops(bytes, stream, at) && forall|k: int|
            0 <= k < at ==> !#[trigger] decode_stops(bytes, stream, k)) <==> is_first(
            stream.len() as int + 1,
            wanted,
            at,
        ) by {
        if 0 <= at <= stream.len() && decode_stops(bytes, stream, at) && forall|k: int|
            0 <= k < at ==> !#[trigger] decode_stops(bytes, stream, k) {
            assert forall|k: int| 0 <= k < at implies !#[trigger] wanted(k) by {
                assert(!decode_stops(bytes, stream, k));
            }
        }
        if is_first(stream.len() as int + 1, wanted, at) {
            assert forall|k: int| 0 <= k < at implies !#[trigger] decode_stops(
                bytes,
                stream,
                k,
            ) by {
                assert(!wanted(k));
            }
        }
    }
    if forall|k: int| 0 <= k <= stream.len() ==> !#[trigger] wanted(k) {
        assert forall|k: int| 0 <= k <= stream.len() implies !#[trigger] decode_stops(
            bytes,
            stream,
            k,
        ) by {
            assert(!wanted(k));
        }
    }
    if forall|k: int| 0 <= k <= stream.len() ==> !#[trigger] decode_stops(bytes, stream, k) {
        assert forall|k: int| 0 <= k < stream.len() + 1 implies !#[trigger] wanted(k) by {
            assert(!decode_stops(bytes, stream, k));
        }
    }
}

/// The header at the given offset has its name in itself.
fn header_is_plain(bytes: &[u8], at: usize) -> (plain: bool)
    ensures
        plain == plain_header(bytes@, at as int),
{
    if bytes.len() < 60 || at > bytes.len() - 60 {
        return true;
    }
    bytes[at] != 0x2f && !(bytes[at] == 0x23 && bytes[at + 1] == 0x31 && bytes[at + 2] == 0x2f)
}

/// Reads all the members of a package, in their order.
pub fn read_members(bytes: &[u8]) -> (read: Result<Vec<ArchiveMember>, PatchError>)
    ensures
        match read {
            Ok(members) => decoded_members(bytes@) == Ok::<Seq<ArchiveMemberView>, IoCauseView>(
                member_views(members@),
            ),
            Err(error) => decoded_members(bytes@) matches Err(cause) && error@ == PatchFailure::Io(
                PatchStage::OuterDecode,
                cause,
            ),
        },
{
    let ghost stream = ar_parse(bytes@);
    let mut reader = ar_open(bytes);
    let mut members: Vec<ArchiveMember> = Vec::new();
    // Where the next header starts, unless that is known to be past the end.
    let mut offset: usize = 8;
    let mut past_end: bool = false;
    assert(stream.skip(0) =~= stream);
    loop
        invariant
            stream == ar_parse(bytes@),
            members.len() <= stream.len(),
            ar_source(reader) == bytes@,
            ar_pending(reader) == stream.skip(members.len() as int),
            forall|i: int|
                0 <= i < members.len() ==> {
                    &&& (#[trigger] stream[i]) is Some
                    &&& member_of(stream[i]->0) == members[i]@
                },
            forall|k: int| 0 <= k < members.len() ==> !#[trigger] decode_stops(bytes@, stream, k),
            header_offset(stream, members.len() as int) >= 8,
            if past_end {
                header_offset(stream, members.len() as int) >= bytes.len()
            } else {
                offset == header_offset(stream, members.len() as int)
            },
            ar_header_at(reader) == header_offset(stream, members.len() as int),
        decreases ar_pending(reader).len(),
    {
        let ghost seen = members.len() as int;
        if !past_end && !header_is_plain(bytes, offset) {
            proof {
                assert(decode_stops(bytes@, stream, seen));
                lemma_first_stop(bytes@, stream);
            }
            return Err(PatchError::Io(PatchStage::OuterDecode, IoCause::NamelessMember));
        }
        assert(plain_header(bytes@, header_offset(stream, seen)));
        match ar_next(&mut reader) {
            None => {
                proof {
                    assert(stream.skip(seen).len() == 0);
                    assert(!decode_stops(bytes@, stream, seen));
                    lemma_first_stop(bytes@, stream);
                    assert(Seq::new(stream.len(), |k: int| member_of(stream[k]->0))
                        =~= member_views(members@));
                }
                return Ok(members);
            },
            Some(Ok(record)) => {
                assert(stream.skip(seen)[0] == stream[seen]);
                assert(stream.skip(seen).drop_first() =~= stream.skip(seen + 1));
                let MemberRecord { identifier, mode, size, contents } = record;
                let length = contents.len();
                if size != length as u64 {
                    proof {
                        assert(!is_whole(stream[seen]->0));
                        assert(decode_stops(bytes@, stream, seen));
                        lemma_first_stop(bytes@, stream);
                    }
                    return Err(PatchError::Io(PatchStage::OuterDecode, IoCause::MemberCutShort));
                }
                assert(!decode_stops(bytes@, stream, seen));
                if !past_end {
                    let padding = length % 2;
                    if bytes.len() < 60 || length > bytes.len() - 60 || offset > bytes.len() - 60
                        - length || offset + padding > bytes.len() - 60 - length {
                        past_end = true;
                    } else {
                        offset = offset + 60 + length + padding;
                    }
                }
                members.push(ArchiveMember { identifier, mode, contents });
            },
            Some(Err(error)) => {
                proof {
                    assert(stream.skip(seen)[0] == stream[seen]);
                    assert(decode_stops(bytes@, stream, seen));
                    lemma_first_stop(bytes@, stream);
                }
                return Err(
                    PatchError::Io(
                        PatchStage::OuterDecode,
                        IoCause::Reported(io_error_text(&error)),
                    ),
                );
            },
        }
    }
}

/// The bytes that stand for one member in a package: its header, its contents
/// and the padding after them. Nothing where no header can be written for it.
pub open spec fn member_image(member: ArchiveMemberView) -> Option<Seq<u8>> {
    match ar_header_image(member.identifier, member.mode, member.contents.len()) {
        Some(header) => Some(header + member.contents + ar_padding(member.contents.len())),
        None => None,
    }
}

/// Every member can be written.
pub open spec fn members_encodable(members: Seq<ArchiveMemberView>) -> bool {
    forall|i: int| 0 <= i < members.len() ==> member_image(#[trigger] members[i]) is Some
}

/// The bytes of the members one after the other.
pub open spec fn member_images(members: Seq<ArchiveMemberView>) -> Seq<Seq<u8>> {
    Seq::new(members.len(), |i: int| member_image(members[i])->0)
}

/// The package that holds the given members in their order: the magic number,
/// then each member. A package without members is empty. Nothing where a
/// member cannot be written.
pub open spec fn archive_image(members: Seq<ArchiveMemberView>) -> Option<Seq<u8>> {
    if !members_encodable(members) {
        None
    } else if members.len() == 0 {
        Some(Seq::empty())
    } else {
        Some(ar_magic() + member_images(members).flatten())
    }
}

/// Writes the members as a package, in their order.
pub fn write_members(members: &Vec<ArchiveMember>) -> (written: Result<Vec<u8>, PatchError>)
    ensures
        written matches Ok(bytes) && archive_image(member_views(members@)) == Some(bytes@),
{
    let ghost views = member_views(members@);
    let mut writer = ar_create();
    let mut at: usize = 0;
    while at < members.len()
        invariant
            at <= members.len(),
            views == member_views(members@),
            members_encodable(views.take(at as int)),
            archive_image(views.take(at as int)) == Some(ar_written(writer)),
        decreases members.len() - at,
    {
        match ar_append(&mut writer, &members[at]) {
            Ok(_) => {
                proof {
                    let prefix = views.take(at as int);
                    let longer = views.take(at + 1);
                    let image = member_image(views[at as int])->0;
                    assert(member_images(longer) =~= member_images(prefix).push(image));
                    member_images(prefix).lemma_flatten_push(image);
                }
            },
            Err(error) => {
                return Err(
                    PatchError::Io(
                        PatchStage::OuterEncode,
                        IoCause::Reported(io_error_text(&error)),
                    ),
                );
            },
        }
        at += 1;
    }
    assert(views.take(at as int) =~= views);
    match ar_finish(writer) {
        Ok(bytes) => Ok(bytes),
        Err(error) => Err(
            PatchError::Io(PatchStage::OuterEncode, IoCause::Reported(io_error_text(&error))),
        ),
    }
}

} // verus!
