//! Adds symlinks to a package that is already built: the payload is taken out
//! of the container, gets one entry more for each link, and is put back in the
//! place it had. Every other member stays as it is.

use vstd::prelude::*;
use vstd::slice::slice_to_vec;
use crate::archive::{
    archive_image,
    ar_identifier_to_name,
    canonical_name,
    decoded_members,
    find_payload,
    first_payload,
    is_first_payload,
    lemma_first_payload,
    member_views,
    read_members,
    write_members,
    ArchiveMember,
    ArchiveMemberView,
};
use crate::error::{IoCauseView, PatchError, PatchFailure, PatchStage};
use crate::links::{
    lemma_planned_from_candidates,
    lemma_planned_links_differ,
    link_path_of,
    link_views,
    planned,
    wanted_link,
    LinkCandidateView,
    SymlinkEntry,
    SymlinkEntryView,
};
use crate::payload::{
    archive_path,
    bytes_outcome,
    entries_encodable,
    lemma_collision_is_rejected,
    lemma_collision_never_patched,
    lemma_repacked_holds_all,
    lemma_without_links_same_entries,
    link_collides,
    link_refused,
    patched_entries,
    payload_entries,
    payload_image,
    read_entries,
    repack,
    repacked,
    stored_path,
    CompressionCodec,
};

verus! {

/// What becomes of a compressed payload of the given name when the links are
/// added to it. The steps are taken in this order, and the first that fails
/// decides: the codec is told from the name; the payload is decompressed; its
/// entries are read; they are written again with the links after them; the
/// result is compressed with the codec that it came in.
pub open spec fn rewritten_payload(
    data: Seq<u8>,
    name: Seq<u8>,
    links: Seq<SymlinkEntryView>,
) -> Result<Seq<u8>, PatchFailure> {
    match CompressionCodec::of_name(name) {
        None => Err(PatchFailure::UnsupportedFormat(name)),
        Some(codec) => match codec.decompressed(data) {
            None => Err(PatchFailure::Io(PatchStage::Decompress, IoCauseView::Reported)),
            Some(tape) => match payload_entries(tape) {
                Err(cause) => Err(PatchFailure::Io(PatchStage::Payload, cause)),
                Ok(entries) => match repacked(entries, links) {
                    Err(failure) => Err(failure),
                    Ok(new_tape) => match codec.compressed(new_tape) {
                        None => Err(PatchFailure::Io(PatchStage::Compress, IoCauseView::Reported)),
                        Some(packed) => Ok(packed),
                    },
                },
            },
        },
    }
}

/// Adds the links to a compressed payload of the given name.
pub fn rewrite_data_archive(
    data_archive: &[u8],
    data_name: &[u8],
    bin_symlinks: &Vec<SymlinkEntry>,
) -> (done: Result<Vec<u8>, PatchError>)
    ensures
        bytes_outcome(done) == rewritten_payload(
            data_archive@,
            data_name@,
            link_views(bin_symlinks@),
        ),
{
    let codec = match CompressionCodec::from_name(data_name) {
        Some(codec) => codec,
        None => {
            return Err(PatchError::UnsupportedFormat(slice_to_vec(data_name)));
        },
    };
    let tape = codec.decompress(data_archive)?;
    let entries = read_entries(tape.as_slice())?;
    let new_tape = repack(&entries, bin_symlinks)?;
    codec.compress(new_tape.as_slice())
}

/// The members with the contents of one of them replaced.
pub open spec fn with_payload(
    members: Seq<ArchiveMemberView>,
    at: int,
    payload: Seq<u8>,
) -> Seq<ArchiveMemberView> {
    members.update(
        at,
        ArchiveMemberView {
            identifier: members[at].identifier,
            mode: members[at].mode,
            contents: payload,
        },
    )
}

/// The members of the patched package: those of the package, with the new
/// payload in the place of the first payload.
pub open spec fn patched_members(bytes: Seq<u8>, links: Seq<SymlinkEntryView>) -> Result<
    Seq<ArchiveMemberView>,
    PatchFailure,
> {
    match decoded_members(bytes) {
        Err(cause) => Err(PatchFailure::Io(PatchStage::OuterDecode, cause)),
        Ok(members) => match first_payload(members) {
            None => Err(PatchFailure::MissingPayload),
            Some(at) => match rewritten_payload(
                members[at].contents,
                canonical_name(members[at].identifier),
                links,
            ) {
                Err(failure) => Err(failure),
                Ok(payload) => Ok(with_payload(members, at, payload)),
            },
        },
    }
}

/// The patched package.
pub open spec fn patched_archive(bytes: Seq<u8>, links: Seq<SymlinkEntryView>) -> Result<
    Seq<u8>,
    PatchFailure,
> {
    match patched_members(bytes, links) {
        Err(failure) => Err(failure),
        Ok(members) => match archive_image(members) {
            None => Err(PatchFailure::Io(PatchStage::OuterEncode, IoCauseView::Reported)),
            Some(image) => Ok(image),
        },
    }
}

/// What a patch gives: the package as it is where no link is asked for, and the
/// patched package otherwise.
pub open spec fn patch_outcome(bytes: Seq<u8>, links: Seq<SymlinkEntryView>) -> Result<
    Seq<u8>,
    PatchFailure,
> {
    if links.len() == 0 {
        Ok(bytes)
    } else {
        patched_archive(bytes, links)
    }
}

/// Adds the links to the payload of a package and gives the package back with
/// the new payload in it. Without links the package comes back as it is:
/// nothing of it is read or written anew.
pub fn rewrite_deb_with_symlinks(deb_bytes: &[u8], bin_symlinks: &Vec<SymlinkEntry>) -> (done:
    Result<Vec<u8>, PatchError>)
    ensures
        bytes_outcome(done) == patch_outcome(deb_bytes@, link_views(bin_symlinks@)),
{
    if bin_symlinks.len() == 0 {
        return Ok(slice_to_vec(deb_bytes));
    }
    let mut members = read_members(deb_bytes)?;
    let ghost before = member_views(members@);
    let at = match find_payload(&members) {
        Some(at) => at,
        None => {
            return Err(PatchError::MissingPayload);
        },
    };
    proof {
        lemma_first_payload(before);
    }
    let name = ar_identifier_to_name(members[at].identifier.as_slice());
    let payload = rewrite_data_archive(
        members[at].contents.as_slice(),
        name.as_slice(),
        bin_symlinks,
    )?;
    let ghost new_payload = payload@;
    let identifier = slice_to_vec(members[at].identifier.as_slice());
    let mode = members[at].mode;
    members.set(at, ArchiveMember { identifier, mode, contents: payload });
    assert(member_views(members@) =~= with_payload(before, at as int, new_payload));
    write_members(&members)
}

/// Patches a package: adds the symlinks to its payload. Without symlinks the
/// package comes back as it is.
pub fn patch(archive_bytes: &[u8], symlinks: &Vec<SymlinkEntry>) -> (done: Result<
    Vec<u8>,
    PatchError,
>)
    ensures
        bytes_outcome(done) == patch_outcome(archive_bytes@, link_views(symlinks@)),
{
    rewrite_deb_with_symlinks(archive_bytes, symlinks)
}

/// Patching leaves every member but the payload as it was, and the payload
/// keeps its identifier and its mode: as many members are written as were
/// read, in the same order.
pub proof fn lemma_other_members_kept(bytes: Seq<u8>, links: Seq<SymlinkEntryView>)
    requires
        patched_members(bytes, links) is Ok,
    ensures
        ({
            let before = decoded_members(bytes)->Ok_0;
            let after = patched_members(bytes, links)->Ok_0;
            let at = first_payload(before)->0;
            &&& decoded_members(bytes) is Ok
            &&& is_first_payload(before, at)
            &&& after.len() == before.len()
            &&& forall|i: int| 0 <= i < before.len() && i != at ==> after[i] == before[i]
            &&& after[at].identifier == before[at].identifier
            &&& after[at].mode == before[at].mode
            &&& rewritten_payload(
                before[at].contents,
                canonical_name(before[at].identifier),
                links,
            ) == Ok::<Seq<u8>, PatchFailure>(after[at].contents)
            &&& patched_archive(bytes, links) == (match archive_image(after) {
                Some(image) => Ok::<Seq<u8>, PatchFailure>(image),
                None => Err::<Seq<u8>, PatchFailure>(
                    PatchFailure::Io(PatchStage::OuterEncode, IoCauseView::Reported),
                ),
            })
        }),
{
    lemma_first_payload(decoded_members(bytes)->Ok_0);
}

/// A payload that is rewritten without links is compressed, with the codec it
/// came in, from the very entries that it held.
pub proof fn lemma_rewrite_without_links(data: Seq<u8>, name: Seq<u8>)
    requires
        rewritten_payload(data, name, Seq::empty()) is Ok,
    ensures
        ({
            let codec = CompressionCodec::of_name(name)->0;
            let entries = payload_entries(codec.decompressed(data)->0)->Ok_0;
            &&& CompressionCodec::of_name(name) is Some
            &&& codec.decompressed(data) is Some
            &&& payload_entries(codec.decompressed(data)->0) is Ok
            &&& payload_image(entries) is Some
            &&& codec.compressed(payload_image(entries)->0) == Some(
                rewritten_payload(data, name, Seq::empty())->Ok_0,
            )
        }),
{
    let codec = CompressionCodec::of_name(name)->0;
    let entries = payload_entries(codec.decompressed(data)->0)->Ok_0;
    lemma_without_links_same_entries(entries);
}

/// A payload that is rewritten with links is compressed, with the codec it
/// came in, from the entries that it held and one symlink for each link after
/// them.
pub proof fn lemma_rewrite_adds_links(data: Seq<u8>, name: Seq<u8>, links: Seq<SymlinkEntryView>)
    requires
        rewritten_payload(data, name, links) is Ok,
    ensures
        ({
            let codec = CompressionCodec::of_name(name)->0;
            let entries = payload_entries(codec.decompressed(data)->0)->Ok_0;
            let all = patched_entries(entries, links);
            &&& payload_image(all) is Some
            &&& codec.compressed(payload_image(all)->0) == Some(
                rewritten_payload(data, name, links)->Ok_0,
            )
            &&& forall|j: int| 0 <= j < links.len() ==> !link_collides(entries, #[trigger] links[j])
        }),
{
    let codec = CompressionCodec::of_name(name)->0;
    let entries = payload_entries(codec.decompressed(data)->0)->Ok_0;
    lemma_repacked_holds_all(entries, links);
}

/// A symlink whose path the payload already holds makes the rewrite fail with
/// the conflict that names the path, provided that the payload can be read and
/// its entries written, and that every link before it can be added.
pub proof fn lemma_rewrite_rejects_collision(
    data: Seq<u8>,
    name: Seq<u8>,
    links: Seq<SymlinkEntryView>,
    at: int,
)
    requires
        CompressionCodec::of_name(name) is Some,
        CompressionCodec::of_name(name)->0.decompressed(data) is Some,
        payload_entries(CompressionCodec::of_name(name)->0.decompressed(data)->0) is Ok,
        ({
            let entries = payload_entries(
                CompressionCodec::of_name(name)->0.decompressed(data)->0,
            )->Ok_0;
            &&& entries_encodable(entries)
            &&& 0 <= at < links.len()
            &&& link_collides(entries, links[at])
            &&& forall|i: int| 0 <= i < at ==> !link_refused(entries, #[trigger] links[i])
        }),
    ensures
        rewritten_payload(data, name, links) == Err::<Seq<u8>, PatchFailure>(
            PatchFailure::PathConflict(stored_path(archive_path(links[at].link_path))->0),
        ),
{
    let entries = payload_entries(CompressionCodec::of_name(name)->0.decompressed(data)->0)->Ok_0;
    lemma_collision_is_rejected(entries, links, at);
}

/// The links ask for different paths of the payload.
pub open spec fn links_ask_apart(links: Seq<SymlinkEntryView>) -> bool {
    forall|i: int, j: int|
        0 <= i < j < links.len() ==> archive_path((#[trigger] links[i]).link_path) != archive_path(
            (#[trigger] links[j]).link_path,
        )
}

/// The symlinks of a plan ask for different paths of a payload.
pub proof fn lemma_planned_links_ask_apart(candidates: Seq<LinkCandidateView>)
    ensures
        links_ask_apart(planned(candidates)),
{
    let links = planned(candidates);
    lemma_planned_links_differ(candidates);
    assert forall|i: int, j: int| 0 <= i < j < links.len() implies archive_path(
        (#[trigger] links[i]).link_path,
    ) != archive_path((#[trigger] links[j]).link_path) by {
        lemma_planned_link_is_absolute(candidates, i);
        lemma_planned_link_is_absolute(candidates, j);
        let first = links[i].link_path;
        let second = links[j].link_path;
        if archive_path(first) == archive_path(second) {
            assert(first =~= seq!['/'] + archive_path(first));
            assert(second =~= seq!['/'] + archive_path(second));
        }
    }
}

/// Every symlink of a plan has a path that starts with `/`.
pub proof fn lemma_planned_link_is_absolute(candidates: Seq<LinkCandidateView>, p: int)
    requires
        0 <= p < planned(candidates).len(),
    ensures
        planned(candidates)[p].link_path.len() > 0,
        planned(candidates)[p].link_path[0] == '/',
{
    lemma_planned_from_candidates(candidates, p);
    let i = choose|i: int|
        0 <= i < candidates.len() && wanted_link(#[trigger] candidates[i]) == Some(
            planned(candidates)[p].link_path,
        ) && candidates[i].target_path == planned(candidates)[p].target_path;
    reveal_strlit("/usr/bin/");
    assert(planned(candidates)[p].link_path == link_path_of(candidates[i].link_name->0));
}

/// No package comes out of a patch in which a symlink would land on a path
/// that the payload already holds.
pub proof fn lemma_patch_rejects_collision(bytes: Seq<u8>, links: Seq<SymlinkEntryView>, at: int)
    requires
        0 <= at < links.len(),
        decoded_members(bytes) is Ok,
        first_payload(decoded_members(bytes)->Ok_0) is Some,
        ({
            let members = decoded_members(bytes)->Ok_0;
            let payload = members[first_payload(members)->0];
            let codec = CompressionCodec::of_name(canonical_name(payload.identifier));
            &&& codec is Some
            &&& codec->0.decompressed(payload.contents) is Some
            &&& payload_entries(codec->0.decompressed(payload.contents)->0) is Ok
            &&& link_collides(
                payload_entries(codec->0.decompressed(payload.contents)->0)->Ok_0,
                links[at],
            )
        }),
    ensures
        patch_outcome(bytes, links) is Err,
{
    let members = decoded_members(bytes)->Ok_0;
    let payload = members[first_payload(members)->0];
    let codec = CompressionCodec::of_name(canonical_name(payload.identifier))->0;
    let entries = payload_entries(codec.decompressed(payload.contents)->0)->Ok_0;
    lemma_collision_never_patched(entries, links, at);
}

} // verus!
