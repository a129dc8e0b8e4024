//! Which executables get a symlink in `/usr/bin`, and where each one points.

use vstd::prelude::*;
use vstd::string::StringExecFns;
use crate::outside::host_path::{file_name, path_file_name};
use crate::stream::{first_where, is_first, lemma_first_where};

verus! {

/// One symlink to add: `link_path` will point to `target_path`. Both are
/// absolute paths of the installed system.
#[derive(Clone, PartialEq, Eq, Debug)]
pub struct SymlinkEntry {
    pub link_path: String,
    pub target_path: String,
}

/// A symlink as a value of mathematics.
pub struct SymlinkEntryView {
    pub link_path: Seq<char>,
    pub target_path: Seq<char>,
}

impl View for SymlinkEntry {
    type V = SymlinkEntryView;

    open spec fn view(&self) -> SymlinkEntryView {
        SymlinkEntryView { link_path: self.link_path@, target_path: self.target_path@ }
    }
}

/// The symlinks of a list as values of mathematics.
pub open spec fn link_views(links: Seq<SymlinkEntry>) -> Seq<SymlinkEntryView> {
    Seq::new(links.len(), |i: int| links[i]@)
}

/// Two files ask for the same symlink and would have it point to different
/// places.
#[derive(Clone, PartialEq, Eq, Debug)]
pub struct ConflictError {
    pub link_path: String,
    /// Where the link points for the file that came first.
    pub first_target: String,
    /// Where the later file would have it point.
    pub second_target: String,
}

/// A conflict as a value of mathematics.
pub struct ConflictView {
    pub link_path: Seq<char>,
    pub first_target: Seq<char>,
    pub second_target: Seq<char>,
}

impl View for ConflictError {
    type V = ConflictView;

    open spec fn view(&self) -> ConflictView {
        ConflictView {
            link_path: self.link_path@,
            first_target: self.first_target@,
            second_target: self.second_target@,
        }
    }
}

impl ConflictError {
    /// The conflict in words.
    pub open spec fn message_text(self) -> Seq<char> {
        "conflicting binaries for "@ + self.link_path@ + ": "@ + self.first_target@ + " and "@
            + self.second_target@
    }

    /// The conflict in words, for the user.
    pub fn message(&self) -> (text: String)
        ensures
            text@ == self.message_text(),
    {
        let mut text = String::from_str("conflicting binaries for ");
        text.append(self.link_path.as_str());
        text.append(": ");
        text.append(self.first_target.as_str());
        text.append(" and ");
        text.append(self.second_target.as_str());
        text
    }
}

/// What the host says of a path: whether a regular file is there, and its
/// permission bits.
#[derive(Clone, Copy, PartialEq, Eq, Debug, Structural)]
pub struct FileStatus {
    pub is_file: bool,
    pub mode: u32,
}

impl FileStatus {
    /// A regular file that somebody may execute.
    pub open spec fn executable(self) -> bool {
        self.is_file && self.mode & 0o111 != 0
    }

    /// Whether this is a regular file that somebody may execute.
    pub fn is_executable(&self) -> (yes: bool)
        ensures
            yes == self.executable(),
    {
        self.is_file && self.mode & 0o111 != 0
    }
}

/// The name under which a file gets a symlink: the file name of its path,
/// where the host found an executable file there. `status` is nothing where the
/// host could not say.
pub open spec fn executable_name_of(path: Seq<char>, status: Option<FileStatus>) -> Option<
    Seq<char>,
> {
    match status {
        Some(found) => if found.executable() {
            path_file_name(path)
        } else {
            None
        },
        None => None,
    }
}

/// The name under which a file gets a symlink, if it gets one.
pub fn executable_name(path: &str, status: Option<FileStatus>) -> (name: Option<String>)
    ensures
        match name {
            Some(text) => executable_name_of(path@, status) == Some(text@),
            None => executable_name_of(path@, status) is None,
        },
{
    match status {
        Some(found) => if found.is_executable() {
            file_name(path)
        } else {
            None
        },
        None => None,
    }
}

/// The path of the symlink for a name.
pub open spec fn link_path_of(name: Seq<char>) -> Seq<char> {
    "/usr/bin/"@ + name
}

/// The path of the symlink for a name: the name in `/usr/bin`.
pub fn link_path_for(name: &str) -> (link_path: String)
    ensures
        link_path@ == link_path_of(name@),
{
    String::from_str("/usr/bin/").concat(name)
}

/// A file of the manifest as the planner sees it: the name it would be linked
/// under, if it is an executable, and the path it is installed to.
#[derive(Clone, PartialEq, Eq, Debug)]
pub struct LinkCandidate {
    pub link_name: Option<String>,
    pub target_path: String,
}

/// A candidate as a value of mathematics.
pub struct LinkCandidateView {
    pub link_name: Option<Seq<char>>,
    pub target_path: Seq<char>,
}

impl View for LinkCandidate {
    type V = LinkCandidateView;

    open spec fn view(&self) -> LinkCandidateView {
        LinkCandidateView {
            link_name: match self.link_name {
                Some(name) => Some(name@),
                None => None,
            },
            target_path: self.target_path@,
        }
    }
}

/// The candidates of a list as values of mathematics.
pub open spec fn candidate_views(candidates: Seq<LinkCandidate>) -> Seq<LinkCandidateView> {
    Seq::new(candidates.len(), |i: int| candidates[i]@)
}

/// The path of the symlink that a candidate asks for, if it asks for one.
pub open spec fn wanted_link(candidate: LinkCandidateView) -> Option<Seq<char>> {
    match candidate.link_name {
        Some(name) => Some(link_path_of(name)),
        None => None,
    }
}

/// The two candidates ask for the same symlink.
pub open spec fn same_link(candidates: Seq<LinkCandidateView>, i: int, j: int) -> bool {
    wanted_link(candidates[i]) is Some && wanted_link(candidates[i]) == wanted_link(candidates[j])
}

/// The candidate at `at` asks for a symlink that an earlier one has pointing
/// somewhere else.
pub open spec fn clashes(candidates: Seq<LinkCandidateView>, at: int) -> bool {
    exists|k: int|
        0 <= k < at && #[trigger] same_link(candidates, k, at) && candidates[k].target_path
            != candidates[at].target_path
}

/// `at` is the place of the first candidate that clashes with an earlier one.
pub open spec fn is_first_clash(candidates: Seq<LinkCandidateView>, at: int) -> bool {
    &&& 0 <= at < candidates.len()
    &&& clashes(candidates, at)
    &&& forall|i: int| 0 <= i < at ==> !#[trigger] clashes(candidates, i)
}

/// The place of the first candidate that clashes, if one does.
pub open spec fn first_clash(candidates: Seq<LinkCandidateView>) -> Option<int> {
    first_where(candidates.len() as int, |i: int| clashes(candidates, i))
}

/// `first` is the place of the first candidate that asks for the symlink that
/// the one at `at` asks for.
pub open spec fn is_first_use(candidates: Seq<LinkCandidateView>, first: int, at: int) -> bool {
    &&& 0 <= first <= at
    &&& same_link(candidates, first, at)
    &&& forall|k: int| 0 <= k < first ==> !#[trigger] same_link(candidates, k, at)
}

/// The place of the first candidate that asks for the symlink of the one at
/// `at`.
pub open spec fn first_use(candidates: Seq<LinkCandidateView>, at: int) -> int {
    choose|first: int| is_first_use(candidates, first, at)
}

/// Some symlink of the list has the given path.
pub open spec fn has_link(links: Seq<SymlinkEntryView>, link_path: Seq<char>) -> bool {
    exists|p: int| 0 <= p < links.len() && (#[trigger] links[p]).link_path == link_path
}

/// The symlinks for the candidates: one for each path that is asked for, in the
/// order in which the paths are first asked for, each pointing where the first
/// candidate that asks for it is installed.
pub open spec fn planned(candidates: Seq<LinkCandidateView>) -> Seq<SymlinkEntryView>
    decreases candidates.len(),
{
    if candidates.len() == 0 {
        Seq::empty()
    } else {
        let earlier = planned(candidates.drop_last());
        match wanted_link(candidates.last()) {
            Some(link_path) => if has_link(earlier, link_path) {
                earlier
            } else {
                earlier.push(
                    SymlinkEntryView { link_path, target_path: candidates.last().target_path },
                )
            },
            None => earlier,
        }
    }
}

/// The plan: the symlinks, or the first conflict. A conflict names the path,
/// where it points for the first candidate that asks for it, and where the
/// clashing candidate would have it point.
pub open spec fn plan_outcome(candidates: Seq<LinkCandidateView>) -> Result<
    Seq<SymlinkEntryView>,
    ConflictView,
> {
    match first_clash(candidates) {
        Some(at) => Err(
            ConflictView {
                link_path: wanted_link(candidates[at])->0,
                first_target: candidates[first_use(candidates, at)].target_path,
                second_target: candidates[at].target_path,
            },
        ),
        None => Ok(planned(candidates)),
    }
}

/// There is one first clash at most, and there is one where any candidate
/// clashes.
pub proof fn lemma_first_clash(candidates: Seq<LinkCandidateView>)
    ensures
        forall|at: int| is_first_clash(candidates, at) <==> first_clash(candidates) == Some(at),
        first_clash(candidates) is None <==> forall|i: int|
            0 <= i < candidates.len() ==> !#[trigger] clashes(candidates, i),
{
    let wanted = |i: int| clashes(candidates, i);
    lemma_first_where(candidates.len() as int, wanted);
    assert forall|at: int| is_first_clash(candidates, at) <==> is_first(
        candidates.len() as int,
        wanted,
        at,
    ) by {
        if is_first(candidates.len() as int, wanted, at) {
            assert forall|i: int| 0 <= i < at implies !#[trigger] clashes(candidates, i) by {
                assert(!wanted(i));
            }
        }
    }
    if forall|i: int| 0 <= i < candidates.len() ==> !#[trigger] wanted(i) {
        assert forall|i: int| 0 <= i < candidates.len() implies !#[trigger] clashes(
            candidates,
            i,
        ) by {
            assert(!wanted(i));
        }
    }
}

/// The first use of a symlink is one place only.
pub proof fn lemma_first_use(candidates: Seq<LinkCandidateView>, first: int, at: int)
    requires
        is_first_use(candidates, first, at),
    ensures
        first_use(candidates, at) == first,
{
}

/// Some candidate asks for the given symlink.
pub open spec fn asked_for(candidates: Seq<LinkCandidateView>, link_path: Seq<char>) -> bool {
    exists|i: int|
        0 <= i < candidates.len() && wanted_link(#[trigger] candidates[i]) == Some(link_path)
}

/// The plan holds a symlink for a path if and only if a candidate asks for it.
pub proof fn lemma_planned_has_link(candidates: Seq<LinkCandidateView>, link_path: Seq<char>)
    ensures
        has_link(planned(candidates), link_path) <==> asked_for(candidates, link_path),
    decreases candidates.len(),
{
    if candidates.len() > 0 {
        let before = candidates.drop_last();
        let earlier = planned(before);
        lemma_planned_has_link(before, link_path);
        if has_link(planned(candidates), link_path) {
            let p = choose|p: int|
                0 <= p < planned(candidates).len() && (#[trigger] planned(
                    candidates,
                )[p]).link_path == link_path;
            if p < earlier.len() {
                let i = choose|i: int|
                    0 <= i < before.len() && wanted_link(#[trigger] before[i]) == Some(link_path);
                assert(candidates[i] == before[i]);
            } else {
                assert(wanted_link(candidates[candidates.len() - 1]) == Some(link_path));
            }
        }
        if asked_for(candidates, link_path) {
            let i = choose|i: int|
                0 <= i < candidates.len() && wanted_link(#[trigger] candidates[i]) == Some(
                    link_path,
                );
            if i < before.len() {
                assert(before[i] == candidates[i]);
                let p = choose|p: int|
                    0 <= p < earlier.len() && (#[trigger] earlier[p]).link_path == link_path;
                assert(planned(candidates)[p].link_path == link_path);
            } else if !has_link(earlier, link_path) {
                assert(planned(candidates)[earlier.len() as int].link_path == link_path);
            }
        }
    }
}

/// No two symlinks of a plan have the same path.
pub proof fn lemma_planned_links_differ(candidates: Seq<LinkCandidateView>)
    ensures
        forall|p: int, q: int|
            0 <= p < q < planned(candidates).len() ==> (#[trigger] planned(
                candidates,
            )[p]).link_path != (#[trigger] planned(candidates)[q]).link_path,
    decreases candidates.len(),
{
    if candidates.len() > 0 {
        let earlier = planned(candidates.drop_last());
        lemma_planned_links_differ(candidates.drop_last());
        assert forall|p: int, q: int| 0 <= p < q < planned(candidates).len() implies (
        #[trigger] planned(candidates)[p]).link_path != (#[trigger] planned(
            candidates,
        )[q]).link_path by {
            if q < earlier.len() {
                assert(earlier[p].link_path != earlier[q].link_path);
            } else {
                assert(earlier[p].link_path != planned(candidates)[q].link_path);
            }
        }
    }
}

/// Every symlink of a plan is the one that some candidate asks for, and points
/// where that candidate is installed.
pub proof fn lemma_planned_from_candidates(candidates: Seq<LinkCandidateView>, p: int)
    requires
        0 <= p < planned(candidates).len(),
    ensures
        exists|i: int|
            0 <= i < candidates.len() && wanted_link(#[trigger] candidates[i]) == Some(
                planned(candidates)[p].link_path,
            ) && candidates[i].target_path == planned(candidates)[p].target_path,
    decreases candidates.len(),
{
    let before = candidates.drop_last();
    let earlier = planned(before);
    if p < earlier.len() {
        lemma_planned_from_candidates(before, p);
        let i = choose|i: int|
            0 <= i < before.len() && wanted_link(#[trigger] before[i]) == Some(
                earlier[p].link_path,
            ) && before[i].target_path == earlier[p].target_path;
        assert(candidates[i] == before[i]);
    } else {
        assert(wanted_link(candidates[candidates.len() - 1]) == Some(
            planned(candidates)[p].link_path,
        ));
    }
}

/// Where no candidate clashes, any two that ask for the same symlink are
/// installed to the same place.
pub proof fn lemma_without_clash_targets_agree(
    candidates: Seq<LinkCandidateView>,
    i: int,
    j: int,
)
    requires
        first_clash(candidates) is None,
        0 <= i < candidates.len(),
        0 <= j < candidates.len(),
        same_link(candidates, i, j),
    ensures
        candidates[i].target_path == candidates[j].target_path,
{
    lemma_first_clash(candidates);
    if i < j {
        assert(!clashes(candidates, j));
    } else if j < i {
        assert(!clashes(candidates, i));
        assert(same_link(candidates, j, i));
    }
}

/// A file that is listed twice, with the same target, is linked once, and no
/// conflict is raised.
pub proof fn lemma_twice_is_once(candidate: LinkCandidateView)
    requires
        wanted_link(candidate) is Some,
    ensures
        plan_outcome(seq![candidate, candidate]) == Ok::<Seq<SymlinkEntryView>, ConflictView>(
            seq![
                SymlinkEntryView {
                    link_path: wanted_link(candidate)->0,
                    target_path: candidate.target_path,
                },
            ],
        ),
{
    let twice = seq![candidate, candidate];
    let once = seq![candidate];
    let link = SymlinkEntryView {
        link_path: wanted_link(candidate)->0,
        target_path: candidate.target_path,
    };
    lemma_first_clash(twice);
    assert(twice.drop_last() =~= once);
    assert(planned(once.drop_last()) =~= Seq::<SymlinkEntryView>::empty());
    assert(planned(once)[0].link_path == link.link_path);
}

/// Listing one of the candidates once more at the end changes nothing in a
/// plan without conflict: neither the symlinks nor that there is no conflict.
pub proof fn lemma_repeat_adds_nothing(candidates: Seq<LinkCandidateView>, i: int)
    requires
        0 <= i < candidates.len(),
        plan_outcome(candidates) is Ok,
    ensures
        plan_outcome(candidates.push(candidates[i])) == plan_outcome(candidates),
{
    let longer = candidates.push(candidates[i]);
    let end = candidates.len() as int;
    lemma_first_clash(candidates);
    assert forall|j: int| 0 <= j < longer.len() implies !#[trigger] clashes(longer, j) by {
        if clashes(longer, j) {
            let k = choose|k: int|
                0 <= k < j && #[trigger] same_link(longer, k, j) && longer[k].target_path
                    != longer[j].target_path;
            if j < end {
                assert(same_link(candidates, k, j));
                assert(clashes(candidates, j));
            } else {
                lemma_without_clash_targets_agree(candidates, k, i);
            }
        }
    }
    lemma_first_clash(longer);
    assert(longer.drop_last() =~= candidates);
    if wanted_link(candidates[i]) is Some {
        lemma_planned_has_link(candidates, wanted_link(candidates[i])->0);
    }
}

/// Two candidates that ask for the same symlink and are installed to
/// different places stop the plan, whichever of them comes first and whatever
/// else is listed.
pub proof fn lemma_conflict_is_found(candidates: Seq<LinkCandidateView>, i: int, j: int)
    requires
        0 <= i < candidates.len(),
        0 <= j < candidates.len(),
        same_link(candidates, i, j),
        candidates[i].target_path != candidates[j].target_path,
    ensures
        plan_outcome(candidates) is Err,
{
    if first_clash(candidates) is None {
        lemma_without_clash_targets_agree(candidates, i, j);
    }
}

/// A conflict names a path that two candidates ask for, and the two different
/// places they are installed to, the earlier one first.
pub proof fn lemma_conflict_names_a_clash(candidates: Seq<LinkCandidateView>)
    requires
        plan_outcome(candidates) is Err,
    ensures
        ({
            let conflict = plan_outcome(candidates)->Err_0;
            exists|first: int, second: int|
                0 <= first < second < candidates.len() && #[trigger] same_link(
                    candidates,
                    first,
                    second,
                ) && wanted_link(candidates[second]) == Some(conflict.link_path)
                    && candidates[first].target_path == conflict.first_target
                    && candidates[second].target_path == conflict.second_target
                    && conflict.first_target != conflict.second_target
        }),
{
    lemma_first_clash(candidates);
    let at = first_clash(candidates)->0;
    assert(is_first_clash(candidates, at));
    let k = choose|k: int|
        0 <= k < at && #[trigger] same_link(candidates, k, at) && candidates[k].target_path
            != candidates[at].target_path;
    lemma_use_has_first(candidates, k, at);
    let first = choose|first: int| is_first_use(candidates, first, at);
    lemma_first_use(candidates, first, at);
    if first < k {
        assert(same_link(candidates, first, k));
        assert(!clashes(candidates, k));
    }
}

proof fn lemma_use_has_first(candidates: Seq<LinkCandidateView>, k: int, at: int)
    requires
        0 <= k <= at,
        same_link(candidates, k, at),
    ensures
        exists|first: int| is_first_use(candidates, first, at),
    decreases k,
{
    if exists|m: int| 0 <= m < k && #[trigger] same_link(candidates, m, at) {
        let earlier = choose|m: int| 0 <= m < k && #[trigger] same_link(candidates, m, at);
        lemma_use_has_first(candidates, earlier, at);
    } else {
        assert(is_first_use(candidates, k, at));
    }
}

fn find_link(links: &Vec<SymlinkEntry>, link_path: &String) -> (found: Option<usize>)
    ensures
        match found {
            Some(p) => p < links.len() && links[p as int].link_path@ == link_path@,
            None => !has_link(link_views(links@), link_path@),
        },
{
    let ghost views = link_views(links@);
    let mut at: usize = 0;
    while at < links.len()
        invariant
            at <= links.len(),
            views == link_views(links@),
            forall|p: int| 0 <= p < at ==> (#[trigger] views[p]).link_path != link_path@,
        decreases links.len() - at,
    {
        if links[at].link_path == *link_path {
            return Some(at);
        }
        at += 1;
    }
    None
}

/// Plans the symlinks for the candidates, in their order. A path that is asked
/// for again with the same target is linked once; one that is asked for with
/// another target stops the plan.
pub fn plan_links(candidates: &Vec<LinkCandidate>) -> (plan: Result<
    Vec<SymlinkEntry>,
    ConflictError,
>)
    ensures
        match plan {
            Ok(links) => plan_outcome(candidate_views(candidates@)) == Ok::<
                Seq<SymlinkEntryView>,
                ConflictView,
            >(link_views(links@)),
            Err(conflict) => plan_outcome(candidate_views(candidates@)) == Err::<
                Seq<SymlinkEntryView>,
                ConflictView,
            >(conflict@),
        },
{
    let ghost asked = candidate_views(candidates@);
    let mut links: Vec<SymlinkEntry> = Vec::new();
    // For each symlink planned so far, the place of the candidate it came from.
    let ghost mut origin: Seq<int> = Seq::empty();
    let mut at: usize = 0;
    assert(asked.take(0) =~= Seq::<LinkCandidateView>::empty());
    assert(link_views(links@) =~= Seq::<SymlinkEntryView>::empty());
    while at < candidates.len()
        invariant
            at <= candidates.len(),
            asked == candidate_views(candidates@),
            link_views(links@) == planned(asked.take(at as int)),
            forall|i: int| 0 <= i < at ==> !#[trigger] clashes(asked, i),
            origin.len() == links.len(),
            forall|p: int|
                0 <= p < links.len() ==> {
                    &&& 0 <= (#[trigger] origin[p]) < at
                    &&& wanted_link(asked[origin[p]]) == Some(links[p].link_path@)
                    &&& asked[origin[p]].target_path == links[p].target_path@
                    &&& is_first_use(asked, origin[p], origin[p])
                },
            forall|i: int|
                0 <= i < at && wanted_link(#[trigger] asked[i]) is Some ==> has_link(
                    link_views(links@),
                    wanted_link(asked[i])->0,
                ),
        decreases candidates.len() - at,
    {
        let candidate = &candidates[at];
        let ghost here = at as int;
        let ghost so_far = link_views(links@);
        proof {
            assert(asked[here] == candidate@);
            assert(asked.take(here + 1).drop_last() =~= asked.take(here));
            assert(asked.take(here + 1).last() == asked[here]);
        }
        match &candidate.link_name {
            None => {
                assert(!clashes(asked, here));
            },
            Some(name) => {
                let link_path = link_path_for(name.as_str());
                match find_link(&links, &link_path) {
                    Some(p) => {
                        // The path is planned already: the candidate at `first`
                        // asked for it first.
                        let ghost first = origin[p as int];
                        proof {
                            assert(so_far[p as int].link_path == link_path@);
                            assert(same_link(asked, first, here));
                            assert forall|k: int| 0 <= k < first implies !#[trigger] same_link(
                                asked,
                                k,
                                here,
                            ) by {
                                if same_link(asked, k, here) {
                                    assert(same_link(asked, k, first));
                                }
                            }
                            assert(is_first_use(asked, first, here));
                            lemma_first_use(asked, first, here);
                        }
                        if links[p].target_path != candidate.target_path {
                            proof {
                                assert(clashes(asked, here));
                                assert(is_first_clash(asked, here));
                                lemma_first_clash(asked);
                            }
                            return Err(
                                ConflictError {
                                    link_path,
                                    first_target: links[p].target_path.clone(),
                                    second_target: candidate.target_path.clone(),
                                },
                            );
                        }
                        proof {
                            assert forall|k: int|
                                0 <= k < here && #[trigger] same_link(
                                    asked,
                                    k,
                                    here,
                                ) implies asked[k].target_path == asked[here].target_path by {
                                if first < k {
                                    assert(same_link(asked, first, k));
                                    assert(!clashes(asked, k));
                                }
                            }
                            assert(!clashes(asked, here));
                        }
                    },
                    None => {
                        proof {
                            assert forall|k: int| 0 <= k < here implies !#[trigger] same_link(
                                asked,
                                k,
                                here,
                            ) by {
                                if same_link(asked, k, here) {
                                    assert(wanted_link(asked[k]) is Some);
                                    assert(has_link(so_far, wanted_link(asked[k])->0));
                                }
                            }
                            assert(!clashes(asked, here));
                            assert(is_first_use(asked, here, here));
                        }
                        let target_path = candidate.target_path.clone();
                        links.push(SymlinkEntry { link_path, target_path });
                        proof {
                            origin = origin.push(here);
                            let added = SymlinkEntryView {
                                link_path: wanted_link(asked[here])->0,
                                target_path: asked[here].target_path,
                            };
                            assert(link_views(links@) =~= so_far.push(added));
                            assert forall|i: int|
                                0 <= i < at + 1 && wanted_link(
                                    #[trigger] asked[i],
                                ) is Some implies has_link(
                                link_views(links@),
                                wanted_link(asked[i])->0,
                            ) by {
                                if i < here {
                                    let p = choose|p: int|
                                        0 <= p < so_far.len() && (#[trigger] so_far[p]).link_path
                                            == wanted_link(asked[i])->0;
                                    assert(link_views(links@)[p].link_path == wanted_link(
                                        asked[i],
                                    )->0);
                                } else {
                                    assert(link_views(links@)[links.len() - 1].link_path
                                        == wanted_link(asked[i])->0);
                                }
                            }
                        }
                    },
                }
            },
        }
        at += 1;
    }
    proof {
        assert(asked.take(at as int) =~= asked);
        lemma_first_clash(asked);
    }
    Ok(links)
}

/// A file of the manifest: where it is on the host, where it is installed to,
/// and what the host says of it. `status` is nothing where the host could not
/// say.
#[derive(Clone, PartialEq, Eq, Debug)]
pub struct FileEntry {
    pub source_path: String,
    pub installed_path: String,
    pub status: Option<FileStatus>,
}

/// A file of the manifest as a value of mathematics.
pub struct FileEntryView {
    pub source_path: Seq<char>,
    pub installed_path: Seq<char>,
    pub status: Option<FileStatus>,
}

impl View for FileEntry {
    type V = FileEntryView;

    open spec fn view(&self) -> FileEntryView {
        FileEntryView {
            source_path: self.source_path@,
            installed_path: self.installed_path@,
            status: self.status,
        }
    }
}

/// The files of a list as values of mathematics.
pub open spec fn file_views(files: Seq<FileEntry>) -> Seq<FileEntryView> {
    Seq::new(files.len(), |i: int| files[i]@)
}

/// What a file asks of the planner: a symlink under its file name if it is an
/// executable, pointing to where it is installed.
pub open spec fn candidate_of(file: FileEntryView) -> LinkCandidateView {
    LinkCandidateView {
        link_name: executable_name_of(file.source_path, file.status),
        target_path: file.installed_path,
    }
}

/// What the files ask of the planner, in their order.
pub open spec fn candidates_of(files: Seq<FileEntryView>) -> Seq<LinkCandidateView> {
    Seq::new(files.len(), |i: int| candidate_of(files[i]))
}

/// Plans the symlinks for the files of a manifest, in their order: one in
/// `/usr/bin` for each executable, under its file name.
pub fn plan(files: &Vec<FileEntry>) -> (plan: Result<Vec<SymlinkEntry>, ConflictError>)
    ensures
        match plan {
            Ok(links) => plan_outcome(candidates_of(file_views(files@))) == Ok::<
                Seq<SymlinkEntryView>,
                ConflictView,
            >(link_views(links@)),
            Err(conflict) => plan_outcome(candidates_of(file_views(files@))) == Err::<
                Seq<SymlinkEntryView>,
                ConflictView,
            >(conflict@),
        },
{
    let mut candidates: Vec<LinkCandidate> = Vec::new();
    let mut at: usize = 0;
    while at < files.len()
        invariant
            at <= files.len(),
            candidates.len() == at,
            forall|i: int|
                0 <= i < at ==> (#[trigger] candidates[i])@ == candidate_of(files[i]@),
        decreases files.len() - at,
    {
        let file = &files[at];
        let link_name = executable_name(file.source_path.as_str(), file.status);
        candidates.push(LinkCandidate { link_name, target_path: file.installed_path.clone() });
        at += 1;
    }
    assert(candidate_views(candidates@) =~= candidates_of(file_views(files@)));
    plan_links(&candidates)
}

} // verus!
