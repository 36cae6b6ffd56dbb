use vstd::prelude::*;

use crate::garbage_collector::general::{GcError, PageInfo};

verus! {

/// A branch of a fork and the commit it points to.
#[derive(Debug)]
pub struct ForkBranchInfo {
    pub name: String,
    pub commit: String,
}

/// What a branch is: its name and its commit's id.
pub struct ForkBranchInfoView {
    pub name: Seq<char>,
    pub commit: Seq<char>,
}

impl View for ForkBranchInfo {
    type V = ForkBranchInfoView;

    open spec fn view(&self) -> ForkBranchInfoView {
        ForkBranchInfoView { name: self.name@, commit: self.commit@ }
    }
}

impl Clone for ForkBranchInfo {
    fn clone(&self) -> (r: Self)
        ensures
            r@ == self@,
    {
        ForkBranchInfo { name: self.name.clone(), commit: self.commit.clone() }
    }
}

/// A fork of the user: its name with owner, its default branch and its branches.
#[derive(Debug)]
pub struct Fork {
    pub name: String,
    pub default_branch_name: String,
    pub branches: Vec<ForkBranchInfo>,
}

/// What a fork is.
pub struct ForkView {
    pub name: Seq<char>,
    pub default_branch_name: Seq<char>,
    pub branches: Seq<ForkBranchInfoView>,
}

/// The branches of a list, each taken by its view.
pub open spec fn branches_view(s: Seq<ForkBranchInfo>) -> Seq<ForkBranchInfoView> {
    s.map_values(|b: ForkBranchInfo| b@)
}

/// The forks of a list, each taken by its view.
pub open spec fn forks_view(s: Seq<Fork>) -> Seq<ForkView> {
    s.map_values(|f: Fork| f@)
}

impl View for Fork {
    type V = ForkView;

    open spec fn view(&self) -> ForkView {
        ForkView {
            name: self.name@,
            default_branch_name: self.default_branch_name@,
            branches: branches_view(self.branches@),
        }
    }
}

fn clone_branches(v: &Vec<ForkBranchInfo>) -> (r: Vec<ForkBranchInfo>)
    ensures
        branches_view(r@) == branches_view(v@),
{
    let mut r: Vec<ForkBranchInfo> = Vec::new();
    let mut i: usize = 0;
    while i < v.len()
        invariant
            i <= v.len(),
            r.len() == i,
            forall|j: int| 0 <= j < i ==> #[trigger] r@[j]@ == v@[j]@,
        decreases v.len() - i,
    {
        r.push(v[i].clone());
        i = i + 1;
    }
    assert(branches_view(r@) =~= branches_view(v@));
    r
}

impl Clone for Fork {
    fn clone(&self) -> (r: Self)
        ensures
            r@ == self@,
    {
        Fork {
            name: self.name.clone(),
            default_branch_name: self.default_branch_name.clone(),
            branches: clone_branches(&self.branches),
        }
    }
}

/// The commit that a git reference points to.
pub struct RefTarget {
    pub oid: String,
}

/// A git reference of a repository, as GitHub lists it.
pub struct RefNode {
    pub name: String,
    pub target: Option<RefTarget>,
}

/// The list of a repository's references.
pub struct RefConnection {
    pub nodes: Option<Vec<Option<RefNode>>>,
}

/// The reference of a repository's default branch.
pub struct BranchRef {
    pub name: String,
}

/// A repository of the user, as GitHub lists it.
pub struct RepositoryNode {
    pub name_with_owner: String,
    pub default_branch_ref: Option<BranchRef>,
    pub refs: Option<RefConnection>,
}

/// A page of the user's repositories.
pub struct ForksPage {
    pub nodes: Option<Vec<Option<RepositoryNode>>>,
    pub page_info: PageInfo,
}

/// The branch that a listed reference gives, or why it gives none.
pub open spec fn spec_parse_branch(ref_wrapped: Option<RefNode>) -> Result<ForkBranchInfoView, GcError> {
    match ref_wrapped {
        None => Err(GcError::BranchIsNone),
        Some(r) => match r.target {
            None => Err(GcError::BranchTargetIsNone),
            Some(t) => Ok(ForkBranchInfoView { name: r.name@, commit: t.oid@ }),
        },
    }
}

/// Turns a listed reference into a branch: it must be there and point to a commit.
pub fn parse_branch(ref_wrapped: &Option<RefNode>) -> (r: Result<ForkBranchInfo, GcError>)
    ensures
        match spec_parse_branch(*ref_wrapped) {
            Ok(b) => r matches Ok(x) && x@ == b,
            Err(e) => r == Err::<ForkBranchInfo, GcError>(e),
        },
{
    match ref_wrapped {
        None => Err(GcError::BranchIsNone),
        Some(r) => match &r.target {
            None => Err(GcError::BranchTargetIsNone),
            Some(t) => Ok(ForkBranchInfo { name: r.name.clone(), commit: t.oid.clone() }),
        },
    }
}

/// The branches that the listed references give, in their order; the references
/// that give none are skipped.
pub open spec fn parsed_branches(nodes: Seq<Option<RefNode>>) -> Seq<ForkBranchInfoView>
    decreases nodes.len(),
{
    if nodes.len() == 0 {
        Seq::empty()
    } else {
        let rest = parsed_branches(nodes.drop_last());
        match spec_parse_branch(nodes.last()) {
            Ok(b) => rest.push(b),
            Err(_) => rest,
        }
    }
}

/// A repository whose references are listed but which has no default branch:
/// the original stops the program on it.
pub open spec fn fork_lacks_default_branch(fork: RepositoryNode) -> bool {
    &&& fork.refs matches Some(refs)
    &&& refs.nodes is Some
    &&& fork.default_branch_ref is None
}

/// The fork that a listed repository gives, or why it gives none.
pub open spec fn spec_parse_fork(fork: RepositoryNode) -> Result<ForkView, GcError> {
    match fork.refs {
        None => Err(GcError::NoRepositoryRefs),
        Some(refs) => match refs.nodes {
            None => Err(GcError::NoRepositoryRefNodes),
            Some(nodes) => Ok(
                ForkView {
                    name: fork.name_with_owner@,
                    default_branch_name: fork.default_branch_ref->0.name@,
                    branches: parsed_branches(nodes@),
                },
            ),
        },
    }
}

/// Turns a listed repository into a fork: its references must be listed; the
/// references that are no branch with a commit are skipped.
pub fn parse_fork(fork: RepositoryNode) -> (r: Result<Fork, GcError>)
    requires
        !fork_lacks_default_branch(fork),
    ensures
        match spec_parse_fork(fork) {
            Ok(v) => r matches Ok(f) && f@ == v,
            Err(e) => r == Err::<Fork, GcError>(e),
        },
{
    let refs = match fork.refs {
        Some(refs) => refs,
        None => return Err(GcError::NoRepositoryRefs),
    };
    let nodes = match refs.nodes {
        Some(nodes) => nodes,
        None => return Err(GcError::NoRepositoryRefNodes),
    };
    let mut branches: Vec<ForkBranchInfo> = Vec::new();
    let mut i: usize = 0;
    while i < nodes.len()
        invariant
            i <= nodes.len(),
            branches_view(branches@) == parsed_branches(nodes@.take(i as int)),
        decreases nodes.len() - i,
    {
        let parsed = parse_branch(&nodes[i]);
        proof {
            assert(nodes@.take(i + 1).drop_last() == nodes@.take(i as int));
            assert(nodes@.take(i + 1).last() == nodes@[i as int]);
        }
        match parsed {
            Ok(b) => {
                branches.push(b);
                assert(branches_view(branches@) =~= parsed_branches(nodes@.take(i + 1)));
            },
            Err(_) => {},
        }
        i = i + 1;
    }
    assert(nodes@.take(nodes.len() as int) == nodes@);
    let default_branch = fork.default_branch_ref.unwrap();
    Ok(Fork { name: fork.name_with_owner, default_branch_name: default_branch.name, branches })
}

/// The forks that the listed repositories give, in their order; the
/// repositories that give none are skipped.
pub open spec fn parsed_forks(nodes: Seq<Option<RepositoryNode>>) -> Seq<ForkView>
    decreases nodes.len(),
{
    if nodes.len() == 0 {
        Seq::empty()
    } else {
        let rest = parsed_forks(nodes.drop_last());
        match nodes.last() {
            Some(n) => match spec_parse_fork(n) {
                Ok(f) => rest.push(f),
                Err(_) => rest,
            },
            None => rest,
        }
    }
}

/// A list of repositories that the original can read without stopping the
/// program: no entry is empty, and each repository whose references are
/// listed has a default branch.
pub open spec fn forks_page_readable(nodes: Seq<Option<RepositoryNode>>) -> bool {
    forall|i: int|
        0 <= i < nodes.len() ==> (#[trigger] nodes[i] matches Some(n) && !fork_lacks_default_branch(n))
}

/// Reads a page of the user's repositories: the forks they give, whether
/// another page follows, and the cursor where it starts. A page without a list
/// gives no fork and ends the query.
pub fn handle_response(response: ForksPage) -> (r: Result<(Vec<Fork>, bool, Option<String>), GcError>)
    requires
        response.nodes matches Some(nodes) ==> forks_page_readable(nodes@),
    ensures
        r matches Ok(out) && match response.nodes {
            None => out.0@.len() == 0 && !out.1 && out.2 is None,
            Some(nodes) => {
                &&& forks_view(out.0@) == parsed_forks(nodes@)
                &&& out.1 == response.page_info.has_next_page
                &&& out.2 == response.page_info.end_cursor
            },
        },
{
    let nodes = match response.nodes {
        None => return Ok((Vec::new(), false, None)),
        Some(nodes) => nodes,
    };
    let _count: usize = nodes.len();
    let ghost all = nodes@;
    assert(all.skip(0) == all);
    let mut rest = nodes;
    let mut forks: Vec<Fork> = Vec::new();
    let mut k: usize = 0;
    while rest.len() > 0
        invariant
            k <= all.len(),
            all.len() <= usize::MAX,
            rest@ == all.skip(k as int),
            forks_view(forks@) == parsed_forks(all.take(k as int)),
            forks_page_readable(all),
        decreases rest.len(),
    {
        assert(k < all.len());
        let node = rest.remove(0);
        proof {
            assert(node == all[k as int]);
            assert(all.take(k + 1).drop_last() == all.take(k as int));
            assert(all.take(k + 1).last() == all[k as int]);
            assert(rest@ =~= all.skip(k + 1));
        }
        let fork = node.unwrap();
        match parse_fork(fork) {
            Ok(f) => {
                forks.push(f);
                assert(forks_view(forks@) =~= parsed_forks(all.take(k + 1)));
            },
            Err(_) => {},
        }
        k = k + 1;
    }
    assert(all.take(all.len() as int) == all);
    Ok((forks, response.page_info.has_next_page, response.page_info.end_cursor))
}

/// A listed reference gives a branch exactly when it is there and points to a
/// commit; the branch keeps the reference's name and the commit's id.
pub proof fn lemma_parse_branch_meaning(ref_wrapped: Option<RefNode>)
    ensures
        spec_parse_branch(ref_wrapped) is Ok <==> (ref_wrapped matches Some(r) && r.target is Some),
        spec_parse_branch(ref_wrapped) matches Ok(b) ==> b.name == ref_wrapped->0.name@ && b.commit
            == ref_wrapped->0.target->0.oid@,
        ref_wrapped is None ==> spec_parse_branch(ref_wrapped) == Err::<ForkBranchInfoView, GcError>(
            GcError::BranchIsNone,
        ),
        ref_wrapped matches Some(r) && r.target is None ==> spec_parse_branch(ref_wrapped) == Err::<
            ForkBranchInfoView,
            GcError,
        >(GcError::BranchTargetIsNone),
{
}

/// The branch a listed reference gives, if it gives one.
pub open spec fn branch_of_node(n: Option<RefNode>) -> Option<ForkBranchInfoView> {
    match spec_parse_branch(n) {
        Ok(b) => Some(b),
        Err(_) => None,
    }
}

/// Every listed reference that is a branch with a commit gives one branch, in
/// the order of the list; the others give none.
pub proof fn lemma_parsed_branches_keeps_every_branch(nodes: Seq<Option<RefNode>>)
    ensures
        parsed_branches(nodes) == nodes.filter_map(|n: Option<RefNode>| branch_of_node(n)),
    decreases nodes.len(),
{
    if nodes.len() > 0 {
        lemma_parsed_branches_keeps_every_branch(nodes.drop_last());
        let rest = nodes.drop_last().filter_map(|n: Option<RefNode>| branch_of_node(n));
        if let Some(b) = branch_of_node(nodes.last()) {
            assert(rest.push(b) =~= rest + seq![b]);
        }
    }
}

/// A listed repository gives a fork exactly when its references and their list
/// are there; the fork keeps the repository's name, its default branch's name,
/// and the branches its references give, whatever their names or order.
pub proof fn lemma_parse_fork_meaning(fork: RepositoryNode)
    ensures
        spec_parse_fork(fork) is Ok <==> (fork.refs matches Some(c) && c.nodes is Some),
        spec_parse_fork(fork) matches Ok(f) ==> {
            &&& f.name == fork.name_with_owner@
            &&& f.default_branch_name == fork.default_branch_ref->0.name@
            &&& f.branches == fork.refs->0.nodes->0@.filter_map(|n: Option<RefNode>| branch_of_node(n))
        },
        fork.refs is None ==> spec_parse_fork(fork) == Err::<ForkView, GcError>(GcError::NoRepositoryRefs),
        fork.refs matches Some(c) && c.nodes is None ==> spec_parse_fork(fork) == Err::<ForkView, GcError>(
            GcError::NoRepositoryRefNodes,
        ),
{
    if let Some(c) = fork.refs {
        if let Some(nodes) = c.nodes {
            lemma_parsed_branches_keeps_every_branch(nodes@);
        }
    }
}

/// The fork a listed entry gives, if it gives one.
pub open spec fn fork_of_node(n: Option<RepositoryNode>) -> Option<ForkView> {
    match n {
        Some(r) => match spec_parse_fork(r) {
            Ok(f) => Some(f),
            Err(_) => None,
        },
        None => None,
    }
}

/// Every listed repository whose references are listed gives one fork of the
/// page, in the order of the list; the others give none.
pub proof fn lemma_parsed_forks_keeps_every_listed(nodes: Seq<Option<RepositoryNode>>)
    ensures
        parsed_forks(nodes) == nodes.filter_map(|n: Option<RepositoryNode>| fork_of_node(n)),
    decreases nodes.len(),
{
    if nodes.len() > 0 {
        lemma_parsed_forks_keeps_every_listed(nodes.drop_last());
        let rest = nodes.drop_last().filter_map(|n: Option<RepositoryNode>| fork_of_node(n));
        if let Some(f) = fork_of_node(nodes.last()) {
            assert(rest.push(f) =~= rest + seq![f]);
        }
    }
}

} // verus!
