use vstd::prelude::*;

use crate::garbage_collector::collect_dead_forks::ForkMap;
use crate::garbage_collector::get_forks::ForkView;
use crate::garbage_collector::get_prs::{prs_view, PRView, PullRequestState, PR};

verus! {

/// A branch of a repository.
#[derive(Debug)]
pub struct RepoAndBranch {
    pub repo: String,
    pub branch: String,
}

/// What a branch of a repository is.
pub struct RepoAndBranchView {
    pub repo: Seq<char>,
    pub branch: Seq<char>,
}

impl View for RepoAndBranch {
    type V = RepoAndBranchView;

    open spec fn view(&self) -> RepoAndBranchView {
        RepoAndBranchView { repo: self.repo@, branch: self.branch@ }
    }
}

/// The branches of a list, each taken by its view.
pub open spec fn repo_branches_view(s: Seq<RepoAndBranch>) -> Seq<RepoAndBranchView> {
    s.map_values(|b: RepoAndBranch| b@)
}

/// A pull request whose branch can go: it is not open, its repository is a
/// known fork, and its branch is not that fork's default branch.
pub open spec fn branch_can_go(forks: Map<Seq<char>, ForkView>, p: PRView) -> bool {
    &&& p.state != PullRequestState::OPEN
    &&& forks.contains_key(p.repo)
    &&& forks[p.repo].default_branch_name != p.branch_name
}

/// The branches that can go, one for each such pull request, in the order of the pull requests.
pub open spec fn merged_branches(forks: Map<Seq<char>, ForkView>, prs: Seq<PRView>) -> Seq<RepoAndBranchView>
    decreases prs.len(),
{
    if prs.len() == 0 {
        Seq::empty()
    } else {
        let rest = merged_branches(forks, prs.drop_last());
        let p = prs.last();
        if branch_can_go(forks, p) {
            rest.push(RepoAndBranchView { repo: p.repo, branch: p.branch_name })
        } else {
            rest
        }
    }
}

/// Lists the branches that can be deleted: for each pull request that is not
/// open, made from a known fork, the branch it came from, unless that branch is
/// the fork's default branch.
pub fn collect_merged_branches(forks: &ForkMap, prs: &Vec<PR>) -> (r: Vec<RepoAndBranch>)
    ensures
        repo_branches_view(r@) == merged_branches(forks@, prs_view(prs@)),
{
    let mut to_delete: Vec<RepoAndBranch> = Vec::new();
    let mut i: usize = 0;
    while i < prs.len()
        invariant
            i <= prs@.len(),
            repo_branches_view(to_delete@) == merged_branches(forks@, prs_view(prs@.take(i as int))),
        decreases prs.len() - i,
    {
        let pr = &prs[i];
        proof {
            assert(prs_view(prs@.take(i + 1)).drop_last() =~= prs_view(prs@.take(i as int)));
            assert(prs_view(prs@.take(i + 1)).last() == pr@);
        }
        if pr.state != PullRequestState::OPEN {
            match forks.get(&pr.repo) {
                Some(fork) => {
                    if fork.default_branch_name != pr.branch_name {
                        to_delete.push(RepoAndBranch { repo: pr.repo.clone(), branch: pr.branch_name.clone() });
                        assert(repo_branches_view(to_delete@) =~= merged_branches(
                            forks@,
                            prs_view(prs@.take(i + 1)),
                        ));
                    }
                },
                None => {},
            }
        }
        i = i + 1;
    }
    assert(prs@.take(prs.len() as int) == prs@);
    to_delete
}

/// A branch is listed for deletion exactly when some pull request not open,
/// made from a known fork, came from it and it is not the fork's default
/// branch; so no default branch of a known fork is ever listed.
pub proof fn lemma_merged_branches_exactly(
    forks: Map<Seq<char>, ForkView>,
    prs: Seq<PRView>,
    x: RepoAndBranchView,
)
    ensures
        merged_branches(forks, prs).contains(x) <==> exists|i: int|
            0 <= i < prs.len() && #[trigger] prs[i].state != PullRequestState::OPEN && forks.contains_key(prs[i].repo)
                && forks[prs[i].repo].default_branch_name != prs[i].branch_name && prs[i].repo == x.repo
                && prs[i].branch_name == x.branch,
        merged_branches(forks, prs).contains(x) ==> forks.contains_key(x.repo)
            && forks[x.repo].default_branch_name != x.branch,
    decreases prs.len(),
{
    if prs.len() > 0 {
        let r = prs.drop_last();
        lemma_merged_branches_exactly(forks, r, x);
        let m = merged_branches(forks, prs);
        let mr = merged_branches(forks, r);
        let p = prs.last();
        if m.contains(x) {
            let k = choose|k: int| 0 <= k < m.len() && m[k] == x;
            if k < mr.len() {
                assert(mr[k] == x);
                let i = choose|i: int|
                    0 <= i < r.len() && branch_can_go(forks, #[trigger] r[i]) && r[i].repo == x.repo
                        && r[i].branch_name == x.branch;
                assert(prs[i] == r[i]);
            } else {
                assert(prs[prs.len() - 1] == p);
            }
        }
        if exists|i: int|
            0 <= i < prs.len() && branch_can_go(forks, #[trigger] prs[i]) && prs[i].repo == x.repo
                && prs[i].branch_name == x.branch {
            let i = choose|i: int|
                0 <= i < prs.len() && branch_can_go(forks, #[trigger] prs[i]) && prs[i].repo == x.repo
                    && prs[i].branch_name == x.branch;
            if i < r.len() {
                assert(r[i] == prs[i]);
                assert(mr.contains(x));
                let k = choose|k: int| 0 <= k < mr.len() && mr[k] == x;
                assert(m[k] == x);
            } else {
                assert(m[m.len() - 1] == x);
            }
        }
    }
}

/// The branch a pull request frees, if it frees one: a pull request that is
/// not open, made from a known fork, frees its branch unless that branch is the
/// fork's default branch; the fork's branches and their commits play no part.
pub open spec fn freed_branch(forks: Map<Seq<char>, ForkView>, p: PRView) -> Option<RepoAndBranchView> {
    if p.state != PullRequestState::OPEN && forks.contains_key(p.repo)
        && forks[p.repo].default_branch_name != p.branch_name {
        Some(RepoAndBranchView { repo: p.repo, branch: p.branch_name })
    } else {
        None
    }
}

/// The branches listed are, in the order of the pull requests, one for each
/// pull request that is not open, comes from a known fork, and is not from that
/// fork's default branch; nothing else decides.
pub proof fn lemma_merged_branches_per_pr(forks: Map<Seq<char>, ForkView>, prs: Seq<PRView>)
    ensures
        merged_branches(forks, prs) == prs.filter_map(|p: PRView| freed_branch(forks, p)),
    decreases prs.len(),
{
    if prs.len() > 0 {
        lemma_merged_branches_per_pr(forks, prs.drop_last());
        let rest = prs.drop_last().filter_map(|p: PRView| freed_branch(forks, p));
        if let Some(x) = freed_branch(forks, prs.last()) {
            assert(rest.push(x) =~= rest + seq![x]);
        }
    }
}

/// Two maps of forks that agree on the names and default branches give the
/// same list: the branches of the forks play no part.
pub proof fn lemma_merged_branches_ignore_fork_branches(
    forks: Map<Seq<char>, ForkView>,
    other: Map<Seq<char>, ForkView>,
    prs: Seq<PRView>,
)
    requires
        forks.dom() == other.dom(),
        forall|k: Seq<char>| #[trigger] forks.contains_key(k) ==> forks[k].default_branch_name
            == other[k].default_branch_name,
    ensures
        merged_branches(forks, prs) == merged_branches(other, prs),
    decreases prs.len(),
{
    if prs.len() > 0 {
        lemma_merged_branches_ignore_fork_branches(forks, other, prs.drop_last());
        let p = prs.last();
        assert(forks.contains_key(p.repo) == other.contains_key(p.repo));
    }
}

} // verus!
