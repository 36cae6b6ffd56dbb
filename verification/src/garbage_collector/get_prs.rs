use vstd::prelude::*;

use crate::garbage_collector::general::{GcError, PageInfo};
use crate::garbage_collector::get_forks::RefTarget;

verus! {

/// Where a pull request stands.
#[derive(Debug, Clone, Copy, PartialEq, Eq, Structural)]
pub enum PullRequestState {
    CLOSED,
    MERGED,
    OPEN,
}

/// A pull request of the user, made from a branch of a fork.
#[derive(Debug)]
pub struct PR {
    pub title: String,
    pub repo: String,
    pub branch_name: String,
    pub commit: String,
    pub state: PullRequestState,
    pub url: String,
}

/// What a pull request is.
pub struct PRView {
    pub title: Seq<char>,
    pub repo: Seq<char>,
    pub branch_name: Seq<char>,
    pub commit: Seq<char>,
    pub state: PullRequestState,
    pub url: Seq<char>,
}

impl View for PR {
    type V = PRView;

    open spec fn view(&self) -> PRView {
        PRView {
            title: self.title@,
            repo: self.repo@,
            branch_name: self.branch_name@,
            commit: self.commit@,
            state: self.state,
            url: self.url@,
        }
    }
}

impl Clone for PR {
    fn clone(&self) -> (r: Self)
        ensures
            r@ == self@,
    {
        PR {
            title: self.title.clone(),
            repo: self.repo.clone(),
            branch_name: self.branch_name.clone(),
            commit: self.commit.clone(),
            state: self.state,
            url: self.url.clone(),
        }
    }
}

/// The pull requests of a list, each taken by its view.
pub open spec fn prs_view(s: Seq<PR>) -> Seq<PRView> {
    s.map_values(|p: PR| p@)
}

/// The state of a pull request as GitHub names it; a state this program does
/// not know keeps its name.
pub enum RawPullRequestState {
    CLOSED,
    MERGED,
    OPEN,
    Other(String),
}

/// The repository that a pull request's branch belongs to.
pub struct HeadRepository {
    pub name_with_owner: String,
    pub is_fork: bool,
}

/// The branch a pull request was made from.
pub struct HeadRef {
    pub name: String,
    pub repository: HeadRepository,
    pub target: Option<RefTarget>,
}

/// A pull request of the user, as GitHub lists it.
pub struct PullRequestNode {
    pub title: String,
    pub url: String,
    pub state: RawPullRequestState,
    pub head_ref: Option<HeadRef>,
}

/// A page of the user's pull requests.
pub struct PullRequestsPage {
    pub nodes: Option<Vec<Option<PullRequestNode>>>,
    pub page_info: PageInfo,
}

/// The pull request that a listed one gives, or why it gives none.
pub open spec fn spec_parse_pr(pr: PullRequestNode) -> Result<PRView, GcError> {
    match pr.head_ref {
        None => Err(GcError::NoHeadRef),
        Some(head) => if !head.repository.is_fork {
            Err(GcError::NotAFork)
        } else {
            match head.target {
                None => Err(GcError::NoCommit),
                Some(t) => match pr.state {
                    RawPullRequestState::Other(name) => Err(GcError::UnknownPrState(name)),
                    RawPullRequestState::CLOSED => Ok(
                        PRView {
                            title: pr.title@,
                            repo: head.repository.name_with_owner@,
                            branch_name: head.name@,
                            commit: t.oid@,
                            state: PullRequestState::CLOSED,
                            url: pr.url@,
                        },
                    ),
                    RawPullRequestState::MERGED => Ok(
                        PRView {
                            title: pr.title@,
                            repo: head.repository.name_with_owner@,
                            branch_name: head.name@,
                            commit: t.oid@,
                            state: PullRequestState::MERGED,
                            url: pr.url@,
                        },
                    ),
                    RawPullRequestState::OPEN => Ok(
                        PRView {
                            title: pr.title@,
                            repo: head.repository.name_with_owner@,
                            branch_name: head.name@,
                            commit: t.oid@,
                            state: PullRequestState::OPEN,
                            url: pr.url@,
                        },
                    ),
                },
            }
        },
    }
}

/// Turns a listed pull request into one of this program: it must have a head
/// ref in a fork, pointing to a commit, and be open, closed or merged.
pub fn parse_pr(pr: PullRequestNode) -> (r: Result<PR, GcError>)
    ensures
        match spec_parse_pr(pr) {
            Ok(v) => r matches Ok(p) && p@ == v,
            Err(e) => r == Err::<PR, GcError>(e),
        },
{
    let head_ref = match pr.head_ref {
        Some(h) => h,
        None => return Err(GcError::NoHeadRef),
    };
    let repo = head_ref.repository;
    if !repo.is_fork {
        return Err(GcError::NotAFork);
    }
    let commit = match head_ref.target {
        Some(t) => t.oid,
        None => return Err(GcError::NoCommit),
    };
    let state = match pr.state {
        RawPullRequestState::CLOSED => PullRequestState::CLOSED,
        RawPullRequestState::MERGED => PullRequestState::MERGED,
        RawPullRequestState::OPEN => PullRequestState::OPEN,
        RawPullRequestState::Other(name) => return Err(GcError::UnknownPrState(name)),
    };
    Ok(
        PR {
            title: pr.title,
            repo: repo.name_with_owner,
            branch_name: head_ref.name,
            commit,
            state,
            url: pr.url,
        },
    )
}

/// The pull requests that the listed ones give, in their order; those that
/// give none are skipped.
pub open spec fn parsed_prs(nodes: Seq<Option<PullRequestNode>>) -> Seq<PRView>
    decreases nodes.len(),
{
    if nodes.len() == 0 {
        Seq::empty()
    } else {
        let rest = parsed_prs(nodes.drop_last());
        match nodes.last() {
            Some(n) => match spec_parse_pr(n) {
                Ok(p) => rest.push(p),
                Err(_) => rest,
            },
            None => rest,
        }
    }
}

/// A list of pull requests with no empty entry, which the original can read
/// without stopping the program.
pub open spec fn prs_page_readable(nodes: Seq<Option<PullRequestNode>>) -> bool {
    forall|i: int| 0 <= i < nodes.len() ==> (#[trigger] nodes[i]) is Some
}

/// Reads a page of the user's pull requests: those they give, whether another
/// page follows, and the cursor where it starts. A page without a list gives
/// no pull request and ends the query.
pub fn handle_response(response: PullRequestsPage) -> (r: Result<(Vec<PR>, bool, Option<String>), GcError>)
    requires
        response.nodes matches Some(nodes) ==> prs_page_readable(nodes@),
    ensures
        r matches Ok(out) && match response.nodes {
            None => out.0@.len() == 0 && !out.1 && out.2 is None,
            Some(nodes) => {
                &&& prs_view(out.0@) == parsed_prs(nodes@)
                &&& out.1 == response.page_info.has_next_page
                &&& out.2 == response.page_info.end_cursor
            },
        },
{
    let nodes = match response.nodes {
        None => return Ok((Vec::new(), false, None)),
        Some(nodes) => nodes,
    };
    let _count: usize = nodes.len();
    let ghost all = nodes@;
    assert(all.skip(0) == all);
    let mut rest = nodes;
    let mut prs: Vec<PR> = Vec::new();
    let mut k: usize = 0;
    while rest.len() > 0
        invariant
            k <= all.len(),
            all.len() <= usize::MAX,
            rest@ == all.skip(k as int),
            prs_view(prs@) == parsed_prs(all.take(k as int)),
            prs_page_readable(all),
        decreases rest.len(),
    {
        assert(k < all.len());
        let node = rest.remove(0);
        proof {
            assert(node == all[k as int]);
            assert(all.take(k + 1).drop_last() == all.take(k as int));
            assert(all.take(k + 1).last() == all[k as int]);
            assert(rest@ =~= all.skip(k + 1));
        }
        let pr = node.unwrap();
        match parse_pr(pr) {
            Ok(p) => {
                prs.push(p);
                assert(prs_view(prs@) =~= parsed_prs(all.take(k + 1)));
            },
            Err(_) => {},
        }
        k = k + 1;
    }
    assert(all.take(all.len() as int) == all);
    Ok((prs, response.page_info.has_next_page, response.page_info.end_cursor))
}

/// A listed pull request is read exactly when it has a head ref in a fork that
/// points to a commit, and is open, closed or merged; the pull request it gives
/// keeps its title, url, repository, branch, commit and state.
pub proof fn lemma_parse_pr_meaning(pr: PullRequestNode)
    ensures
        spec_parse_pr(pr) is Ok <==> (pr.head_ref matches Some(h) && h.repository.is_fork
            && h.target is Some && !(pr.state is Other)),
        spec_parse_pr(pr) matches Ok(p) ==> {
            &&& p.title == pr.title@
            &&& p.url == pr.url@
            &&& p.repo == pr.head_ref->0.repository.name_with_owner@
            &&& p.branch_name == pr.head_ref->0.name@
            &&& p.commit == pr.head_ref->0.target->0.oid@
            &&& (pr.state is CLOSED ==> p.state == PullRequestState::CLOSED)
            &&& (pr.state is MERGED ==> p.state == PullRequestState::MERGED)
            &&& (pr.state is OPEN ==> p.state == PullRequestState::OPEN)
        },
        pr.head_ref is None ==> spec_parse_pr(pr) == Err::<PRView, GcError>(GcError::NoHeadRef),
        pr.head_ref matches Some(h) && !h.repository.is_fork ==> spec_parse_pr(pr) == Err::<
            PRView,
            GcError,
        >(GcError::NotAFork),
        pr.head_ref matches Some(h) && h.repository.is_fork && h.target is None ==> spec_parse_pr(pr)
            == Err::<PRView, GcError>(GcError::NoCommit),
        pr.head_ref matches Some(h) && h.repository.is_fork && h.target is Some && pr.state is Other
            ==> spec_parse_pr(pr) == Err::<PRView, GcError>(GcError::UnknownPrState(pr.state->Other_0)),
{
}

/// The pull request a listed entry gives, if it gives one.
pub open spec fn pr_of_node(n: Option<PullRequestNode>) -> Option<PRView> {
    match n {
        Some(pr) => match spec_parse_pr(pr) {
            Ok(p) => Some(p),
            Err(_) => None,
        },
        None => None,
    }
}

/// Every listed pull request that can be read gives one pull request of the
/// page, in the order of the list, whatever its state; the others give none.
pub proof fn lemma_parsed_prs_keeps_every_readable(nodes: Seq<Option<PullRequestNode>>)
    ensures
        parsed_prs(nodes) == nodes.filter_map(|n: Option<PullRequestNode>| pr_of_node(n)),
    decreases nodes.len(),
{
    if nodes.len() > 0 {
        lemma_parsed_prs_keeps_every_readable(nodes.drop_last());
        let rest = nodes.drop_last().filter_map(|n: Option<PullRequestNode>| pr_of_node(n));
        if let Some(p) = pr_of_node(nodes.last()) {
            assert(rest.push(p) =~= rest + seq![p]);
        }
    }
}

} // verus!
