use github_gc::config::Config;
use github_gc::garbage_collector::collect_dead_forks::{
    collect_dead_forks, prs_to_branches, vec_forks_to_hashmap, ForkBranchState, ForkSpecialState,
};
use github_gc::garbage_collector::collect_merged_branches::collect_merged_branches;
use github_gc::garbage_collector::find_garbage;
use github_gc::garbage_collector::general::{interpret_response, GcError, PageInfo, Pagination};
use github_gc::garbage_collector::get_forks::{
    handle_response as handle_forks_response, parse_branch, parse_fork, BranchRef, Fork, ForkBranchInfo,
    ForksPage, RefConnection, RefNode, RefTarget, RepositoryNode,
};
use github_gc::garbage_collector::get_prs::{
    handle_response as handle_prs_response, parse_pr, HeadRef, HeadRepository, PullRequestNode,
    PullRequestState, PullRequestsPage, RawPullRequestState, PR,
};

fn s(x: &str) -> String {
    x.to_string()
}

fn branch(name: &str, commit: &str) -> ForkBranchInfo {
    ForkBranchInfo { name: s(name), commit: s(commit) }
}

fn fork(name: &str, default: &str, branches: Vec<ForkBranchInfo>) -> Fork {
    Fork { name: s(name), default_branch_name: s(default), branches }
}

fn pr(repo: &str, branch_name: &str, commit: &str, state: PullRequestState) -> PR {
    PR {
        title: format!("{} from {}", repo, branch_name),
        repo: s(repo),
        branch_name: s(branch_name),
        commit: s(commit),
        state,
        url: format!("https://github.com/{}/pull/1", repo),
    }
}

fn ref_node(name: &str, oid: Option<&str>) -> Option<RefNode> {
    Some(RefNode { name: s(name), target: oid.map(|o| RefTarget { oid: s(o) }) })
}

fn repository(name: &str, default: Option<&str>, nodes: Option<Vec<Option<RefNode>>>) -> RepositoryNode {
    RepositoryNode {
        name_with_owner: s(name),
        default_branch_ref: default.map(|d| BranchRef { name: s(d) }),
        refs: Some(RefConnection { nodes }),
    }
}

fn pr_node(repo: &str, is_fork: bool, branch_name: &str, oid: Option<&str>, state: RawPullRequestState) -> PullRequestNode {
    PullRequestNode {
        title: s("Fix things"),
        url: s("https://github.com/o/r/pull/7"),
        state,
        head_ref: Some(HeadRef {
            name: s(branch_name),
            repository: HeadRepository { name_with_owner: s(repo), is_fork },
            target: oid.map(|o| RefTarget { oid: s(o) }),
        }),
    }
}

#[test]
fn authorization_value_is_bearer_token() {
    let config = Config { github_token: s("ghp_abc") };
    assert_eq!(config.authorization_value(), "Bearer ghp_abc");
}

#[test]
fn parse_branch_needs_node_and_target() {
    assert!(matches!(parse_branch(&None), Err(GcError::BranchIsNone)));
    assert!(matches!(parse_branch(&ref_node("main", None)), Err(GcError::BranchTargetIsNone)));
    let b = parse_branch(&ref_node("feature", Some("abc123"))).unwrap();
    assert_eq!(b.name, "feature");
    assert_eq!(b.commit, "abc123");
}

#[test]
fn parse_fork_errors() {
    let no_refs = RepositoryNode { name_with_owner: s("me/x"), default_branch_ref: None, refs: None };
    assert!(matches!(parse_fork(no_refs), Err(GcError::NoRepositoryRefs)));
    let no_nodes = RepositoryNode {
        name_with_owner: s("me/x"),
        default_branch_ref: None,
        refs: Some(RefConnection { nodes: None }),
    };
    assert!(matches!(parse_fork(no_nodes), Err(GcError::NoRepositoryRefNodes)));
}

#[test]
fn parse_fork_skips_broken_branches() {
    let repo = repository(
        "me/chatty",
        Some("master"),
        Some(vec![ref_node("master", Some("c1")), None, ref_node("fix", None), ref_node("feat", Some("c2"))]),
    );
    let f = parse_fork(repo).unwrap();
    assert_eq!(f.name, "me/chatty");
    assert_eq!(f.default_branch_name, "master");
    assert_eq!(f.branches.len(), 2);
    assert_eq!(f.branches[0].name, "master");
    assert_eq!(f.branches[1].name, "feat");
    assert_eq!(f.branches[1].commit, "c2");
}

#[test]
fn forks_page_without_nodes_ends_query() {
    let page = ForksPage { nodes: None, page_info: PageInfo { has_next_page: true, end_cursor: Some(s("x")) } };
    let (forks, has_next, cursor) = handle_forks_response(page).unwrap();
    assert!(forks.is_empty());
    assert!(!has_next);
    assert!(cursor.is_none());
}

#[test]
fn forks_page_keeps_parsable_forks() {
    let no_refs = RepositoryNode { name_with_owner: s("me/bad"), default_branch_ref: None, refs: None };
    let page = ForksPage {
        nodes: Some(vec![
            Some(repository("me/a", Some("main"), Some(vec![ref_node("main", Some("1"))]))),
            Some(no_refs),
            Some(repository("me/b", Some("dev"), Some(vec![]))),
        ]),
        page_info: PageInfo { has_next_page: true, end_cursor: Some(s("cursor9")) },
    };
    let (forks, has_next, cursor) = handle_forks_response(page).unwrap();
    assert_eq!(forks.len(), 2);
    assert_eq!(forks[0].name, "me/a");
    assert_eq!(forks[1].name, "me/b");
    assert!(has_next);
    assert_eq!(cursor.as_deref(), Some("cursor9"));
}

#[test]
fn parse_pr_errors_in_order() {
    let no_head = PullRequestNode {
        title: s("t"),
        url: s("u"),
        state: RawPullRequestState::Other(s("DRAFT")),
        head_ref: None,
    };
    assert!(matches!(parse_pr(no_head), Err(GcError::NoHeadRef)));
    let not_fork = pr_node("o/r", false, "b", None, RawPullRequestState::Other(s("DRAFT")));
    assert!(matches!(parse_pr(not_fork), Err(GcError::NotAFork)));
    let no_commit = pr_node("o/r", true, "b", None, RawPullRequestState::Other(s("DRAFT")));
    assert!(matches!(parse_pr(no_commit), Err(GcError::NoCommit)));
    let unknown = pr_node("o/r", true, "b", Some("c"), RawPullRequestState::Other(s("DRAFT")));
    match parse_pr(unknown) {
        Err(GcError::UnknownPrState(name)) => assert_eq!(name, "DRAFT"),
        _ => panic!("expected an unknown state"),
    }
}

#[test]
fn parse_pr_reads_fields() {
    for (raw, state) in [
        (RawPullRequestState::CLOSED, PullRequestState::CLOSED),
        (RawPullRequestState::MERGED, PullRequestState::MERGED),
        (RawPullRequestState::OPEN, PullRequestState::OPEN),
    ] {
        let p = parse_pr(pr_node("me/chatty", true, "fix-typo", Some("abc"), raw)).unwrap();
        assert_eq!(p.title, "Fix things");
        assert_eq!(p.repo, "me/chatty");
        assert_eq!(p.branch_name, "fix-typo");
        assert_eq!(p.commit, "abc");
        assert_eq!(p.url, "https://github.com/o/r/pull/7");
        assert_eq!(p.state, state);
    }
}

#[test]
fn prs_page_keeps_fork_prs() {
    let page = PullRequestsPage {
        nodes: Some(vec![
            Some(pr_node("me/a", true, "x", Some("1"), RawPullRequestState::MERGED)),
            Some(pr_node("o/b", false, "y", Some("2"), RawPullRequestState::MERGED)),
            Some(pr_node("me/c", true, "z", Some("3"), RawPullRequestState::OPEN)),
        ]),
        page_info: PageInfo { has_next_page: false, end_cursor: None },
    };
    let (prs, has_next, cursor) = handle_prs_response(page).unwrap();
    assert_eq!(prs.len(), 2);
    assert_eq!(prs[0].repo, "me/a");
    assert_eq!(prs[1].repo, "me/c");
    assert!(!has_next);
    assert!(cursor.is_none());
    let empty = PullRequestsPage { nodes: None, page_info: PageInfo { has_next_page: true, end_cursor: None } };
    let (prs, has_next, _) = handle_prs_response(empty).unwrap();
    assert!(prs.is_empty());
    assert!(!has_next);
}

#[test]
fn interpret_response_prefers_errors() {
    let r = interpret_response(Some(5u32), Some(vec![s("boom"), s("bang")]), &s("user forks"));
    match r {
        Err(GcError::ServerErrors(m)) => assert_eq!(m, "Errors from server:\nboom\nbang\n"),
        _ => panic!("expected server errors"),
    }
    match interpret_response::<u32>(None, Some(vec![]), &s("user forks")) {
        Err(GcError::ServerErrors(m)) => assert_eq!(m, "Errors from server:\n"),
        _ => panic!("expected server errors"),
    }
    assert_eq!(interpret_response(Some(5u32), None, &s("user forks")).unwrap(), 5);
    match interpret_response::<u32>(None, None, &s("user PRs")) {
        Err(GcError::MissingResponseData(a)) => assert_eq!(a, "user PRs"),
        _ => panic!("expected missing data"),
    }
}

#[test]
fn pagination_gathers_pages_in_order() {
    let mut p: Pagination<u32> = Pagination::new();
    assert_eq!(p.next_page(), Some(None));
    p.record_page(vec![1, 2], true, Some(s("c1")));
    assert_eq!(p.next_page(), Some(Some(s("c1"))));
    p.record_page(vec![3], false, None);
    assert_eq!(p.next_page(), None);
    assert_eq!(p.items, vec![1, 2, 3]);
}

#[test]
fn fork_map_later_fork_wins() {
    let forks = vec![
        fork("me/a", "main", vec![branch("main", "1")]),
        fork("me/b", "main", vec![]),
        fork("me/a", "dev", vec![branch("dev", "2"), branch("x", "3")]),
    ];
    let m = vec_forks_to_hashmap(&forks);
    assert_eq!(m.len(), 2);
    let a = m.get(&s("me/a")).unwrap();
    assert_eq!(a.default_branch_name, "dev");
    assert_eq!(a.branches.len(), 2);
    assert!(m.get(&s("me/b")).is_some());
    assert!(m.get(&s("me/c")).is_none());
    assert_eq!(m.forks().len(), 2);
}

#[test]
fn prs_to_branches_groups_by_repo() {
    let prs = vec![
        pr("me/a", "x", "1", PullRequestState::MERGED),
        pr("me/b", "y", "2", PullRequestState::OPEN),
        pr("me/a", "z", "3", PullRequestState::CLOSED),
        pr("me/a", "x", "4", PullRequestState::OPEN),
    ];
    let m = prs_to_branches(&prs);
    assert!(m.contains_key(&s("me/a")));
    assert!(m.contains_key(&s("me/b")));
    assert!(!m.contains_key(&s("me/c")));
    let a = m.get(&s("me/a")).unwrap();
    assert_eq!(a, &vec![s("x"), s("z")]);
    assert_eq!(m.get(&s("me/b")).unwrap(), &vec![s("y")]);
}

#[test]
fn dead_forks_branch_states() {
    let forks = vec![fork(
        "me/a",
        "main",
        vec![branch("main", "m"), branch("open", "o"), branch("dead", "d"), branch("moved", "new")],
    )];
    let prs = vec![
        pr("me/a", "open", "o", PullRequestState::OPEN),
        pr("me/a", "dead", "d", PullRequestState::MERGED),
        pr("me/a", "moved", "old", PullRequestState::CLOSED),
    ];
    let out = collect_dead_forks(&forks, &prs);
    assert_eq!(out.len(), 1);
    let info = &out[0];
    assert_eq!(info.fork.name, "me/a");
    let states: Vec<ForkBranchState> = info.branches.iter().map(|b| b.state).collect();
    assert_eq!(
        states,
        vec![ForkBranchState::NoPR, ForkBranchState::HasOpenPR, ForkBranchState::Dead, ForkBranchState::Different]
    );
    assert!(info.branches[0].pr.is_none());
    assert_eq!(info.branches[2].pr.as_ref().unwrap().commit, "d");
    assert_eq!(info.special_state, Some(ForkSpecialState::NoPRs));
}

#[test]
fn dead_forks_first_pr_of_branch_name_wins() {
    let forks = vec![fork("me/a", "main", vec![branch("fix", "c")])];
    let prs = vec![
        pr("other/z", "fix", "c", PullRequestState::OPEN),
        pr("me/a", "fix", "c", PullRequestState::MERGED),
    ];
    let out = collect_dead_forks(&forks, &prs);
    let b = &out[0].branches[0];
    assert_eq!(b.state, ForkBranchState::HasOpenPR);
    assert_eq!(b.pr.as_ref().unwrap().repo, "other/z");
    assert_eq!(out[0].special_state, Some(ForkSpecialState::NoPRs));
}

#[test]
fn dead_forks_special_states() {
    let forks = vec![
        fork("me/only", "main", vec![branch("main", "1")]),
        fork("me/more", "main", vec![branch("main", "1"), branch("x", "2")]),
        fork("me/other", "main", vec![branch("dev", "1")]),
        fork("me/only", "trunk", vec![branch("trunk", "9")]),
    ];
    let out = collect_dead_forks(&forks, &vec![]);
    assert_eq!(out.len(), 3);
    for info in out.iter() {
        let expected = if info.fork.name == "me/only" {
            assert_eq!(info.fork.default_branch_name, "trunk");
            Some(ForkSpecialState::OnlyDefaultBranch)
        } else {
            None
        };
        assert_eq!(info.special_state, expected);
    }
}

#[test]
fn merged_branches_rules() {
    let forks = vec_forks_to_hashmap(&vec![
        fork("me/a", "main", vec![]),
        fork("me/b", "dev", vec![]),
    ]);
    let prs = vec![
        pr("me/a", "fix", "1", PullRequestState::MERGED),
        pr("me/a", "wip", "2", PullRequestState::OPEN),
        pr("me/c", "gone", "3", PullRequestState::CLOSED),
        pr("me/b", "dev", "4", PullRequestState::MERGED),
        pr("me/b", "feat", "5", PullRequestState::CLOSED),
    ];
    let out = collect_merged_branches(&forks, &prs);
    let got: Vec<(String, String)> = out.iter().map(|r| (r.repo.clone(), r.branch.clone())).collect();
    assert_eq!(got, vec![(s("me/a"), s("fix")), (s("me/b"), s("feat"))]);
}

#[test]
fn find_garbage_combines_both() {
    let forks = vec![fork("me/a", "main", vec![branch("main", "1"), branch("fix", "2")])];
    let prs = vec![pr("me/a", "fix", "2", PullRequestState::MERGED)];
    let g = find_garbage(&forks, &prs);
    assert_eq!(g.dead_branches.len(), 1);
    assert_eq!(g.dead_branches[0].branch, "fix");
    assert_eq!(g.dead_forks.len(), 1);
    assert_eq!(g.dead_forks[0].branches[1].state, ForkBranchState::Dead);
}

#[test]
fn clones_keep_values() {
    let f = fork("me/a", "main", vec![branch("main", "1"), branch("x", "2")]);
    let g = f.clone();
    assert_eq!(g.name, f.name);
    assert_eq!(g.branches.len(), 2);
    assert_eq!(g.branches[1].commit, "2");
    let p = pr("me/a", "x", "2", PullRequestState::MERGED);
    let q = p.clone();
    assert_eq!(q.url, p.url);
    assert_eq!(q.state, PullRequestState::MERGED);
}
