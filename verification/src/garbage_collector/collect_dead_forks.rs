use vstd::prelude::*;

use crate::garbage_collector::get_forks::{
    forks_view, Fork, ForkBranchInfo, ForkBranchInfoView, ForkView,
};
use crate::garbage_collector::get_prs::{prs_view, PRView, PullRequestState, PR};
use crate::garbage_collector::seq_map::{
    has_key, keys_distinct, lemma_keys_distinct_push, lemma_seq_to_map_dom, lemma_seq_to_map_index,
    lemma_seq_to_map_last, lemma_seq_to_map_update, seq_to_map,
};

verus! {

/// Each fork paired with its name.
pub open spec fn fork_pairs(s: Seq<ForkView>) -> Seq<(Seq<char>, ForkView)> {
    s.map_values(|f: ForkView| (f.name, f))
}

/// The forks of the user by name. Where two forks share a name the later one
/// holds the name. The forks stand in an order of their own, in which each
/// name comes once.
pub struct ForkMap {
    entries: Vec<Fork>,
}

impl ForkMap {
    #[verifier::type_invariant]
    spec fn names_distinct(&self) -> bool {
        keys_distinct(fork_pairs(forks_view(self.entries@)))
    }

    /// The forks in the order in which the map holds them.
    pub closed spec fn ordered(&self) -> Seq<ForkView> {
        forks_view(self.entries@)
    }

    /// The forks in the order in which the map holds them: each name comes
    /// once, and each fork is the map's value for its name.
    pub fn forks(&self) -> (r: &Vec<Fork>)
        ensures
            forks_view(r@) == self.ordered(),
            keys_distinct(fork_pairs(self.ordered())),
            seq_to_map(fork_pairs(self.ordered())) == self@,
    {
        proof {
            use_type_invariant(self);
        }
        &self.entries
    }

    /// The number of names in the map.
    pub fn len(&self) -> (r: usize)
        ensures
            r == self.ordered().len(),
            r == self@.len(),
    {
        proof {
            use_type_invariant(self);
            lemma_fork_map_len(self.ordered());
        }
        self.entries.len()
    }

    /// The fork of the given name, if the map holds one.
    pub fn get(&self, name: &String) -> (r: Option<&Fork>)
        ensures
            match r {
                Some(f) => self@.contains_key(name@) && f@ == self@[name@],
                None => !self@.contains_key(name@),
            },
    {
        proof {
            use_type_invariant(self);
        }
        let ghost pairs = fork_pairs(self.ordered());
        let mut i: usize = 0;
        while i < self.entries.len()
            invariant
                i <= self.entries@.len(),
                pairs == fork_pairs(forks_view(self.entries@)),
                keys_distinct(pairs),
                forall|j: int| 0 <= j < i ==> #[trigger] self.entries@[j].name@ != name@,
            decreases self.entries.len() - i,
        {
            if self.entries[i].name == *name {
                proof {
                    lemma_seq_to_map_index(pairs, i as int);
                    assert(pairs[i as int].0 == name@);
                }
                return Some(&self.entries[i]);
            }
            i = i + 1;
        }
        proof {
            lemma_seq_to_map_dom(pairs);
            if has_key(pairs, name@) {
                let j = choose|j: int| 0 <= j < pairs.len() && pairs[j].0 == name@;
                assert(self.entries@[j].name@ == name@);
            }
        }
        None
    }
}

impl View for ForkMap {
    type V = Map<Seq<char>, ForkView>;

    closed spec fn view(&self) -> Map<Seq<char>, ForkView> {
        seq_to_map(fork_pairs(self.ordered()))
    }
}

/// A map built from pairs with distinct keys has as many keys as pairs.
proof fn lemma_fork_map_len(s: Seq<ForkView>)
    requires
        keys_distinct(fork_pairs(s)),
    ensures
        seq_to_map(fork_pairs(s)).len() == s.len(),
        seq_to_map(fork_pairs(s)).dom().finite(),
    decreases s.len(),
{
    if s.len() > 0 {
        let r = s.drop_last();
        assert(fork_pairs(r) =~= fork_pairs(s).drop_last());
        assert(keys_distinct(fork_pairs(r)));
        lemma_fork_map_len(r);
        lemma_seq_to_map_dom(fork_pairs(r));
        if has_key(fork_pairs(r), s.last().name) {
            let j = choose|j: int| 0 <= j < r.len() && fork_pairs(r)[j].0 == s.last().name;
            assert(fork_pairs(s)[j].0 == fork_pairs(s)[s.len() - 1].0);
        }
    }
}

/// Puts a fork under its name in a list whose names are distinct: it replaces
/// the fork of that name, or comes last where there is none.
fn insert_fork(entries: &mut Vec<Fork>, fork: Fork)
    requires
        keys_distinct(fork_pairs(forks_view(old(entries)@))),
    ensures
        keys_distinct(fork_pairs(forks_view(final(entries)@))),
        seq_to_map(fork_pairs(forks_view(final(entries)@))) == seq_to_map(
            fork_pairs(forks_view(old(entries)@)),
        ).insert(fork@.name, fork@),
{
    let ghost before = fork_pairs(forks_view(entries@));
    let mut i: usize = 0;
    while i < entries.len()
        invariant
            i <= entries@.len(),
            entries@ == old(entries)@,
            before == fork_pairs(forks_view(entries@)),
            keys_distinct(before),
            forall|j: int| 0 <= j < i ==> #[trigger] entries@[j].name@ != fork.name@,
        decreases entries.len() - i,
    {
        if entries[i].name == fork.name {
            let ghost v = fork@;
            entries.set(i, fork);
            proof {
                assert(fork_pairs(forks_view(entries@)) =~= before.update(i as int, (before[i as int].0, v)));
                lemma_seq_to_map_update(before, i as int, v);
            }
            return;
        }
        i = i + 1;
    }
    let ghost v = fork@;
    entries.push(fork);
    proof {
        assert(fork_pairs(forks_view(entries@)) =~= before.push((v.name, v)));
        assert(fork_pairs(forks_view(entries@)).drop_last() =~= before);
        if has_key(before, v.name) {
            let j = choose|j: int| 0 <= j < before.len() && before[j].0 == v.name;
            assert(old(entries)@[j].name@ == v.name);
        }
        lemma_keys_distinct_push(before, (v.name, v));
    }
}

/// Gathers the forks by name; where two forks share a name the later one holds it.
pub fn vec_forks_to_hashmap(forks: &Vec<Fork>) -> (r: ForkMap)
    ensures
        r@ == seq_to_map(fork_pairs(forks_view(forks@))),
{
    let mut entries: Vec<Fork> = Vec::new();
    let mut i: usize = 0;
    while i < forks.len()
        invariant
            i <= forks@.len(),
            keys_distinct(fork_pairs(forks_view(entries@))),
            seq_to_map(fork_pairs(forks_view(entries@))) == seq_to_map(
                fork_pairs(forks_view(forks@.take(i as int))),
            ),
        decreases forks.len() - i,
    {
        let ghost prefix = fork_pairs(forks_view(forks@.take(i as int)));
        insert_fork(&mut entries, forks[i].clone());
        proof {
            assert(fork_pairs(forks_view(forks@.take(i + 1))).drop_last() =~= prefix);
            assert(fork_pairs(forks_view(forks@.take(i + 1))).last() == (forks@[i as int]@.name, forks@[i as int]@));
        }
        i = i + 1;
    }
    assert(forks@.take(forks.len() as int) == forks@);
    ForkMap { entries }
}

/// The names of the map are those of the forks, and each name holds the last
/// fork that bears it.
pub proof fn lemma_forks_map_last_wins(forks: Seq<ForkView>, i: int)
    requires
        0 <= i < forks.len(),
        forall|j: int| i < j < forks.len() ==> #[trigger] forks[j].name != forks[i].name,
    ensures
        seq_to_map(fork_pairs(forks)).contains_key(forks[i].name),
        seq_to_map(fork_pairs(forks))[forks[i].name] == forks[i],
{
    let p = fork_pairs(forks);
    assert forall|j: int| i < j < p.len() implies p[j].0 != p[i].0 by {
        assert(forks[j].name != forks[i].name);
    }
    lemma_seq_to_map_last(p, i);
}

/// The names of the map are exactly the names of the forks.
pub proof fn lemma_forks_map_names(forks: Seq<ForkView>, name: Seq<char>)
    ensures
        seq_to_map(fork_pairs(forks)).contains_key(name) <==> exists|i: int|
            0 <= i < forks.len() && #[trigger] forks[i].name == name,
{
    let p = fork_pairs(forks);
    lemma_seq_to_map_dom(p);
    if has_key(p, name) {
        let i = choose|i: int| 0 <= i < p.len() && p[i].0 == name;
        assert(forks[i].name == name);
    }
    if exists|i: int| 0 <= i < forks.len() && #[trigger] forks[i].name == name {
        let i = choose|i: int| 0 <= i < forks.len() && #[trigger] forks[i].name == name;
        assert(p[i].0 == name);
    }
}

/// The names that a list of strings holds.
pub open spec fn strings_view(s: Seq<String>) -> Seq<Seq<char>> {
    s.map_values(|x: String| x@)
}

/// The set of names that a list of strings holds.
pub open spec fn names_set(s: Seq<String>) -> Set<Seq<char>> {
    strings_view(s).to_set()
}

/// Adding a name to a list adds it to the set of its names.
proof fn lemma_names_set_push(s: Seq<String>, x: String)
    ensures
        names_set(s.push(x)) == names_set(s).insert(x@),
{
    let t = strings_view(s.push(x));
    assert(t =~= strings_view(s).push(x@));
    assert forall|a: Seq<char>| t.contains(a) <==> strings_view(s).contains(a) || a == x@ by {
        if t.contains(a) {
            let i = choose|i: int| 0 <= i < t.len() && t[i] == a;
            if i < s.len() {
                assert(strings_view(s)[i] == a);
            }
        }
        if strings_view(s).contains(a) {
            let i = choose|i: int| 0 <= i < strings_view(s).len() && strings_view(s)[i] == a;
            assert(t[i] == a);
        }
        if a == x@ {
            assert(t[s.len() as int] == a);
        }
    }
    assert(names_set(s.push(x)) =~= names_set(s).insert(x@));
}

/// The branches of the user's pull requests to one repository.
pub struct RepoBranches {
    pub repo: String,
    pub branches: Vec<String>,
}

/// Each repository paired with the set of its branch names.
pub open spec fn repo_pairs(s: Seq<RepoBranches>) -> Seq<(Seq<char>, Set<Seq<char>>)> {
    s.map_values(|e: RepoBranches| (e.repo@, names_set(e.branches@)))
}

/// For each repository that the user made pull requests to from a fork, the
/// names of the branches they were made from. No repository comes twice, and
/// no branch name twice for one repository.
pub struct RepoBranchMap {
    entries: Vec<RepoBranches>,
}

impl RepoBranchMap {
    #[verifier::type_invariant]
    spec fn well_formed(&self) -> bool {
        &&& keys_distinct(repo_pairs(self.entries@))
        &&& forall|k: int|
            0 <= k < self.entries@.len() ==> strings_view(#[trigger] self.entries@[k].branches@).no_duplicates()
    }

    /// Whether the user made a pull request to the repository.
    pub fn contains_key(&self, repo: &String) -> (r: bool)
        ensures
            r == self@.contains_key(repo@),
    {
        match self.get(repo) {
            Some(_) => true,
            None => false,
        }
    }

    /// The names of the branches that pull requests to the repository came
    /// from, each once, if there is one.
    pub fn get(&self, repo: &String) -> (r: Option<&Vec<String>>)
        ensures
            match r {
                Some(b) => {
                    &&& self@.contains_key(repo@)
                    &&& names_set(b@) == self@[repo@]
                    &&& strings_view(b@).no_duplicates()
                },
                None => !self@.contains_key(repo@),
            },
    {
        proof {
            use_type_invariant(self);
        }
        let ghost pairs = repo_pairs(self.entries@);
        let mut i: usize = 0;
        while i < self.entries.len()
            invariant
                i <= self.entries@.len(),
                pairs == repo_pairs(self.entries@),
                keys_distinct(pairs),
                forall|j: int| 0 <= j < i ==> #[trigger] self.entries@[j].repo@ != repo@,
            decreases self.entries.len() - i,
        {
            if self.entries[i].repo == *repo {
                proof {
                    lemma_seq_to_map_index(pairs, i as int);
                    assert(pairs[i as int].0 == repo@);
                    use_type_invariant(self);
                    assert(strings_view(self.entries@[i as int].branches@).no_duplicates());
                }
                return Some(&self.entries[i].branches);
            }
            i = i + 1;
        }
        proof {
            lemma_seq_to_map_dom(pairs);
            if has_key(pairs, repo@) {
                let j = choose|j: int| 0 <= j < pairs.len() && pairs[j].0 == repo@;
                assert(self.entries@[j].repo@ == repo@);
            }
        }
        None
    }
}

impl View for RepoBranchMap {
    type V = Map<Seq<char>, Set<Seq<char>>>;

    closed spec fn view(&self) -> Map<Seq<char>, Set<Seq<char>>> {
        seq_to_map(repo_pairs(self.entries@))
    }
}

/// For each repository of the pull requests, the set of names of the branches
/// they came from: the pull requests are taken in order, and each adds its
/// branch to its repository's set, which it creates where there is none.
pub open spec fn branches_of(prs: Seq<PRView>) -> Map<Seq<char>, Set<Seq<char>>>
    decreases prs.len(),
{
    if prs.len() == 0 {
        Map::empty()
    } else {
        let m = branches_of(prs.drop_last());
        let p = prs.last();
        let known = if m.contains_key(p.repo) {
            m[p.repo]
        } else {
            Set::empty()
        };
        m.insert(p.repo, known.insert(p.branch_name))
    }
}

/// Adds a name to a list of distinct names, where it is not there yet.
fn add_branch(branches: &mut Vec<String>, name: String)
    requires
        strings_view(old(branches)@).no_duplicates(),
    ensures
        strings_view(final(branches)@).no_duplicates(),
        names_set(final(branches)@) == names_set(old(branches)@).insert(name@),
{
    let mut i: usize = 0;
    while i < branches.len()
        invariant
            i <= branches@.len(),
            branches@ == old(branches)@,
            strings_view(branches@).no_duplicates(),
            forall|j: int| 0 <= j < i ==> #[trigger] branches@[j]@ != name@,
        decreases branches.len() - i,
    {
        if branches[i] == name {
            proof {
                assert(strings_view(branches@)[i as int] == name@);
                assert(names_set(branches@).contains(name@));
                assert(names_set(branches@).insert(name@) =~= names_set(branches@));
            }
            return;
        }
        i = i + 1;
    }
    let ghost before = branches@;
    let ghost n = name@;
    branches.push(name);
    proof {
        lemma_names_set_push(before, branches@.last());
        assert(branches@ == before.push(branches@.last()));
        assert(strings_view(branches@) =~= strings_view(before).push(n));
        assert forall|a: int, b: int|
            0 <= a < strings_view(branches@).len() && 0 <= b < strings_view(branches@).len() && a != b
        implies strings_view(branches@)[a] != strings_view(branches@)[b] by {
            if a < before.len() && b < before.len() {
                assert(strings_view(before)[a] == strings_view(branches@)[a]);
                assert(strings_view(before)[b] == strings_view(branches@)[b]);
            } else if a < before.len() {
                assert(before[a]@ != n);
            } else {
                assert(before[b]@ != n);
            }
        }
    }
}

/// Gathers, for each repository of the pull requests, the names of the
/// branches they came from.
pub fn prs_to_branches(prs: &Vec<PR>) -> (r: RepoBranchMap)
    ensures
        r@ == branches_of(prs_view(prs@)),
{
    let mut entries: Vec<RepoBranches> = Vec::new();
    let mut i: usize = 0;
    while i < prs.len()
        invariant
            i <= prs@.len(),
            keys_distinct(repo_pairs(entries@)),
            forall|k: int|
                0 <= k < entries@.len() ==> strings_view(#[trigger] entries@[k].branches@).no_duplicates(),
            seq_to_map(repo_pairs(entries@)) == branches_of(prs_view(prs@.take(i as int))),
        decreases prs.len() - i,
    {
        let pr = &prs[i];
        let ghost before = entries@;
        let ghost m = seq_to_map(repo_pairs(before));
        proof {
            assert(prs_view(prs@.take(i + 1)).drop_last() =~= prs_view(prs@.take(i as int)));
            assert(prs_view(prs@.take(i + 1)).last() == pr@);
        }
        let mut j: usize = 0;
        let mut found = false;
        while j < entries.len() && !found
            invariant
                j <= entries@.len(),
                entries@ == before,
                found ==> j < entries@.len() && entries@[j as int].repo@ == pr.repo@,
                !found ==> forall|k: int| 0 <= k < j ==> #[trigger] entries@[k].repo@ != pr.repo@,
            decreases entries@.len() - j + (if found { 0int } else { 1int }),
        {
            if entries[j].repo == pr.repo {
                found = true;
            } else {
                j = j + 1;
            }
        }
        if found {
            proof {
                assert(repo_pairs(before)[j as int].0 == pr.repo@);
                lemma_seq_to_map_index(repo_pairs(before), j as int);
            }
            let mut e = entries.remove(j);
            let ghost old_set = names_set(e.branches@);
            add_branch(&mut e.branches, pr.branch_name.clone());
            let ghost new_set = names_set(e.branches@);
            entries.insert(j, e);
            proof {
                assert(entries@ =~= before.update(j as int, entries@[j as int]));
                assert(repo_pairs(entries@) =~= repo_pairs(before).update(j as int, (pr.repo@, new_set)));
                lemma_seq_to_map_update(repo_pairs(before), j as int, new_set);
                assert forall|k: int| 0 <= k < entries@.len() implies strings_view(
                    #[trigger] entries@[k].branches@,
                ).no_duplicates() by {
                    if k != j {
                        assert(entries@[k] == before[k]);
                    }
                }
            }
        } else {
            let mut branches: Vec<String> = Vec::new();
            branches.push(pr.branch_name.clone());
            let e = RepoBranches { repo: pr.repo.clone(), branches };
            proof {
                lemma_names_set_push(Seq::empty(), e.branches@[0]);
                assert(e.branches@ == Seq::<String>::empty().push(e.branches@[0]));
                assert(names_set(Seq::<String>::empty()) =~= Set::empty());
                lemma_seq_to_map_dom(repo_pairs(before));
                if has_key(repo_pairs(before), pr.repo@) {
                    let k = choose|k: int| 0 <= k < repo_pairs(before).len() && repo_pairs(before)[k].0 == pr.repo@;
                    assert(before[k].repo@ == pr.repo@);
                }
                assert(strings_view(e.branches@) =~= seq![pr.branch_name@]);
            }
            let ghost pair = (e.repo@, names_set(e.branches@));
            entries.push(e);
            proof {
                assert(repo_pairs(entries@) =~= repo_pairs(before).push(pair));
                assert(repo_pairs(entries@).drop_last() =~= repo_pairs(before));
                lemma_keys_distinct_push(repo_pairs(before), pair);
                assert forall|k: int| 0 <= k < entries@.len() implies strings_view(
                    #[trigger] entries@[k].branches@,
                ).no_duplicates() by {
                    if k < before.len() {
                        assert(entries@[k] == before[k]);
                    }
                }
            }
        }
        i = i + 1;
    }
    assert(prs@.take(prs.len() as int) == prs@);
    RepoBranchMap { entries }
}

/// What became of a branch of a fork.
#[derive(Debug, Clone, Copy, PartialEq, Eq, Structural)]
pub enum ForkBranchState {
    /// No pull request was made from a branch of that name.
    NoPR,
    /// The pull request made from it is open.
    HasOpenPR,
    /// The pull request made from it was merged or closed, and the branch
    /// still points to the pull request's commit.
    Dead,
    /// The pull request made from it was merged or closed, but the branch
    /// points to another commit than the pull request's.
    Different,
}

/// What sets a fork apart as a whole.
#[derive(Debug, Clone, Copy, PartialEq, Eq, Structural)]
pub enum ForkSpecialState {
    /// The fork's only branch is its default branch.
    OnlyDefaultBranch,
    /// Marks a fork whose repository some pull request of the user names.
    NoPRs,
}

/// A branch of a fork, the pull request made from a branch of that name, if
/// any, and what became of the branch.
pub struct ForkBranchWithState {
    pub branch: ForkBranchInfo,
    pub pr: Option<PR>,
    pub state: ForkBranchState,
}

/// What a branch with its state is.
pub struct ForkBranchWithStateView {
    pub branch: ForkBranchInfoView,
    pub pr: Option<PRView>,
    pub state: ForkBranchState,
}

impl View for ForkBranchWithState {
    type V = ForkBranchWithStateView;

    open spec fn view(&self) -> ForkBranchWithStateView {
        ForkBranchWithStateView {
            branch: self.branch@,
            pr: match self.pr {
                Some(p) => Some(p@),
                None => None,
            },
            state: self.state,
        }
    }
}

/// A fork, what became of each of its branches, and what sets it apart.
pub struct ForkDeadnessInfo {
    pub fork: Fork,
    pub branches: Vec<ForkBranchWithState>,
    pub special_state: Option<ForkSpecialState>,
}

/// What a fork's deadness is.
pub struct ForkDeadnessInfoView {
    pub fork: ForkView,
    pub branches: Seq<ForkBranchWithStateView>,
    pub special_state: Option<ForkSpecialState>,
}

impl View for ForkDeadnessInfo {
    type V = ForkDeadnessInfoView;

    open spec fn view(&self) -> ForkDeadnessInfoView {
        ForkDeadnessInfoView {
            fork: self.fork@,
            branches: self.branches@.map_values(|b: ForkBranchWithState| b@),
            special_state: self.special_state,
        }
    }
}

/// The first pull request, from position `i` on, made from a branch of the
/// given name, whatever its repository.
pub open spec fn first_pr_from(prs: Seq<PRView>, branch_name: Seq<char>, i: int) -> Option<PRView>
    decreases prs.len() - i,
{
    if i < 0 || i >= prs.len() {
        None
    } else if prs[i].branch_name == branch_name {
        Some(prs[i])
    } else {
        first_pr_from(prs, branch_name, i + 1)
    }
}

/// The first pull request made from a branch of the given name.
pub open spec fn first_pr(prs: Seq<PRView>, branch_name: Seq<char>) -> Option<PRView> {
    first_pr_from(prs, branch_name, 0)
}

/// What became of a branch, given the pull request made from it.
pub open spec fn branch_state(branch: ForkBranchInfoView, pr: Option<PRView>) -> ForkBranchState {
    match pr {
        None => ForkBranchState::NoPR,
        Some(p) => if p.state == PullRequestState::OPEN {
            ForkBranchState::HasOpenPR
        } else if p.commit == branch.commit {
            ForkBranchState::Dead
        } else {
            ForkBranchState::Different
        },
    }
}

/// A branch with its pull request and its state.
pub open spec fn branch_with_state(branch: ForkBranchInfoView, prs: Seq<PRView>) -> ForkBranchWithStateView {
    ForkBranchWithStateView {
        branch,
        pr: first_pr(prs, branch.name),
        state: branch_state(branch, first_pr(prs, branch.name)),
    }
}

/// What sets a fork apart: `NoPRs` where some pull request names its
/// repository, else `OnlyDefaultBranch` where its only branch is its default
/// branch, else nothing.
pub open spec fn special_state(fork: ForkView, prs: Seq<PRView>) -> Option<ForkSpecialState> {
    if branches_of(prs).contains_key(fork.name) {
        Some(ForkSpecialState::NoPRs)
    } else if fork.branches.len() == 1 && fork.branches[0].name == fork.default_branch_name {
        Some(ForkSpecialState::OnlyDefaultBranch)
    } else {
        None
    }
}

/// The deadness of a fork: each of its branches, in order, with its pull
/// request and state, and what sets the fork apart.
pub open spec fn deadness(fork: ForkView, prs: Seq<PRView>) -> ForkDeadnessInfoView {
    ForkDeadnessInfoView {
        fork,
        branches: fork.branches.map_values(|b: ForkBranchInfoView| branch_with_state(b, prs)),
        special_state: special_state(fork, prs),
    }
}

/// The first pull request made from a branch of the given name.
fn find_first_pr<'a>(prs: &'a Vec<PR>, branch_name: &String) -> (r: Option<&'a PR>)
    ensures
        match r {
            Some(p) => first_pr(prs_view(prs@), branch_name@) == Some(p@),
            None => first_pr(prs_view(prs@), branch_name@) is None,
        },
{
    let ghost v = prs_view(prs@);
    let mut i: usize = 0;
    while i < prs.len()
        invariant
            i <= prs@.len(),
            v == prs_view(prs@),
            first_pr(v, branch_name@) == first_pr_from(v, branch_name@, i as int),
        decreases prs.len() - i,
    {
        if prs[i].branch_name == *branch_name {
            return Some(&prs[i]);
        }
        i = i + 1;
    }
    None
}

/// A branch with the first pull request made from a branch of its name, and
/// what became of it.
fn classify_branch(branch: &ForkBranchInfo, prs: &Vec<PR>) -> (r: ForkBranchWithState)
    ensures
        r@ == branch_with_state(branch@, prs_view(prs@)),
{
    match find_first_pr(prs, &branch.name) {
        None => ForkBranchWithState { branch: branch.clone(), pr: None, state: ForkBranchState::NoPR },
        Some(pr) => {
            let state = if pr.state == PullRequestState::OPEN {
                ForkBranchState::HasOpenPR
            } else if pr.commit == branch.commit {
                ForkBranchState::Dead
            } else {
                ForkBranchState::Different
            };
            ForkBranchWithState { branch: branch.clone(), pr: Some(pr.clone()), state }
        },
    }
}

/// The deadness of one fork.
fn fork_deadness(fork: &Fork, prs: &Vec<PR>, branches_map: &RepoBranchMap) -> (r: ForkDeadnessInfo)
    requires
        branches_map@ == branches_of(prs_view(prs@)),
    ensures
        r@ == deadness(fork@, prs_view(prs@)),
{
    let mut result_branches: Vec<ForkBranchWithState> = Vec::new();
    let mut j: usize = 0;
    while j < fork.branches.len()
        invariant
            j <= fork.branches@.len(),
            result_branches@.len() == j,
            forall|k: int|
                0 <= k < j ==> #[trigger] result_branches@[k]@ == branch_with_state(
                    fork.branches@[k]@,
                    prs_view(prs@),
                ),
        decreases fork.branches.len() - j,
    {
        result_branches.push(classify_branch(&fork.branches[j], prs));
        j = j + 1;
    }
    let special = if branches_map.contains_key(&fork.name) {
        Some(ForkSpecialState::NoPRs)
    } else if fork.branches.len() == 1 && fork.branches[0].name == fork.default_branch_name {
        Some(ForkSpecialState::OnlyDefaultBranch)
    } else {
        None
    };
    let r = ForkDeadnessInfo { fork: fork.clone(), branches: result_branches, special_state: special };
    assert(r@.branches =~= deadness(fork@, prs_view(prs@)).branches);
    r
}

/// The forks that the deadness records are about.
pub open spec fn deadness_forks(s: Seq<ForkDeadnessInfo>) -> Seq<ForkView> {
    s.map_values(|d: ForkDeadnessInfo| d.fork@)
}

/// For each fork name, the last fork of that name, each once: what became of
/// each of its branches, judged by the first pull request made from a branch
/// of that name, and what sets the fork apart.
pub fn collect_dead_forks(forks_vec: &Vec<Fork>, prs: &Vec<PR>) -> (r: Vec<ForkDeadnessInfo>)
    ensures
        keys_distinct(fork_pairs(deadness_forks(r@))),
        seq_to_map(fork_pairs(deadness_forks(r@))) == seq_to_map(fork_pairs(forks_view(forks_vec@))),
        forall|i: int|
            0 <= i < r@.len() ==> #[trigger] r@[i]@ == deadness(r@[i].fork@, prs_view(prs@)),
{
    let forks = vec_forks_to_hashmap(forks_vec);
    let mut result: Vec<ForkDeadnessInfo> = Vec::new();
    let branches_map = prs_to_branches(prs);
    let ordered = forks.forks();
    let mut i: usize = 0;
    while i < ordered.len()
        invariant
            i <= ordered@.len(),
            branches_map@ == branches_of(prs_view(prs@)),
            deadness_forks(result@) == forks_view(ordered@).take(i as int),
            forall|k: int|
                0 <= k < result@.len() ==> #[trigger] result@[k]@ == deadness(result@[k].fork@, prs_view(prs@)),
        decreases ordered.len() - i,
    {
        let info = fork_deadness(&ordered[i], prs, &branches_map);
        assert(info@.fork == info.fork@);
        assert(info.fork@ == forks_view(ordered@)[i as int]);
        let ghost before = result@;
        assert(deadness_forks(before).len() == before.len());
        result.push(info);
        assert(result@[i as int] == info);
        assert(deadness_forks(result@) =~= forks_view(ordered@).take(i + 1));
        i = i + 1;
    }
    assert(deadness_forks(result@) =~= forks_view(ordered@));
    result
}

/// A repository is a key of the gathered map exactly when some pull request
/// names it, and its set holds exactly the branch names of the pull requests
/// that name it.
pub proof fn lemma_branches_of(prs: Seq<PRView>, repo: Seq<char>)
    ensures
        branches_of(prs).contains_key(repo) <==> exists|i: int| 0 <= i < prs.len() && #[trigger] prs[i].repo == repo,
        branches_of(prs).contains_key(repo) ==> forall|b: Seq<char>|
            #[trigger] branches_of(prs)[repo].contains(b) <==> exists|i: int|
                0 <= i < prs.len() && #[trigger] prs[i].repo == repo && prs[i].branch_name == b,
    decreases prs.len(),
{
    if prs.len() > 0 {
        let r = prs.drop_last();
        let p = prs.last();
        let m = branches_of(r);
        lemma_branches_of(r, repo);
        assert(prs[prs.len() - 1] == p);
        assert forall|i: int| 0 <= i < r.len() implies #[trigger] r[i] == prs[i] by {}
        if exists|i: int| 0 <= i < prs.len() && #[trigger] prs[i].repo == repo {
            let i = choose|i: int| 0 <= i < prs.len() && #[trigger] prs[i].repo == repo;
            if i < r.len() {
                assert(r[i].repo == repo);
            }
        }
        if branches_of(prs).contains_key(repo) {
            assert forall|b: Seq<char>|
                #[trigger] branches_of(prs)[repo].contains(b) <==> exists|i: int|
                    0 <= i < prs.len() && #[trigger] prs[i].repo == repo && prs[i].branch_name == b by {
                if p.repo == repo {
                    if branches_of(prs)[repo].contains(b) && b != p.branch_name {
                        assert(m.contains_key(repo));
                        assert(m[repo].contains(b));
                        let i = choose|i: int|
                            0 <= i < r.len() && #[trigger] r[i].repo == repo && r[i].branch_name == b;
                        assert(prs[i].repo == repo);
                    }
                    if exists|i: int| 0 <= i < prs.len() && #[trigger] prs[i].repo == repo && prs[i].branch_name == b {
                        let i = choose|i: int|
                            0 <= i < prs.len() && #[trigger] prs[i].repo == repo && prs[i].branch_name == b;
                        if i < r.len() {
                            assert(r[i].repo == repo && r[i].branch_name == b);
                            assert(m[repo].contains(b));
                        }
                    }
                } else {
                    if branches_of(prs)[repo].contains(b) {
                        let i = choose|i: int|
                            0 <= i < r.len() && #[trigger] r[i].repo == repo && r[i].branch_name == b;
                        assert(prs[i].repo == repo);
                    }
                    if exists|i: int| 0 <= i < prs.len() && #[trigger] prs[i].repo == repo && prs[i].branch_name == b {
                        let i = choose|i: int|
                            0 <= i < prs.len() && #[trigger] prs[i].repo == repo && prs[i].branch_name == b;
                        assert(r[i].repo == repo && r[i].branch_name == b);
                    }
                }
            }
        }
    }
}

/// The pull request found from position `i` on is the first one there made
/// from a branch of the name; none is found when there is no such pull request.
pub proof fn lemma_first_pr_from(prs: Seq<PRView>, branch_name: Seq<char>, i: int)
    requires
        0 <= i,
    ensures
        first_pr_from(prs, branch_name, i) matches Some(p) ==> exists|k: int|
            i <= k < prs.len() && prs[k] == p && p.branch_name == branch_name && forall|j: int|
                i <= j < k ==> #[trigger] prs[j].branch_name != branch_name,
        first_pr_from(prs, branch_name, i) is None ==> forall|k: int|
            i <= k < prs.len() ==> #[trigger] prs[k].branch_name != branch_name,
    decreases prs.len() - i,
{
    if i < prs.len() && prs[i].branch_name != branch_name {
        lemma_first_pr_from(prs, branch_name, i + 1);
        if first_pr_from(prs, branch_name, i + 1) is Some {
            let k = choose|k: int|
                i + 1 <= k < prs.len() && prs[k] == first_pr_from(prs, branch_name, i + 1)->0
                    && first_pr_from(prs, branch_name, i + 1)->0.branch_name == branch_name && forall|j: int|
                    i + 1 <= j < k ==> #[trigger] prs[j].branch_name != branch_name;
            assert forall|j: int| i <= j < k implies #[trigger] prs[j].branch_name != branch_name by {
                if j > i {
                    assert(i + 1 <= j < k);
                }
            }
        }
    }
}

/// What the state of a branch means: no pull request was made from a branch
/// of its name, or the first one made is open, or it is merged or closed and
/// the branch still points to its commit (dead), or to another commit.
pub proof fn lemma_branch_state_meaning(branch: ForkBranchInfoView, prs: Seq<PRView>)
    ensures
        ({
            let w = branch_with_state(branch, prs);
            &&& w.branch == branch
            &&& (w.state == ForkBranchState::NoPR <==> forall|k: int|
                0 <= k < prs.len() ==> #[trigger] prs[k].branch_name != branch.name)
            &&& w.pr matches Some(p) ==> prs.contains(p) && p.branch_name == branch.name
            &&& w.state == ForkBranchState::HasOpenPR ==> (w.pr matches Some(p) && p.state
                == PullRequestState::OPEN)
            &&& w.state == ForkBranchState::Dead ==> (w.pr matches Some(p) && p.state
                != PullRequestState::OPEN && p.commit == branch.commit)
            &&& w.state == ForkBranchState::Different ==> (w.pr matches Some(p) && p.state
                != PullRequestState::OPEN && p.commit != branch.commit)
        }),
{
    lemma_first_pr_from(prs, branch.name, 0);
    let w = branch_with_state(branch, prs);
    if w.pr is Some {
        let p = w.pr->0;
        let k = choose|k: int|
            0 <= k < prs.len() && prs[k] == p && p.branch_name == branch.name && forall|j: int|
                0 <= j < k ==> #[trigger] prs[j].branch_name != branch.name;
        assert(prs[k] == p);
    }
}

/// The records of the dead forks are about the forks given, each name once:
/// a name has a record exactly when some fork bears it, and the record is
/// about the last fork that bears it.
pub proof fn lemma_dead_forks_names(records: Seq<ForkView>, forks: Seq<ForkView>, name: Seq<char>)
    requires
        keys_distinct(fork_pairs(records)),
        seq_to_map(fork_pairs(records)) == seq_to_map(fork_pairs(forks)),
    ensures
        (exists|j: int| 0 <= j < records.len() && #[trigger] records[j].name == name) <==> (exists|i: int|
            0 <= i < forks.len() && #[trigger] forks[i].name == name),
        forall|j: int, k: int|
            0 <= j < records.len() && 0 <= k < records.len() && #[trigger] records[j].name == name
                && #[trigger] records[k].name == name ==> j == k,
        forall|i: int, j: int|
            0 <= i < forks.len() && 0 <= j < records.len() && #[trigger] forks[i].name == name
                && #[trigger] records[j].name == name && (forall|l: int|
                i < l < forks.len() ==> forks[l].name != name) ==> records[j] == forks[i],
{
    lemma_forks_map_names(records, name);
    lemma_forks_map_names(forks, name);
    assert forall|j: int, k: int|
        0 <= j < records.len() && 0 <= k < records.len() && #[trigger] records[j].name == name
            && #[trigger] records[k].name == name implies j == k by {
        assert(fork_pairs(records)[j].0 == fork_pairs(records)[k].0);
    }
    assert forall|i: int, j: int|
        0 <= i < forks.len() && 0 <= j < records.len() && #[trigger] forks[i].name == name
            && #[trigger] records[j].name == name && (forall|l: int|
            i < l < forks.len() ==> forks[l].name != name) implies records[j] == forks[i] by {
        assert forall|l: int| i < l < forks.len() implies #[trigger] forks[l].name != forks[i].name by {}
        lemma_forks_map_last_wins(forks, i);
        lemma_seq_to_map_index(fork_pairs(records), j);
        assert(fork_pairs(records)[j] == (records[j].name, records[j]));
    }
}

/// What sets a fork apart: a fork whose repository some pull request names is
/// marked `NoPRs`, whatever its branches; any other fork is marked
/// `OnlyDefaultBranch` exactly when it has one branch and that branch is its
/// default branch, and is not marked otherwise. So a fork with two or more
/// branches is never marked `OnlyDefaultBranch`.
pub proof fn lemma_special_state_meaning(fork: ForkView, prs: Seq<PRView>)
    ensures
        (exists|i: int| 0 <= i < prs.len() && #[trigger] prs[i].repo == fork.name) ==> deadness(
            fork,
            prs,
        ).special_state == Some(ForkSpecialState::NoPRs),
        !(exists|i: int| 0 <= i < prs.len() && #[trigger] prs[i].repo == fork.name) ==> {
            &&& (deadness(fork, prs).special_state == Some(ForkSpecialState::OnlyDefaultBranch) <==> (
            fork.branches.len() == 1 && fork.branches[0].name == fork.default_branch_name))
            &&& (deadness(fork, prs).special_state is None <==> !(fork.branches.len() == 1
                && fork.branches[0].name == fork.default_branch_name))
        },
        fork.branches.len() >= 2 ==> deadness(fork, prs).special_state != Some(
            ForkSpecialState::OnlyDefaultBranch,
        ),
{
    lemma_branches_of(prs, fork.name);
}

/// The record of a fork is about that fork and has one entry per branch, in
/// order: the branch itself, the first pull request made from a branch of its
/// name (whatever its repository), and a state that says whether there is
/// none, whether it is open, and else whether the branch still points to the
/// pull request's commit.
pub proof fn lemma_deadness_branches(fork: ForkView, prs: Seq<PRView>, j: int)
    requires
        0 <= j < fork.branches.len(),
    ensures
        deadness(fork, prs).fork == fork,
        deadness(fork, prs).branches.len() == fork.branches.len(),
        ({
            let b = fork.branches[j];
            let w = deadness(fork, prs).branches[j];
            &&& w.branch == b
            &&& w.pr matches Some(p) ==> exists|k: int|
                0 <= k < prs.len() && prs[k] == p && p.branch_name == b.name && forall|l: int|
                    0 <= l < k ==> #[trigger] prs[l].branch_name != b.name
            &&& w.pr is None <==> forall|k: int| 0 <= k < prs.len() ==> #[trigger] prs[k].branch_name != b.name
            &&& (w.state == ForkBranchState::NoPR <==> w.pr is None)
            &&& (w.state == ForkBranchState::HasOpenPR <==> (w.pr matches Some(p) && p.state
                == PullRequestState::OPEN))
            &&& (w.state == ForkBranchState::Dead <==> (w.pr matches Some(p) && p.state
                != PullRequestState::OPEN && p.commit == b.commit))
            &&& (w.state == ForkBranchState::Different <==> (w.pr matches Some(p) && p.state
                != PullRequestState::OPEN && p.commit != b.commit))
        }),
{
    let b = fork.branches[j];
    lemma_first_pr_from(prs, b.name, 0);
    if first_pr(prs, b.name) is None {
        assert forall|k: int| 0 <= k < prs.len() implies #[trigger] prs[k].branch_name != b.name by {}
    } else {
        let p = first_pr(prs, b.name)->0;
        let k = choose|k: int|
            0 <= k < prs.len() && prs[k] == p && p.branch_name == b.name && forall|l: int|
                0 <= l < k ==> #[trigger] prs[l].branch_name != b.name;
        assert(prs[k].branch_name == b.name);
    }
}

} // verus!
