pub mod collect_dead_forks;
pub mod collect_merged_branches;
pub mod general;
pub mod get_forks;
pub mod get_prs;
pub mod seq_map;

use vstd::prelude::*;

use crate::garbage_collector::collect_dead_forks::{
    collect_dead_forks, deadness, deadness_forks, fork_pairs, vec_forks_to_hashmap, ForkDeadnessInfo,
};
use crate::garbage_collector::collect_merged_branches::{
    collect_merged_branches, merged_branches, repo_branches_view, RepoAndBranch,
};
use crate::garbage_collector::get_forks::{forks_view, Fork};
use crate::garbage_collector::get_prs::{prs_view, PR};
use crate::garbage_collector::seq_map::{keys_distinct, seq_to_map};

verus! {

/// What can be deleted: the branches of merged or closed pull requests, and
/// the deadness of each fork.
pub struct Garbage {
    pub dead_branches: Vec<RepoAndBranch>,
    pub dead_forks: Vec<ForkDeadnessInfo>,
}

/// Finds, among the user's forks and pull requests, the branches that can be
/// deleted and what became of each fork.
pub fn find_garbage(forks: &Vec<Fork>, prs: &Vec<PR>) -> (r: Garbage)
    ensures
        repo_branches_view(r.dead_branches@) == merged_branches(
            seq_to_map(fork_pairs(forks_view(forks@))),
            prs_view(prs@),
        ),
        keys_distinct(fork_pairs(deadness_forks(r.dead_forks@))),
        seq_to_map(fork_pairs(deadness_forks(r.dead_forks@))) == seq_to_map(fork_pairs(forks_view(forks@))),
        forall|i: int|
            0 <= i < r.dead_forks@.len() ==> #[trigger] r.dead_forks@[i]@ == deadness(
                r.dead_forks@[i].fork@,
                prs_view(prs@),
            ),
{
    let fork_map = vec_forks_to_hashmap(forks);
    let dead_branches = collect_merged_branches(&fork_map, prs);
    let dead_forks = collect_dead_forks(forks, prs);
    Garbage { dead_branches, dead_forks }
}

} // verus!
