//! The processes that use the processor most.
//!
//! The table shows processes in descending order of their processor share;
//! of two with the same share, the one that was listed first comes first.
//! This module picks the head of that order without sorting the whole list.

use vstd::prelude::*;
use vstd::set_lib::{lemma_int_range, lemma_len_subset, set_int_range};
use crate::models::{ProcessInfo, ProcessInfoView, process_views};

verus! {

/// Whether the process at `i` stands before the process at `j` in the table:
/// it has the larger share, or the same share and was listed earlier.
pub open spec fn outranks(shares: Seq<u32>, i: int, j: int) -> bool {
    shares[i] > shares[j] || (shares[i] == shares[j] && i < j)
}

/// Whether the process at `i` stands after the one picked last.
pub open spec fn follows(shares: Seq<u32>, last: Option<int>, i: int) -> bool {
    match last {
        Some(l) => outranks(shares, l, i),
        None => true,
    }
}

/// Among the first `upto` processes, the one that stands first of those
/// after `last`; `None` where none of them stands after `last`.
pub open spec fn next_best(shares: Seq<u32>, last: Option<int>, upto: nat) -> Option<int>
    decreases upto,
{
    if upto == 0 {
        None
    } else {
        let i = upto - 1;
        let earlier = next_best(shares, last, i as nat);
        match earlier {
            Some(e) => if follows(shares, last, i) && outranks(shares, i, e) {
                Some(i)
            } else {
                earlier
            },
            None => if follows(shares, last, i) {
                Some(i)
            } else {
                None
            },
        }
    }
}

/// The positions of the first `n` processes of the table, in the order of
/// the table; all positions, in that order, where there are fewer than `n`
/// processes.
pub open spec fn top_indices(shares: Seq<u32>, n: nat) -> Seq<int>
    decreases n,
{
    if n == 0 {
        Seq::empty()
    } else {
        let before = top_indices(shares, (n - 1) as nat);
        let last = if before.len() == 0 {
            None
        } else {
            Some(before.last())
        };
        match next_best(shares, last, shares.len()) {
            Some(i) => before.push(i),
            None => before,
        }
    }
}

/// The processor shares of `processes`.
pub open spec fn shares_of(processes: Seq<ProcessInfoView>) -> Seq<u32> {
    processes.map_values(|p: ProcessInfoView| p.cpu_tenths)
}

/// The first `n` processes of the table made of `processes`.
pub open spec fn top_by_cpu(processes: Seq<ProcessInfoView>, n: nat) -> Seq<ProcessInfoView> {
    top_indices(shares_of(processes), n).map_values(|i: int| processes[i])
}

/// Of two different processes one stands before the other, never both, and
/// standing before is transitive.
pub proof fn lemma_outranks_is_an_order(shares: Seq<u32>, i: int, j: int, k: int)
    ensures
        !outranks(shares, i, i),
        i != j ==> (outranks(shares, i, j) <==> !outranks(shares, j, i)),
        outranks(shares, i, j) && outranks(shares, j, k) ==> outranks(shares, i, k),
{
}

/// What `next_best` finds is one of the first `upto` processes, stands after
/// `last` and before every other of them that does; and it finds one if
/// there is one.
pub proof fn lemma_next_best(shares: Seq<u32>, last: Option<int>, upto: nat)
    ensures
        match next_best(shares, last, upto) {
            Some(b) => {
                &&& 0 <= b < upto
                &&& follows(shares, last, b)
                &&& forall|j: int|
                    0 <= j < upto && j != b && follows(shares, last, j) ==> outranks(shares, b, j)
            },
            None => forall|j: int| 0 <= j < upto ==> !follows(shares, last, j),
        },
    decreases upto,
{
    if upto > 0 {
        lemma_next_best(shares, last, (upto - 1) as nat);
    }
}

/// The positions picked are positions of `shares`, each stands before the
/// next, and whatever is not picked stands after the last that is.
pub proof fn lemma_top_indices(shares: Seq<u32>, n: nat)
    ensures
        top_indices(shares, n).len() <= n,
        forall|k: int|
            0 <= k < top_indices(shares, n).len() ==> 0 <= #[trigger] top_indices(shares, n)[k]
                < shares.len(),
        forall|k: int|
            0 < k < top_indices(shares, n).len() ==> outranks(
                shares,
                top_indices(shares, n)[k - 1],
                #[trigger] top_indices(shares, n)[k],
            ),
        forall|j: int|
            0 <= j < shares.len() && !top_indices(shares, n).contains(j) && top_indices(
                shares,
                n,
            ).len() > 0 ==> outranks(shares, top_indices(shares, n).last(), j),
        top_indices(shares, n).len() < n ==> forall|j: int|
            0 <= j < shares.len() ==> top_indices(shares, n).contains(j),
    decreases n,
{
    if n > 0 {
        let before = top_indices(shares, (n - 1) as nat);
        let picks = top_indices(shares, n);
        let last = if before.len() == 0 {
            None
        } else {
            Some(before.last())
        };
        lemma_top_indices(shares, (n - 1) as nat);
        lemma_next_best(shares, last, shares.len());
        match next_best(shares, last, shares.len()) {
            Some(b) => {
                assert(picks == before.push(b));
                assert forall|j: int|
                    0 <= j < shares.len() && !picks.contains(j) implies outranks(
                    shares,
                    picks.last(),
                    j,
                ) by {
                    if before.len() > 0 {
                        if before.contains(j) {
                            let k = choose|k: int| 0 <= k < before.len() && before[k] == j;
                            assert(picks[k] == j);
                        }
                    }
                    assert(j != b) by {
                        assert(picks[picks.len() - 1] == b);
                    }
                }
                assert(picks.len() < n ==> forall|j: int|
                    0 <= j < shares.len() ==> picks.contains(j)) by {
                    if picks.len() < n {
                        assert forall|j: int| 0 <= j < shares.len() implies picks.contains(j) by {
                            assert(before.contains(j));
                            let k = choose|k: int| 0 <= k < before.len() && before[k] == j;
                            assert(picks[k] == j);
                        }
                    }
                }
            },
            None => {
                assert(picks == before);
                assert forall|j: int| 0 <= j < shares.len() implies picks.contains(j) by {
                    if before.len() > 0 && !before.contains(j) {
                        assert(follows(shares, last, j));
                    }
                }
            },
        }
    }
}

/// Every position picked stands before every position picked after it.
pub proof fn lemma_top_descending(shares: Seq<u32>, n: nat, k: int, l: int)
    requires
        0 <= k < l < top_indices(shares, n).len(),
    ensures
        outranks(shares, top_indices(shares, n)[k], top_indices(shares, n)[l]),
    decreases l - k,
{
    let picks = top_indices(shares, n);
    lemma_top_indices(shares, n);
    assert(outranks(shares, picks[l - 1], picks[l]));
    if k < l - 1 {
        lemma_top_descending(shares, n, k, l - 1);
    }
}

/// As many positions are picked as were asked for, or all there are.
pub proof fn lemma_top_len(shares: Seq<u32>, n: nat)
    ensures
        top_indices(shares, n).len() == if n <= shares.len() {
            n
        } else {
            shares.len()
        },
{
    let picks = top_indices(shares, n);
    let all = set_int_range(0, shares.len() as int);
    lemma_top_indices(shares, n);
    lemma_int_range(0, shares.len() as int);
    assert forall|k: int, l: int| 0 <= k < picks.len() && 0 <= l < picks.len() && k != l implies picks[k]
        != picks[l] by {
        if k < l {
            lemma_top_descending(shares, n, k, l);
        } else {
            lemma_top_descending(shares, n, l, k);
        }
    }
    picks.unique_seq_to_set();
    assert(picks.to_set().subset_of(all)) by {
        assert forall|j: int| picks.to_set().contains(j) implies all.contains(j) by {
            let k = choose|k: int| 0 <= k < picks.len() && picks[k] == j;
            assert(0 <= picks[k] < shares.len());
        }
    }
    lemma_len_subset(picks.to_set(), all);
    if picks.len() < n {
        assert(all.subset_of(picks.to_set())) by {
            assert forall|j: int| all.contains(j) implies picks.to_set().contains(j) by {
                assert(picks.contains(j));
            }
        }
        lemma_len_subset(all, picks.to_set());
    }
}

/// The table's head: it holds as many processes as were asked for, or all
/// there are; each of them is one of `processes`; they stand in descending
/// order of processor share, those of one share in the order in which they
/// were listed; and a process left out has no larger share than any of them,
/// and where it has the same share it was listed later.
pub proof fn lemma_top_by_cpu(processes: Seq<ProcessInfoView>, n: nat)
    ensures
        ({
            let picks = top_indices(shares_of(processes), n);
            let top = top_by_cpu(processes, n);
            &&& top.len() == if n <= processes.len() {
                n
            } else {
                processes.len()
            }
            &&& forall|k: int|
                0 <= k < top.len() ==> 0 <= picks[k] < processes.len() && #[trigger] top[k]
                    == processes[picks[k]]
            &&& forall|k: int, l: int|
                #![trigger top[k], top[l]]
                0 <= k < l < top.len() ==> top[k].cpu_tenths >= top[l].cpu_tenths && (
                top[k].cpu_tenths == top[l].cpu_tenths ==> picks[k] < picks[l])
            &&& forall|j: int, k: int|
                #![trigger processes[j], top[k]]
                0 <= j < processes.len() && !picks.contains(j) && 0 <= k < top.len()
                    ==> processes[j].cpu_tenths <= top[k].cpu_tenths && (processes[j].cpu_tenths
                    == top[k].cpu_tenths ==> picks[k] < j)
        }),
{
    let shares = shares_of(processes);
    let picks = top_indices(shares, n);
    let top = top_by_cpu(processes, n);
    lemma_top_len(shares, n);
    lemma_top_indices(shares, n);
    assert forall|k: int, l: int|
        #![trigger top[k], top[l]]
        0 <= k < l < top.len() implies top[k].cpu_tenths >= top[l].cpu_tenths && (
    top[k].cpu_tenths == top[l].cpu_tenths ==> picks[k] < picks[l]) by {
        lemma_top_descending(shares, n, k, l);
        assert(0 <= picks[k] < shares.len() && 0 <= picks[l] < shares.len());
    }
    assert forall|j: int, k: int|
        #![trigger processes[j], top[k]]
        0 <= j < processes.len() && !picks.contains(j) && 0 <= k < top.len()
            implies processes[j].cpu_tenths <= top[k].cpu_tenths && (processes[j].cpu_tenths
        == top[k].cpu_tenths ==> picks[k] < j) by {
        assert(outranks(shares, picks.last(), j));
        assert(0 <= picks[k] < shares.len());
        if k < picks.len() - 1 {
            lemma_top_descending(shares, n, k, picks.len() - 1);
        }
    }
}

/// Once a round has found no further process, none is found in any later
/// round.
pub proof fn lemma_top_exhausted(shares: Seq<u32>, n: nat, m: nat)
    requires
        n <= m,
        top_indices(shares, n + 1) == top_indices(shares, n),
    ensures
        top_indices(shares, m) == top_indices(shares, n),
    decreases m,
{
    if m > n + 1 {
        lemma_top_exhausted(shares, n, (m - 1) as nat);
    }
}

/// The position of the process that stands first of those after `last`.
fn best_after(processes: &[ProcessInfo], last: Option<usize>) -> (best: Option<usize>)
    requires
        last matches Some(l) ==> l < processes.len(),
    ensures
        match best {
            Some(b) => b < processes.len() && next_best(
                shares_of(process_views(processes@)),
                match last {
                    Some(l) => Some(l as int),
                    None => None,
                },
                processes.len() as nat,
            ) == Some(b as int),
            None => next_best(
                shares_of(process_views(processes@)),
                match last {
                    Some(l) => Some(l as int),
                    None => None,
                },
                processes.len() as nat,
            ) is None,
        },
{
    let ghost shares = shares_of(process_views(processes@));
    let ghost bound: Option<int> = match last {
        Some(l) => Some(l as int),
        None => None,
    };
    let mut best: Option<usize> = None;
    let mut i: usize = 0;
    while i < processes.len()
        invariant
            i <= processes.len(),
            shares == shares_of(process_views(processes@)),
            last matches Some(l) ==> l < processes.len(),
            bound == match last {
                Some(l) => Some(l as int),
                None => None,
            },
            match best {
                Some(b) => b < i && next_best(shares, bound, i as nat) == Some(b as int),
                None => next_best(shares, bound, i as nat) is None,
            },
        decreases processes.len() - i,
    {
        let share: u32 = processes[i].cpu_tenths;
        let after_last: bool = match last {
            Some(l) => {
                let bound_share: u32 = processes[l].cpu_tenths;
                bound_share > share || (bound_share == share && l < i)
            },
            None => true,
        };
        assert(after_last == follows(shares, bound, i as int));
        if after_last {
            match best {
                Some(b) => {
                    let best_share: u32 = processes[b].cpu_tenths;
                    if share > best_share || (share == best_share && i < b) {
                        best = Some(i);
                    }
                },
                None => {
                    best = Some(i);
                },
            }
        }
        i += 1;
    }
    best
}

/// The first `n` processes of the table made of `processes`: those with the
/// largest processor share, largest first, and of those with one share the
/// ones listed first, in the order of the list. All of `processes`, in the
/// order of the table, where there are fewer than `n`.
pub fn select_top(processes: &[ProcessInfo], n: usize) -> (top: Vec<ProcessInfo>)
    ensures
        process_views(top@) == top_by_cpu(process_views(processes@), n as nat),
{
    let ghost views = process_views(processes@);
    let ghost shares = shares_of(views);
    let mut top: Vec<ProcessInfo> = Vec::new();
    let mut last: Option<usize> = None;
    let mut round: usize = 0;
    assert(process_views(top@) == top_indices(shares, 0).map_values(|i: int| views[i]));
    while round < n
        invariant
            round <= n,
            views == process_views(processes@),
            shares == shares_of(views),
            top@.len() == top_indices(shares, round as nat).len(),
            process_views(top@) == top_indices(shares, round as nat).map_values(
                |i: int| views[i],
            ),
            match last {
                Some(l) => l < processes.len() && top@.len() > 0 && top_indices(
                    shares,
                    round as nat,
                ).last() == l,
                None => top@.len() == 0,
            },
        decreases n - round,
    {
        let ghost before = top_indices(shares, round as nat);
        let ghost bound: Option<int> = match last {
            Some(l) => Some(l as int),
            None => None,
        };
        match best_after(processes, last) {
            Some(b) => {
                let ghost held = top@;
                top.push(processes[b].clone());
                last = Some(b);
                proof {
                    let picks = top_indices(shares, (round + 1) as nat);
                    assert(picks == before.push(b as int));
                    assert(process_views(top@) =~= picks.map_values(|i: int| views[i])) by {
                        assert(process_views(held) == before.map_values(|i: int| views[i]));
                        assert forall|k: int| 0 <= k < picks.len() implies process_views(top@)[k]
                            == views[picks[k]] by {
                            if k < before.len() {
                                assert(process_views(top@)[k] == process_views(held)[k]);
                                assert(before.map_values(|i: int| views[i])[k] == views[before[k]]);
                            }
                        }
                    }
                }
            },
            None => {
                proof {
                    assert(top_indices(shares, (round + 1) as nat) == before);
                    lemma_top_exhausted(shares, round as nat, n as nat);
                }
                return top;
            },
        }
        round += 1;
    }
    top
}

} // verus!
