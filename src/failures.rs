//! Reading the failure logs of all targets together: the most recent
//! failures, in the order they are shown.
use vstd::prelude::*;

use crate::monitor::TargetStats;

verus! {

/// Entry `j` of target `i`'s failure log exists.
pub open spec fn is_entry(targets: Seq<TargetStats>, e: (usize, usize)) -> bool {
    e.0 < targets.len() && e.1 < targets[e.0 as int].failure_log@.len()
}

pub open spec fn entry_time(targets: Seq<TargetStats>, e: (usize, usize)) -> i64 {
    targets[e.0 as int].failure_log@[e.1 as int].timestamp_ms
}

/// Display order of failures: newest first, and among failures of the same
/// millisecond, by target and then by position in its log.
pub open spec fn shown_before(targets: Seq<TargetStats>, a: (usize, usize), b: (usize, usize)) -> bool {
    let ta = entry_time(targets, a);
    let tb = entry_time(targets, b);
    ||| ta > tb
    ||| ta == tb && a.0 < b.0
    ||| ta == tb && a.0 == b.0 && a.1 < b.1
}

fn before(targets: &[TargetStats], a: (usize, usize), b: (usize, usize)) -> (r: bool)
    requires
        is_entry(targets@, a),
        is_entry(targets@, b),
    ensures
        r == shown_before(targets@, a, b),
{
    let ta = targets[a.0].failure_log[a.1].timestamp_ms;
    let tb = targets[b.0].failure_log[b.1].timestamp_ms;
    ta > tb || (ta == tb && a.0 < b.0) || (ta == tb && a.0 == b.0 && a.1 < b.1)
}

fn contains_pair(v: &Vec<(usize, usize)>, e: (usize, usize)) -> (r: bool)
    ensures
        r == v@.contains(e),
{
    let mut k: usize = 0;
    while k < v.len()
        invariant
            k <= v@.len(),
            forall|m: int| 0 <= m < k ==> v@[m] != e,
        decreases v@.len() - k,
    {
        if v[k].0 == e.0 && v[k].1 == e.1 {
            assert(v@[k as int] == e);
            return true;
        }
        k = k + 1;
    }
    false
}

/// The first unchosen failure in display order, if any is left.
fn next_shown(targets: &[TargetStats], chosen: &Vec<(usize, usize)>) -> (r: Option<(usize, usize)>)
    ensures
        match r {
            Some(b) => is_entry(targets@, b) && !chosen@.contains(b) && forall|e: (usize, usize)|
                is_entry(targets@, e) && !chosen@.contains(e) && e != b ==> shown_before(
                    targets@,
                    b,
                    e,
                ),
            None => forall|e: (usize, usize)| is_entry(targets@, e) ==> chosen@.contains(e),
        },
{
    let mut best: Option<(usize, usize)> = None;
    let mut i: usize = 0;
    while i < targets.len()
        invariant
            i <= targets@.len(),
            match best {
                Some(b) => is_entry(targets@, b) && b.0 < i && !chosen@.contains(b) && forall|
                    e: (usize, usize),
                | is_entry(targets@, e) && e.0 < i && !chosen@.contains(e) && e != b
                    ==> shown_before(targets@, b, e),
                None => forall|e: (usize, usize)|
                    is_entry(targets@, e) && e.0 < i ==> chosen@.contains(e),
            },
        decreases targets@.len() - i,
    {
        let mut j: usize = 0;
        while j < targets[i].failure_log.len()
            invariant
                i < targets@.len(),
                j <= targets@[i as int].failure_log@.len(),
                match best {
                    Some(b) => is_entry(targets@, b) && (b.0 < i || (b.0 == i && b.1 < j))
                        && !chosen@.contains(b) && forall|e: (usize, usize)|
                        is_entry(targets@, e) && (e.0 < i || (e.0 == i && e.1 < j))
                            && !chosen@.contains(e) && e != b ==> shown_before(targets@, b, e),
                    None => forall|e: (usize, usize)|
                        is_entry(targets@, e) && (e.0 < i || (e.0 == i && e.1 < j))
                            ==> chosen@.contains(e),
                },
            decreases targets@[i as int].failure_log@.len() - j,
        {
            let e = (i, j);
            if !contains_pair(chosen, e) {
                match best {
                    None => {
                        best = Some(e);
                    },
                    Some(b) => {
                        if before(targets, e, b) {
                            best = Some(e);
                        }
                    },
                }
            }
            j = j + 1;
        }
        i = i + 1;
    }
    best
}

/// The `limit` most recent failures over all targets, as (target, log
/// position) pairs in display order: newest first, failures of the same
/// millisecond by target and then by position in its log. Fewer are returned
/// only when there are fewer.
pub fn recent_failures(targets: &[TargetStats], limit: usize) -> (r: Vec<(usize, usize)>)
    ensures
        r@.len() <= limit,
        forall|k: int| 0 <= k < r@.len() ==> is_entry(targets@, #[trigger] r@[k]),
        forall|k: int, m: int|
            0 <= k < m < r@.len() ==> shown_before(targets@, #[trigger] r@[k], #[trigger] r@[m]),
        forall|k: int, e: (usize, usize)|
            0 <= k < r@.len() && is_entry(targets@, e) && !r@.contains(e) ==> #[trigger] shown_before(
                targets@,
                r@[k],
                e,
            ),
        r@.len() < limit ==> forall|e: (usize, usize)| is_entry(targets@, e) ==> r@.contains(e),
{
    let mut chosen: Vec<(usize, usize)> = Vec::new();
    while chosen.len() < limit
        invariant
            chosen@.len() <= limit,
            forall|k: int| 0 <= k < chosen@.len() ==> is_entry(targets@, #[trigger] chosen@[k]),
            forall|k: int, m: int|
                0 <= k < m < chosen@.len() ==> shown_before(
                    targets@,
                    #[trigger] chosen@[k],
                    #[trigger] chosen@[m],
                ),
            forall|k: int, e: (usize, usize)|
                0 <= k < chosen@.len() && is_entry(targets@, e) && !chosen@.contains(e)
                    ==> #[trigger] shown_before(targets@, chosen@[k], e),
        decreases limit - chosen@.len(),
    {
        match next_shown(targets, &chosen) {
            None => {
                return chosen;
            },
            Some(b) => {
                let ghost old_chosen = chosen@;
                chosen.push(b);
                assert forall|e: (usize, usize)|
                    is_entry(targets@, e) && !chosen@.contains(e) implies !old_chosen.contains(e)
                    && e != b by {
                    if old_chosen.contains(e) {
                        let m = choose|m: int| 0 <= m < old_chosen.len() && old_chosen[m] == e;
                        assert(chosen@[m] == e);
                    }
                    assert(chosen@[old_chosen.len() as int] == b);
                }
                assert forall|k: int| 0 <= k < old_chosen.len() implies shown_before(
                    targets@,
                    #[trigger] chosen@[k],
                    b,
                ) by {
                    assert(chosen@[k] == old_chosen[k]);
                }
            },
        }
    }
    chosen
}

} // verus!
