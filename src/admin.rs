//! The admin activity feed: the most recent events among several sources,
//! newest first.
use vstd::prelude::*;

verus! {

broadcast use {vstd::seq_lib::to_multiset_build, vstd::seq_lib::to_multiset_remove, vstd::seq_lib::to_multiset_contains};

/// One line of the admin activity feed, as shown to the admin.
#[derive(Debug)]
pub struct Activity {
    pub activity_type: String,
    pub name: String,
    pub time: String,
    pub action: String,
}

/// An activity with the instant it happened, in milliseconds since the Unix
/// epoch; the feed is ordered by this instant.
#[derive(Debug)]
pub struct TimedActivity {
    pub at: i64,
    pub activity: Activity,
}

/// The smaller of two lengths.
pub open spec fn min_len(a: nat, b: nat) -> nat {
    if a <= b { a } else { b }
}

/// Keeps the `limit` most recent entries, newest first.
///
/// The result holds `min(entries.len(), limit)` entries, each taken from the
/// input (as many times as it occurs there at most), in non-increasing order
/// of time; every entry left out is no newer than any entry kept.
pub fn most_recent(entries: Vec<TimedActivity>, limit: usize) -> (r: Vec<TimedActivity>)
    ensures
        r@.len() == min_len(entries@.len(), limit as nat),
        forall|a: int, b: int| 0 <= a < b < r@.len() ==> #[trigger] r@[a].at >= #[trigger] r@[b].at,
        r@.to_multiset().subset_of(entries@.to_multiset()),
        forall|e: TimedActivity, a: int|
            #![trigger r@[a], entries@.to_multiset().count(e)]
            0 <= a < r@.len() && entries@.to_multiset().count(e) > r@.to_multiset().count(e)
                ==> r@[a].at >= e.at,
{
    let ghost input = entries@;
    let mut rest = entries;
    let mut r: Vec<TimedActivity> = Vec::new();
    while r.len() < limit && rest.len() > 0
        invariant
            r@.to_multiset().add(rest@.to_multiset()) == input.to_multiset(),
            r@.len() + rest@.len() == input.len(),
            r@.len() <= limit,
            forall|a: int, b: int| 0 <= a < b < r@.len() ==> #[trigger] r@[a].at >= #[trigger] r@[b].at,
            forall|a: int, j: int| 0 <= a < r@.len() && 0 <= j < rest@.len() ==> #[trigger] r@[a].at >= #[trigger] rest@[j].at,
        decreases rest@.len(),
    {
        let mut best: usize = 0;
        let mut j: usize = 1;
        while j < rest.len()
            invariant
                0 < rest@.len(),
                best < rest@.len(),
                1 <= j <= rest@.len(),
                forall|k: int| 0 <= k < j ==> #[trigger] rest@[k].at <= rest@[best as int].at,
            decreases rest@.len() - j,
        {
            if rest[j].at > rest[best].at {
                best = j;
            }
            j = j + 1;
        }
        let ghost old_rest = rest@;
        let ghost old_r = r@;
        let e = rest.remove(best);
        proof {
            assert(old_rest.to_multiset().contains(e));
            assert(rest@.to_multiset() == old_rest.to_multiset().remove(e));
        }
        r.push(e);
        proof {
            assert(r@.to_multiset() == old_r.to_multiset().insert(e));
            assert(r@.to_multiset().add(rest@.to_multiset()) =~= old_r.to_multiset().add(old_rest.to_multiset()));
            assert forall|a: int, k: int| 0 <= a < r@.len() && 0 <= k < rest@.len() implies #[trigger] r@[a].at >= #[trigger] rest@[k].at by {
                let ok = if k < best { k } else { k + 1 };
                assert(rest@[k] == old_rest[ok]);
                if a < old_r.len() {
                    assert(r@[a] == old_r[a]);
                }
            }
            assert forall|a: int, b: int| 0 <= a < b < r@.len() implies #[trigger] r@[a].at >= #[trigger] r@[b].at by {
                if b == old_r.len() {
                    assert(old_r[a].at >= old_rest[best as int].at);
                } else {
                    assert(r@[a] == old_r[a] && r@[b] == old_r[b]);
                }
            }
        }
    }
    proof {
        assert forall|e: TimedActivity, a: int|
            #![trigger r@[a], input.to_multiset().count(e)]
            0 <= a < r@.len() && input.to_multiset().count(e) > r@.to_multiset().count(e)
                implies r@[a].at >= e.at by {
            assert(rest@.to_multiset().count(e) > 0);
            assert(rest@.to_multiset().contains(e));
            let k = choose|k: int| 0 <= k < rest@.len() && rest@[k] == e;
            assert(r@[a].at >= rest@[k].at);
        }
    }
    r
}

} // verus!
