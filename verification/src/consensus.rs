//! The decision rules of the multi-node launcher: when a run of
//! validator nodes counts as successful. The launcher itself spawns
//! processes and parses their output; what it decides with the parsed
//! commitments is stated here.

use vstd::prelude::*;

verus! {

/// The quorum a run must reach: more than two thirds of the nodes.
pub fn consensus_threshold(num_nodes: usize) -> (r: usize)
    requires
        num_nodes <= usize::MAX / 2,
    ensures
        r == (num_nodes * 2) / 3 + 1,
{
    (num_nodes * 2) / 3 + 1
}

/// Did enough nodes finish with a commitment?
pub fn quorum_reached(succeeded: usize, num_nodes: usize) -> (r: bool)
    requires
        num_nodes <= usize::MAX / 2,
    ensures
        r == (succeeded >= (num_nodes * 2) / 3 + 1),
{
    succeeded >= consensus_threshold(num_nodes)
}

/// How many nodes reported a final commitment.
pub fn count_successes(commitments: &Vec<Option<u64>>) -> (r: usize)
    ensures
        r == count_some(commitments@, commitments@.len() as int),
{
    let n = commitments.len();
    let mut count: usize = 0;
    let mut i: usize = 0;
    while i < n
        invariant
            n == commitments@.len(),
            i <= n,
            count == count_some(commitments@, i as int),
            count <= i,
        decreases n - i,
    {
        match commitments[i] {
            Some(_) => {
                count += 1;
            },
            None => {},
        }
        i += 1;
    }
    count
}

pub open spec fn count_some(s: Seq<Option<u64>>, n: int) -> int
    decreases n,
{
    if n <= 0 {
        0
    } else {
        count_some(s, n - 1) + (if s[n - 1] is Some {
            1int
        } else {
            0int
        })
    }
}

/// Every node that reported a commitment reported the same one.
pub fn commitments_agree(commitments: &Vec<Option<u64>>) -> (r: bool)
    ensures
        r == (forall|i: int, j: int|
            0 <= i < commitments@.len() && 0 <= j < commitments@.len()
                && (#[trigger] commitments@[i]) is Some && (#[trigger] commitments@[j]) is Some
                ==> commitments@[i] == commitments@[j]),
{
    let n = commitments.len();
    let mut first: Option<u64> = None;
    let mut i: usize = 0;
    while i < n
        invariant
            n == commitments@.len(),
            i <= n,
            first is None ==> forall|j: int| 0 <= j < i ==> !((#[trigger] commitments@[j]) is Some),
            first is Some ==> exists|j: int|
                0 <= j < i && #[trigger] commitments@[j] == first,
            forall|p: int, q: int|
                0 <= p < i && 0 <= q < i && (#[trigger] commitments@[p]) is Some && (
                #[trigger] commitments@[q]) is Some ==> commitments@[p] == commitments@[q],
            first is Some ==> forall|p: int|
                0 <= p < i && (#[trigger] commitments@[p]) is Some ==> commitments@[p] == first,
        decreases n - i,
    {
        match commitments[i] {
            Some(c) => {
                match first {
                    Some(f) => {
                        if f != c {
                            proof {
                                let j = choose|j: int|
                                    0 <= j < i && #[trigger] commitments@[j] == first;
                                assert(commitments@[j] is Some);
                                assert(commitments@[i as int] is Some);
                            }
                            return false;
                        }
                    },
                    None => {
                        first = Some(c);
                        proof {
                            assert(commitments@[i as int] == first);
                        }
                    },
                }
            },
            None => {},
        }
        i += 1;
    }
    true
}

} // verus!
