//! The escape-time count: how many steps an orbit takes to escape, up to a
//! cap.
//!
//! The arithmetic of the orbit is the caller's: `step` takes a point of the
//! orbit to the next one, `escaped` tests whether a point has left the
//! bounded region. This module owns the counting.

use vstd::prelude::*;

verus! {

/// `orbit` starts at `start`, and each of its points is a step from the one
/// before.
pub open spec fn orbit_of<S, Step: Fn(S) -> S>(orbit: Seq<S>, start: S, step: Step) -> bool {
    &&& orbit.len() > 0
    &&& orbit[0] == start
    &&& forall|k: int|
        0 <= k < orbit.len() - 1 ==> call_ensures(step, (#[trigger] orbit[k],), orbit[k + 1])
}

/// `count` is the escape time of `orbit` under the cap `max_iter`. The start
/// itself is not tested. The point after `k + 1` steps is tested in round
/// `k`: where `count` is below the cap, that point escaped in round `count`
/// and none did in an earlier round; where `count` is the cap, none escaped
/// in any round.
pub open spec fn escapes_at<S, Step: Fn(S) -> S, Test: Fn(&S) -> bool>(
    orbit: Seq<S>,
    start: S,
    step: Step,
    escaped: Test,
    max_iter: u32,
    count: u32,
) -> bool {
    &&& count <= max_iter
    &&& orbit_of(orbit, start, step)
    &&& orbit.len() == if count < max_iter {
        count + 2
    } else {
        max_iter + 1
    }
    &&& forall|k: int| 1 <= k <= count ==> call_ensures(escaped, (&#[trigger] orbit[k],), false)
    &&& count < max_iter ==> call_ensures(escaped, (&orbit[count + 1],), true)
}

/// Counts the rounds until the orbit from `start` escapes: each round takes
/// one step and tests the point it reaches. The count is the round of the
/// first escape, or `max_iter` where no round up to the cap saw one.
pub fn escape_time<S, Step: Fn(S) -> S, Test: Fn(&S) -> bool>(
    start: S,
    max_iter: u32,
    step: &Step,
    escaped: &Test,
) -> (count: u32)
    requires
        forall|z: S| call_requires(*step, (z,)),
        forall|z: S| call_requires(*escaped, (&z,)),
    ensures
        exists|orbit: Seq<S>| escapes_at(orbit, start, *step, *escaped, max_iter, count),
{
    let ghost mut orbit: Seq<S> = seq![start];
    let mut z = start;
    let mut i: u32 = 0;
    while i < max_iter
        invariant
            i <= max_iter,
            forall|z: S| call_requires(*step, (z,)),
            forall|z: S| call_requires(*escaped, (&z,)),
            orbit_of(orbit, start, *step),
            orbit.len() == i + 1,
            orbit[i as int] == z,
            forall|k: int| 1 <= k <= i ==> call_ensures(*escaped, (&#[trigger] orbit[k],), false),
        decreases max_iter - i,
    {
        let ghost before = orbit;
        z = step(z);
        proof {
            orbit = before.push(z);
            assert forall|k: int| 0 <= k < orbit.len() - 1 implies call_ensures(
                *step,
                (#[trigger] orbit[k],),
                orbit[k + 1],
            ) by {
                if k < before.len() - 1 {
                    assert(orbit[k] == before[k] && orbit[k + 1] == before[k + 1]);
                }
            }
            assert forall|k: int| 1 <= k <= i implies call_ensures(
                *escaped,
                (&#[trigger] orbit[k],),
                false,
            ) by {
                assert(orbit[k] == before[k]);
            }
        }
        if escaped(&z) {
            assert(escapes_at(orbit, start, *step, *escaped, max_iter, i));
            return i;
        }
        i = i + 1;
    }
    assert(escapes_at(orbit, start, *step, *escaped, max_iter, max_iter));
    max_iter
}

/// An orbit whose start stays where it is under a step, and has not escaped,
/// never escapes: its escape time is the cap, whatever the cap.
pub proof fn lemma_fixed_point_never_escapes<S, Step: Fn(S) -> S, Test: Fn(&S) -> bool>(
    orbit: Seq<S>,
    start: S,
    step: Step,
    escaped: Test,
    max_iter: u32,
    count: u32,
)
    requires
        escapes_at(orbit, start, step, escaped, max_iter, count),
        forall|next: S| call_ensures(step, (start,), next) ==> next == start,
        forall|out: bool| call_ensures(escaped, (&start,), out) ==> !out,
    ensures
        count == max_iter,
{
    lemma_orbit_stays(orbit, start, step, orbit.len() - 1);
    if count < max_iter {
        assert(orbit[count + 1] == start);
    }
}

/// Under a step that keeps the start where it is, every point of the orbit
/// is the start.
proof fn lemma_orbit_stays<S, Step: Fn(S) -> S>(orbit: Seq<S>, start: S, step: Step, upto: int)
    requires
        orbit_of(orbit, start, step),
        0 <= upto < orbit.len(),
        forall|next: S| call_ensures(step, (start,), next) ==> next == start,
    ensures
        forall|k: int| 0 <= k <= upto ==> orbit[k] == start,
    decreases upto,
{
    if upto > 0 {
        lemma_orbit_stays(orbit, start, step, upto - 1);
        assert(call_ensures(step, (orbit[upto - 1],), orbit[upto - 1 + 1]));
    }
}

/// Two counts of one orbit agree where the step and the test each give one
/// answer: the escape time is a function of the start and the cap.
pub proof fn lemma_escape_time_unique<S, Step: Fn(S) -> S, Test: Fn(&S) -> bool>(
    first: Seq<S>,
    second: Seq<S>,
    start: S,
    step: Step,
    escaped: Test,
    max_iter: u32,
    a: u32,
    b: u32,
)
    requires
        escapes_at(first, start, step, escaped, max_iter, a),
        escapes_at(second, start, step, escaped, max_iter, b),
        forall|z: S, p: S, q: S|
            #[trigger] call_ensures(step, (z,), p) && #[trigger] call_ensures(step, (z,), q) ==> p
                == q,
        forall|z: S| !(call_ensures(escaped, (&z,), true) && call_ensures(escaped, (&z,), false)),
    ensures
        a == b,
{
    let shared = if first.len() <= second.len() {
        first.len()
    } else {
        second.len()
    };
    lemma_orbits_agree(first, second, start, step, shared - 1);
    if a < b {
        assert(first[a + 1] == second[a + 1]);
    } else if b < a {
        assert(first[b + 1] == second[b + 1]);
    }
}

/// Two orbits from one start under a step that gives one answer agree as far
/// as both reach.
proof fn lemma_orbits_agree<S, Step: Fn(S) -> S>(
    first: Seq<S>,
    second: Seq<S>,
    start: S,
    step: Step,
    upto: int,
)
    requires
        orbit_of(first, start, step),
        orbit_of(second, start, step),
        0 <= upto < first.len(),
        upto < second.len(),
        forall|z: S, p: S, q: S|
            #[trigger] call_ensures(step, (z,), p) && #[trigger] call_ensures(step, (z,), q) ==> p
                == q,
    ensures
        forall|k: int| 0 <= k <= upto ==> first[k] == second[k],
    decreases upto,
{
    if upto > 0 {
        lemma_orbits_agree(first, second, start, step, upto - 1);
        assert(call_ensures(step, (first[upto - 1],), first[upto - 1 + 1]));
        assert(call_ensures(step, (second[upto - 1],), second[upto - 1 + 1]));
    }
}

} // verus!
