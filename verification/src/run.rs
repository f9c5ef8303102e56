//! The decision part of the simulation loop: drain actions, then advance.

use vstd::prelude::*;
use crate::action::{Action, apply_spec, action_in_range, do_action};
use crate::colony::{Colony, step_spec};

verus! {

/// Folding the transition table over a queue of actions in arrival order.
/// `None` as soon as a `Quit` is met; the actions after it are skipped.
pub open spec fn apply_all_spec(acts: Seq<Action>, live: Set<(int, int)>, paused: bool) -> Option<
    (Set<(int, int)>, bool),
>
    decreases acts.len(),
{
    if acts.len() == 0 {
        Some((live, paused))
    } else {
        match apply_spec(acts[0], live, paused) {
            Option::None => None,
            Option::Some(st) => apply_all_spec(acts.drop_first(), st.0, st.1),
        }
    }
}

/// Applies the drained actions to the colony, in arrival order. `None`
/// (terminate) as soon as a `Quit` is met, skipping what remains.
pub fn apply_all(actions: &Vec<Action>, col: Colony) -> (r: Option<Colony>)
    requires
        col.wf(),
        forall|k: int| 0 <= k < actions@.len() ==> action_in_range(#[trigger] actions@[k]),
    ensures
        r is Some <==> apply_all_spec(actions@, col.grid@, col.is_paused) is Some,
        r is Some ==> r->Some_0.wf(),
        r is Some ==> r->Some_0.grid@ == apply_all_spec(
            actions@,
            col.grid@,
            col.is_paused,
        )->Some_0.0,
        r is Some ==> r->Some_0.is_paused == apply_all_spec(
            actions@,
            col.grid@,
            col.is_paused,
        )->Some_0.1,
{
    let ghost live0 = col.grid@;
    let ghost paused0 = col.is_paused;
    let n = actions.len();
    let mut cur = col;
    let mut i: usize = 0;
    proof {
        assert(actions@.skip(0) =~= actions@);
    }
    while i < n
        invariant
            0 <= i <= n,
            n == actions@.len(),
            forall|k: int| 0 <= k < actions@.len() ==> action_in_range(#[trigger] actions@[k]),
            cur.wf(),
            live0 == col.grid@,
            paused0 == col.is_paused,
            apply_all_spec(actions@, live0, paused0) == apply_all_spec(
                actions@.skip(i as int),
                cur.grid@,
                cur.is_paused,
            ),
        decreases n - i,
    {
        let a = actions[i];
        let ghost rest = actions@.skip(i as int);
        proof {
            assert(rest[0] == actions@[i as int]);
            assert(rest.drop_first() =~= actions@.skip(i as int + 1));
        }
        match do_action(a, cur) {
            Option::Some(c2) => {
                proof {
                    let st = apply_spec(a, cur.grid@, cur.is_paused)->Some_0;
                    assert(st == ((c2.grid@, c2.is_paused)));
                }
                cur = c2;
            },
            Option::None => {
                proof {
                    assert(apply_all_spec(rest, cur.grid@, cur.is_paused) is None);
                }
                return None;
            },
        }
        i += 1;
    }
    proof {
        assert(actions@.skip(n as int) =~= Seq::<Action>::empty());
    }
    Some(cur)
}

/// One tick of the simulation after the queue is drained: advance exactly
/// one generation unless paused; the paused flag itself never changes here.
pub fn tick(col: Colony) -> (r: Colony)
    requires
        col.wf(),
    ensures
        r.wf(),
        r.is_paused == col.is_paused,
        r.grid@ == if col.is_paused {
            col.grid@
        } else {
            step_spec(col.grid@)
        },
{
    if !col.is_paused {
        col.next_gen()
    } else {
        col
    }
}

/// The whole decision part of one loop turn: apply the drained actions in
/// arrival order, then advance a generation if the colony is running.
/// `None` means the loop must terminate (a `Quit` was among the actions).
pub fn run_tick(actions: &Vec<Action>, col: Colony) -> (r: Option<Colony>)
    requires
        col.wf(),
        forall|k: int| 0 <= k < actions@.len() ==> action_in_range(#[trigger] actions@[k]),
    ensures
        r is Some <==> apply_all_spec(actions@, col.grid@, col.is_paused) is Some,
        r is Some ==> r->Some_0.wf(),
        r is Some ==> ({
            let st = apply_all_spec(actions@, col.grid@, col.is_paused)->Some_0;
            &&& r->Some_0.is_paused == st.1
            &&& r->Some_0.grid@ == if st.1 {
                st.0
            } else {
                step_spec(st.0)
            }
        }),
{
    match apply_all(actions, col) {
        Option::Some(c2) => Some(tick(c2)),
        Option::None => None,
    }
}

} // verus!
