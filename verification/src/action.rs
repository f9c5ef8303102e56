//! User intents and the state machine that applies them to a colony.

use vstd::prelude::*;
use crate::cell::{Cell, in_range};
use crate::colony::{Colony, step_spec};
use crate::liveset::LiveSet;

verus! {

/// A decoded user intent. Closed set; `Put` and `Remove` carry the position
/// they edit.
#[derive(Clone, Copy, PartialEq, Eq, Structural, Debug)]
pub enum Action {
    Step,
    Pause,
    Continue,
    Quit,
    Restart,
    Put(Cell),
    Remove(Cell),
}

/// The transition table, over the mathematical state: what each action makes
/// of the live set and the paused flag. `None` only for `Quit`, which has no
/// successor state.
pub open spec fn apply_spec(a: Action, live: Set<(int, int)>, paused: bool) -> Option<
    (Set<(int, int)>, bool),
> {
    match a {
        Action::Step => Some((step_spec(live), true)),
        Action::Pause => Some((live, true)),
        Action::Continue => Some((live, false)),
        Action::Quit => None,
        Action::Restart => Some((Set::empty(), paused)),
        Action::Put(c) => Some((live.insert(c@), paused)),
        Action::Remove(c) => Some((live.remove(c@), paused)),
    }
}

/// A `Put` must carry a position that leaves room for its neighbours;
/// machine limits force this at the extremes of the coordinate type.
pub open spec fn action_in_range(a: Action) -> bool {
    a matches Action::Put(c) ==> in_range(c@)
}

/// Applies one action to the colony: the total transition function of the
/// control state machine. `None` means terminate (only for `Quit`).
pub fn do_action(a: Action, col: Colony) -> (r: Option<Colony>)
    requires
        col.wf(),
        action_in_range(a),
    ensures
        r is None <==> a is Quit,
        r is Some ==> apply_spec(a, col.grid@, col.is_paused) is Some,
        r is Some ==> r->Some_0.wf(),
        r is Some ==> r->Some_0.grid@ == apply_spec(a, col.grid@, col.is_paused)->Some_0.0,
        r is Some ==> r->Some_0.is_paused == apply_spec(a, col.grid@, col.is_paused)->Some_0.1,
{
    match a {
        Action::Step => {
            let c2 = col.next_gen();
            Some(Colony { is_paused: true, grid: c2.grid })
        },
        Action::Pause => Some(Colony { is_paused: true, grid: col.grid }),
        Action::Continue => Some(Colony { is_paused: false, grid: col.grid }),
        Action::Quit => None,
        Action::Restart => Some(Colony { grid: LiveSet::new(), is_paused: col.is_paused }),
        Action::Put(c) => {
            let mut col = col;
            col.grid.insert(c);
            Some(col)
        },
        Action::Remove(c) => {
            let mut col = col;
            col.grid.remove(c);
            Some(col)
        },
    }
}

/// Law: `Put(p)` is idempotent. Applying it twice in sequence yields the
/// same state as applying it once.
pub proof fn lemma_put_idempotent(p: Cell, live: Set<(int, int)>, paused: bool)
    ensures
        ({
            let once = apply_spec(Action::Put(p), live, paused)->Some_0;
            apply_spec(Action::Put(p), once.0, once.1) == apply_spec(Action::Put(p), live, paused)
        }),
{
    assert(live.insert(p@).insert(p@) =~= live.insert(p@));
}

/// Law: `Remove(p)` where `p` is not alive leaves the live set unchanged.
pub proof fn lemma_remove_absent(p: Cell, live: Set<(int, int)>, paused: bool)
    requires
        !live.contains(p@),
    ensures
        apply_spec(Action::Remove(p), live, paused)->Some_0.0 == live,
        apply_spec(Action::Remove(p), live, paused)->Some_0.1 == paused,
{
    assert(live.remove(p@) =~= live);
}

/// Law: `Restart` empties the live set whatever the prior state was, and
/// preserves the prior paused flag.
pub proof fn lemma_restart(live: Set<(int, int)>, paused: bool)
    ensures
        apply_spec(Action::Restart, live, paused) == Some(
            (Set::<(int, int)>::empty(), paused),
        ),
{
}

/// Law: `Step` advances exactly one generation and always leaves the colony
/// paused, whatever the input's paused flag was.
pub proof fn lemma_step_forces_pause(live: Set<(int, int)>, paused: bool)
    ensures
        apply_spec(Action::Step, live, paused) == Some((step_spec(live), true)),
{
}

} // verus!
