//! The grid's cell state: one calendar day with its intensity.
use vstd::prelude::*;

verus! {

use crate::date::Date;

/// One grid cell: a calendar day and the activity intensity drawn on it.
#[derive(Clone, Copy, Debug)]
pub struct State(pub Date, pub u8);

impl Default for State {
    /// A cell on the first supported day with no activity.
    fn default() -> (r: State)
        ensures
            r.0@ == 0,
            r.1 == 0,
    {
        State(Date::default(), 0)
    }
}

/// The whole grid: cells in week-major order, one per consecutive day.
#[derive(Debug)]
pub struct StateMap(pub Vec<State>);

impl View for StateMap {
    type V = Seq<State>;

    open spec fn view(&self) -> Seq<State> {
        self.0@
    }
}

impl Default for StateMap {
    /// A full-size grid of default cells.
    fn default() -> (r: StateMap)
        ensures
            r@.len() == crate::consts::GRID_SIZE,
            forall|i: int| 0 <= i < r@.len() ==> r@[i].0@ == 0 && r@[i].1 == 0,
    {
        let mut v: Vec<State> = Vec::new();
        let mut i: usize = 0;
        while i < crate::consts::GRID_SIZE
            invariant
                i <= crate::consts::GRID_SIZE,
                v@.len() == i,
                forall|j: int| 0 <= j < v@.len() ==> v@[j].0@ == 0 && v@[j].1 == 0,
            decreases crate::consts::GRID_SIZE - i,
        {
            v.push(State::default());
            i = i + 1;
        }
        StateMap(v)
    }
}

} // verus!
