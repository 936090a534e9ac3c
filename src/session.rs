//! The object the host drives: a tick counter and the session's state.

use vstd::prelude::*;
use crate::cursor::KeyInput;
use crate::manager::{after_key, after_tick, GameStateManager, ManagerView};

verus! {

/// The host's entry points over one session: `tick` on a fixed period and `key`
/// per key event. Calls must not overlap; each runs to completion.
pub struct Session {
    ticks: u64,
    manager: GameStateManager,
}

impl View for Session {
    /// The tick counter and the session's state.
    type V = (u64, ManagerView);

    closed spec fn view(&self) -> (u64, ManagerView) {
        (self.ticks, self.manager@)
    }
}

impl Session {
    /// The session is well formed.
    pub closed spec fn wf(&self) -> bool {
        self.manager.wf()
    }

    /// A session on the code screen, with the counter at zero.
    pub fn new() -> (r: Session)
        ensures
            r.wf(),
            r@.0 == 0,
            r@.1 == GameStateManager::new_view(),
    {
        Session { ticks: 0, manager: GameStateManager::new() }
    }

    /// Counts one tick (wrapping at `u64::MAX`) and advances the session with
    /// the new count.
    pub fn tick(&mut self)
        requires
            old(self).wf(),
        ensures
            final(self).wf(),
            final(self)@.0 == (if old(self)@.0 == u64::MAX {
                0
            } else {
                old(self)@.0 + 1
            }),
            final(self)@.1 == after_tick(old(self)@.1, final(self)@.0),
    {
        self.ticks = if self.ticks == u64::MAX {
            0
        } else {
            self.ticks + 1
        };
        self.manager.tick(self.ticks);
    }

    /// Handles one key; returns whether the screen changed, in which case the
    /// display must be redrawn from scratch.
    pub fn key(&mut self, key: KeyInput) -> (redraw: bool)
        requires
            old(self).wf(),
        ensures
            final(self).wf(),
            final(self)@.0 == old(self)@.0,
            final(self)@.1 == after_key(old(self)@.1, key),
            redraw == (final(self)@.1.state != old(self)@.1.state),
    {
        let old_state = self.manager.get_state();
        self.manager.input_manager(key);
        self.manager.get_state() != old_state
    }

    /// The session's state.
    pub fn manager(&self) -> (r: &GameStateManager)
        ensures
            r@ == self@.1,
    {
        &self.manager
    }

    /// Number of ticks counted so far (modulo `2^64`).
    pub fn ticks(&self) -> (r: u64)
        ensures
            r == self@.0,
    {
        self.ticks
    }
}

} // verus!
