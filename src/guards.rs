use vstd::prelude::*;
use crate::stack::{entry_frame, incumbent_frame, SettingsStack, StackEntry, StackEntryKind, GlobalId};

verus! {

/// Whether `e` is the top frame of `s` and sits at index `depth`, that is,
/// whether the guard that pushed `e` onto a stack of `depth` frames may
/// remove it now.
pub open spec fn is_top_frame(s: Seq<StackEntry>, e: StackEntry, depth: nat) -> bool {
    s.len() == depth + 1 && s.last() == e
}

/// Scope token for "prepare to run script" / "clean up after running script":
/// its creation pushes an `Entry` frame and `leave` removes that same frame.
/// Its view is the frame it pushed and the index at which it stands.
pub struct AutoEntryScript {
    global: GlobalId,
    depth: usize,
}

impl View for AutoEntryScript {
    type V = (StackEntry, nat);

    closed spec fn view(&self) -> (StackEntry, nat) {
        (entry_frame(self.global), self.depth as nat)
    }
}

impl AutoEntryScript {
    /// Pushes an `Entry` frame for `global`.
    pub fn new(stack: &mut SettingsStack, global: GlobalId) -> (r: AutoEntryScript)
        ensures
            r@ == (entry_frame(global), old(stack)@.len()),
            final(stack)@ == old(stack)@.push(entry_frame(global)),
    {
        let depth = stack.len();
        stack.push(StackEntry { global, kind: StackEntryKind::Entry });
        AutoEntryScript { global, depth }
    }

    /// Whether this guard's own frame is on top of `stack`, so that `leave`
    /// may be called. Anything else means the guards were not disposed of in
    /// LIFO order, which callers treat as fatal.
    pub fn can_leave(&self, stack: &SettingsStack) -> (r: bool)
        ensures
            r == is_top_frame(stack@, self@.0, self@.1),
    {
        stack.has_on_top(StackEntry { global: self.global, kind: StackEntryKind::Entry }, self.depth)
    }

    /// "Clean up after running script": removes this guard's frame, which
    /// must be the top one.
    pub fn leave(self, stack: &mut SettingsStack)
        requires
            is_top_frame(old(stack)@, self@.0, self@.1),
        ensures
            final(stack)@ == old(stack)@.drop_last(),
    {
        stack.pop();
    }
}

/// Scope token for "prepare to run a callback" / "clean up after running a
/// callback": its creation pushes an `Incumbent` frame and `leave` removes it.
/// Its view is the frame it pushed and the index at which it stands.
pub struct AutoIncumbentScript {
    global: GlobalId,
    depth: usize,
}

impl View for AutoIncumbentScript {
    type V = (StackEntry, nat);

    closed spec fn view(&self) -> (StackEntry, nat) {
        (incumbent_frame(self.global), self.depth as nat)
    }
}

impl AutoIncumbentScript {
    /// Pushes an `Incumbent` frame for `global`.
    pub fn new(stack: &mut SettingsStack, global: GlobalId) -> (r: AutoIncumbentScript)
        ensures
            r@ == (incumbent_frame(global), old(stack)@.len()),
            final(stack)@ == old(stack)@.push(incumbent_frame(global)),
    {
        let depth = stack.len();
        stack.push(StackEntry { global, kind: StackEntryKind::Incumbent });
        AutoIncumbentScript { global, depth }
    }

    /// Whether this guard's own frame is on top of `stack`, so that `leave`
    /// may be called. Anything else means the guards were not disposed of in
    /// LIFO order, which callers treat as fatal.
    pub fn can_leave(&self, stack: &SettingsStack) -> (r: bool)
        ensures
            r == is_top_frame(stack@, self@.0, self@.1),
    {
        stack.has_on_top(StackEntry { global: self.global, kind: StackEntryKind::Incumbent }, self.depth)
    }

    /// "Clean up after running a callback": removes this guard's frame, which
    /// must be the top one.
    pub fn leave(self, stack: &mut SettingsStack)
        requires
            is_top_frame(old(stack)@, self@.0, self@.1),
        ensures
            final(stack)@ == old(stack)@.drop_last(),
    {
        stack.pop();
    }
}

} // verus!
