use vstd::prelude::*;

verus! {

/// A non-owning identity handle for one script execution global.
#[derive(Clone, Copy, Debug, PartialEq, Eq, Structural)]
pub struct GlobalId {
    pub id: u64,
}

/// Why an entry was pushed: to run a script, or to run a callback.
#[derive(Clone, Copy, Debug, PartialEq, Eq, Structural)]
pub enum StackEntryKind {
    Incumbent,
    Entry,
}

/// One frame of the settings stack; never changed once pushed.
#[derive(Clone, Copy, Debug, PartialEq, Eq, Structural)]
pub struct StackEntry {
    pub global: GlobalId,
    pub kind: StackEntryKind,
}

/// The frame that "prepare to run script" pushes.
pub open spec fn entry_frame(g: GlobalId) -> StackEntry {
    StackEntry { global: g, kind: StackEntryKind::Entry }
}

/// The frame that "prepare to run a callback" pushes.
pub open spec fn incumbent_frame(g: GlobalId) -> StackEntry {
    StackEntry { global: g, kind: StackEntryKind::Incumbent }
}

/// The global of the most recently pushed `Entry` frame, if any.
pub open spec fn innermost_entry(s: Seq<StackEntry>) -> Option<GlobalId>
    decreases s.len(),
{
    if s.len() == 0 {
        None
    } else if s.last().kind == StackEntryKind::Entry {
        Some(s.last().global)
    } else {
        innermost_entry(s.drop_last())
    }
}

/// The incumbent global: the engine's scripted caller when it names one,
/// else the global of the top frame, whatever its kind.
pub open spec fn incumbent_of(caller: Option<GlobalId>, s: Seq<StackEntry>) -> Option<GlobalId> {
    match caller {
        Some(g) => Some(g),
        None => if s.len() > 0 {
            Some(s.last().global)
        } else {
            None
        },
    }
}

/// Whether some frame of `s` refers to `g`.
pub open spec fn on_stack(s: Seq<StackEntry>, g: GlobalId) -> bool {
    exists|j: int| 0 <= j < s.len() && s[j].global == g
}

/// The LIFO stack of settings frames of one thread.
pub struct SettingsStack {
    entries: Vec<StackEntry>,
}

impl View for SettingsStack {
    type V = Seq<StackEntry>;

    closed spec fn view(&self) -> Seq<StackEntry> {
        self.entries@
    }
}

impl SettingsStack {
    /// An empty stack.
    pub fn new() -> (r: SettingsStack)
        ensures
            r@ == Seq::<StackEntry>::empty(),
    {
        SettingsStack { entries: Vec::new() }
    }

    /// Whether no frame is on the stack.
    pub fn is_empty(&self) -> (r: bool)
        ensures
            r == (self@.len() == 0),
    {
        self.entries.len() == 0
    }

    /// Pushes `e` on top.
    pub(crate) fn push(&mut self, e: StackEntry)
        ensures
            final(self)@ == old(self)@.push(e),
    {
        self.entries.push(e);
    }

    /// The number of frames on the stack.
    pub fn len(&self) -> (r: usize)
        ensures
            r == self@.len(),
    {
        self.entries.len()
    }

    /// Removes the top frame.
    pub(crate) fn pop(&mut self)
        requires
            old(self)@.len() > 0,
        ensures
            final(self)@ == old(self)@.drop_last(),
    {
        let _ = self.entries.pop();
    }

    /// Whether `e` is the top frame and stands at index `depth`.
    pub(crate) fn has_on_top(&self, e: StackEntry, depth: usize) -> (r: bool)
        ensures
            r == (self@.len() == depth + 1 && self@.last() == e),
    {
        let n = self.entries.len();
        n > 0 && n - 1 == depth && self.entries[n - 1] == e
    }

    /// The global of the top frame, whatever its kind.
    pub fn top_global(&self) -> (r: GlobalId)
        requires
            self@.len() > 0,
        ensures
            r == self@.last().global,
    {
        self.entries[self.entries.len() - 1].global
    }

    /// The global of the innermost `Entry` frame, scanning from the top down.
    pub fn innermost_entry_global(&self) -> (r: Option<GlobalId>)
        ensures
            r == innermost_entry(self@),
    {
        let s = Ghost(self.entries@);
        let mut i: usize = self.entries.len();
        assert(s@.take(i as int) =~= s@);
        while i > 0
            invariant
                i <= s@.len(),
                s@ == self.entries@,
                innermost_entry(s@.take(i as int)) == innermost_entry(s@),
            decreases i,
        {
            let e = self.entries[i - 1];
            let ghost t = s@.take(i as int);
            assert(t.last() == e);
            assert(t.drop_last() =~= s@.take(i - 1));
            if e.kind == StackEntryKind::Entry {
                return Some(e.global);
            }
            i = i - 1;
        }
        assert(s@.take(0) =~= Seq::<StackEntry>::empty());
        None
    }
}

/// Returns the entry global: the global of the innermost `Entry` frame.
/// Calling it with no such frame on the stack is a contract violation.
pub fn entry_global(stack: &SettingsStack) -> (r: GlobalId)
    requires
        innermost_entry(stack@) is Some,
    ensures
        innermost_entry(stack@) == Some(r),
{
    stack.innermost_entry_global().unwrap()
}

/// Returns the incumbent global. `scripted_caller` is the engine's own answer
/// for the scripted caller's global, asked just before; it wins when present,
/// and the top frame of the stack answers otherwise.
pub fn incumbent_global(stack: &SettingsStack, scripted_caller: Option<GlobalId>) -> (r: GlobalId)
    requires
        incumbent_of(scripted_caller, stack@) is Some,
    ensures
        incumbent_of(scripted_caller, stack@) == Some(r),
{
    match scripted_caller {
        Some(g) => g,
        None => stack.top_global(),
    }
}

/// Whether `v` holds `g`.
fn holds(v: &Vec<GlobalId>, g: GlobalId) -> (r: bool)
    ensures
        r == v@.contains(g),
{
    let mut i: usize = 0;
    while i < v.len()
        invariant
            i <= v@.len(),
            forall|j: int| 0 <= j < i ==> v@[j] != g,
        decreases v@.len() - i,
    {
        if v[i] == g {
            return true;
        }
        i = i + 1;
    }
    false
}

/// The globals that a trace pass reports as reachable: every global that
/// some frame refers to, each once, whatever the frame's kind.
pub fn trace(stack: &SettingsStack) -> (r: Vec<GlobalId>)
    ensures
        r@.no_duplicates(),
        forall|g: GlobalId| r@.contains(g) <==> on_stack(stack@, g),
{
    let mut r: Vec<GlobalId> = Vec::new();
    let mut i: usize = 0;
    while i < stack.entries.len()
        invariant
            i <= stack@.len(),
            stack@ == stack.entries@,
            r@.no_duplicates(),
            forall|g: GlobalId| r@.contains(g) <==> on_stack(stack@.take(i as int), g),
        decreases stack@.len() - i,
    {
        let g = stack.entries[i].global;
        let ghost before = stack@.take(i as int);
        let ghost after = stack@.take(i + 1);
        assert(after =~= before.push(stack@[i as int]));
        assert forall|h: GlobalId| on_stack(after, h) <==> (on_stack(before, h) || h == g) by {
            if on_stack(after, h) {
                let j = choose|j: int| 0 <= j < after.len() && after[j].global == h;
                if j < i {
                    assert(before[j] == after[j]);
                }
            }
            if on_stack(before, h) {
                let j = choose|j: int| 0 <= j < before.len() && before[j].global == h;
                assert(after[j] == before[j]);
            }
            if h == g {
                assert(after[i as int].global == g);
            }
        }
        let ghost old_r = r@;
        let present = holds(&r, g);
        if !present {
            r.push(g);
            assert(forall|h: GlobalId| r@.contains(h) <==> (old_r.contains(h) || h == g)) by {
                assert forall|h: GlobalId| r@.contains(h) implies (old_r.contains(h) || h == g) by {
                    let k = choose|k: int| 0 <= k < r@.len() && r@[k] == h;
                    if k < old_r.len() {
                        assert(old_r[k] == h);
                    }
                }
                assert forall|h: GlobalId| old_r.contains(h) implies r@.contains(h) by {
                    let k = choose|k: int| 0 <= k < old_r.len() && old_r[k] == h;
                    assert(r@[k] == h);
                }
                assert(r@[old_r.len() as int] == g);
            }
        }
        assert forall|h: GlobalId| r@.contains(h) <==> on_stack(after, h) by {
            assert(old_r.contains(h) <==> on_stack(before, h));
            if present {
                assert(r@ == old_r);
            }
        }
        i = i + 1;
    }
    assert(stack@.take(i as int) =~= stack@);
    r
}

} // verus!
