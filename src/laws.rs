use vstd::prelude::*;
use crate::guards::is_top_frame;
use crate::stack::{entry_frame, incumbent_frame, incumbent_of, innermost_entry, GlobalId, StackEntry, StackEntryKind};

verus! {

/// The frames pushed by one `AutoEntryScript` per global of `gs`, in order.
pub open spec fn entry_frames(gs: Seq<GlobalId>) -> Seq<StackEntry> {
    gs.map_values(|g: GlobalId| entry_frame(g))
}

/// Right after an `Entry` frame for `g` is pushed, the entry global is `g`;
/// an `Incumbent` frame leaves the entry global as it was; and when the
/// guard of the top frame `e` leaves, the entry global becomes that of the
/// innermost `Entry` frame below it.
pub proof fn lemma_entry_follows_pushes(s: Seq<StackEntry>, g: GlobalId, e: StackEntry, depth: nat)
    ensures
        innermost_entry(s.push(entry_frame(g))) == Some(g),
        innermost_entry(s.push(incumbent_frame(g))) == innermost_entry(s),
        is_top_frame(s, e, depth) ==> innermost_entry(s) == (if e.kind == StackEntryKind::Entry {
            Some(e.global)
        } else {
            innermost_entry(s.drop_last())
        }),
{
    assert(s.push(entry_frame(g)).drop_last() =~= s);
    assert(s.push(incumbent_frame(g)).drop_last() =~= s);
}

/// There is no entry global, and `entry_global` may not be called, exactly
/// when no frame of the stack is an `Entry` frame.
pub proof fn lemma_no_entry_frame(s: Seq<StackEntry>)
    ensures
        innermost_entry(s) is None <==> forall|i: int| 0 <= i < s.len() ==> s[i].kind != StackEntryKind::Entry,
    decreases s.len(),
{
    if s.len() > 0 {
        let t = s.drop_last();
        lemma_no_entry_frame(t);
        assert forall|i: int| 0 <= i < t.len() implies t[i] == s[i] by {}
        if s.last().kind != StackEntryKind::Entry && innermost_entry(t) is None {
            assert forall|i: int| 0 <= i < s.len() implies s[i].kind != StackEntryKind::Entry by {
                if i < t.len() {
                    assert(t[i] == s[i]);
                }
            }
        }
    }
}

/// Pushing a frame and having its guard leave at once leaves the stack, and
/// hence the entry and the incumbent global, as they were.
pub proof fn lemma_push_then_leave(s: Seq<StackEntry>, e: StackEntry, caller: Option<GlobalId>)
    ensures
        is_top_frame(s.push(e), e, s.len()),
        s.push(e).drop_last() == s,
        innermost_entry(s.push(e).drop_last()) == innermost_entry(s),
        incumbent_of(caller, s.push(e).drop_last()) == incumbent_of(caller, s),
{
    assert(s.push(e).drop_last() =~= s);
}

/// With `b` pushed after `a`, the guard of `a` may not leave first: its
/// frame is not on top at the index where it was pushed, even when `a` and
/// `b` are frames of one kind for one global.
pub proof fn lemma_out_of_order_detected(s: Seq<StackEntry>, a: StackEntry, b: StackEntry)
    ensures
        !is_top_frame(s.push(a).push(b), a, s.len()),
{
}

/// When the engine names a scripted caller, that global is the incumbent,
/// whatever frame is on top of the stack.
pub proof fn lemma_engine_answer_wins(s: Seq<StackEntry>, g1: GlobalId, g2: GlobalId)
    requires
        s.len() > 0,
        s.last().global == g2,
        g1 != g2,
    ensures
        incumbent_of(Some(g1), s) == Some(g1),
{
}

/// When the engine names no scripted caller, the top frame's global is the
/// incumbent, whatever the frame's kind.
pub proof fn lemma_stack_answers_otherwise(s: Seq<StackEntry>, g2: GlobalId)
    requires
        s.len() > 0,
        s.last().global == g2,
    ensures
        incumbent_of(None, s) == Some(g2),
{
}

/// With `Entry` frames for `gs` pushed on `s` in order, the entry global
/// after the `k`-th push is `gs[k - 1]`; that frame's guard may leave, and
/// doing so gives back the stack after `k - 1` pushes, whose entry global is the predecessor.
pub proof fn lemma_nested_entries(s: Seq<StackEntry>, gs: Seq<GlobalId>, k: int)
    requires
        0 < k <= gs.len(),
    ensures
        innermost_entry(s + entry_frames(gs.take(k))) == Some(gs[k - 1]),
        is_top_frame(s + entry_frames(gs.take(k)), entry_frame(gs[k - 1]), (s.len() + k - 1) as nat),
        (s + entry_frames(gs.take(k))).drop_last() == s + entry_frames(gs.take(k - 1)),
        innermost_entry(s + entry_frames(gs.take(k - 1))) == (if k > 1 {
            Some(gs[k - 2])
        } else {
            innermost_entry(s)
        }),
{
    let t = s + entry_frames(gs.take(k));
    assert(t.last() == entry_frame(gs[k - 1]));
    assert(t.drop_last() =~= s + entry_frames(gs.take(k - 1)));
    if k > 1 {
        let u = s + entry_frames(gs.take(k - 1));
        assert(u.last() == entry_frame(gs[k - 2]));
    } else {
        assert(s + entry_frames(gs.take(0)) =~= s);
    }
}

} // verus!
