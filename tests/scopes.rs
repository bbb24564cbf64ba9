use settings_stack::{
    entry_global, incumbent_global, trace, AutoEntryScript, AutoIncumbentScript, GlobalId, SettingsStack,
};

fn g(id: u64) -> GlobalId {
    GlobalId { id }
}

#[test]
fn entry_global_follows_entry_pushes_and_pops() {
    let mut st = SettingsStack::new();
    let a = AutoEntryScript::new(&mut st, g(1));
    assert_eq!(entry_global(&st), g(1));
    let b = AutoEntryScript::new(&mut st, g(2));
    assert_eq!(entry_global(&st), g(2));
    assert!(b.can_leave(&st));
    b.leave(&mut st);
    assert_eq!(entry_global(&st), g(1));
    assert!(a.can_leave(&st));
    a.leave(&mut st);
    assert_eq!(st.innermost_entry_global(), None);
    assert!(st.is_empty());
}

#[test]
fn incumbent_frames_do_not_change_entry_global() {
    let mut st = SettingsStack::new();
    let a = AutoEntryScript::new(&mut st, g(1));
    let b = AutoIncumbentScript::new(&mut st, g(2));
    assert_eq!(entry_global(&st), g(1));
    assert_eq!(st.innermost_entry_global(), Some(g(1)));
    assert!(b.can_leave(&st));
    b.leave(&mut st);
    assert!(a.can_leave(&st));
    a.leave(&mut st);
}

#[test]
fn only_incumbent_frames_give_no_entry_global() {
    let mut st = SettingsStack::new();
    let b = AutoIncumbentScript::new(&mut st, g(5));
    assert_eq!(st.innermost_entry_global(), None);
    assert!(b.can_leave(&st));
    b.leave(&mut st);
}

#[test]
fn push_then_leave_restores_answers() {
    let mut st = SettingsStack::new();
    let outer = AutoEntryScript::new(&mut st, g(1));
    let inner_cb = AutoIncumbentScript::new(&mut st, g(3));
    let entry_before = entry_global(&st);
    let incumbent_before = incumbent_global(&st, None);
    let a = AutoEntryScript::new(&mut st, g(7));
    assert!(a.can_leave(&st));
    a.leave(&mut st);
    assert_eq!(entry_global(&st), entry_before);
    assert_eq!(incumbent_global(&st, None), incumbent_before);
    let b = AutoIncumbentScript::new(&mut st, g(8));
    assert!(b.can_leave(&st));
    b.leave(&mut st);
    assert_eq!(entry_global(&st), entry_before);
    assert_eq!(incumbent_global(&st, None), incumbent_before);
    assert!(inner_cb.can_leave(&st));
    inner_cb.leave(&mut st);
    assert!(outer.can_leave(&st));
    outer.leave(&mut st);
}

#[test]
fn out_of_order_disposal_is_refused() {
    let mut st = SettingsStack::new();
    let a = AutoEntryScript::new(&mut st, g(1));
    let b = AutoEntryScript::new(&mut st, g(2));
    assert!(!a.can_leave(&st));
    assert!(b.can_leave(&st));
    b.leave(&mut st);
    assert!(a.can_leave(&st));
    a.leave(&mut st);
}

#[test]
fn twin_guards_are_told_apart() {
    let mut st = SettingsStack::new();
    let a = AutoEntryScript::new(&mut st, g(6));
    let b = AutoEntryScript::new(&mut st, g(6));
    assert!(!a.can_leave(&st));
    assert!(b.can_leave(&st));
    let c = AutoIncumbentScript::new(&mut st, g(6));
    let d = AutoIncumbentScript::new(&mut st, g(6));
    assert!(!c.can_leave(&st));
    assert!(d.can_leave(&st));
    d.leave(&mut st);
    c.leave(&mut st);
    b.leave(&mut st);
    assert!(a.can_leave(&st));
    a.leave(&mut st);
}

#[test]
fn wrong_kind_on_top_is_refused() {
    let mut st = SettingsStack::new();
    let a = AutoEntryScript::new(&mut st, g(4));
    let b = AutoIncumbentScript::new(&mut st, g(4));
    assert!(!a.can_leave(&st));
    assert_eq!(incumbent_global(&st, None), g(4));
    let c = AutoEntryScript::new(&mut st, g(5));
    assert!(!b.can_leave(&st));
    c.leave(&mut st);
    assert!(b.can_leave(&st));
    b.leave(&mut st);
    a.leave(&mut st);
    assert!(st.is_empty());
}

#[test]
fn leaving_on_another_stack_is_refused() {
    let mut st = SettingsStack::new();
    let a = AutoEntryScript::new(&mut st, g(1));
    let b = AutoIncumbentScript::new(&mut st, g(2));
    let other = SettingsStack::new();
    assert!(!a.can_leave(&other));
    assert!(!b.can_leave(&other));
    assert_eq!(st.len(), 2);
    b.leave(&mut st);
    a.leave(&mut st);
}

#[test]
fn engine_answer_takes_precedence() {
    let mut st = SettingsStack::new();
    let a = AutoEntryScript::new(&mut st, g(2));
    assert_eq!(incumbent_global(&st, Some(g(1))), g(1));
    assert!(a.can_leave(&st));
    a.leave(&mut st);
    // With an empty stack the engine's answer alone suffices.
    assert_eq!(incumbent_global(&st, Some(g(9))), g(9));
}

#[test]
fn stack_top_answers_without_engine() {
    let mut st = SettingsStack::new();
    let a = AutoEntryScript::new(&mut st, g(1));
    assert_eq!(incumbent_global(&st, None), g(1));
    let b = AutoIncumbentScript::new(&mut st, g(2));
    assert_eq!(incumbent_global(&st, None), g(2));
    let c = AutoEntryScript::new(&mut st, g(3));
    assert_eq!(incumbent_global(&st, None), g(3));
    assert!(c.can_leave(&st));
    c.leave(&mut st);
    assert!(b.can_leave(&st));
    b.leave(&mut st);
    assert!(a.can_leave(&st));
    a.leave(&mut st);
}

#[test]
fn deep_nesting_returns_most_recent_then_predecessors() {
    let mut st = SettingsStack::new();
    let n: u64 = 50;
    let mut guards = Vec::new();
    for i in 0..n {
        guards.push(AutoEntryScript::new(&mut st, g(100 + i)));
        assert_eq!(entry_global(&st), g(100 + i));
    }
    for i in (0..n).rev() {
        assert_eq!(entry_global(&st), g(100 + i));
        let guard = guards.pop().unwrap();
        assert!(guard.can_leave(&st));
        guard.leave(&mut st);
        if i > 0 {
            assert_eq!(entry_global(&st), g(100 + i - 1));
        }
    }
    assert!(st.is_empty());
}

#[test]
fn trace_reports_each_global_once() {
    let mut st = SettingsStack::new();
    assert!(trace(&st).is_empty());
    let a = AutoEntryScript::new(&mut st, g(1));
    let b = AutoIncumbentScript::new(&mut st, g(2));
    let c = AutoEntryScript::new(&mut st, g(1));
    let d = AutoIncumbentScript::new(&mut st, g(3));
    let mut seen = trace(&st);
    seen.sort_by_key(|x| x.id);
    assert_eq!(seen, vec![g(1), g(2), g(3)]);
    assert!(d.can_leave(&st));
    d.leave(&mut st);
    assert!(c.can_leave(&st));
    c.leave(&mut st);
    assert!(b.can_leave(&st));
    b.leave(&mut st);
    assert_eq!(trace(&st), vec![g(1)]);
    assert!(a.can_leave(&st));
    a.leave(&mut st);
    assert!(trace(&st).is_empty());
}
