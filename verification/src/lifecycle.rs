//! The lifecycle of the terminal: what was changed on the way in is undone
//! on every way out.
//!
//! Each change to the terminal is noted as it is made, like a guard put on
//! a stack. On leaving, by whatever path, the caller asks for the steps
//! that restore the terminal and carries them out in order.

use vstd::prelude::*;

verus! {

/// A change that is made to the terminal on the way in.
#[derive(Clone, Copy, Debug, PartialEq, Eq, Structural)]
pub enum Change {
    /// Typed characters are no longer echoed.
    EchoOff,
    /// Input arrives key by key, unprocessed.
    RawMode,
    /// Output goes to the alternate screen.
    AlternateScreen,
    /// Mouse events are reported.
    MouseCapture,
}

/// A step that is taken on the way out.
#[derive(Clone, Copy, Debug, PartialEq, Eq, Structural)]
pub enum Restore {
    /// Echo typed characters again.
    EchoOn,
    /// Process input line by line again.
    CookedMode,
    /// Go back to the main screen.
    LeaveAlternateScreen,
    /// Stop the reports of mouse events.
    ReleaseMouse,
    /// End a graphics sequence that may be open.
    StopGraphics,
    /// Write out what is buffered.
    Flush,
}

/// The state of the terminal as far as it is changed here.
#[derive(Clone, Copy, Debug, PartialEq, Eq, Structural)]
pub struct TerminalState {
    pub echo: bool,
    pub raw_mode: bool,
    pub alternate_screen: bool,
    pub mouse_capture: bool,
    /// Whether a graphics sequence may be left open.
    pub graphics_open: bool,
    /// Whether output may sit in a buffer.
    pub unflushed: bool,
}

/// The terminal as it is found and as it is left: echoing, cooked, on the
/// main screen, with nothing open or buffered.
pub open spec fn clean_state() -> TerminalState {
    TerminalState {
        echo: true,
        raw_mode: false,
        alternate_screen: false,
        mouse_capture: false,
        graphics_open: false,
        unflushed: false,
    }
}

/// The terminal after a change.
pub open spec fn changed(state: TerminalState, change: Change) -> TerminalState {
    match change {
        Change::EchoOff => TerminalState { echo: false, unflushed: true, ..state },
        Change::RawMode => TerminalState { raw_mode: true, unflushed: true, ..state },
        Change::AlternateScreen => TerminalState { alternate_screen: true, unflushed: true, ..state },
        Change::MouseCapture => TerminalState { mouse_capture: true, unflushed: true, ..state },
    }
}

/// The terminal after a step on the way out.
pub open spec fn restored(state: TerminalState, step: Restore) -> TerminalState {
    match step {
        Restore::EchoOn => TerminalState { echo: true, unflushed: true, ..state },
        Restore::CookedMode => TerminalState { raw_mode: false, unflushed: true, ..state },
        Restore::LeaveAlternateScreen => TerminalState {
            alternate_screen: false,
            unflushed: true,
            ..state
        },
        Restore::ReleaseMouse => TerminalState { mouse_capture: false, unflushed: true, ..state },
        Restore::StopGraphics => TerminalState { graphics_open: false, unflushed: true, ..state },
        Restore::Flush => TerminalState { unflushed: false, ..state },
    }
}

/// The terminal after all the changes, made in order.
pub open spec fn after_changes(state: TerminalState, changes: Seq<Change>) -> TerminalState
    decreases changes.len(),
{
    if changes.len() == 0 {
        state
    } else {
        changed(after_changes(state, changes.drop_last()), changes.last())
    }
}

/// The terminal after all the steps, taken in order.
pub open spec fn after_restores(state: TerminalState, steps: Seq<Restore>) -> TerminalState
    decreases steps.len(),
{
    if steps.len() == 0 {
        state
    } else {
        restored(after_restores(state, steps.drop_last()), steps.last())
    }
}

/// The step that undoes a change.
pub open spec fn undoing(change: Change) -> Restore {
    match change {
        Change::EchoOff => Restore::EchoOn,
        Change::RawMode => Restore::CookedMode,
        Change::AlternateScreen => Restore::LeaveAlternateScreen,
        Change::MouseCapture => Restore::ReleaseMouse,
    }
}

/// The steps that undo the changes, the last change first.
pub open spec fn unwinding(changes: Seq<Change>) -> Seq<Restore>
    decreases changes.len(),
{
    if changes.len() == 0 {
        Seq::<Restore>::empty()
    } else {
        seq![undoing(changes.last())] + unwinding(changes.drop_last())
    }
}

/// The steps on the way out: every change is undone, the last one first;
/// then graphics are stopped, echo is switched on whatever was noted, and
/// the output is flushed.
pub open spec fn exit_steps(changes: Seq<Change>) -> Seq<Restore> {
    unwinding(changes) + seq![Restore::StopGraphics, Restore::EchoOn, Restore::Flush]
}

/// The changes made to the terminal so far, in the order they were made.
#[derive(Debug)]
pub struct Lifecycle {
    pub applied: Vec<Change>,
}

impl Lifecycle {
    /// Nothing changed yet.
    pub fn new() -> (l: Lifecycle)
        ensures
            l.applied@ == Seq::<Change>::empty(),
    {
        Lifecycle { applied: Vec::new() }
    }

    /// Notes a change that is about to be made.
    pub fn begin(&mut self, change: Change)
        ensures
            final(self).applied@ == old(self).applied@.push(change),
    {
        self.applied.push(change);
    }

    /// The steps that restore the terminal. The changes are forgotten: a
    /// second call undoes nothing twice.
    pub fn restore(&mut self) -> (steps: Vec<Restore>)
        ensures
            steps@ == exit_steps(old(self).applied@),
            final(self).applied@ == Seq::<Change>::empty(),
    {
        let mut steps: Vec<Restore> = Vec::new();
        let ghost all = self.applied@;
        let mut i: usize = self.applied.len();
        assert(all.skip(all.len() as int) == Seq::<Change>::empty());
        assert(all.take(all.len() as int) == all);
        while i > 0
            invariant
                i <= all.len(),
                all == self.applied@,
                steps@ + unwinding(all.take(i as int)) == unwinding(all),
            decreases i,
        {
            let change: Change = self.applied[i - 1];
            let step: Restore = match change {
                Change::EchoOff => Restore::EchoOn,
                Change::RawMode => Restore::CookedMode,
                Change::AlternateScreen => Restore::LeaveAlternateScreen,
                Change::MouseCapture => Restore::ReleaseMouse,
            };
            let ghost before = steps@;
            steps.push(step);
            assert(all.take(i as int).last() == change);
            assert(all.take(i as int).drop_last() == all.take(i - 1));
            assert(before.push(step) + unwinding(all.take(i - 1)) == before + (seq![step]
                + unwinding(all.take(i - 1))));
            i = i - 1;
        }
        assert(unwinding(all.take(0)) == Seq::<Restore>::empty());
        assert(steps@ + Seq::<Restore>::empty() == steps@);
        let ghost unwound = steps@;
        steps.push(Restore::StopGraphics);
        steps.push(Restore::EchoOn);
        steps.push(Restore::Flush);
        assert(steps@ == unwound + seq![Restore::StopGraphics, Restore::EchoOn, Restore::Flush]);
        self.applied = Vec::new();
        steps
    }
}

/// Whether a state differs from the clean one in nothing that the changes
/// noted do not account for.
spec fn accounted(state: TerminalState, changes: Seq<Change>) -> bool {
    &&& state.raw_mode ==> changes.contains(Change::RawMode)
    &&& state.alternate_screen ==> changes.contains(Change::AlternateScreen)
    &&& state.mouse_capture ==> changes.contains(Change::MouseCapture)
}

proof fn lemma_changes_accounted(start: TerminalState, changes: Seq<Change>)
    requires
        !start.raw_mode,
        !start.alternate_screen,
        !start.mouse_capture,
    ensures
        accounted(after_changes(start, changes), changes),
    decreases changes.len(),
{
    if changes.len() > 0 {
        lemma_changes_accounted(start, changes.drop_last());
        let head = changes.drop_last();
        assert(changes.last() == changes[changes.len() - 1]);
        assert forall|c: Change| head.contains(c) implies changes.contains(c) by {
            let at = choose|at: int| 0 <= at < head.len() && head[at] == c;
            assert(changes[at] == c);
        }
    }
}

proof fn lemma_unwinding_restores(state: TerminalState, changes: Seq<Change>)
    ensures
        ({
            let end = after_restores(state, unwinding(changes));
            &&& end.raw_mode == (state.raw_mode && !changes.contains(Change::RawMode))
            &&& end.alternate_screen == (state.alternate_screen && !changes.contains(
                Change::AlternateScreen,
            ))
            &&& end.mouse_capture == (state.mouse_capture && !changes.contains(
                Change::MouseCapture,
            ))
        }),
    decreases changes.len(),
{
    if changes.len() > 0 {
        let head = changes.drop_last();
        let first = undoing(changes.last());
        lemma_after_restores_concat(state, seq![first], unwinding(head));
        lemma_after_restores_push(state, Seq::<Restore>::empty(), first);
        assert(Seq::<Restore>::empty().push(first) == seq![first]);
        assert(after_restores(state, seq![first]) == restored(state, first));
        lemma_unwinding_restores(restored(state, first), head);
        assert(changes.last() == changes[changes.len() - 1]);
        assert forall|c: Change| changes.contains(c) <==> (head.contains(c) || c
            == changes.last()) by {
            if head.contains(c) {
                let at = choose|at: int| 0 <= at < head.len() && head[at] == c;
                assert(changes[at] == c);
            }
            if changes.contains(c) {
                let at = choose|at: int| 0 <= at < changes.len() && changes[at] == c;
                if at < head.len() {
                    assert(head[at] == c);
                }
            }
        }
    }
}

proof fn lemma_after_restores_push(state: TerminalState, steps: Seq<Restore>, step: Restore)
    ensures
        after_restores(state, steps.push(step)) == restored(after_restores(state, steps), step),
{
    assert(steps.push(step).drop_last() == steps);
    assert(steps.push(step).last() == step);
}

proof fn lemma_after_restores_concat(state: TerminalState, a: Seq<Restore>, b: Seq<Restore>)
    ensures
        after_restores(state, a + b) == after_restores(after_restores(state, a), b),
    decreases b.len(),
{
    if b.len() == 0 {
        assert(a + b == a);
    } else {
        assert((a + b).drop_last() == a + b.drop_last());
        assert((a + b).last() == b.last());
        lemma_after_restores_concat(state, a, b.drop_last());
    }
}

/// Whatever changes were made, in whatever order, and at whatever point
/// the way out is taken: after the steps on the way out the terminal is
/// off the alternate screen, echoes again, is in cooked mode, reports no
/// mouse events, and nothing is left open or buffered.
pub proof fn exit_restores_terminal(changes: Seq<Change>, graphics_open: bool)
    ensures
        after_restores(
            TerminalState { graphics_open, ..after_changes(clean_state(), changes) },
            exit_steps(changes),
        ) == clean_state(),
{
    let reached = after_changes(clean_state(), changes);
    let state = TerminalState { graphics_open, ..reached };
    lemma_changes_accounted(clean_state(), changes);
    lemma_unwinding_restores(state, changes);
    let tail = seq![Restore::StopGraphics, Restore::EchoOn, Restore::Flush];
    lemma_after_restores_concat(state, unwinding(changes), tail);
    let unwound = after_restores(state, unwinding(changes));
    let none = Seq::<Restore>::empty();
    lemma_after_restores_push(unwound, none, Restore::StopGraphics);
    lemma_after_restores_push(unwound, none.push(Restore::StopGraphics), Restore::EchoOn);
    lemma_after_restores_push(
        unwound,
        none.push(Restore::StopGraphics).push(Restore::EchoOn),
        Restore::Flush,
    );
    assert(none.push(Restore::StopGraphics).push(Restore::EchoOn).push(Restore::Flush) == tail);
}

} // verus!
