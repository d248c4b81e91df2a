//! Properties of the dispatcher over single events and over whole event
//! sequences.

use vstd::prelude::*;
use crate::dispatch::{event_step, EventOutcome, HyperChange, KeyValue};
use crate::enroll::{chord_step, ChordProgress, ChordStage};
use crate::keys::{command_char_of, command_key_code, lemma_command_char_of_inverts, KEY_A};

verus! {

/// The outcomes of a sequence of `(key, value)` events, starting armed or idle.
pub open spec fn run_events(armed: bool, hyper_key: u16, events: Seq<(u16, KeyValue)>) -> Seq<EventOutcome>
    decreases events.len(),
{
    if events.len() == 0 {
        seq![]
    } else {
        let (next, outcome) = event_step(armed, hyper_key, events[0].0, events[0].1);
        seq![outcome] + run_events(next, hyper_key, events.drop_first())
    }
}

/// The armed state after a sequence of events.
pub open spec fn armed_after(armed: bool, hyper_key: u16, events: Seq<(u16, KeyValue)>) -> bool
    decreases events.len(),
{
    if events.len() == 0 {
        armed
    } else {
        let before = armed_after(armed, hyper_key, events.drop_last());
        event_step(before, hyper_key, events.last().0, events.last().1).0
    }
}

/// The event is a press of Hyper.
pub open spec fn is_hyper_press(hyper_key: u16, event: (u16, KeyValue)) -> bool {
    event.0 == hyper_key && event.1 == KeyValue::Press
}

/// The event is a release of Hyper.
pub open spec fn is_hyper_release(hyper_key: u16, event: (u16, KeyValue)) -> bool {
    event.0 == hyper_key && event.1 == KeyValue::Release
}

/// Hyper is down after the events: some Hyper press is followed by no Hyper
/// release, or Hyper was down at the start and no Hyper release followed.
pub open spec fn hyper_down_after(armed: bool, hyper_key: u16, events: Seq<(u16, KeyValue)>) -> bool {
    ||| exists|i: int|
        0 <= i < events.len() && #[trigger] is_hyper_press(hyper_key, events[i]) && forall|j: int|
            i < j < events.len() ==> !#[trigger] is_hyper_release(hyper_key, events[j])
    ||| armed && forall|j: int| 0 <= j < events.len() ==> !#[trigger] is_hyper_release(hyper_key, events[j])
}

/// The dispatcher is armed after any sequence of events exactly when Hyper is
/// down by the events' history: other keys, and repeats or unknown values of
/// Hyper, never change the state.
pub proof fn lemma_armed_exactly_when_hyper_down(armed: bool, hyper_key: u16, events: Seq<(u16, KeyValue)>)
    ensures
        armed_after(armed, hyper_key, events) == hyper_down_after(armed, hyper_key, events),
    decreases events.len(),
{
    if events.len() > 0 {
        let p = events.drop_last();
        let n = events.len() - 1;
        let e = events.last();
        lemma_armed_exactly_when_hyper_down(armed, hyper_key, p);
        assert forall|j: int| 0 <= j < p.len() implies p[j] == events[j] by {}
        if is_hyper_press(hyper_key, e) {
            assert(is_hyper_press(hyper_key, events[n]));
        } else if is_hyper_release(hyper_key, e) {
            assert(is_hyper_release(hyper_key, events[n]));
            assert(!hyper_down_after(armed, hyper_key, events));
        } else {
            if hyper_down_after(armed, hyper_key, p) {
                if exists|i: int|
                    0 <= i < p.len() && #[trigger] is_hyper_press(hyper_key, p[i]) && forall|j: int|
                        i < j < p.len() ==> !#[trigger] is_hyper_release(hyper_key, p[j]) {
                    let i = choose|i: int|
                        0 <= i < p.len() && #[trigger] is_hyper_press(hyper_key, p[i]) && forall|j: int|
                            i < j < p.len() ==> !#[trigger] is_hyper_release(hyper_key, p[j]);
                    assert(is_hyper_press(hyper_key, events[i]));
                    assert forall|j: int| i < j < events.len() implies !#[trigger] is_hyper_release(hyper_key, events[j]) by {
                        if j < n {
                            assert(p[j] == events[j]);
                        }
                    }
                } else {
                    assert forall|j: int| 0 <= j < events.len() implies !#[trigger] is_hyper_release(hyper_key, events[j]) by {
                        if j < n {
                            assert(p[j] == events[j]);
                        }
                    }
                }
            }
            if hyper_down_after(armed, hyper_key, events) {
                if exists|i: int|
                    0 <= i < events.len() && #[trigger] is_hyper_press(hyper_key, events[i]) && forall|j: int|
                        i < j < events.len() ==> !#[trigger] is_hyper_release(hyper_key, events[j]) {
                    let i = choose|i: int|
                        0 <= i < events.len() && #[trigger] is_hyper_press(hyper_key, events[i]) && forall|j: int|
                            i < j < events.len() ==> !#[trigger] is_hyper_release(hyper_key, events[j]);
                    assert(i < n);
                    assert(is_hyper_press(hyper_key, p[i]));
                    assert forall|j: int| i < j < p.len() implies !#[trigger] is_hyper_release(hyper_key, p[j]) by {
                        assert(!is_hyper_release(hyper_key, events[j]));
                    }
                } else {
                    assert forall|j: int| 0 <= j < p.len() implies !#[trigger] is_hyper_release(hyper_key, p[j]) by {
                        assert(!is_hyper_release(hyper_key, events[j]));
                    }
                }
            }
        }
    }
}

/// A fresh dispatcher is armed after a sequence of events exactly when some
/// Hyper press in it is followed by no Hyper release.
pub proof fn lemma_fresh_dispatcher_armed_when_hyper_held(hyper_key: u16, events: Seq<(u16, KeyValue)>)
    ensures
        armed_after(false, hyper_key, events) == exists|i: int|
            0 <= i < events.len() && #[trigger] is_hyper_press(hyper_key, events[i]) && forall|j: int|
                i < j < events.len() ==> !#[trigger] is_hyper_release(hyper_key, events[j]),
{
    lemma_armed_exactly_when_hyper_down(false, hyper_key, events);
}

/// The command characters dispatched, in order.
pub open spec fn commands_of(outcomes: Seq<EventOutcome>) -> Seq<char>
    decreases outcomes.len(),
{
    if outcomes.len() == 0 {
        seq![]
    } else {
        let first = match outcomes[0] {
            EventOutcome::Command(c) => seq![c],
            _ => seq![],
        };
        first + commands_of(outcomes.drop_first())
    }
}

/// The command characters of the physical presses of alphanumeric keys in a
/// sequence of events, in order.
pub open spec fn command_presses(events: Seq<(u16, KeyValue)>) -> Seq<char>
    decreases events.len(),
{
    if events.len() == 0 {
        seq![]
    } else {
        let first = if events[0].1 == KeyValue::Press {
            match command_char_of(events[0].0) {
                Some(c) => seq![c],
                None => seq![],
            }
        } else {
            seq![]
        };
        first + command_presses(events.drop_first())
    }
}

/// Pressing Hyper arms the dispatcher and releasing it disarms it, from
/// either state; a repeat or an unknown value of Hyper leaves the state as it
/// is. A Hyper event is never a command.
pub proof fn lemma_hyper_key_controls_armed_state(armed: bool, hyper_key: u16, value: KeyValue)
    ensures
        value == KeyValue::Press ==> event_step(armed, hyper_key, hyper_key, value).0,
        value == KeyValue::Release ==> !event_step(armed, hyper_key, hyper_key, value).0,
        (value is Repeat || value is Other) ==> event_step(armed, hyper_key, hyper_key, value).0 == armed,
        event_step(armed, hyper_key, hyper_key, value).1 is Hyper,
        value == KeyValue::Press ==> event_step(armed, hyper_key, hyper_key, value).1 == (if armed {
            EventOutcome::Hyper(HyperChange::AlreadyArmed)
        } else {
            EventOutcome::Hyper(HyperChange::Armed)
        }),
        value == KeyValue::Release ==> event_step(armed, hyper_key, hyper_key, value).1 == (if armed {
            EventOutcome::Hyper(HyperChange::Disarmed)
        } else {
            EventOutcome::Hyper(HyperChange::AlreadyIdle)
        }),
{
}

/// Keys other than Hyper never change the armed state.
pub proof fn lemma_other_keys_keep_state(armed: bool, hyper_key: u16, key: u16, value: KeyValue)
    requires
        key != hyper_key,
    ensures
        event_step(armed, hyper_key, key, value).0 == armed,
{
}

/// An event is a command exactly when the dispatcher is armed and the event
/// is a physical press of an alphanumeric key other than Hyper; the command
/// is that key's character.
pub proof fn lemma_command_exactly_when(armed: bool, hyper_key: u16, key: u16, value: KeyValue, c: char)
    ensures
        event_step(armed, hyper_key, key, value).1 == EventOutcome::Command(c) <==> (armed && key
            != hyper_key && value == KeyValue::Press && command_key_code(c) == Some(key)),
{
    lemma_command_char_of_inverts(key, c);
}

/// Key-repeat events never dispatch: holding a command key does not launch
/// it again.
pub proof fn lemma_repeat_never_dispatches(armed: bool, hyper_key: u16, key: u16)
    ensures
        !(event_step(armed, hyper_key, key, KeyValue::Repeat).1 is Command),
{
}

/// Without Hyper events the state never changes; while armed, every physical
/// press of an alphanumeric key is one command, in order, with nothing
/// buffered or combined; while idle nothing is dispatched.
pub proof fn lemma_presses_are_commands(armed: bool, hyper_key: u16, events: Seq<(u16, KeyValue)>)
    requires
        forall|i: int| 0 <= i < events.len() ==> (#[trigger] events[i]).0 != hyper_key,
    ensures
        armed_after(armed, hyper_key, events) == armed,
        commands_of(run_events(armed, hyper_key, events)) == if armed {
            command_presses(events)
        } else {
            Seq::<char>::empty()
        },
{
    lemma_armed_exactly_when_hyper_down(armed, hyper_key, events);
    assert forall|j: int| 0 <= j < events.len() implies !#[trigger] is_hyper_release(hyper_key, events[j]) by {
        assert(events[j].0 != hyper_key);
    }
    if exists|i: int| 0 <= i < events.len() && #[trigger] is_hyper_press(hyper_key, events[i]) && forall|j: int|
        i < j < events.len() ==> !#[trigger] is_hyper_release(hyper_key, events[j]) {
        let i = choose|i: int| 0 <= i < events.len() && #[trigger] is_hyper_press(hyper_key, events[i]) && forall|j: int|
            i < j < events.len() ==> !#[trigger] is_hyper_release(hyper_key, events[j]);
        assert(events[i].0 != hyper_key);
    }
    lemma_presses_are_commands_run(armed, hyper_key, events);
}

/// The commands of a run without Hyper events.
proof fn lemma_presses_are_commands_run(armed: bool, hyper_key: u16, events: Seq<(u16, KeyValue)>)
    requires
        forall|i: int| 0 <= i < events.len() ==> (#[trigger] events[i]).0 != hyper_key,
    ensures
        commands_of(run_events(armed, hyper_key, events)) == if armed {
            command_presses(events)
        } else {
            Seq::<char>::empty()
        },
    decreases events.len(),
{
    if events.len() > 0 {
        let rest = events.drop_first();
        assert forall|i: int| 0 <= i < rest.len() implies (#[trigger] rest[i]).0 != hyper_key by {
            assert(rest[i] == events[i + 1]);
        }
        assert(events[0].0 != hyper_key);
        lemma_presses_are_commands_run(armed, hyper_key, rest);
        let (next, outcome) = event_step(armed, hyper_key, events[0].0, events[0].1);
        let outs = run_events(armed, hyper_key, events);
        assert(outs == seq![outcome] + run_events(armed, hyper_key, rest));
        assert(outs[0] == outcome);
        assert(outs.drop_first() =~= run_events(armed, hyper_key, rest));
        if armed {
            assert(commands_of(outs) =~= command_presses(events));
        } else {
            assert(commands_of(outs) =~= Seq::<char>::empty());
        }
    }
}

/// `n` repeats of a key.
pub open spec fn repeats(key: u16, n: nat) -> Seq<(u16, KeyValue)> {
    Seq::new(n, |i: int| (key, KeyValue::Repeat))
}

/// Holding a command key while Hyper is held launches its command once:
/// press, any number of repeats, release.
pub proof fn lemma_holding_a_key_launches_once(hyper_key: u16, key: u16, n: nat)
    requires
        key != hyper_key,
        command_char_of(key) is Some,
    ensures
        commands_of(
            run_events(true, hyper_key, seq![(key, KeyValue::Press)] + repeats(key, n) + seq![(key, KeyValue::Release)]),
        ) == seq![command_char_of(key).unwrap()],
{
    let events = seq![(key, KeyValue::Press)] + repeats(key, n) + seq![(key, KeyValue::Release)];
    assert forall|i: int| 0 <= i < events.len() implies (#[trigger] events[i]).0 != hyper_key by {
        if 1 <= i < n + 1 {
            assert(events[i] == repeats(key, n)[i - 1]);
        }
    }
    lemma_presses_are_commands(true, hyper_key, events);
    lemma_no_presses_in_repeats(key, n);
    let tail = repeats(key, n) + seq![(key, KeyValue::Release)];
    assert(events.drop_first() =~= tail);
    lemma_command_presses_append(repeats(key, n), seq![(key, KeyValue::Release)]);
    let last = seq![(key, KeyValue::Release)];
    assert(command_presses(last) =~= Seq::<char>::empty()) by {
        assert(last.drop_first() =~= Seq::<(u16, KeyValue)>::empty());
        assert(last[0].1 == KeyValue::Release);
        assert(command_presses(last) == Seq::<char>::empty() + command_presses(last.drop_first()));
    }
    assert(command_presses(events) =~= seq![command_char_of(key).unwrap()] + command_presses(tail));
}

/// Repeats are no presses.
proof fn lemma_no_presses_in_repeats(key: u16, n: nat)
    ensures
        command_presses(repeats(key, n)) == Seq::<char>::empty(),
    decreases n,
{
    if n > 0 {
        assert(repeats(key, n).drop_first() =~= repeats(key, (n - 1) as nat));
        lemma_no_presses_in_repeats(key, (n - 1) as nat);
        assert(command_presses(repeats(key, n)) =~= Seq::<char>::empty());
    }
}

/// The presses of two consecutive sequences.
proof fn lemma_command_presses_append(a: Seq<(u16, KeyValue)>, b: Seq<(u16, KeyValue)>)
    ensures
        command_presses(a + b) == command_presses(a) + command_presses(b),
    decreases a.len(),
{
    if a.len() == 0 {
        assert(a + b =~= b);
        assert(command_presses(a) + command_presses(b) =~= command_presses(b));
    } else {
        assert((a + b).drop_first() =~= a.drop_first() + b);
        assert((a + b)[0] == a[0]);
        lemma_command_presses_append(a.drop_first(), b);
        let first = if a[0].1 == KeyValue::Press {
            match command_char_of(a[0].0) {
                Some(c) => seq![c],
                None => seq![],
            }
        } else {
            seq![]
        };
        assert(command_presses(a + b) == first + command_presses(a.drop_first() + b));
        assert(command_presses(a) == first + command_presses(a.drop_first()));
        assert(first + (command_presses(a.drop_first()) + command_presses(b)) =~= (first
            + command_presses(a.drop_first())) + command_presses(b));
    }
}

// ---------------------------------------------------------------------------
// The Hyper+A verification over a stream of events
// ---------------------------------------------------------------------------

/// The chord stage and the devices holding Hyper after the first `n` events
/// of a stream of `(device, key, value)` events, from a fresh verification.
pub open spec fn chord_state_after(
    hyper_key: u16,
    events: Seq<(Seq<char>, u16, i32)>,
    n: nat,
) -> (ChordStage, Set<Seq<char>>)
    decreases n,
{
    if n == 0 {
        (ChordStage::Waiting, Set::<Seq<char>>::empty())
    } else {
        let (stage, held) = chord_state_after(hyper_key, events, (n - 1) as nat);
        let e = events[n - 1];
        let (next_stage, next_held, _) = chord_step(stage, held, hyper_key, e.0, e.1, e.2);
        (next_stage, next_held)
    }
}

/// The progress reported for event `k` of the stream.
pub open spec fn chord_progress_at(hyper_key: u16, events: Seq<(Seq<char>, u16, i32)>, k: nat) -> ChordProgress {
    let (stage, held) = chord_state_after(hyper_key, events, k);
    let e = events[k as int];
    chord_step(stage, held, hyper_key, e.0, e.1, e.2).2
}

/// Whether some device holds Hyper after the first `n` events.
pub open spec fn hyper_held_after(hyper_key: u16, events: Seq<(Seq<char>, u16, i32)>, n: nat) -> bool {
    !chord_state_after(hyper_key, events, n).1.is_empty()
}

/// Event `i` is a press (`value` 1) of the `A` key.
pub open spec fn is_a_press(events: Seq<(Seq<char>, u16, i32)>, i: int) -> bool {
    events[i].1 == KEY_A && events[i].2 == 1
}

/// Event `i` is a release (`value` 0) of the `A` key.
pub open spec fn is_a_release(events: Seq<(Seq<char>, u16, i32)>, i: int) -> bool {
    events[i].1 == KEY_A && events[i].2 == 0
}

/// What the chord stage after `n` events records about the stream: the
/// stage is waiting exactly when Hyper is held nowhere; `A` down means an
/// `A` press happened with Hyper held on some device ever since; `A`
/// released means that press was followed by an `A` release, Hyper still
/// held throughout.
pub open spec fn chord_history(hyper_key: u16, events: Seq<(Seq<char>, u16, i32)>, n: nat) -> bool {
    let stage = chord_state_after(hyper_key, events, n).0;
    &&& (stage == ChordStage::Waiting) == !hyper_held_after(hyper_key, events, n)
    &&& stage == ChordStage::APressed ==> exists|j: int|
        0 <= j < n && is_a_press(events, j) && hyper_key != KEY_A && (forall|m: int|
            j <= m < n ==> #[trigger] hyper_held_after(hyper_key, events, (m + 1) as nat))
    &&& stage == ChordStage::AReleased ==> exists|j: int, l: int|
        0 <= j < l < n && is_a_press(events, j) && is_a_release(events, l) && hyper_key != KEY_A
            && (forall|m: int| j <= m < n ==> #[trigger] hyper_held_after(hyper_key, events, (m + 1) as nat))
}

/// The history holds after every prefix of the stream.
pub proof fn lemma_chord_history(hyper_key: u16, events: Seq<(Seq<char>, u16, i32)>, n: nat)
    requires
        n <= events.len(),
    ensures
        chord_history(hyper_key, events, n),
    decreases n,
{
    if n == 0 {
        assert(Set::<Seq<char>>::empty().is_empty());
    } else {
        let k = (n - 1) as nat;
        lemma_chord_history(hyper_key, events, k);
        let (stage, held) = chord_state_after(hyper_key, events, k);
        let (next_stage, next_held) = chord_state_after(hyper_key, events, n);
        let e = events[k as int];
        if e.1 == hyper_key && e.2 == 1 {
            assert(next_held.contains(e.0));
        }
        if next_stage == ChordStage::APressed {
            if stage == ChordStage::APressed {
                let j = choose|j: int|
                    0 <= j < k && is_a_press(events, j) && hyper_key != KEY_A && (forall|m: int|
                        j <= m < k ==> #[trigger] hyper_held_after(hyper_key, events, (m + 1) as nat));
                assert forall|m: int| j <= m < n implies #[trigger] hyper_held_after(hyper_key, events, (m + 1) as nat) by {
                    if m == k {
                    }
                }
            } else {
                assert(is_a_press(events, k as int));
                assert(next_held == held);
                assert forall|m: int| k <= m < n implies #[trigger] hyper_held_after(hyper_key, events, (m + 1) as nat) by {
                    assert(m == k);
                }
            }
        }
        if next_stage == ChordStage::AReleased {
            if stage == ChordStage::AReleased {
                let (j, l) = choose|j: int, l: int|
                    0 <= j < l < k && is_a_press(events, j) && is_a_release(events, l) && hyper_key != KEY_A
                        && (forall|m: int| j <= m < k ==> #[trigger] hyper_held_after(hyper_key, events, (m + 1) as nat));
                assert forall|m: int| j <= m < n implies #[trigger] hyper_held_after(hyper_key, events, (m + 1) as nat) by {
                    if m == k {
                    }
                }
            } else {
                assert(stage == ChordStage::APressed);
                let j = choose|j: int|
                    0 <= j < k && is_a_press(events, j) && hyper_key != KEY_A && (forall|m: int|
                        j <= m < k ==> #[trigger] hyper_held_after(hyper_key, events, (m + 1) as nat));
                assert(is_a_release(events, k as int));
                assert(next_held == held);
                assert forall|m: int| j <= m < n implies #[trigger] hyper_held_after(hyper_key, events, (m + 1) as nat) by {
                    if m == k {
                    }
                }
                assert(0 <= j < (k as int) < n);
            }
        }
    }
}

/// Enrollment verification succeeds only on the complete guided chord: the
/// event is the Hyper release that leaves Hyper held nowhere, and before it
/// an `A` press and a later `A` release happened, with Hyper held on some
/// device from that press until this release.
pub proof fn lemma_verified_only_after_complete_chord(
    hyper_key: u16,
    events: Seq<(Seq<char>, u16, i32)>,
    k: nat,
)
    requires
        k < events.len(),
        chord_progress_at(hyper_key, events, k) == ChordProgress::Verified,
    ensures
        events[k as int].1 == hyper_key,
        events[k as int].2 == 0,
        !hyper_held_after(hyper_key, events, k + 1),
        hyper_key != KEY_A,
        exists|j: int, l: int|
            0 <= j < l < k && is_a_press(events, j) && is_a_release(events, l) && (forall|m: int|
                j <= m < k ==> #[trigger] hyper_held_after(hyper_key, events, (m + 1) as nat)),
{
    lemma_chord_history(hyper_key, events, k);
    assert(chord_state_after(hyper_key, events, k).0 == ChordStage::AReleased);
}

/// Releasing Hyper everywhere before the chord is complete restarts only the
/// verification: the state is that of a fresh verification again.
pub proof fn lemma_early_release_restarts(hyper_key: u16, events: Seq<(Seq<char>, u16, i32)>, k: nat)
    requires
        k < events.len(),
        chord_progress_at(hyper_key, events, k) == ChordProgress::ReleasedEarly,
    ensures
        events[k as int].1 == hyper_key,
        events[k as int].2 == 0,
        chord_state_after(hyper_key, events, k + 1) == (ChordStage::Waiting, Set::<Seq<char>>::empty()),
        chord_state_after(hyper_key, events, k).0 == ChordStage::HyperHeld
            || chord_state_after(hyper_key, events, k).0 == ChordStage::APressed,
{
    assert(chord_state_after(hyper_key, events, k + 1).1 =~= Set::<Seq<char>>::empty());
}

/// The guided chord verifies: Hyper down on one device, `A` pressed and
/// released (on any device), Hyper released; each step is reported.
pub proof fn lemma_guided_chord_verifies(hyper_key: u16, hyper_device: Seq<char>, command_device: Seq<char>)
    requires
        hyper_key != KEY_A,
    ensures
        ({
            let events = seq![
                (hyper_device, hyper_key, 1i32),
                (command_device, KEY_A, 1i32),
                (command_device, KEY_A, 0i32),
                (hyper_device, hyper_key, 0i32),
            ];
            &&& chord_progress_at(hyper_key, events, 0) == ChordProgress::HyperHeld
            &&& chord_progress_at(hyper_key, events, 1) == ChordProgress::APressed
            &&& chord_progress_at(hyper_key, events, 2) == ChordProgress::AReleased
            &&& chord_progress_at(hyper_key, events, 3) == ChordProgress::Verified
        }),
{
    let events = seq![
        (hyper_device, hyper_key, 1i32),
        (command_device, KEY_A, 1i32),
        (command_device, KEY_A, 0i32),
        (hyper_device, hyper_key, 0i32),
    ];
    let held = Set::<Seq<char>>::empty().insert(hyper_device);
    assert(chord_state_after(hyper_key, events, 1) == (ChordStage::HyperHeld, held));
    assert(chord_state_after(hyper_key, events, 2) == (ChordStage::APressed, held));
    assert(chord_state_after(hyper_key, events, 3) == (ChordStage::AReleased, held));
    assert(held.remove(hyper_device) =~= Set::<Seq<char>>::empty());
}

} // verus!
