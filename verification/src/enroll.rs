//! Keyboard enrollment: which observed key presses count, which devices are
//! recorded, how a stable device alias is chosen, and when a Hyper+A chord
//! has been verified.

use vstd::prelude::*;
use crate::keys::KEY_A;
use crate::order::{
    char_views_of, insert_unique_sorted, strictly_ascending, strings_of, views_of,
};
use crate::text::{chars_of, same_text};

verus! {

/// Whether an observed key event is the press being waited for: a press
/// (value 1) of the expected key, or of any key when none is expected.
pub open spec fn is_requested_press_spec(expected: Option<u16>, key: u16, value: i32) -> bool {
    value == 1 && match expected {
        Some(k) => key == k,
        None => true,
    }
}

/// Decides whether an observed key event is the press being waited for.
pub fn is_requested_press(expected: Option<u16>, key: u16, value: i32) -> (b: bool)
    ensures
        b == is_requested_press_spec(expected, key, value),
        b ==> value == 1,
        b && expected is Some ==> expected == Some(key),
{
    if value != 1 {
        return false;
    }
    match expected {
        Some(k) => key == k,
        None => true,
    }
}

/// Only a physical press is ever the requested press: a release or a repeat
/// never is. When a key is expected, only that key's press is; when none is,
/// the press of any key is.
pub proof fn lemma_requested_press_is_a_press(expected: Option<u16>, key: u16, value: i32)
    ensures
        is_requested_press_spec(expected, key, value) ==> value == 1,
        is_requested_press_spec(expected, key, value) ==> (expected is None || expected == Some(key)),
        value == 1 && (expected is None || expected == Some(key)) ==> is_requested_press_spec(
            expected,
            key,
            value,
        ),
{
}

/// The stable device paths to record: the Hyper stream, then the command
/// stream unless it is the same device.
pub fn enrollment_devices(hyper_stable: String, command_stable: String) -> (devices: Vec<String>)
    ensures
        devices@.len() >= 1,
        devices@[0]@ == hyper_stable@,
        hyper_stable@ == command_stable@ ==> devices@.len() == 1,
        hyper_stable@ != command_stable@ ==> devices@.len() == 2 && devices@[1]@ == command_stable@,
{
    let same = same_text(&hyper_stable, &command_stable);
    let mut devices: Vec<String> = Vec::new();
    devices.push(hyper_stable);
    if !same {
        devices.push(command_stable);
    }
    devices
}

/// Why no single stable alias could be chosen for a device.
#[derive(Debug)]
pub enum StableAliasError {
    /// No alias resolves to the device.
    NoAlias,
    /// Several aliases resolve to it, listed in ascending order.
    MultipleAliases(Vec<String>),
}

/// Whether an alias entry resolves to `target`.
pub open spec fn resolves_to(entry: (String, Option<String>), target: Seq<char>) -> bool {
    match entry.1 {
        Some(t) => t@ == target,
        None => false,
    }
}

/// The alias paths among `entries` that resolve to `target`. Each entry is an
/// alias path with the path it resolves to, if it resolves at all.
pub open spec fn matching_aliases(target: Seq<char>, entries: Seq<(String, Option<String>)>) -> Set<Seq<char>> {
    Set::new(
        |p: Seq<char>|
            exists|i: int|
                0 <= i < entries.len() && (#[trigger] entries[i]).0@ == p && resolves_to(entries[i], target),
    )
}

/// Chooses the stable alias of a device: the one alias that resolves to the
/// device's canonical path. No alias, or several, is an error; several are
/// reported in ascending order and without repetition.
pub fn select_stable_alias(target: &String, entries: &Vec<(String, Option<String>)>) -> (r: Result<String, StableAliasError>)
    ensures
        match r {
            Ok(alias) => matching_aliases(target@, entries@) == set![alias@],
            Err(StableAliasError::NoAlias) => matching_aliases(target@, entries@).is_empty(),
            Err(StableAliasError::MultipleAliases(list)) => {
                &&& list@.len() >= 2
                &&& strictly_ascending(views_of(list@))
                &&& views_of(list@).to_set() == matching_aliases(target@, entries@)
            },
        },
{
    let ghost m = matching_aliases(target@, entries@);
    let mut found: Vec<Vec<char>> = Vec::new();
    let mut i: usize = 0;
    while i < entries.len()
        invariant
            i <= entries@.len(),
            m == matching_aliases(target@, entries@),
            strictly_ascending(char_views_of(found@)),
            char_views_of(found@).to_set() == Set::new(
                |p: Seq<char>|
                    exists|j: int|
                        0 <= j < i && (#[trigger] entries@[j]).0@ == p && resolves_to(entries@[j], target@),
            ),
        decreases entries@.len() - i,
    {
        let ghost before = char_views_of(found@).to_set();
        let entry = &entries[i];
        let resolved = match &entry.1 {
            Some(t) => same_text(t, target),
            None => false,
        };
        if resolved {
            let alias = chars_of(entry.0.as_str());
            insert_unique_sorted(&mut found, alias);
        }
        proof {
            let now = Set::new(
                |p: Seq<char>|
                    exists|j: int|
                        0 <= j < i + 1 && (#[trigger] entries@[j]).0@ == p && resolves_to(entries@[j], target@),
            );
            assert forall|p: Seq<char>| char_views_of(found@).to_set().contains(p) <==> now.contains(p) by {
                if now.contains(p) {
                    let j = choose|j: int|
                        0 <= j < i + 1 && (#[trigger] entries@[j]).0@ == p && resolves_to(entries@[j], target@);
                    if j < i {
                        assert(before.contains(p));
                    }
                }
                if before.contains(p) {
                    let j = choose|j: int|
                        0 <= j < i && (#[trigger] entries@[j]).0@ == p && resolves_to(entries@[j], target@);
                    assert(now.contains(p));
                }
                if resolved && p == entries@[i as int].0@ {
                    assert(now.contains(p));
                }
            }
            assert(char_views_of(found@).to_set() =~= now);
        }
        i = i + 1;
    }
    let ghost fv = char_views_of(found@);
    assert(fv.to_set() =~= m);
    if found.len() == 0 {
        assert(m =~= Set::<Seq<char>>::empty()) by {
            assert forall|p: Seq<char>| !m.contains(p) by {
                if m.contains(p) {
                    assert(fv.to_set().contains(p));
                }
            }
        }
        return Err(StableAliasError::NoAlias);
    }
    let list = strings_of(&found);
    if list.len() == 1 {
        let alias = list[0].clone();
        assert(m =~= set![alias@]) by {
            assert forall|p: Seq<char>| m.contains(p) <==> p == alias@ by {
                if m.contains(p) {
                    assert(fv.contains(p));
                    let k = choose|k: int| 0 <= k < fv.len() && fv[k] == p;
                    assert(k == 0);
                }
                if p == alias@ {
                    assert(fv[0] == p);
                    assert(fv.contains(p));
                }
            }
        }
        return Ok(alias);
    }
    Err(StableAliasError::MultipleAliases(list))
}

/// How far the guided Hyper+A chord has come: hold Hyper, press and release
/// `A`, release Hyper.
#[derive(Clone, Copy, Debug, PartialEq, Eq, Structural)]
pub enum ChordStage {
    /// Hyper is held nowhere; the chord has not begun.
    Waiting,
    /// Hyper is held; `A` has not been pressed yet.
    HyperHeld,
    /// Hyper is held and `A` is down.
    APressed,
    /// Hyper is held and `A` has been pressed and released.
    AReleased,
}

/// What one key event did to the verification, for guiding the user.
#[derive(Clone, Copy, Debug, PartialEq, Eq, Structural)]
pub enum ChordProgress {
    /// Nothing that moves the chord forward or back.
    Unchanged,
    /// Hyper went down: now press and release `A`.
    HyperHeld,
    /// `A` went down while Hyper was held: now release `A`.
    APressed,
    /// `A` was released while Hyper was held: now release Hyper.
    AReleased,
    /// Hyper was released before `A` was pressed and released; the chord
    /// starts over.
    ReleasedEarly,
    /// Hyper was released after the complete chord: verification succeeded.
    Verified,
}

/// One step of the chord: the next stage, the next set of devices holding
/// Hyper, and the progress report. A Hyper press marks its device; a Hyper
/// release unmarks it, and once no device holds Hyper the chord ends:
/// verified after a complete `A` press and release, restarted otherwise.
/// While Hyper is held, an `A` press and then an `A` release advance the
/// chord; every other event leaves it as it is.
pub open spec fn chord_step(
    stage: ChordStage,
    held: Set<Seq<char>>,
    hyper_key: u16,
    device: Seq<char>,
    key: u16,
    value: i32,
) -> (ChordStage, Set<Seq<char>>, ChordProgress) {
    if key == hyper_key {
        if value == 1 {
            let now_held = held.insert(device);
            if stage == ChordStage::Waiting {
                (ChordStage::HyperHeld, now_held, ChordProgress::HyperHeld)
            } else {
                (stage, now_held, ChordProgress::Unchanged)
            }
        } else if value == 0 {
            let now_held = held.remove(device);
            if !now_held.is_empty() {
                (stage, now_held, ChordProgress::Unchanged)
            } else if stage == ChordStage::AReleased {
                (ChordStage::Waiting, now_held, ChordProgress::Verified)
            } else if stage == ChordStage::Waiting {
                (ChordStage::Waiting, now_held, ChordProgress::Unchanged)
            } else {
                (ChordStage::Waiting, now_held, ChordProgress::ReleasedEarly)
            }
        } else {
            (stage, held, ChordProgress::Unchanged)
        }
    } else if key == KEY_A && value == 1 && stage == ChordStage::HyperHeld {
        (ChordStage::APressed, held, ChordProgress::APressed)
    } else if key == KEY_A && value == 0 && stage == ChordStage::APressed {
        (ChordStage::AReleased, held, ChordProgress::AReleased)
    } else {
        (stage, held, ChordProgress::Unchanged)
    }
}

/// A Hyper event that is neither a press nor a release (a repeat, or an
/// unknown value) changes nothing: not the stage, not the devices holding
/// Hyper. Nor does any event of a key that is neither Hyper nor `A`.
pub proof fn lemma_chord_ignores_hyper_repeats(
    stage: ChordStage,
    held: Set<Seq<char>>,
    hyper_key: u16,
    device: Seq<char>,
    key: u16,
    value: i32,
)
    ensures
        key == hyper_key && value != 0 && value != 1 ==> chord_step(stage, held, hyper_key, device, key, value)
            == (stage, held, ChordProgress::Unchanged),
        key != hyper_key && key != KEY_A ==> chord_step(stage, held, hyper_key, device, key, value) == (
            stage,
            held,
            ChordProgress::Unchanged,
        ),
{
}

/// Once `A` has been pressed and released with Hyper held, the chord stays
/// complete until Hyper is released everywhere, and that release verifies
/// it; only a release that leaves Hyper held nowhere ends the chord, and it
/// verifies exactly when the chord was complete.
pub proof fn lemma_chord_completes_on_last_release(
    stage: ChordStage,
    held: Set<Seq<char>>,
    hyper_key: u16,
    device: Seq<char>,
    key: u16,
    value: i32,
)
    ensures
        stage == ChordStage::AReleased && !(key == hyper_key && value == 0) ==> chord_step(
            stage,
            held,
            hyper_key,
            device,
            key,
            value,
        ).0 == ChordStage::AReleased,
        ({
            let (next_stage, next_held, progress) = chord_step(stage, held, hyper_key, device, key, value);
            &&& progress == ChordProgress::Verified <==> (key == hyper_key && value == 0 && held.remove(
                device,
            ).is_empty() && stage == ChordStage::AReleased)
            &&& progress == ChordProgress::ReleasedEarly <==> (key == hyper_key && value == 0
                && held.remove(device).is_empty() && (stage == ChordStage::HyperHeld || stage
                == ChordStage::APressed))
        }),
{
}

/// The guided Hyper+A verification on the selected devices: which devices
/// hold Hyper down, and how far the chord has come.
pub struct HyperAVerification {
    hyper_key: u16,
    held: Vec<String>,
    stage: ChordStage,
}

impl HyperAVerification {
    /// The Hyper key being verified.
    pub closed spec fn hyper_key_spec(&self) -> u16 {
        self.hyper_key
    }

    /// The devices on which Hyper is currently held.
    pub closed spec fn held_devices(&self) -> Set<Seq<char>> {
        views_of(self.held@).to_set()
    }

    /// How far the chord has come.
    pub closed spec fn stage_spec(&self) -> ChordStage {
        self.stage
    }

    /// A verification that waits for Hyper, with Hyper held nowhere.
    pub fn new(hyper_key: u16) -> (v: Self)
        ensures
            v.hyper_key_spec() == hyper_key,
            v.held_devices() == Set::<Seq<char>>::empty(),
            v.stage_spec() == ChordStage::Waiting,
    {
        let v = HyperAVerification { hyper_key, held: Vec::new(), stage: ChordStage::Waiting };
        assert(views_of(v.held@).to_set() =~= Set::<Seq<char>>::empty());
        v
    }

    /// How far the chord has come.
    pub fn stage(&self) -> (stage: ChordStage)
        ensures
            stage == self.stage_spec(),
    {
        self.stage
    }

    /// Takes one key event from a selected device and reports what it did to
    /// the chord (see `chord_step`).
    pub fn observe(&mut self, device_path: &String, key: u16, value: i32) -> (progress: ChordProgress)
        ensures
            final(self).hyper_key_spec() == old(self).hyper_key_spec(),
            (final(self).stage_spec(), final(self).held_devices(), progress) == chord_step(
                old(self).stage_spec(),
                old(self).held_devices(),
                old(self).hyper_key_spec(),
                device_path@,
                key,
                value,
            ),
            key == old(self).hyper_key_spec() && value != 0 && value != 1 ==> {
                &&& final(self).stage_spec() == old(self).stage_spec()
                &&& final(self).held_devices() == old(self).held_devices()
                &&& progress == ChordProgress::Unchanged
            },
    {
        if key == self.hyper_key {
            if value == 1 {
                self.hold(device_path);
                if self.stage == ChordStage::Waiting {
                    self.stage = ChordStage::HyperHeld;
                    return ChordProgress::HyperHeld;
                }
                return ChordProgress::Unchanged;
            } else if value == 0 {
                self.release(device_path);
                let none_held = self.held.len() == 0;
                proof {
                    let s = views_of(self.held@);
                    if self.held@.len() > 0 {
                        assert(s.to_set().contains(s[0]));
                    } else {
                        assert(s.to_set() =~= Set::<Seq<char>>::empty());
                    }
                }
                if !none_held {
                    return ChordProgress::Unchanged;
                }
                let previous = self.stage;
                self.stage = ChordStage::Waiting;
                return match previous {
                    ChordStage::AReleased => ChordProgress::Verified,
                    ChordStage::Waiting => ChordProgress::Unchanged,
                    _ => ChordProgress::ReleasedEarly,
                };
            }
            return ChordProgress::Unchanged;
        }
        if key == KEY_A && value == 1 && self.stage == ChordStage::HyperHeld {
            self.stage = ChordStage::APressed;
            return ChordProgress::APressed;
        }
        if key == KEY_A && value == 0 && self.stage == ChordStage::APressed {
            self.stage = ChordStage::AReleased;
            return ChordProgress::AReleased;
        }
        ChordProgress::Unchanged
    }

    /// Marks a device as holding Hyper.
    fn hold(&mut self, device_path: &String)
        ensures
            final(self).hyper_key_spec() == old(self).hyper_key_spec(),
            final(self).held_devices() == old(self).held_devices().insert(device_path@),
            final(self).stage_spec() == old(self).stage_spec(),
    {
        let ghost start = views_of(self.held@);
        let mut i: usize = 0;
        while i < self.held.len()
            invariant
                i <= self.held@.len(),
                views_of(self.held@) == start,
                forall|j: int| 0 <= j < i ==> start[j] != device_path@,
            decreases self.held@.len() - i,
        {
            if same_text(&self.held[i], device_path) {
                assert(start[i as int] == device_path@);
                assert(start.to_set().insert(device_path@) =~= start.to_set());
                return;
            }
            i = i + 1;
        }
        self.held.push(device_path.clone());
        assert(views_of(self.held@) =~= start.push(device_path@));
        proof {
            let now = start.push(device_path@);
            assert forall|p: Seq<char>| now.contains(p) <==> start.to_set().insert(device_path@).contains(p) by {
                if now.contains(p) {
                    let k = choose|k: int| 0 <= k < now.len() && now[k] == p;
                    if k < start.len() {
                        assert(start[k] == p);
                    }
                }
                if start.contains(p) {
                    let k = choose|k: int| 0 <= k < start.len() && start[k] == p;
                    assert(now[k] == p);
                }
                if p == device_path@ {
                    assert(now[start.len() as int] == p);
                }
            }
            assert(now.to_set() =~= start.to_set().insert(device_path@));
        }
    }

    /// Marks a device as no longer holding Hyper.
    fn release(&mut self, device_path: &String)
        ensures
            final(self).hyper_key_spec() == old(self).hyper_key_spec(),
            final(self).held_devices() == old(self).held_devices().remove(device_path@),
            final(self).stage_spec() == old(self).stage_spec(),
    {
        let ghost start = views_of(self.held@);
        let mut kept: Vec<String> = Vec::new();
        let mut i: usize = 0;
        while i < self.held.len()
            invariant
                i <= self.held@.len(),
                views_of(self.held@) == start,
                forall|p: Seq<char>|
                    views_of(kept@).contains(p) <==> ((exists|k: int| 0 <= k < i && #[trigger] start[k] == p)
                        && p != device_path@),
            decreases self.held@.len() - i,
        {
            let ghost prev = views_of(kept@);
            let keep = !same_text(&self.held[i], device_path);
            if keep {
                kept.push(self.held[i].clone());
            }
            proof {
                let cur = views_of(kept@);
                if keep {
                    assert(cur =~= prev.push(start[i as int]));
                } else {
                    assert(cur == prev);
                }
                assert forall|p: Seq<char>| cur.contains(p) <==> ((exists|k: int|
                    0 <= k < i + 1 && #[trigger] start[k] == p) && p != device_path@) by {
                    if cur.contains(p) {
                        let k = choose|k: int| 0 <= k < cur.len() && cur[k] == p;
                        if k < prev.len() {
                            assert(prev[k] == p);
                            assert(prev.contains(p));
                        } else {
                            assert(start[i as int] == p);
                        }
                    }
                    if (exists|k: int| 0 <= k < i + 1 && #[trigger] start[k] == p) && p != device_path@ {
                        let k = choose|k: int| 0 <= k < i + 1 && #[trigger] start[k] == p;
                        if k < i {
                            assert(prev.contains(p));
                            let m = choose|m: int| 0 <= m < prev.len() && prev[m] == p;
                            assert(cur[m] == p);
                        } else {
                            assert(keep);
                            assert(cur[prev.len() as int] == p);
                        }
                    }
                }
            }
            i = i + 1;
        }
        self.held = kept;
        proof {
            let now = views_of(self.held@);
            assert forall|p: Seq<char>| now.to_set().contains(p) <==> start.to_set().remove(device_path@).contains(p) by {
                if start.contains(p) {
                    let k = choose|k: int| 0 <= k < start.len() && start[k] == p;
                    assert(start[k] == p);
                }
            }
            assert(now.to_set() =~= start.to_set().remove(device_path@));
        }
    }
}

} // verus!
