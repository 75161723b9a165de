//! State of the event manager: which keys are held and which touches are
//! active, and which were pressed, released, started, moved or ended during
//! the current frame.
use std::collections::{HashMap, HashSet};
use vstd::prelude::*;

use crate::input::TouchPhase;
use crate::keycode::{Keycode, Modifiers};

verus! {

broadcast use vstd::std_specs::hash::group_hash_axioms;

/// The keys of `v`, as a set.
pub open spec fn key_set(v: Seq<Keycode>) -> Set<Keycode> {
    v.to_set()
}

/// No key occurs twice in `v`.
pub open spec fn distinct_keys(v: Seq<Keycode>) -> bool {
    forall|i: int, j: int| 0 <= i < v.len() && 0 <= j < v.len() && i != j ==> #[trigger] v[i] != #[trigger] v[j]
}

fn position_of(v: &Vec<Keycode>, key: Keycode) -> (r: Option<usize>)
    ensures
        match r {
            Some(i) => i < v@.len() && v@[i as int] == key,
            None => !v@.contains(key),
        },
{
    let mut i: usize = 0;
    while i < v.len()
        invariant
            0 <= i <= v@.len(),
            forall|j: int| 0 <= j < i ==> v@[j] != key,
        decreases v@.len() - i,
    {
        if v[i] == key {
            return Some(i);
        }
        i = i + 1;
    }
    None
}

/// Adds `key` to the set `v` holds; returns whether it was new.
fn set_insert(v: &mut Vec<Keycode>, key: Keycode) -> (added: bool)
    requires
        distinct_keys(old(v)@),
    ensures
        distinct_keys(final(v)@),
        key_set(final(v)@) == key_set(old(v)@).insert(key),
        added == !key_set(old(v)@).contains(key),
{
    match position_of(v, key) {
        Some(i) => {
            assert(key_set(v@).contains(key));
            assert(key_set(v@).insert(key) =~= key_set(v@));
            false
        },
        None => {
            let ghost before = v@;
            v.push(key);
            assert(key_set(v@) =~= key_set(before).insert(key)) by {
                assert forall|k: Keycode| #[trigger] key_set(v@).contains(k) <==> key_set(before).insert(key).contains(k) by {
                    if key_set(v@).contains(k) {
                        let j = choose|j: int| 0 <= j < v@.len() && v@[j] == k;
                        if j < before.len() {
                            assert(before[j] == k);
                        }
                    }
                    if before.contains(k) {
                        let j = choose|j: int| 0 <= j < before.len() && before[j] == k;
                        assert(v@[j] == k);
                    }
                    if k == key {
                        assert(v@[before.len() as int] == key);
                    }
                }
            }
            assert(!key_set(before).contains(key));
            true
        },
    }
}

/// Removes `key` from the set `v` holds; returns whether it was there.
fn set_remove(v: &mut Vec<Keycode>, key: Keycode) -> (removed: bool)
    requires
        distinct_keys(old(v)@),
    ensures
        distinct_keys(final(v)@),
        key_set(final(v)@) == key_set(old(v)@).remove(key),
        removed == key_set(old(v)@).contains(key),
{
    match position_of(v, key) {
        Some(i) => {
            let ghost before = v@;
            v.remove(i);
            assert(v@ =~= before.subrange(0, i as int) + before.subrange(i + 1, before.len() as int));
            assert forall|p: int, q: int| 0 <= p < v@.len() && 0 <= q < v@.len() && p != q implies #[trigger] v@[p] != #[trigger] v@[q] by {
                let op = if p < i { p } else { p + 1 };
                let oq = if q < i { q } else { q + 1 };
                assert(v@[p] == before[op] && v@[q] == before[oq]);
            }
            assert(key_set(v@) =~= key_set(before).remove(key)) by {
                assert forall|k: Keycode| #[trigger] key_set(v@).contains(k) <==> key_set(before).remove(key).contains(k) by {
                    if key_set(v@).contains(k) {
                        let j = choose|j: int| 0 <= j < v@.len() && v@[j] == k;
                        let oj = if j < i { j } else { j + 1 };
                        assert(before[oj] == k);
                        assert(oj != i);
                    }
                    if before.contains(k) && k != key {
                        let j = choose|j: int| 0 <= j < before.len() && before[j] == k;
                        assert(j != i);
                        let nj = if j < i { j } else { j - 1 };
                        assert(v@[nj] == k);
                    }
                }
            }
            assert(key_set(before).contains(key)) by {
                assert(before[i as int] == key);
            }
            true
        },
        None => {
            assert(key_set(v@).remove(key) =~= key_set(v@));
            false
        },
    }
}

/// Keyboard state: held keys, and keys pressed or released this frame.
#[derive(Debug, Clone)]
pub struct KeyboardState {
    pressed_keys: Vec<Keycode>,
    just_pressed_keys: Vec<Keycode>,
    just_released_keys: Vec<Keycode>,
}

impl KeyboardState {
    /// Held keys.
    pub closed spec fn pressed(&self) -> Set<Keycode> {
        key_set(self.pressed_keys@)
    }

    /// Keys pressed this frame.
    pub closed spec fn just_pressed(&self) -> Set<Keycode> {
        key_set(self.just_pressed_keys@)
    }

    /// Keys released this frame.
    pub closed spec fn just_released(&self) -> Set<Keycode> {
        key_set(self.just_released_keys@)
    }

    /// Each key list holds a key at most once.
    pub closed spec fn wf(&self) -> bool {
        &&& distinct_keys(self.pressed_keys@)
        &&& distinct_keys(self.just_pressed_keys@)
        &&& distinct_keys(self.just_released_keys@)
    }

    /// No key held, pressed or released.
    pub fn new() -> (s: Self)
        ensures
            s.wf(),
            s.pressed() == Set::<Keycode>::empty(),
            s.just_pressed() == Set::<Keycode>::empty(),
            s.just_released() == Set::<Keycode>::empty(),
    {
        let s = KeyboardState {
            pressed_keys: Vec::new(),
            just_pressed_keys: Vec::new(),
            just_released_keys: Vec::new(),
        };
        assert(s.pressed() =~= Set::<Keycode>::empty());
        assert(s.just_pressed() =~= Set::<Keycode>::empty());
        assert(s.just_released() =~= Set::<Keycode>::empty());
        s
    }

    /// Records a key going down (`down`) or up: a key that goes down while
    /// not held becomes held and pressed this frame; a held key that goes up
    /// stops being held and is released this frame; repeats change nothing.
    pub fn handle_key(&mut self, key: Keycode, down: bool)
        requires
            old(self).wf(),
        ensures
            final(self).wf(),
            down ==> {
                &&& final(self).pressed() == old(self).pressed().insert(key)
                &&& final(self).just_pressed() == if old(self).pressed().contains(key) {
                    old(self).just_pressed()
                } else {
                    old(self).just_pressed().insert(key)
                }
                &&& final(self).just_released() == old(self).just_released()
            },
            !down ==> {
                &&& final(self).pressed() == old(self).pressed().remove(key)
                &&& final(self).just_released() == if old(self).pressed().contains(key) {
                    old(self).just_released().insert(key)
                } else {
                    old(self).just_released()
                }
                &&& final(self).just_pressed() == old(self).just_pressed()
            },
    {
        if down {
            if set_insert(&mut self.pressed_keys, key) {
                set_insert(&mut self.just_pressed_keys, key);
            }
        } else {
            if set_remove(&mut self.pressed_keys, key) {
                set_insert(&mut self.just_released_keys, key);
            }
        }
    }

    /// Forgets the keys pressed and released this frame; held keys stay.
    pub fn clear_frame_state(&mut self)
        requires
            old(self).wf(),
        ensures
            final(self).wf(),
            final(self).pressed() == old(self).pressed(),
            final(self).just_pressed() == Set::<Keycode>::empty(),
            final(self).just_released() == Set::<Keycode>::empty(),
    {
        self.just_pressed_keys.clear();
        self.just_released_keys.clear();
        assert(self.just_pressed() =~= Set::<Keycode>::empty());
        assert(self.just_released() =~= Set::<Keycode>::empty());
    }

    /// Whether `key` is held.
    pub fn is_key_pressed(&self, key: Keycode) -> (b: bool)
        ensures
            b == self.pressed().contains(key),
    {
        position_of(&self.pressed_keys, key).is_some()
    }

    /// Whether `key` was pressed this frame.
    pub fn is_key_just_pressed(&self, key: Keycode) -> (b: bool)
        ensures
            b == self.just_pressed().contains(key),
    {
        position_of(&self.just_pressed_keys, key).is_some()
    }

    /// Whether `key` was released this frame.
    pub fn is_key_just_released(&self, key: Keycode) -> (b: bool)
        ensures
            b == self.just_released().contains(key),
    {
        position_of(&self.just_released_keys, key).is_some()
    }
}

/// Modifier state after a modifiers change: Ctrl, Alt and Super follow the
/// left-hand keys; Shift keeps its earlier state.
pub fn modifiers_changed(m: Modifiers, left_ctrl: bool, left_alt: bool, left_super: bool) -> (r: Modifiers)
    ensures
        r == (Modifiers { shift: m.shift, ctrl: left_ctrl, alt: left_alt, super_key: left_super }),
{
    Modifiers { shift: m.shift, ctrl: left_ctrl, alt: left_alt, super_key: left_super }
}

/// An active touch: its position, pressure (if the device reports one) and
/// where it started, each as `f64` bit patterns, and its last phase.
#[derive(Debug, Clone, Copy)]
pub struct TouchRecord {
    pub position: (u64, u64),
    pub force: Option<u64>,
    pub start_position: (u64, u64),
    pub phase: TouchPhase,
}

/// Touch state: active touches by identifier, and the touches started, moved
/// and ended this frame.
#[derive(Debug)]
pub struct TouchState {
    active: HashMap<u64, TouchRecord>,
    started: HashSet<u64>,
    moved: HashSet<u64>,
    ended: HashSet<u64>,
}

impl TouchState {
    /// Active touches.
    pub closed spec fn active(&self) -> Map<u64, TouchRecord> {
        self.active@
    }

    /// Touches started, moved and ended this frame.
    pub closed spec fn frame_sets(&self) -> (Set<u64>, Set<u64>, Set<u64>) {
        (self.started@, self.moved@, self.ended@)
    }

    /// No touch.
    pub fn new() -> (t: Self)
        ensures
            t.active() == Map::<u64, TouchRecord>::empty(),
            t.frame_sets() == (Set::<u64>::empty(), Set::<u64>::empty(), Set::<u64>::empty()),
    {
        TouchState { active: HashMap::new(), started: HashSet::new(), moved: HashSet::new(), ended: HashSet::new() }
    }

    /// Records a touch event: a started touch becomes active (its start
    /// position is where it is); a move updates an active touch (and is
    /// ignored for an unknown one); an ended or cancelled touch stops being
    /// active.
    pub fn handle_touch(&mut self, id: u64, phase: TouchPhase, position: (u64, u64), force: Option<u64>)
        ensures
            match phase {
                TouchPhase::Started => {
                    &&& final(self).active() == old(self).active().insert(
                        id,
                        TouchRecord { position, force, start_position: position, phase },
                    )
                    &&& final(self).frame_sets() == (
                        old(self).frame_sets().0.insert(id),
                        old(self).frame_sets().1,
                        old(self).frame_sets().2,
                    )
                },
                TouchPhase::Moved => if old(self).active().contains_key(id) {
                    &&& final(self).active() == old(self).active().insert(
                        id,
                        TouchRecord { position, force, phase, ..old(self).active()[id] },
                    )
                    &&& final(self).frame_sets() == (
                        old(self).frame_sets().0,
                        old(self).frame_sets().1.insert(id),
                        old(self).frame_sets().2,
                    )
                } else {
                    &&& final(self).active() == old(self).active()
                    &&& final(self).frame_sets() == old(self).frame_sets()
                },
                _ => {
                    &&& final(self).active() == old(self).active().remove(id)
                    &&& final(self).frame_sets() == (
                        old(self).frame_sets().0,
                        old(self).frame_sets().1,
                        old(self).frame_sets().2.insert(id),
                    )
                },
            },
    {
        match phase {
            TouchPhase::Started => {
                self.active.insert(id, TouchRecord { position, force, start_position: position, phase });
                self.started.insert(id);
            },
            TouchPhase::Moved => {
                match self.active.get(&id) {
                    Some(r) => {
                        let updated = TouchRecord { position, force, start_position: r.start_position, phase };
                        self.active.insert(id, updated);
                        self.moved.insert(id);
                    },
                    None => {},
                }
            },
            _ => {
                self.active.remove(&id);
                self.ended.insert(id);
            },
        }
    }

    /// Forgets which touches started, moved or ended this frame.
    pub fn clear_frame_state(&mut self)
        ensures
            final(self).active() == old(self).active(),
            final(self).frame_sets() == (Set::<u64>::empty(), Set::<u64>::empty(), Set::<u64>::empty()),
    {
        self.started.clear();
        self.moved.clear();
        self.ended.clear();
    }

    /// Active touch `id`, if any.
    pub fn touch(&self, id: u64) -> (r: Option<TouchRecord>)
        ensures
            r == (if self.active().contains_key(id) {
                Some(self.active()[id])
            } else {
                None
            }),
    {
        match self.active.get(&id) {
            Some(t) => Some(*t),
            None => None,
        }
    }

    /// Whether touch `id` started, moved or ended this frame.
    pub fn frame_flags(&self, id: u64) -> (r: (bool, bool, bool))
        ensures
            r == (self.frame_sets().0.contains(id), self.frame_sets().1.contains(id), self.frame_sets().2.contains(id)),
    {
        (self.started.contains(&id), self.moved.contains(&id), self.ended.contains(&id))
    }
}

} // verus!
