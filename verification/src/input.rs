//! Input state: which keys, mouse buttons and gamepad buttons are held, which
//! were pressed or released during the current frame, active touches and
//! text input.
use std::collections::HashSet;
use vstd::prelude::*;

use crate::gamepad::{GamepadAxis, GamepadButton, GamepadId, GamepadInfo};
use crate::pt::Pt;
use crate::text::{char_is_control, is_control, string_push, string_push_str};

verus! {

broadcast use vstd::std_specs::hash::group_hash_axioms;

/// Number of distinct keys.
pub const KEY_COUNT: usize = 128;

/// Number of 64-bit words that hold one bit per key.
pub const KEY_WORDS: usize = 2;

/// A physical key, identified by its index below `KEY_COUNT`.
#[derive(Debug, Clone, Copy, PartialEq, Eq, Structural, Hash)]
pub struct Key {
    index: u8,
}

impl Key {
    #[verifier::type_invariant]
    spec fn inv(self) -> bool {
        self.index < 128
    }

    /// Index of the key.
    pub closed spec fn idx(self) -> int {
        self.index as int
    }

    /// The key with index `i`, if `i` is below `KEY_COUNT`.
    pub fn from_index(i: usize) -> (k: Option<Key>)
        ensures
            k is Some <==> i < KEY_COUNT,
            k matches Some(k) ==> k.idx() == i,
    {
        if i < KEY_COUNT {
            Some(Key { index: i as u8 })
        } else {
            None
        }
    }

    /// Index of the key; always below `KEY_COUNT`.
    pub fn as_index(&self) -> (i: usize)
        ensures
            i == self.idx(),
            i < KEY_COUNT,
    {
        proof {
            use_type_invariant(self);
        }
        self.index as usize
    }
}

/// Word and bit mask of key index `i` in a bit set.
pub fn key_word_bit(key: Key) -> (r: (usize, u64))
    ensures
        r.0 == key.idx() / 64,
        r.0 < KEY_WORDS,
        r.1 == 1u64 << ((key.idx() % 64) as u64),
{
    let idx = key.as_index();
    (idx / 64, 1u64 << ((idx % 64) as u64))
}

proof fn lemma_bit_or(x: u64, b: u64, c: u64)
    by (bit_vector)
    requires
        b < 64,
        c < 64,
    ensures
        ((x | (1u64 << b)) >> c) & 1 == if c == b {
            1u64
        } else {
            (x >> c) & 1
        },
{
}

proof fn lemma_bit_clear(x: u64, b: u64, c: u64)
    by (bit_vector)
    requires
        b < 64,
        c < 64,
    ensures
        ((x & !(1u64 << b)) >> c) & 1 == if c == b {
            0u64
        } else {
            (x >> c) & 1
        },
{
}

proof fn lemma_bit_test(x: u64, b: u64)
    by (bit_vector)
    requires
        b < 64,
    ensures
        ((x & (1u64 << b)) != 0) == (((x >> b) & 1) == 1),
{
}

proof fn lemma_bit_zero(c: u64)
    by (bit_vector)
    requires
        c < 64,
    ensures
        (0u64 >> c) & 1 == 0,
{
}

/// A set of indices below 128, one bit per index.
#[derive(Debug, Clone, Copy)]
pub struct BitSet128 {
    lo: u64,
    hi: u64,
}

impl BitSet128 {
    /// Whether index `i` is in the set.
    pub closed spec fn has(self, i: int) -> bool {
        if 0 <= i < 64 {
            (self.lo >> (i as u64)) & 1 == 1
        } else if 64 <= i < 128 {
            (self.hi >> ((i - 64) as u64)) & 1 == 1
        } else {
            false
        }
    }

    /// The empty set.
    pub fn new() -> (s: Self)
        ensures
            forall|i: int| !#[trigger] s.has(i),
    {
        let s = BitSet128 { lo: 0, hi: 0 };
        assert forall|i: int| !#[trigger] s.has(i) by {
            if 0 <= i < 64 {
                lemma_bit_zero(i as u64);
            } else if 64 <= i < 128 {
                lemma_bit_zero((i - 64) as u64);
            }
        }
        s
    }

    fn word(&self, w: usize) -> (v: u64)
        requires
            w < 2,
        ensures
            v == if w == 0 {
                self.lo
            } else {
                self.hi
            },
    {
        if w == 0 {
            self.lo
        } else {
            self.hi
        }
    }

    /// Whether index `i` is in the set.
    pub fn contains(&self, i: usize) -> (b: bool)
        requires
            i < 128,
        ensures
            b == self.has(i as int),
    {
        let w = i / 64;
        let b = (i % 64) as u64;
        let m = 1u64 << b;
        let v = self.word(w);
        proof {
            lemma_bit_test(v, b);
        }
        (v & m) != 0
    }

    /// Adds index `i`.
    pub fn insert(&mut self, i: usize)
        requires
            i < 128,
        ensures
            forall|j: int| #[trigger] final(self).has(j) == (j == i || old(self).has(j)),
    {
        let b = (i % 64) as u64;
        if i < 64 {
            self.lo = self.lo | (1u64 << b);
        } else {
            self.hi = self.hi | (1u64 << b);
        }
        assert forall|j: int| #[trigger] self.has(j) == (j == i || old(self).has(j)) by {
            if 0 <= j < 64 {
                lemma_bit_or(old(self).lo, b, j as u64);
            } else if 64 <= j < 128 {
                lemma_bit_or(old(self).hi, b, (j - 64) as u64);
            }
        }
    }

    /// Removes index `i`.
    pub fn remove(&mut self, i: usize)
        requires
            i < 128,
        ensures
            forall|j: int| #[trigger] final(self).has(j) == (j != i && old(self).has(j)),
    {
        let b = (i % 64) as u64;
        if i < 64 {
            self.lo = self.lo & !(1u64 << b);
        } else {
            self.hi = self.hi & !(1u64 << b);
        }
        assert forall|j: int| #[trigger] self.has(j) == (j != i && old(self).has(j)) by {
            if 0 <= j < 64 {
                lemma_bit_clear(old(self).lo, b, j as u64);
            } else if 64 <= j < 128 {
                lemma_bit_clear(old(self).hi, b, (j - 64) as u64);
            }
        }
    }
}

/// A mouse button.
#[derive(Debug, Clone, Copy, PartialEq, Eq, Structural, Hash)]
pub enum MouseButton {
    Left,
    Right,
    Middle,
    Back,
    Forward,
    Other(u16),
}

/// Bit used for a mouse button in the button bit set; `Other` buttons have none.
pub open spec fn mouse_bit(button: MouseButton) -> Option<int> {
    match button {
        MouseButton::Left => Some(0),
        MouseButton::Right => Some(1),
        MouseButton::Middle => Some(2),
        MouseButton::Back => Some(3),
        MouseButton::Forward => Some(4),
        MouseButton::Other(_) => None,
    }
}

impl MouseButton {
    /// Bit of this button in the button bit set; `None` for `Other` buttons.
    pub fn bit_index(&self) -> (r: Option<usize>)
        ensures
            match mouse_bit(*self) {
                Some(i) => r == Some(i as usize),
                None => r is None,
            },
    {
        match self {
            MouseButton::Left => Some(0),
            MouseButton::Right => Some(1),
            MouseButton::Middle => Some(2),
            MouseButton::Back => Some(3),
            MouseButton::Forward => Some(4),
            MouseButton::Other(_) => None,
        }
    }
}

/// Whether a key or button went down or up.
#[derive(Debug, Clone, Copy, PartialEq, Eq, Structural)]
pub enum ElementState {
    Pressed,
    Released,
}

/// Phase of a touch point.
#[derive(Debug, Clone, Copy, PartialEq, Eq, Structural)]
pub enum TouchPhase {
    Started,
    Moved,
    Ended,
    Cancelled,
}

/// An active touch point.
#[derive(Debug, Clone, Copy)]
pub struct TouchInfo {
    pub id: u64,
    pub position: (Pt, Pt),
    pub phase: TouchPhase,
}

/// Input method events.
#[derive(Debug)]
pub enum ImeEvent {
    /// Text being composed, not committed yet.
    Preedit(String),
    /// Text committed by the input method.
    Commit(String),
    Enabled,
    Disabled,
}

fn button_contains(v: &Vec<GamepadButton>, b: GamepadButton) -> (r: bool)
    ensures
        r == v@.contains(b),
{
    let mut i: usize = 0;
    while i < v.len()
        invariant
            i <= v.len(),
            forall|j: int| 0 <= j < i ==> v@[j] != b,
        decreases v.len() - i,
    {
        if v[i] == b {
            return true;
        }
        i += 1;
    }
    false
}

/// Adds `b`; returns whether it was absent.
fn button_insert(v: &mut Vec<GamepadButton>, b: GamepadButton) -> (r: bool)
    requires
        old(v)@.no_duplicates(),
    ensures
        r == !old(v)@.contains(b),
        final(v)@.no_duplicates(),
        forall|x: GamepadButton| #[trigger] final(v)@.contains(x) == (x == b || old(v)@.contains(x)),
{
    if button_contains(v, b) {
        return false;
    }
    v.push(b);
    assert forall|x: GamepadButton| #[trigger] v@.contains(x) == (x == b || old(v)@.contains(x)) by {
        if old(v)@.contains(x) {
            let j = choose|j: int| 0 <= j < old(v)@.len() && old(v)@[j] == x;
            assert(v@[j] == x);
        }
        if x == b {
            assert(v@[old(v)@.len() as int] == b);
        }
    }
    true
}

/// Removes `b`; returns whether it was present.
fn button_remove(v: &mut Vec<GamepadButton>, b: GamepadButton) -> (r: bool)
    requires
        old(v)@.no_duplicates(),
    ensures
        r == old(v)@.contains(b),
        final(v)@.no_duplicates(),
        forall|x: GamepadButton| #[trigger] final(v)@.contains(x) == (x != b && old(v)@.contains(x)),
{
    let mut i: usize = 0;
    while i < v.len()
        invariant
            v@ == old(v)@,
            old(v)@.no_duplicates(),
            i <= v.len(),
            forall|j: int| 0 <= j < i ==> v@[j] != b,
        decreases v.len() - i,
    {
        if v[i] == b {
            let ghost ov = v@;
            v.remove(i);
            assert(v@ =~= ov.subrange(0, i as int) + ov.subrange(i + 1, ov.len() as int));
            assert forall|x: GamepadButton| #[trigger] v@.contains(x) == (x != b && ov.contains(x)) by {
                if v@.contains(x) {
                    let j = choose|j: int| 0 <= j < v@.len() && v@[j] == x;
                    if j < i {
                        assert(ov[j] == x);
                        assert(j != i);
                    } else {
                        assert(ov[j + 1] == x);
                        assert(j + 1 != i);
                    }
                }
                if x != b && ov.contains(x) {
                    let j = choose|j: int| 0 <= j < ov.len() && ov[j] == x;
                    if j < i {
                        assert(v@[j] == x);
                    } else {
                        assert(j != i);
                        assert(v@[j - 1] == x);
                    }
                }
            }
            assert forall|p: int, q: int| 0 <= p < v@.len() && 0 <= q < v@.len() && p != q implies v@[p]
                != v@[q] by {
                let op = if p < i {
                    p
                } else {
                    p + 1
                };
                let oq = if q < i {
                    q
                } else {
                    q + 1
                };
                assert(v@[p] == ov[op]);
                assert(v@[q] == ov[oq]);
            }
            return true;
        }
        i += 1;
    }
    assert(!old(v)@.contains(b)) by {
        if old(v)@.contains(b) {
            let j = choose|j: int| 0 <= j < old(v)@.len() && old(v)@[j] == b;
            assert(v@[j] != b);
        }
    }
    false
}

/// Value of axis `a` in an axis table without duplicate axes.
pub open spec fn axis_lookup(v: Seq<(GamepadAxis, u32)>, a: GamepadAxis) -> Option<u32> {
    if exists|i: int| 0 <= i < v.len() && #[trigger] v[i].0 == a {
        Some(v[choose|i: int| 0 <= i < v.len() && #[trigger] v[i].0 == a].1)
    } else {
        None
    }
}

/// No axis occurs twice in an axis table.
pub open spec fn unique_axes(v: Seq<(GamepadAxis, u32)>) -> bool {
    forall|i: int, j: int| 0 <= i < v.len() && 0 <= j < v.len() && i != j ==> #[trigger] v[i].0 != #[trigger] v[j].0
}

proof fn lemma_axis_lookup_at(v: Seq<(GamepadAxis, u32)>, j: int)
    requires
        unique_axes(v),
        0 <= j < v.len(),
    ensures
        axis_lookup(v, v[j].0) == Some(v[j].1),
{
    let a = v[j].0;
    let c = choose|i: int| 0 <= i < v.len() && #[trigger] v[i].0 == a;
    assert(0 <= c < v.len() && v[c].0 == a);
    if c != j {
        assert(v[c].0 != v[j].0);
    }
}

fn axis_get(v: &Vec<(GamepadAxis, u32)>, a: GamepadAxis) -> (r: Option<u32>)
    requires
        unique_axes(v@),
    ensures
        r == axis_lookup(v@, a),
{
    let mut i: usize = 0;
    while i < v.len()
        invariant
            unique_axes(v@),
            i <= v.len(),
            forall|j: int| 0 <= j < i ==> #[trigger] v@[j].0 != a,
        decreases v.len() - i,
    {
        if v[i].0 == a {
            proof {
                lemma_axis_lookup_at(v@, i as int);
            }
            return Some(v[i].1);
        }
        i += 1;
    }
    None
}

fn axis_set(v: &mut Vec<(GamepadAxis, u32)>, a: GamepadAxis, value: u32)
    requires
        unique_axes(old(v)@),
    ensures
        unique_axes(final(v)@),
        forall|x: GamepadAxis| #[trigger] axis_lookup(final(v)@, x) == if x == a {
            Some(value)
        } else {
            axis_lookup(old(v)@, x)
        },
{
    let ghost ov = v@;
    let mut i: usize = 0;
    while i < v.len()
        invariant
            v@ == ov,
            ov == old(v)@,
            unique_axes(ov),
            i <= v.len(),
            forall|j: int| 0 <= j < i ==> #[trigger] v@[j].0 != a,
        decreases v.len() - i,
    {
        if v[i].0 == a {
            v.set(i, (a, value));
            assert(v@ =~= ov.update(i as int, (a, value)));
            assert forall|p: int, q: int| 0 <= p < v@.len() && 0 <= q < v@.len() && p != q implies #[trigger] v@[p].0
                != #[trigger] v@[q].0 by {
                assert(v@[p].0 == ov[p].0);
                assert(v@[q].0 == ov[q].0);
            }
            assert forall|x: GamepadAxis| #[trigger] axis_lookup(v@, x) == if x == a {
                Some(value)
            } else {
                axis_lookup(ov, x)
            } by {
                if x == a {
                    lemma_axis_lookup_at(v@, i as int);
                } else if exists|m: int| 0 <= m < v@.len() && #[trigger] v@[m].0 == x {
                    let m = choose|m: int| 0 <= m < v@.len() && #[trigger] v@[m].0 == x;
                    assert(m != i);
                    lemma_axis_lookup_at(v@, m);
                    lemma_axis_lookup_at(ov, m);
                } else {
                    assert forall|m: int| 0 <= m < ov.len() implies #[trigger] ov[m].0 != x by {
                        assert(v@[m].0 == ov[m].0);
                    }
                }
            }
            return;
        }
        i += 1;
    }
    v.push((a, value));
    assert forall|p: int, q: int| 0 <= p < v@.len() && 0 <= q < v@.len() && p != q implies #[trigger] v@[p].0
        != #[trigger] v@[q].0 by {
        if p < ov.len() {
            assert(v@[p] == ov[p]);
        }
        if q < ov.len() {
            assert(v@[q] == ov[q]);
        }
    }
    assert forall|x: GamepadAxis| #[trigger] axis_lookup(v@, x) == if x == a {
        Some(value)
    } else {
        axis_lookup(ov, x)
    } by {
        if x == a {
            lemma_axis_lookup_at(v@, ov.len() as int);
        } else if exists|m: int| 0 <= m < v@.len() && #[trigger] v@[m].0 == x {
            let m = choose|m: int| 0 <= m < v@.len() && #[trigger] v@[m].0 == x;
            assert(m < ov.len());
            assert(v@[m] == ov[m]);
            lemma_axis_lookup_at(v@, m);
            lemma_axis_lookup_at(ov, m);
        } else {
            assert forall|m: int| 0 <= m < ov.len() implies #[trigger] ov[m].0 != x by {
                assert(v@[m] == ov[m]);
            }
        }
    }
}

/// Input state of one gamepad.
#[derive(Debug)]
pub struct GamepadState {
    info: GamepadInfo,
    buttons_down: Vec<GamepadButton>,
    buttons_pressed: Vec<GamepadButton>,
    buttons_released: Vec<GamepadButton>,
    axes: Vec<(GamepadAxis, u32)>,
}

impl GamepadState {
    /// Same button and axis state as `other`.
    pub closed spec fn same_controls(&self, other: &GamepadState) -> bool {
        &&& forall|b: GamepadButton|
            self.down(b) == other.down(b) && self.pressed(b) == other.pressed(b) && self.released(b)
                == other.released(b)
        &&& forall|a: GamepadAxis| self.axis(a) == other.axis(a)
    }

    /// Identifier of the gamepad.
    pub closed spec fn id(&self) -> GamepadId {
        self.info.id
    }

    /// Name of the gamepad.
    pub closed spec fn name(&self) -> Seq<char> {
        self.info.name@
    }

    /// Whether the gamepad is connected.
    pub closed spec fn connected(&self) -> bool {
        self.info.connected
    }

    /// Whether button `b` is held.
    pub closed spec fn down(&self, b: GamepadButton) -> bool {
        self.buttons_down@.contains(b)
    }

    /// Whether button `b` was pressed during the current frame.
    pub closed spec fn pressed(&self, b: GamepadButton) -> bool {
        self.buttons_pressed@.contains(b)
    }

    /// Whether button `b` was released during the current frame.
    pub closed spec fn released(&self, b: GamepadButton) -> bool {
        self.buttons_released@.contains(b)
    }

    /// Last value (`f32` bit pattern) reported for axis `a`.
    pub closed spec fn axis(&self, a: GamepadAxis) -> Option<u32> {
        axis_lookup(self.axes@, a)
    }

    /// Internal consistency: no duplicate buttons or axes.
    pub closed spec fn wf(&self) -> bool {
        &&& self.buttons_down@.no_duplicates()
        &&& self.buttons_pressed@.no_duplicates()
        &&& self.buttons_released@.no_duplicates()
        &&& unique_axes(self.axes@)
    }

    fn new(id: GamepadId, name: String) -> (s: Self)
        ensures
            s.wf(),
            s.id() == id,
            s.name() == name@,
            s.connected(),
            forall|b: GamepadButton| !s.down(b) && !s.pressed(b) && !s.released(b),
            forall|a: GamepadAxis| s.axis(a) is None,
    {
        GamepadState {
            info: GamepadInfo { id, name, connected: true },
            buttons_down: Vec::new(),
            buttons_pressed: Vec::new(),
            buttons_released: Vec::new(),
            axes: Vec::new(),
        }
    }

    fn mark_connected(&mut self, name: String)
        requires
            old(self).wf(),
        ensures
            final(self).wf(),
            final(self).id() == old(self).id(),
            final(self).connected(),
            final(self).name() == name@,
            final(self).same_controls(old(self)),
    {
        self.info.connected = true;
        if self.info.name != name {
            self.info.name = name;
        }
    }

    fn press(&mut self, b: GamepadButton)
        requires
            old(self).wf(),
        ensures
            final(self).wf(),
            final(self).id() == old(self).id(),
            final(self).name() == old(self).name(),
            final(self).connected() == old(self).connected(),
            forall|a: GamepadAxis| final(self).axis(a) == old(self).axis(a),
            forall|x: GamepadButton|
                #[trigger] final(self).down(x) == (x == b || old(self).down(x)),
            forall|x: GamepadButton|
                #[trigger] final(self).pressed(x) == ((x == b && !old(self).down(b)) || old(self).pressed(x)),
            forall|x: GamepadButton|
                #[trigger] final(self).released(x) == (x != b && old(self).released(x)),
    {
        if button_insert(&mut self.buttons_down, b) {
            button_insert(&mut self.buttons_pressed, b);
        }
        button_remove(&mut self.buttons_released, b);
    }

    fn release(&mut self, b: GamepadButton)
        requires
            old(self).wf(),
        ensures
            final(self).wf(),
            final(self).id() == old(self).id(),
            final(self).name() == old(self).name(),
            final(self).connected() == old(self).connected(),
            forall|a: GamepadAxis| final(self).axis(a) == old(self).axis(a),
            forall|x: GamepadButton|
                #[trigger] final(self).down(x) == (x != b && old(self).down(x)),
            forall|x: GamepadButton|
                #[trigger] final(self).released(x) == ((x == b && old(self).down(b)) || old(self).released(x)),
            forall|x: GamepadButton|
                #[trigger] final(self).pressed(x) == (x != b && old(self).pressed(x)),
    {
        if button_remove(&mut self.buttons_down, b) {
            button_insert(&mut self.buttons_released, b);
        }
        button_remove(&mut self.buttons_pressed, b);
    }

    fn set_axis(&mut self, a: GamepadAxis, value: u32)
        requires
            old(self).wf(),
        ensures
            final(self).wf(),
            final(self).id() == old(self).id(),
            final(self).name() == old(self).name(),
            final(self).connected() == old(self).connected(),
            forall|b: GamepadButton|
                final(self).down(b) == old(self).down(b) && final(self).pressed(b) == old(self).pressed(b) && final(self).released(b) == old(self).released(b),
            forall|x: GamepadAxis| #[trigger]
                final(self).axis(x) == if x == a {
                    Some(value)
                } else {
                    old(self).axis(x)
                },
    {
        axis_set(&mut self.axes, a, value);
    }

    /// Forgets the pressed and released buttons of the frame.
    fn clear_edges(&mut self)
        requires
            old(self).wf(),
        ensures
            final(self).wf(),
            final(self).id() == old(self).id(),
            final(self).name() == old(self).name(),
            final(self).connected() == old(self).connected(),
            forall|a: GamepadAxis| final(self).axis(a) == old(self).axis(a),
            forall|b: GamepadButton|
                final(self).down(b) == old(self).down(b) && !final(self).pressed(b) && !final(self).released(b),
    {
        self.buttons_pressed = Vec::new();
        self.buttons_released = Vec::new();
    }

    /// Forgets every button and axis; `connected` is set to `connected`.
    fn clear_controls(&mut self, connected: bool)
        requires
            old(self).wf(),
        ensures
            final(self).wf(),
            final(self).id() == old(self).id(),
            final(self).name() == old(self).name(),
            final(self).connected() == connected,
            forall|a: GamepadAxis| final(self).axis(a) is None,
            forall|b: GamepadButton|
                !final(self).down(b) && !final(self).pressed(b) && !final(self).released(b),
    {
        self.info.connected = connected;
        self.buttons_down = Vec::new();
        self.buttons_pressed = Vec::new();
        self.buttons_released = Vec::new();
        self.axes = Vec::new();
    }
}

/// Index of the gamepad with identifier `id`.
pub open spec fn pad_index(pads: Seq<GamepadState>, id: GamepadId) -> Option<int> {
    if exists|i: int| 0 <= i < pads.len() && #[trigger] pads[i].id() == id {
        Some(choose|i: int| 0 <= i < pads.len() && #[trigger] pads[i].id() == id)
    } else {
        None
    }
}

/// State of the gamepad with identifier `id` in `pads`.
pub open spec fn pad_of(pads: Seq<GamepadState>, id: GamepadId) -> Option<GamepadState> {
    match pad_index(pads, id) {
        Some(i) => Some(pads[i]),
        None => None,
    }
}

/// Every gamepad other than `id` has the same state in `new` as in `old`.
pub open spec fn pads_agree_except(new: Seq<GamepadState>, old: Seq<GamepadState>, id: GamepadId) -> bool {
    forall|id2: GamepadId| id2 != id ==> #[trigger] pad_of(new, id2) == pad_of(old, id2)
}

proof fn lemma_agree_trans(a: Seq<GamepadState>, b: Seq<GamepadState>, c: Seq<GamepadState>, id: GamepadId)
    requires
        pads_agree_except(a, b, id),
        pads_agree_except(b, c, id),
    ensures
        pads_agree_except(a, c, id),
{
    assert forall|id2: GamepadId| id2 != id implies #[trigger] pad_of(a, id2) == pad_of(c, id2) by {
        assert(pad_of(a, id2) == pad_of(b, id2));
        assert(pad_of(b, id2) == pad_of(c, id2));
    }
}

/// No two touches share an identifier.
pub open spec fn unique_touches(t: Seq<TouchInfo>) -> bool {
    forall|i: int, j: int| 0 <= i < t.len() && 0 <= j < t.len() && i != j ==> #[trigger] t[i].id != #[trigger] t[j].id
}

/// Touches of `t` other than touch `id`.
pub open spec fn touches_without(t: Seq<TouchInfo>, id: u64) -> Seq<TouchInfo> {
    t.filter(|x: TouchInfo| x.id != id)
}

/// No two gamepads share an identifier and every gamepad state is consistent.
pub open spec fn pads_wf(pads: Seq<GamepadState>) -> bool {
    &&& forall|i: int, j: int|
        0 <= i < pads.len() && 0 <= j < pads.len() && i != j ==> #[trigger] pads[i].id()
            != #[trigger] pads[j].id()
    &&& forall|i: int| 0 <= i < pads.len() ==> #[trigger] pads[i].wf()
}

proof fn lemma_pad_index_at(pads: Seq<GamepadState>, j: int)
    requires
        pads_wf(pads),
        0 <= j < pads.len(),
    ensures
        pad_index(pads, pads[j].id()) == Some(j),
{
    let id = pads[j].id();
    let c = choose|i: int| 0 <= i < pads.len() && #[trigger] pads[i].id() == id;
    assert(0 <= c < pads.len() && pads[c].id() == id);
    if c != j {
        assert(pads[c].id() != pads[j].id());
    }
}

/// Replacing the state at `j` by a consistent state with the same identifier
/// keeps the list consistent and changes only the gamepad at `j`.
proof fn lemma_pads_update(pads: Seq<GamepadState>, j: int, st: GamepadState)
    requires
        pads_wf(pads),
        0 <= j < pads.len(),
        st.id() == pads[j].id(),
        st.wf(),
    ensures
        pads_wf(pads.update(j, st)),
        forall|id: GamepadId| #[trigger] pad_index(pads.update(j, st), id) == pad_index(pads, id),
        pads_agree_except(pads.update(j, st), pads, st.id()),
        pad_of(pads.update(j, st), st.id()) == Some(st),
{
    let np = pads.update(j, st);
    assert forall|a: int, b: int| 0 <= a < np.len() && 0 <= b < np.len() && a != b implies #[trigger] np[a].id()
        != #[trigger] np[b].id() by {
        assert(np[a].id() == pads[a].id());
        assert(np[b].id() == pads[b].id());
    }
    assert forall|id: GamepadId| #[trigger] pad_index(np, id) == pad_index(pads, id) by {
        if exists|i: int| 0 <= i < pads.len() && #[trigger] pads[i].id() == id {
            let i = choose|i: int| 0 <= i < pads.len() && #[trigger] pads[i].id() == id;
            lemma_pad_index_at(pads, i);
            assert(np[i].id() == id);
            lemma_pad_index_at(np, i);
        } else {
            assert forall|i: int| 0 <= i < np.len() implies #[trigger] np[i].id() != id by {
                assert(np[i].id() == pads[i].id());
            }
        }
    }
    assert forall|id: GamepadId| id != st.id() implies #[trigger] pad_of(np, id) == pad_of(pads, id) by {
        if exists|i: int| 0 <= i < pads.len() && #[trigger] pads[i].id() == id {
            let i = choose|i: int| 0 <= i < pads.len() && #[trigger] pads[i].id() == id;
            lemma_pad_index_at(pads, i);
            assert(i != j);
        }
    }
    lemma_pad_index_at(np, j);
}

/// Forgets the pressed and released buttons of every gamepad.
fn clear_pad_edges(pads: &mut Vec<GamepadState>)
    requires
        pads_wf(old(pads)@),
    ensures
        pads_wf(final(pads)@),
        final(pads)@.len() == old(pads)@.len(),
        forall|id: GamepadId| #[trigger] pad_index(final(pads)@, id) == pad_index(old(pads)@, id),
        forall|i: int|
            0 <= i < final(pads)@.len() ==> {
                let n = #[trigger] final(pads)@[i];
                let o = old(pads)@[i];
                &&& n.id() == o.id() && n.name() == o.name() && n.connected() == o.connected()
                &&& forall|a: GamepadAxis| n.axis(a) == o.axis(a)
                &&& forall|b: GamepadButton| n.down(b) == o.down(b) && !n.pressed(b) && !n.released(b)
            },
{
    let ghost op = pads@;
    let mut i: usize = 0;
    while i < pads.len()
        invariant
            pads_wf(op),
            pads_wf(pads@),
            pads@.len() == op.len(),
            op == old(pads)@,
            i <= op.len(),
            forall|id: GamepadId| #[trigger] pad_index(pads@, id) == pad_index(op, id),
            forall|j: int| i <= j < op.len() ==> #[trigger] pads@[j] == op[j],
            forall|j: int|
                0 <= j < i ==> {
                    let n = #[trigger] pads@[j];
                    let o = op[j];
                    &&& n.id() == o.id() && n.name() == o.name() && n.connected() == o.connected()
                    &&& forall|a: GamepadAxis| n.axis(a) == o.axis(a)
                    &&& forall|b: GamepadButton| n.down(b) == o.down(b) && !n.pressed(b) && !n.released(b)
                },
        decreases op.len() - i,
    {
        let ghost before = pads@;
        assert(before[i as int].wf());
        pads[i].clear_edges();
        proof {
            lemma_pads_update(before, i as int, pads@[i as int]);
            assert(pads@ =~= before.update(i as int, pads@[i as int]));
        }
        i += 1;
    }
}

/// Forgets every button and axis of every gamepad.
fn clear_pad_controls(pads: &mut Vec<GamepadState>)
    requires
        pads_wf(old(pads)@),
    ensures
        pads_wf(final(pads)@),
        final(pads)@.len() == old(pads)@.len(),
        forall|id: GamepadId| #[trigger] pad_index(final(pads)@, id) == pad_index(old(pads)@, id),
        forall|i: int|
            0 <= i < final(pads)@.len() ==> {
                let n = #[trigger] final(pads)@[i];
                let o = old(pads)@[i];
                &&& n.id() == o.id() && n.name() == o.name() && n.connected() == o.connected()
                &&& forall|a: GamepadAxis| n.axis(a) is None
                &&& forall|b: GamepadButton| !n.down(b) && !n.pressed(b) && !n.released(b)
            },
{
    let ghost op = pads@;
    let mut i: usize = 0;
    while i < pads.len()
        invariant
            pads_wf(op),
            pads_wf(pads@),
            pads@.len() == op.len(),
            op == old(pads)@,
            i <= op.len(),
            forall|id: GamepadId| #[trigger] pad_index(pads@, id) == pad_index(op, id),
            forall|j: int| i <= j < op.len() ==> #[trigger] pads@[j] == op[j],
            forall|j: int|
                0 <= j < i ==> {
                    let n = #[trigger] pads@[j];
                    let o = op[j];
                    &&& n.id() == o.id() && n.name() == o.name() && n.connected() == o.connected()
                    &&& forall|a: GamepadAxis| n.axis(a) is None
                    &&& forall|b: GamepadButton| !n.down(b) && !n.pressed(b) && !n.released(b)
                },
        decreases op.len() - i,
    {
        let ghost before = pads@;
        assert(before[i as int].wf());
        let connected = pads[i].info.connected;
        pads[i].clear_controls(connected);
        proof {
            lemma_pads_update(before, i as int, pads@[i as int]);
            assert(pads@ =~= before.update(i as int, pads@[i as int]));
        }
        i += 1;
    }
}

/// Touches of `t` other than touch `id`, in order.
fn remove_touch(t: &Vec<TouchInfo>, id: u64) -> (r: Vec<TouchInfo>)
    ensures
        r@ == touches_without(t@, id),
{
    let mut r: Vec<TouchInfo> = Vec::new();
    let mut i: usize = 0;
    while i < t.len()
        invariant
            i <= t.len(),
            r@ == touches_without(t@.take(i as int), id),
        decreases t.len() - i,
    {
        proof {
            reveal(Seq::filter);
            assert(t@.take(i + 1).drop_last() =~= t@.take(i as int));
        }
        if t[i].id != id {
            r.push(t[i]);
        }
        i += 1;
    }
    assert(t@.take(i as int) =~= t@);
    r
}

fn find_touch(t: &Vec<TouchInfo>, id: u64) -> (r: Option<usize>)
    ensures
        match r {
            Some(i) => i < t@.len() && t@[i as int].id == id,
            None => forall|k: int| 0 <= k < t@.len() ==> #[trigger] t@[k].id != id,
        },
{
    let mut i: usize = 0;
    while i < t.len()
        invariant
            i <= t.len(),
            forall|k: int| 0 <= k < i ==> #[trigger] t@[k].id != id,
        decreases t.len() - i,
    {
        if t[i].id == id {
            return Some(i);
        }
        i += 1;
    }
    None
}

proof fn lemma_filter_without(t: Seq<TouchInfo>, id: u64, i: int)
    requires
        0 <= i < touches_without(t, id).len(),
    ensures
        touches_without(t, id)[i].id != id,
        exists|m: int| 0 <= m < t.len() && t[m] == touches_without(t, id)[i],
    decreases t.len(),
{
    reveal(Seq::filter);
    let p = |x: TouchInfo| x.id != id;
    let f = touches_without(t, id);
    let g = touches_without(t.drop_last(), id);
    if p(t.last()) {
        assert(f == g.push(t.last()));
        if i == g.len() {
            assert(t[t.len() - 1] == f[i]);
        } else {
            lemma_filter_without(t.drop_last(), id, i);
            let m = choose|m: int| 0 <= m < t.drop_last().len() && t.drop_last()[m] == g[i];
            assert(t[m] == f[i]);
        }
    } else {
        assert(f == g);
        lemma_filter_without(t.drop_last(), id, i);
        let m = choose|m: int| 0 <= m < t.drop_last().len() && t.drop_last()[m] == g[i];
        assert(t[m] == f[i]);
    }
}

proof fn lemma_filter_unique(t: Seq<TouchInfo>, id: u64, i: int, j: int)
    requires
        unique_touches(t),
        0 <= i < touches_without(t, id).len(),
        0 <= j < touches_without(t, id).len(),
        i != j,
    ensures
        touches_without(t, id)[i].id != touches_without(t, id)[j].id,
    decreases t.len(),
{
    reveal(Seq::filter);
    let p = |x: TouchInfo| x.id != id;
    let f = touches_without(t, id);
    let g = touches_without(t.drop_last(), id);
    assert forall|a: int, b: int| 0 <= a < t.drop_last().len() && 0 <= b < t.drop_last().len() && a != b implies #[trigger] t.drop_last()[a].id
        != #[trigger] t.drop_last()[b].id by {
        assert(t.drop_last()[a] == t[a]);
        assert(t.drop_last()[b] == t[b]);
    }
    if p(t.last()) {
        assert(f == g.push(t.last()));
        if i < g.len() && j < g.len() {
            lemma_filter_unique(t.drop_last(), id, i, j);
        } else {
            let k = if i < g.len() {
                i
            } else {
                j
            };
            lemma_filter_without(t.drop_last(), id, k);
            let m = choose|m: int| 0 <= m < t.drop_last().len() && t.drop_last()[m] == g[k];
            assert(t[m] == g[k]);
            assert(t[t.len() - 1] == t.last());
            assert(m != t.len() - 1);
        }
    } else {
        assert(f == g);
        lemma_filter_unique(t.drop_last(), id, i, j);
    }
}

/// Keyboard, mouse, touch, gamepad and text input state.
///
/// Keys and buttons are tracked as held, pressed during the current frame and
/// released during the current frame; `end_frame` forgets the per-frame edges.
#[derive(Debug)]
pub struct InputManager {
    keys_down: BitSet128,
    keys_pressed: BitSet128,
    keys_released: BitSet128,
    mouse_down: BitSet128,
    mouse_pressed: BitSet128,
    mouse_released: BitSet128,
    mouse_other_down: HashSet<u16>,
    mouse_other_pressed: HashSet<u16>,
    mouse_other_released: HashSet<u16>,
    cursor_position: Option<(Pt, Pt)>,
    scroll_delta: (Pt, Pt),
    focused: bool,
    text_input_enabled: bool,
    text_input: String,
    ime_preedit: Option<String>,
    touches: Vec<TouchInfo>,
    gamepads: Vec<GamepadState>,
}

impl InputManager {
    /// Held, pressed and released keys.
    pub closed spec fn keys(&self) -> (BitSet128, BitSet128, BitSet128) {
        (self.keys_down, self.keys_pressed, self.keys_released)
    }

    /// Held, pressed and released mouse buttons that have a bit.
    pub closed spec fn mouse_bits(&self) -> (BitSet128, BitSet128, BitSet128) {
        (self.mouse_down, self.mouse_pressed, self.mouse_released)
    }

    /// Held, pressed and released `Other` mouse buttons.
    pub closed spec fn mouse_other(&self) -> (Set<u16>, Set<u16>, Set<u16>) {
        (self.mouse_other_down@, self.mouse_other_pressed@, self.mouse_other_released@)
    }

    /// Cursor position and accumulated scroll delta.
    pub closed spec fn pointer(&self) -> (Option<(Pt, Pt)>, (Pt, Pt)) {
        (self.cursor_position, self.scroll_delta)
    }

    /// Whether the window has focus.
    pub closed spec fn has_focus(&self) -> bool {
        self.focused
    }

    /// Text input: whether it is enabled, the text of the frame, the preedit text.
    pub closed spec fn text_state(&self) -> (bool, Seq<char>, Option<Seq<char>>) {
        (
            self.text_input_enabled,
            self.text_input@,
            match self.ime_preedit {
                Some(s) => Some(s@),
                None => None,
            },
        )
    }

    /// Active touch points.
    pub closed spec fn touch_list(&self) -> Seq<TouchInfo> {
        self.touches@
    }

    /// Known gamepads, in the order in which they were first seen.
    pub closed spec fn pads(&self) -> Seq<GamepadState> {
        self.gamepads@
    }

    /// State of the gamepad with identifier `id`.
    pub open spec fn pad(&self, id: GamepadId) -> Option<GamepadState> {
        pad_of(self.pads(), id)
    }

    /// Internal consistency.
    pub open spec fn wf(&self) -> bool {
        pads_wf(self.pads()) && unique_touches(self.touch_list())
    }

    /// `self` is `old` with every transient input forgotten: nothing held,
    /// pressed or released, no cursor, no scroll, no text, no preedit, no
    /// touches, and every gamepad without buttons or axes. Focus and whether
    /// text input is enabled are not part of this.
    pub open spec fn is_cleared_from(&self, old: InputManager) -> bool {
        &&& forall|i: int| !self.keys().0.has(i) && !self.keys().1.has(i) && !self.keys().2.has(i)
        &&& forall|i: int|
            !self.mouse_bits().0.has(i) && !self.mouse_bits().1.has(i) && !self.mouse_bits().2.has(i)
        &&& self.mouse_other() == (Set::<u16>::empty(), Set::<u16>::empty(), Set::<u16>::empty())
        &&& self.pointer() == (None::<(Pt, Pt)>, (Pt::zero_spec(), Pt::zero_spec()))
        &&& self.text_state() == (old.text_state().0, Seq::<char>::empty(), None::<Seq<char>>)
        &&& self.touch_list() == Seq::<TouchInfo>::empty()
        &&& self.pads().len() == old.pads().len()
        &&& forall|id: GamepadId| #[trigger] pad_index(self.pads(), id) == pad_index(old.pads(), id)
        &&& forall|i: int|
            0 <= i < self.pads().len() ==> {
                let n = #[trigger] self.pads()[i];
                let o = old.pads()[i];
                &&& n.id() == o.id() && n.name() == o.name() && n.connected() == o.connected()
                &&& forall|a: GamepadAxis| n.axis(a) is None
                &&& forall|b: GamepadButton| !n.down(b) && !n.pressed(b) && !n.released(b)
            }
    }

    /// Whether `key` is held.
    pub open spec fn key_is_down(&self, key: Key) -> bool {
        self.keys().0.has(key.idx())
    }

    /// Whether `button` is held.
    pub open spec fn button_state(&self, button: MouseButton, which: int) -> bool {
        match mouse_bit(button) {
            Some(i) => if which == 0 {
                self.mouse_bits().0.has(i)
            } else if which == 1 {
                self.mouse_bits().1.has(i)
            } else {
                self.mouse_bits().2.has(i)
            },
            None => match button {
                MouseButton::Other(v) => if which == 0 {
                    self.mouse_other().0.contains(v)
                } else if which == 1 {
                    self.mouse_other().1.contains(v)
                } else {
                    self.mouse_other().2.contains(v)
                },
                _ => false,
            },
        }
    }

    /// Creates an input state with nothing held and no focus.
    pub fn new() -> (m: Self)
        ensures
            m.wf(),
            forall|i: int| !m.keys().0.has(i) && !m.keys().1.has(i) && !m.keys().2.has(i),
            forall|i: int| !m.mouse_bits().0.has(i) && !m.mouse_bits().1.has(i) && !m.mouse_bits().2.has(i),
            m.mouse_other() == (Set::<u16>::empty(), Set::<u16>::empty(), Set::<u16>::empty()),
            m.pointer() == (None::<(Pt, Pt)>, (Pt::zero_spec(), Pt::zero_spec())),
            !m.has_focus(),
            m.text_state() == (false, Seq::<char>::empty(), None::<Seq<char>>),
            m.touch_list() == Seq::<TouchInfo>::empty(),
            m.pads() == Seq::<GamepadState>::empty(),
    {
        let m = InputManager {
            keys_down: BitSet128::new(),
            keys_pressed: BitSet128::new(),
            keys_released: BitSet128::new(),
            mouse_down: BitSet128::new(),
            mouse_pressed: BitSet128::new(),
            mouse_released: BitSet128::new(),
            mouse_other_down: HashSet::new(),
            mouse_other_pressed: HashSet::new(),
            mouse_other_released: HashSet::new(),
            cursor_position: None,
            scroll_delta: (Pt::zero(), Pt::zero()),
            focused: false,
            text_input_enabled: false,
            text_input: String::new(),
            ime_preedit: None,
            touches: Vec::new(),
            gamepads: Vec::new(),
        };
        assert(m.text_state() =~= (false, Seq::<char>::empty(), None::<Seq<char>>));
        m
    }

    /// Whether text input is enabled.
    pub fn text_input_enabled(&self) -> (b: bool)
        ensures
            b == self.text_state().0,
    {
        self.text_input_enabled
    }

    /// Enables or disables text input; disabling drops the text of the frame
    /// and the preedit text.
    pub fn set_text_input_enabled(&mut self, enabled: bool)
        ensures
            final(self).text_state() == if enabled {
                (true, old(self).text_state().1, old(self).text_state().2)
            } else {
                (false, Seq::<char>::empty(), None::<Seq<char>>)
            },
            final(self).keys() == old(self).keys(),
            final(self).mouse_bits() == old(self).mouse_bits(),
            final(self).mouse_other() == old(self).mouse_other(),
            final(self).pointer() == old(self).pointer(),
            final(self).has_focus() == old(self).has_focus(),
            final(self).touch_list() == old(self).touch_list(),
            final(self).pads() == old(self).pads(),
    {
        self.text_input_enabled = enabled;
        if !enabled {
            self.text_input = String::new();
            self.ime_preedit = None;
        }
        proof {
            if enabled {
                assert(self.text_state() =~= (true, old(self).text_state().1, old(self).text_state().2));
            } else {
                assert(self.text_state() =~= (false, Seq::<char>::empty(), None::<Seq<char>>));
            }
        }
    }

    /// Whether the window has focus.
    pub fn is_focused(&self) -> (b: bool)
        ensures
            b == self.has_focus(),
    {
        self.focused
    }

    /// The cursor position in logical points, if known.
    pub fn cursor_position(&self) -> (p: Option<(Pt, Pt)>)
        ensures
            p == self.pointer().0,
    {
        self.cursor_position
    }

    /// The scroll delta accumulated during the current frame.
    pub fn scroll_delta(&self) -> (d: (Pt, Pt))
        ensures
            d == self.pointer().1,
    {
        self.scroll_delta
    }

    /// Replaces the scroll delta of the current frame (the application adds
    /// wheel movements to it).
    pub fn set_scroll_delta(&mut self, dx: Pt, dy: Pt)
        ensures
            final(self).pointer() == (old(self).pointer().0, (dx, dy)),
            final(self).keys() == old(self).keys(),
            final(self).mouse_bits() == old(self).mouse_bits(),
            final(self).mouse_other() == old(self).mouse_other(),
            final(self).has_focus() == old(self).has_focus(),
            final(self).text_state() == old(self).text_state(),
            final(self).touch_list() == old(self).touch_list(),
            final(self).pads() == old(self).pads(),
    {
        self.scroll_delta = (dx, dy);
    }

    /// The text typed during the current frame.
    pub fn text_input(&self) -> (t: &str)
        ensures
            t@ == self.text_state().1,
    {
        self.text_input.as_str()
    }

    /// The text being composed by the input method, if any.
    pub fn ime_preedit(&self) -> (t: Option<&str>)
        ensures
            match t {
                Some(s) => self.text_state().2 == Some(s@),
                None => self.text_state().2 is None,
            },
    {
        match &self.ime_preedit {
            Some(s) => Some(s.as_str()),
            None => None,
        }
    }

    /// Active touch points.
    pub fn touches(&self) -> (t: &[TouchInfo])
        ensures
            t@ == self.touch_list(),
    {
        self.touches.as_slice()
    }

    /// Basic information about every known gamepad.
    pub fn gamepads(&self) -> (v: Vec<GamepadInfo>)
        ensures
            v@.len() == self.pads().len(),
            forall|i: int|
                0 <= i < v@.len() ==> (#[trigger] v@[i]).id == self.pads()[i].id() && v@[i].name@
                    == self.pads()[i].name() && v@[i].connected == self.pads()[i].connected(),
    {
        let mut v: Vec<GamepadInfo> = Vec::new();
        let mut i: usize = 0;
        while i < self.gamepads.len()
            invariant
                i <= self.gamepads.len(),
                v@.len() == i,
                forall|j: int|
                    0 <= j < i ==> (#[trigger] v@[j]).id == self.pads()[j].id() && v@[j].name@
                        == self.pads()[j].name() && v@[j].connected == self.pads()[j].connected(),
            decreases self.gamepads.len() - i,
        {
            v.push(self.gamepads[i].info.duplicate());
            i += 1;
        }
        v
    }

    fn find_pad(&self, id: GamepadId) -> (r: Option<usize>)
        requires
            self.wf(),
        ensures
            match r {
                Some(i) => pad_index(self.pads(), id) == Some(i as int),
                None => pad_index(self.pads(), id) is None,
            },
    {
        let mut i: usize = 0;
        while i < self.gamepads.len()
            invariant
                self.wf(),
                i <= self.gamepads.len(),
                forall|j: int| 0 <= j < i ==> #[trigger] self.pads()[j].id() != id,
            decreases self.gamepads.len() - i,
        {
            if self.gamepads[i].info.id == id {
                proof {
                    lemma_pad_index_at(self.pads(), i as int);
                }
                return Some(i);
            }
            i += 1;
        }
        None
    }

    /// Whether the gamepad `id` is known and connected.
    pub fn gamepad_connected(&self, id: GamepadId) -> (b: bool)
        requires
            self.wf(),
        ensures
            b == (self.pad(id) matches Some(p) && p.connected()),
    {
        match self.find_pad(id) {
            Some(i) => self.gamepads[i].info.connected,
            None => false,
        }
    }

    /// Whether `button` of gamepad `id` is held.
    pub fn gamepad_button_down(&self, id: GamepadId, button: GamepadButton) -> (b: bool)
        requires
            self.wf(),
        ensures
            b == (self.pad(id) matches Some(p) && p.down(button)),
    {
        match self.find_pad(id) {
            Some(i) => button_contains(&self.gamepads[i].buttons_down, button),
            None => false,
        }
    }

    /// Whether `button` of gamepad `id` was pressed during the current frame.
    pub fn gamepad_button_pressed(&self, id: GamepadId, button: GamepadButton) -> (b: bool)
        requires
            self.wf(),
        ensures
            b == (self.pad(id) matches Some(p) && p.pressed(button)),
    {
        match self.find_pad(id) {
            Some(i) => button_contains(&self.gamepads[i].buttons_pressed, button),
            None => false,
        }
    }

    /// Whether `button` of gamepad `id` was released during the current frame.
    pub fn gamepad_button_released(&self, id: GamepadId, button: GamepadButton) -> (b: bool)
        requires
            self.wf(),
        ensures
            b == (self.pad(id) matches Some(p) && p.released(button)),
    {
        match self.find_pad(id) {
            Some(i) => button_contains(&self.gamepads[i].buttons_released, button),
            None => false,
        }
    }

    /// Value (`f32` bit pattern) of `axis` of gamepad `id`; the bit pattern of
    /// `0.0` when the gamepad or the axis is unknown.
    pub fn gamepad_axis(&self, id: GamepadId, axis: GamepadAxis) -> (v: u32)
        requires
            self.wf(),
        ensures
            v == match self.pad(id) {
                Some(p) => match p.axis(axis) {
                    Some(x) => x,
                    None => 0u32,
                },
                None => 0u32,
            },
    {
        match self.find_pad(id) {
            Some(i) => {
                assert(self.pads()[i as int].wf());
                match axis_get(&self.gamepads[i].axes, axis) {
                    Some(x) => x,
                    None => 0,
                }
            },
            None => 0,
        }
    }

    /// Whether `key` is held.
    pub fn key_down(&self, key: Key) -> (b: bool)
        ensures
            b == self.keys().0.has(key.idx()),
    {
        self.keys_down.contains(key.as_index())
    }

    /// Whether `key` was pressed during the current frame.
    pub fn key_pressed(&self, key: Key) -> (b: bool)
        ensures
            b == self.keys().1.has(key.idx()),
    {
        self.keys_pressed.contains(key.as_index())
    }

    /// Whether `key` was released during the current frame.
    pub fn key_released(&self, key: Key) -> (b: bool)
        ensures
            b == self.keys().2.has(key.idx()),
    {
        self.keys_released.contains(key.as_index())
    }

    /// Whether mouse `button` is held.
    pub fn mouse_down(&self, button: MouseButton) -> (b: bool)
        ensures
            b == self.button_state(button, 0),
    {
        match button.bit_index() {
            Some(i) => self.mouse_down.contains(i),
            None => match button {
                MouseButton::Other(v) => self.mouse_other_down.contains(&v),
                _ => false,
            },
        }
    }

    /// Whether mouse `button` was pressed during the current frame.
    pub fn mouse_pressed(&self, button: MouseButton) -> (b: bool)
        ensures
            b == self.button_state(button, 1),
    {
        match button.bit_index() {
            Some(i) => self.mouse_pressed.contains(i),
            None => match button {
                MouseButton::Other(v) => self.mouse_other_pressed.contains(&v),
                _ => false,
            },
        }
    }

    /// Forgets everything that only lasts one frame: pressed and released keys
    /// and buttons, the scroll delta and the typed text. Held keys and buttons,
    /// touches, the cursor and the preedit text stay.
    pub fn end_frame(&mut self)
        requires
            old(self).wf(),
        ensures
            final(self).wf(),
            forall|i: int|
                final(self).keys().0.has(i) == old(self).keys().0.has(i) && !final(self).keys().1.has(i)
                    && !final(self).keys().2.has(i),
            forall|i: int|
                final(self).mouse_bits().0.has(i) == old(self).mouse_bits().0.has(i) && !final(self).mouse_bits().1.has(i) && !final(self).mouse_bits().2.has(i),
            final(self).mouse_other() == (old(self).mouse_other().0, Set::<u16>::empty(), Set::<u16>::empty()),
            final(self).pointer() == (old(self).pointer().0, (Pt::zero_spec(), Pt::zero_spec())),
            final(self).has_focus() == old(self).has_focus(),
            final(self).text_state() == (old(self).text_state().0, Seq::<char>::empty(), old(self).text_state().2),
            final(self).touch_list() == old(self).touch_list(),
            final(self).pads().len() == old(self).pads().len(),
            forall|id: GamepadId| #[trigger] pad_index(final(self).pads(), id) == pad_index(old(self).pads(), id),
            forall|i: int|
                0 <= i < final(self).pads().len() ==> {
                    let n = #[trigger] final(self).pads()[i];
                    let o = old(self).pads()[i];
                    &&& n.id() == o.id() && n.name() == o.name() && n.connected() == o.connected()
                    &&& forall|a: GamepadAxis| n.axis(a) == o.axis(a)
                    &&& forall|b: GamepadButton| n.down(b) == o.down(b) && !n.pressed(b) && !n.released(b)
                },
    {
        self.keys_pressed = BitSet128::new();
        self.keys_released = BitSet128::new();
        self.mouse_pressed = BitSet128::new();
        self.mouse_released = BitSet128::new();
        self.mouse_other_pressed.clear();
        self.mouse_other_released.clear();
        self.scroll_delta = (Pt::zero(), Pt::zero());
        self.text_input = String::new();
        clear_pad_edges(&mut self.gamepads);
        assert(self.text_state() =~= (old(self).text_state().0, Seq::<char>::empty(), old(self).text_state().2));
        assert(self.mouse_other() =~= (old(self).mouse_other().0, Set::<u16>::empty(), Set::<u16>::empty()));
    }

    /// Forgets all transient input (see `is_cleared_from`); focus and whether
    /// text input is enabled stay.
    pub fn clear_transient_state(&mut self)
        requires
            old(self).wf(),
        ensures
            final(self).wf(),
            final(self).is_cleared_from(*old(self)),
            final(self).has_focus() == old(self).has_focus(),
    {
        self.keys_down = BitSet128::new();
        self.keys_pressed = BitSet128::new();
        self.keys_released = BitSet128::new();
        self.mouse_down = BitSet128::new();
        self.mouse_pressed = BitSet128::new();
        self.mouse_released = BitSet128::new();
        self.mouse_other_down.clear();
        self.mouse_other_pressed.clear();
        self.mouse_other_released.clear();
        self.cursor_position = None;
        self.scroll_delta = (Pt::zero(), Pt::zero());
        self.text_input = String::new();
        self.ime_preedit = None;
        self.touches = Vec::new();
        clear_pad_controls(&mut self.gamepads);
        assert(self.text_state() =~= (old(self).text_state().0, Seq::<char>::empty(), None::<Seq<char>>));
        assert(self.mouse_other() =~= (Set::<u16>::empty(), Set::<u16>::empty(), Set::<u16>::empty()));
    }

    /// Records a focus change; losing focus forgets all transient input.
    pub fn handle_focus(&mut self, focused: bool)
        requires
            old(self).wf(),
        ensures
            final(self).wf(),
            final(self).has_focus() == focused,
            !focused ==> final(self).is_cleared_from(*old(self)),
            focused ==> {
                &&& final(self).keys() == old(self).keys()
                &&& final(self).mouse_bits() == old(self).mouse_bits()
                &&& final(self).mouse_other() == old(self).mouse_other()
                &&& final(self).pointer() == old(self).pointer()
                &&& final(self).text_state() == old(self).text_state()
                &&& final(self).touch_list() == old(self).touch_list()
                &&& final(self).pads() == old(self).pads()
            },
    {
        self.focused = focused;
        if !focused {
            self.clear_transient_state();
        }
    }

    /// Appends a typed character to the text of the frame, when text input is
    /// enabled and the character is not a control character.
    pub fn handle_received_character(&mut self, ch: char)
        ensures
            final(self).text_state() == if old(self).text_state().0 && !char_is_control(ch) {
                (true, old(self).text_state().1.push(ch), old(self).text_state().2)
            } else {
                old(self).text_state()
            },
            final(self).keys() == old(self).keys(),
            final(self).mouse_bits() == old(self).mouse_bits(),
            final(self).mouse_other() == old(self).mouse_other(),
            final(self).pointer() == old(self).pointer(),
            final(self).has_focus() == old(self).has_focus(),
            final(self).touch_list() == old(self).touch_list(),
            final(self).pads() == old(self).pads(),
    {
        if !self.text_input_enabled {
            return;
        }
        if is_control(ch) {
            return;
        }
        string_push(&mut self.text_input, ch);
        assert(self.text_state() =~= (true, old(self).text_state().1.push(ch), old(self).text_state().2));
    }

    /// Applies an input method event. Preedit text is kept only while text
    /// input is enabled (an empty preedit clears it); committed text is
    /// appended to the text of the frame when text input is enabled; every
    /// event but a preedit clears the preedit text.
    pub fn handle_ime(&mut self, ime: ImeEvent)
        ensures
            final(self).text_state() == match ime {
                ImeEvent::Preedit(v) => (
                    old(self).text_state().0,
                    old(self).text_state().1,
                    if old(self).text_state().0 && v@.len() > 0 {
                        Some(v@)
                    } else {
                        None
                    },
                ),
                ImeEvent::Commit(v) => (
                    old(self).text_state().0,
                    if old(self).text_state().0 {
                        old(self).text_state().1 + v@
                    } else {
                        old(self).text_state().1
                    },
                    None,
                ),
                _ => (old(self).text_state().0, old(self).text_state().1, None),
            },
            final(self).keys() == old(self).keys(),
            final(self).mouse_bits() == old(self).mouse_bits(),
            final(self).mouse_other() == old(self).mouse_other(),
            final(self).pointer() == old(self).pointer(),
            final(self).has_focus() == old(self).has_focus(),
            final(self).touch_list() == old(self).touch_list(),
            final(self).pads() == old(self).pads(),
    {
        let ghost ts = self.text_state();
        match ime {
            ImeEvent::Preedit(value) => {
                if !self.text_input_enabled {
                    self.ime_preedit = None;
                    assert(self.text_state() =~= (ts.0, ts.1, None::<Seq<char>>));
                    return;
                }
                let empty = value.as_str().is_empty();
                self.ime_preedit = if empty {
                    None
                } else {
                    Some(value)
                };
            },
            ImeEvent::Commit(value) => {
                if self.text_input_enabled && !value.as_str().is_empty() {
                    string_push_str(&mut self.text_input, value.as_str());
                }
                self.ime_preedit = None;
                proof {
                    if ts.0 && value@.len() == 0 {
                        assert(ts.1 + value@ =~= ts.1);
                    }
                }
            },
            ImeEvent::Enabled => {
                self.ime_preedit = None;
            },
            ImeEvent::Disabled => {
                self.ime_preedit = None;
            },
        }
    }

    /// Records the cursor position.
    pub fn handle_cursor_moved(&mut self, x: Pt, y: Pt)
        ensures
            final(self).pointer() == (Some((x, y)), old(self).pointer().1),
            final(self).keys() == old(self).keys(),
            final(self).mouse_bits() == old(self).mouse_bits(),
            final(self).mouse_other() == old(self).mouse_other(),
            final(self).has_focus() == old(self).has_focus(),
            final(self).text_state() == old(self).text_state(),
            final(self).touch_list() == old(self).touch_list(),
            final(self).pads() == old(self).pads(),
    {
        self.cursor_position = Some((x, y));
    }

    /// Records a mouse button going down or up. A press of a held button is
    /// not a new press; a release is recorded even for a button not held.
    pub fn handle_mouse_input(&mut self, state: ElementState, button: MouseButton)
        ensures
            forall|b: MouseButton| #[trigger] final(self).button_state(b, 0) == if b == button {
                state == ElementState::Pressed
            } else {
                old(self).button_state(b, 0)
            },
            forall|b: MouseButton| #[trigger] final(self).button_state(b, 1) == if b == button && state
                == ElementState::Pressed && !old(self).button_state(button, 0) {
                true
            } else {
                old(self).button_state(b, 1)
            },
            forall|b: MouseButton| #[trigger] final(self).button_state(b, 2) == if b == button && state
                == ElementState::Released {
                true
            } else {
                old(self).button_state(b, 2)
            },
            final(self).keys() == old(self).keys(),
            final(self).pointer() == old(self).pointer(),
            final(self).has_focus() == old(self).has_focus(),
            final(self).text_state() == old(self).text_state(),
            final(self).touch_list() == old(self).touch_list(),
            final(self).pads() == old(self).pads(),
    {
        match (state, button.bit_index()) {
            (ElementState::Pressed, Some(i)) => {
                if !self.mouse_down.contains(i) {
                    self.mouse_down.insert(i);
                    self.mouse_pressed.insert(i);
                }
            },
            (ElementState::Released, Some(i)) => {
                self.mouse_down.remove(i);
                self.mouse_released.insert(i);
            },
            (ElementState::Pressed, None) => {
                if let MouseButton::Other(v) = button {
                    if self.mouse_other_down.insert(v) {
                        self.mouse_other_pressed.insert(v);
                    }
                }
            },
            (ElementState::Released, None) => {
                if let MouseButton::Other(v) = button {
                    self.mouse_other_down.remove(&v);
                    self.mouse_other_released.insert(v);
                }
            },
        }
        assert forall|b: MouseButton| #[trigger] self.button_state(b, 0) == if b == button {
            state == ElementState::Pressed
        } else {
            old(self).button_state(b, 0)
        } by {
            if b != button {
                if let (Some(x), Some(y)) = (mouse_bit(b), mouse_bit(button)) {
                    assert(x != y);
                }
            }
        }
        assert forall|b: MouseButton| #[trigger] self.button_state(b, 1) == if b == button && state
            == ElementState::Pressed && !old(self).button_state(button, 0) {
            true
        } else {
            old(self).button_state(b, 1)
        } by {
            if b != button {
                if let (Some(x), Some(y)) = (mouse_bit(b), mouse_bit(button)) {
                    assert(x != y);
                }
            }
        }
        assert forall|b: MouseButton| #[trigger] self.button_state(b, 2) == if b == button && state
            == ElementState::Released {
            true
        } else {
            old(self).button_state(b, 2)
        } by {
            if b != button {
                if let (Some(x), Some(y)) = (mouse_bit(b), mouse_bit(button)) {
                    assert(x != y);
                }
            }
        }
    }

    /// Records a key going down or up. A press of a held key is not a new
    /// press; a release is recorded even for a key not held.
    pub fn handle_keyboard_input(&mut self, state: ElementState, key: Key)
        ensures
            forall|i: int| #[trigger] final(self).keys().0.has(i) == if i == key.idx() {
                state == ElementState::Pressed
            } else {
                old(self).keys().0.has(i)
            },
            forall|i: int| #[trigger] final(self).keys().1.has(i) == if i == key.idx() && state
                == ElementState::Pressed && !old(self).keys().0.has(i) {
                true
            } else {
                old(self).keys().1.has(i)
            },
            forall|i: int| #[trigger] final(self).keys().2.has(i) == if i == key.idx() && state
                == ElementState::Released {
                true
            } else {
                old(self).keys().2.has(i)
            },
            final(self).mouse_bits() == old(self).mouse_bits(),
            final(self).mouse_other() == old(self).mouse_other(),
            final(self).pointer() == old(self).pointer(),
            final(self).has_focus() == old(self).has_focus(),
            final(self).text_state() == old(self).text_state(),
            final(self).touch_list() == old(self).touch_list(),
            final(self).pads() == old(self).pads(),
    {
        let idx = key.as_index();
        match state {
            ElementState::Pressed => {
                if !self.keys_down.contains(idx) {
                    self.keys_down.insert(idx);
                    self.keys_pressed.insert(idx);
                }
            },
            ElementState::Released => {
                self.keys_down.remove(idx);
                self.keys_released.insert(idx);
            },
        }
    }

    /// Records a touch event: a started touch replaces any touch with the same
    /// identifier and goes last; a moved touch updates the touch with that
    /// identifier, or is added last when there is none; an ended or cancelled
    /// touch is removed.
    pub fn handle_touch_raw(&mut self, id: u64, position: (Pt, Pt), phase: TouchPhase)
        requires
            old(self).wf(),
        ensures
            final(self).wf(),
            final(self).touch_list() == match phase {
                TouchPhase::Started => touches_without(old(self).touch_list(), id).push(
                    TouchInfo { id, position, phase },
                ),
                TouchPhase::Moved => if exists|i: int|
                    0 <= i < old(self).touch_list().len() && #[trigger] old(self).touch_list()[i].id == id {
                    old(self).touch_list().update(
                        choose|i: int|
                            0 <= i < old(self).touch_list().len() && #[trigger] old(self).touch_list()[i].id
                                == id,
                        TouchInfo { id, position, phase },
                    )
                } else {
                    old(self).touch_list().push(TouchInfo { id, position, phase })
                },
                _ => touches_without(old(self).touch_list(), id),
            },
            final(self).keys() == old(self).keys(),
            final(self).mouse_bits() == old(self).mouse_bits(),
            final(self).mouse_other() == old(self).mouse_other(),
            final(self).pointer() == old(self).pointer(),
            final(self).has_focus() == old(self).has_focus(),
            final(self).text_state() == old(self).text_state(),
            final(self).pads() == old(self).pads(),
    {
        match phase {
            TouchPhase::Started => {
                let mut kept = remove_touch(&self.touches, id);
                kept.push(TouchInfo { id, position, phase });
                proof {
                    let f = touches_without(old(self).touch_list(), id);
                    assert forall|i: int, j: int|
                        0 <= i < kept@.len() && 0 <= j < kept@.len() && i != j implies #[trigger] kept@[i].id
                        != #[trigger] kept@[j].id by {
                        if i < f.len() && j < f.len() {
                            lemma_filter_unique(old(self).touch_list(), id, i, j);
                        } else if i < f.len() {
                            lemma_filter_without(old(self).touch_list(), id, i);
                        } else if j < f.len() {
                            lemma_filter_without(old(self).touch_list(), id, j);
                        }
                    }
                }
                self.touches = kept;
            },
            TouchPhase::Moved => {
                let found = find_touch(&self.touches, id);
                match found {
                    Some(i) => {
                        let ghost ot = self.touches@;
                        proof {
                            let c = choose|k: int| 0 <= k < ot.len() && #[trigger] ot[k].id == id;
                            if c != i {
                                assert(ot[c].id != ot[i as int].id);
                            }
                        }
                        self.touches.set(i, TouchInfo { id, position, phase });
                        assert forall|p: int, q: int|
                            0 <= p < self.touches@.len() && 0 <= q < self.touches@.len() && p != q implies #[trigger] self.touches@[p].id
                            != #[trigger] self.touches@[q].id by {
                            assert(self.touches@[p].id == ot[p].id);
                            assert(self.touches@[q].id == ot[q].id);
                        }
                    },
                    None => {
                        let ghost ot = self.touches@;
                        self.touches.push(TouchInfo { id, position, phase });
                        assert forall|p: int, q: int|
                            0 <= p < self.touches@.len() && 0 <= q < self.touches@.len() && p != q implies #[trigger] self.touches@[p].id
                            != #[trigger] self.touches@[q].id by {
                            if p < ot.len() {
                                assert(self.touches@[p] == ot[p]);
                            }
                            if q < ot.len() {
                                assert(self.touches@[q] == ot[q]);
                            }
                        }
                    },
                }
            },
            _ => {
                let kept = remove_touch(&self.touches, id);
                proof {
                    assert forall|i: int, j: int|
                        0 <= i < kept@.len() && 0 <= j < kept@.len() && i != j implies #[trigger] kept@[i].id
                        != #[trigger] kept@[j].id by {
                        lemma_filter_unique(old(self).touch_list(), id, i, j);
                    }
                }
                self.touches = kept;
            },
        }
    }

    fn ensure_pad(&mut self, id: GamepadId, name: String) -> (idx: usize)
        requires
            old(self).wf(),
        ensures
            final(self).wf(),
            idx < final(self).pads().len(),
            pad_index(final(self).pads(), id) == Some(idx as int),
            final(self).pads()[idx as int].id() == id,
            final(self).pads()[idx as int].connected(),
            final(self).pads()[idx as int].name() == name@,
            match old(self).pad(id) {
                Some(o) => final(self).pads()[idx as int].same_controls(&o),
                None => forall|b: GamepadButton|
                    !final(self).pads()[idx as int].down(b) && !final(self).pads()[idx as int].pressed(b)
                        && !final(self).pads()[idx as int].released(b),
            },
            old(self).pad(id) is None ==> forall|a: GamepadAxis|
                final(self).pads()[idx as int].axis(a) is None,
            pads_agree_except(final(self).pads(), old(self).pads(), id),
            final(self).keys() == old(self).keys(),
            final(self).mouse_bits() == old(self).mouse_bits(),
            final(self).mouse_other() == old(self).mouse_other(),
            final(self).pointer() == old(self).pointer(),
            final(self).has_focus() == old(self).has_focus(),
            final(self).text_state() == old(self).text_state(),
            final(self).touch_list() == old(self).touch_list(),
    {
        match self.find_pad(id) {
            Some(i) => {
                let ghost before = self.gamepads@;
                assert(before[i as int].wf());
                assert(before[i as int].id() == id);
                self.gamepads[i].mark_connected(name);
                proof {
                    assert(self.gamepads@ =~= before.update(i as int, self.gamepads@[i as int]));
                    lemma_pads_update(before, i as int, self.gamepads@[i as int]);
                }
                i
            },
            None => {
                let ghost before = self.gamepads@;
                let st = GamepadState::new(id, name);
                self.gamepads.push(st);
                let idx = self.gamepads.len() - 1;
                proof {
                    let np = self.gamepads@;
                    assert(np =~= before.push(st));
                    assert forall|a: int, b: int| 0 <= a < np.len() && 0 <= b < np.len() && a != b implies #[trigger] np[a].id()
                        != #[trigger] np[b].id() by {
                        if a < before.len() {
                            assert(np[a] == before[a]);
                        }
                        if b < before.len() {
                            assert(np[b] == before[b]);
                        }
                    }
                    assert forall|a: int| 0 <= a < np.len() implies #[trigger] np[a].wf() by {
                        if a < before.len() {
                            assert(np[a] == before[a]);
                        }
                    }
                    lemma_pad_index_at(np, idx as int);
                    assert forall|id2: GamepadId| id2 != id implies #[trigger] pad_of(np, id2) == pad_of(before, id2) by {
                        if exists|k: int| 0 <= k < before.len() && #[trigger] before[k].id() == id2 {
                            let k = choose|k: int| 0 <= k < before.len() && #[trigger] before[k].id() == id2;
                            lemma_pad_index_at(before, k);
                            assert(np[k] == before[k]);
                            lemma_pad_index_at(np, k);
                        } else {
                            assert forall|k: int| 0 <= k < np.len() implies #[trigger] np[k].id() != id2 by {
                                if k < before.len() {
                                    assert(np[k] == before[k]);
                                }
                            }
                        }
                    }
                }
                idx
            },
        }
    }

    /// Records that gamepad `id` is connected under `name`; a new gamepad
    /// starts with nothing held.
    pub fn handle_gamepad_connected(&mut self, id: GamepadId, name: String)
        requires
            old(self).wf(),
        ensures
            final(self).wf(),
            final(self).pad(id) matches Some(p) && p.connected() && p.name() == name@,
            pads_agree_except(final(self).pads(), old(self).pads(), id),
    {
        self.ensure_pad(id, name);
    }

    /// Records that gamepad `id` is disconnected: it stays known, marked
    /// disconnected, with nothing held and no axis value.
    pub fn handle_gamepad_disconnected(&mut self, id: GamepadId)
        requires
            old(self).wf(),
        ensures
            final(self).wf(),
            match old(self).pad(id) {
                Some(o) => final(self).pad(id) matches Some(p) && !p.connected() && p.name() == o.name()
                    && (forall|b: GamepadButton| !p.down(b) && !p.pressed(b) && !p.released(b)) && (forall|
                    a: GamepadAxis,
                | p.axis(a) is None),
                None => final(self).pad(id) is None,
            },
            pads_agree_except(final(self).pads(), old(self).pads(), id),
    {
        match self.find_pad(id) {
            Some(i) => {
                let ghost before = self.gamepads@;
                assert(before[i as int].wf());
                assert(before[i as int].id() == id);
                self.gamepads[i].clear_controls(false);
                proof {
                    assert(self.gamepads@ =~= before.update(i as int, self.gamepads@[i as int]));
                    lemma_pads_update(before, i as int, self.gamepads@[i as int]);
                }
            },
            None => {},
        }
    }

    /// Records a gamepad button going down (`pressed`) or up. The gamepad is
    /// marked connected and named "Gamepad"; a press of a held button is not a
    /// new press, and a release of a button not held is no release.
    pub fn handle_gamepad_button(&mut self, id: GamepadId, button: GamepadButton, pressed: bool)
        requires
            old(self).wf(),
        ensures
            final(self).wf(),
            final(self).pad(id) matches Some(p) && p.connected() && p.name() == "Gamepad"@ && {
                let was_down = old(self).pad(id) matches Some(o) && o.down(button);
                &&& forall|b: GamepadButton| #[trigger] p.down(b) == if b == button {
                    pressed
                } else {
                    old(self).pad(id) matches Some(o) && o.down(b)
                }
                &&& forall|b: GamepadButton| #[trigger] p.pressed(b) == if b == button {
                    pressed && (!was_down || (old(self).pad(id) matches Some(o) && o.pressed(b)))
                } else {
                    old(self).pad(id) matches Some(o) && o.pressed(b)
                }
                &&& forall|b: GamepadButton| #[trigger] p.released(b) == if b == button {
                    !pressed && (was_down || (old(self).pad(id) matches Some(o) && o.released(b)))
                } else {
                    old(self).pad(id) matches Some(o) && o.released(b)
                }
                &&& forall|a: GamepadAxis| p.axis(a) == match old(self).pad(id) {
                    Some(o) => o.axis(a),
                    None => None,
                }
            },
            pads_agree_except(final(self).pads(), old(self).pads(), id),
    {
        let i = self.ensure_pad(id, "Gamepad".to_owned());
        let ghost mid = *self;
        let ghost before = self.gamepads@;
        assert(before[i as int].wf());
        if pressed {
            self.gamepads[i].press(button);
        } else {
            self.gamepads[i].release(button);
        }
        proof {
            assert(self.gamepads@ =~= before.update(i as int, self.gamepads@[i as int]));
            lemma_pads_update(before, i as int, self.gamepads@[i as int]);
            let st = self.gamepads@[i as int];
            assert(st.id() == id);
            assert(pads_agree_except(self.gamepads@, before, id));
            assert(pads_agree_except(before, old(self).pads(), id));
            lemma_agree_trans(self.gamepads@, before, old(self).pads(), id);
            assert(pad_of(self.gamepads@, id) == Some(st));
        }
    }

    /// Records the value (`f32` bit pattern) of a gamepad axis. The gamepad is
    /// marked connected and named "Gamepad". The application applies the dead
    /// zone and the clamp to `[-1, 1]` before calling this.
    pub fn handle_gamepad_axis(&mut self, id: GamepadId, axis: GamepadAxis, value: u32)
        requires
            old(self).wf(),
        ensures
            final(self).wf(),
            final(self).pad(id) matches Some(p) && p.connected() && p.name() == "Gamepad"@ && p.axis(
                axis,
            ) == Some(value) && (forall|a: GamepadAxis|
                a != axis ==> #[trigger] p.axis(a) == match old(self).pad(id) {
                    Some(o) => o.axis(a),
                    None => None,
                }) && (forall|b: GamepadButton|
                p.down(b) == (old(self).pad(id) matches Some(o) && o.down(b)) && p.pressed(b) == (old(self).pad(id) matches Some(o) && o.pressed(b)) && p.released(b) == (old(self).pad(id) matches Some(o)
                    && o.released(b))),
            pads_agree_except(final(self).pads(), old(self).pads(), id),
    {
        let i = self.ensure_pad(id, "Gamepad".to_owned());
        let ghost mid = *self;
        let ghost before = self.gamepads@;
        assert(before[i as int].wf());
        self.gamepads[i].set_axis(axis, value);
        proof {
            assert(self.gamepads@ =~= before.update(i as int, self.gamepads@[i as int]));
            lemma_pads_update(before, i as int, self.gamepads@[i as int]);
            let st = self.gamepads@[i as int];
            assert(st.id() == id);
            assert(pads_agree_except(self.gamepads@, before, id));
            assert(pads_agree_except(before, old(self).pads(), id));
            lemma_agree_trans(self.gamepads@, before, old(self).pads(), id);
            assert(pad_of(self.gamepads@, id) == Some(st));
        }
    }

    /// Whether mouse `button` was released during the current frame.
    pub fn mouse_released(&self, button: MouseButton) -> (b: bool)
        ensures
            b == self.button_state(button, 2),
    {
        match button.bit_index() {
            Some(i) => self.mouse_released.contains(i),
            None => match button {
                MouseButton::Other(v) => self.mouse_other_released.contains(&v),
                _ => false,
            },
        }
    }
}

} // verus!
