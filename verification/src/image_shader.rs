//! Descriptions and per-draw bindings of custom image shaders.
use vstd::prelude::*;
use vstd::std_specs::cmp::PartialEqSpecImpl;

use crate::image::Image;

verus! {

/// Maximum number of additional sampled textures of a custom image shader.
pub const MAX_IMAGE_SHADER_EXTRA_TEXTURES: usize = 4;

/// High-level blend modes of image shaders.
#[derive(Debug, Clone, Copy, PartialEq, Eq, Structural)]
pub enum ImageShaderBlendMode {
    Alpha,
    Add,
    Replace,
}

impl Default for ImageShaderBlendMode {
    fn default() -> (m: Self)
        ensures
            m == ImageShaderBlendMode::Alpha,
    {
        ImageShaderBlendMode::Alpha
    }
}

/// Description of a custom image shader to register.
#[derive(Debug, Clone, PartialEq, Eq)]
pub struct ImageShaderDesc {
    pub source: String,
    pub uses_extra_textures: bool,
    pub blend_mode: ImageShaderBlendMode,
    /// Whether the engine prepends its standard WGSL declarations to
    /// `source`.
    pub internal_prelude: bool,
    pub extra_texture_names: [Option<String>; MAX_IMAGE_SHADER_EXTRA_TEXTURES],
    /// Slot that the history texture semantic maps to.
    pub history_slot: Option<usize>,
    /// Slot that the screen snapshot semantic maps to.
    pub screen_slot: Option<usize>,
}

/// The names given to the extra texture slots, as character sequences.
pub open spec fn slot_names(names: Seq<Option<String>>) -> Seq<Option<Seq<char>>> {
    names.map_values(
        |n: Option<String>|
            match n {
                Some(s) => Some(s@),
                None => None,
            },
    )
}

impl ImageShaderDesc {
    /// Everything but the source and the slot names.
    pub open spec fn flags(&self) -> (bool, ImageShaderBlendMode, bool, Option<usize>, Option<usize>) {
        (self.uses_extra_textures, self.blend_mode, self.internal_prelude, self.history_slot, self.screen_slot)
    }

    /// A description that uses `source` as it is: no extra textures, alpha
    /// blending, no prelude, no slot names or semantic slots.
    pub fn from_wgsl(source: &str) -> (d: Self)
        ensures
            d.source@ == source@,
            d.flags() == (false, ImageShaderBlendMode::Alpha, false, None::<usize>, None::<usize>),
            slot_names(d.extra_texture_names@) == seq![None::<Seq<char>>, None, None, None],
    {
        let d = ImageShaderDesc {
            source: source.to_owned(),
            uses_extra_textures: false,
            blend_mode: ImageShaderBlendMode::Alpha,
            internal_prelude: false,
            extra_texture_names: [None, None, None, None],
            history_slot: None,
            screen_slot: None,
        };
        assert(slot_names(d.extra_texture_names@) =~= seq![None::<Seq<char>>, None, None, None]);
        d
    }

    /// Turns the engine prelude on or off.
    pub fn with_internal_prelude(self, enabled: bool) -> (d: Self)
        ensures
            d.source@ == self.source@,
            d.flags() == (self.flags().0, self.flags().1, enabled, self.flags().3, self.flags().4),
            slot_names(d.extra_texture_names@) == slot_names(self.extra_texture_names@),
    {
        let mut d = self;
        d.internal_prelude = enabled;
        d
    }

    /// Names extra texture slot `slot` (ignored unless `slot < 4`).
    pub fn with_texture_alias(self, slot: usize, name: &str) -> (d: Self)
        ensures
            d.source@ == self.source@,
            d.flags() == self.flags(),
            slot_names(d.extra_texture_names@) == if slot < MAX_IMAGE_SHADER_EXTRA_TEXTURES {
                slot_names(self.extra_texture_names@).update(slot as int, Some(name@))
            } else {
                slot_names(self.extra_texture_names@)
            },
    {
        let mut d = self;
        if slot < MAX_IMAGE_SHADER_EXTRA_TEXTURES {
            d.extra_texture_names[slot] = Some(name.to_owned());
            assert(slot_names(d.extra_texture_names@) =~= slot_names(self.extra_texture_names@).update(
                slot as int,
                Some(name@),
            ));
        }
        d
    }

    /// Maps the history texture semantic to `slot` (ignored unless
    /// `slot < 4`).
    pub fn with_history_slot(self, slot: usize) -> (d: Self)
        ensures
            d.source@ == self.source@,
            d.flags() == (
                self.flags().0,
                self.flags().1,
                self.flags().2,
                if slot < MAX_IMAGE_SHADER_EXTRA_TEXTURES {
                    Some(slot)
                } else {
                    self.flags().3
                },
                self.flags().4,
            ),
            slot_names(d.extra_texture_names@) == slot_names(self.extra_texture_names@),
    {
        let mut d = self;
        if slot < MAX_IMAGE_SHADER_EXTRA_TEXTURES {
            d.history_slot = Some(slot);
        }
        d
    }

    /// Maps the screen snapshot semantic to `slot` (ignored unless
    /// `slot < 4`).
    pub fn with_screen_slot(self, slot: usize) -> (d: Self)
        ensures
            d.source@ == self.source@,
            d.flags() == (
                self.flags().0,
                self.flags().1,
                self.flags().2,
                self.flags().3,
                if slot < MAX_IMAGE_SHADER_EXTRA_TEXTURES {
                    Some(slot)
                } else {
                    self.flags().4
                },
            ),
            slot_names(d.extra_texture_names@) == slot_names(self.extra_texture_names@),
    {
        let mut d = self;
        if slot < MAX_IMAGE_SHADER_EXTRA_TEXTURES {
            d.screen_slot = Some(slot);
        }
        d
    }

    /// Turns the extra texture bind group on or off.
    pub fn with_extra_textures(self, enabled: bool) -> (d: Self)
        ensures
            d.source@ == self.source@,
            d.flags() == (enabled, self.flags().1, self.flags().2, self.flags().3, self.flags().4),
            slot_names(d.extra_texture_names@) == slot_names(self.extra_texture_names@),
    {
        let mut d = self;
        d.uses_extra_textures = enabled;
        d
    }

    /// Selects the blend mode.
    pub fn with_blend_mode(self, blend_mode: ImageShaderBlendMode) -> (d: Self)
        ensures
            d.source@ == self.source@,
            d.flags() == (self.flags().0, blend_mode, self.flags().2, self.flags().3, self.flags().4),
            slot_names(d.extra_texture_names@) == slot_names(self.extra_texture_names@),
    {
        let mut d = self;
        d.blend_mode = blend_mode;
        d
    }

    /// Whether the shader uses the extra texture bind group.
    pub fn uses_extra_textures(&self) -> (b: bool)
        ensures
            b == self.uses_extra_textures,
    {
        self.uses_extra_textures
    }
}

/// What a custom image shader samples in one slot.
#[derive(Debug, Clone, Copy)]
pub enum ImageShaderInput {
    Unbound,
    Image(Image),
    Screen,
    History,
}

impl Default for ImageShaderInput {
    fn default() -> (i: Self)
        ensures
            i is Unbound,
    {
        ImageShaderInput::Unbound
    }
}

/// Two inputs are the same when they are the same kind, images being
/// compared by identifier.
pub open spec fn same_input(a: ImageShaderInput, b: ImageShaderInput) -> bool {
    match (a, b) {
        (ImageShaderInput::Unbound, ImageShaderInput::Unbound) => true,
        (ImageShaderInput::Screen, ImageShaderInput::Screen) => true,
        (ImageShaderInput::History, ImageShaderInput::History) => true,
        (ImageShaderInput::Image(l), ImageShaderInput::Image(r)) => l.id_spec() == r.id_spec(),
        _ => false,
    }
}

impl PartialEq for ImageShaderInput {
    fn eq(&self, other: &Self) -> (b: bool) {
        match (self, other) {
            (ImageShaderInput::Unbound, ImageShaderInput::Unbound) => true,
            (ImageShaderInput::Screen, ImageShaderInput::Screen) => true,
            (ImageShaderInput::History, ImageShaderInput::History) => true,
            (ImageShaderInput::Image(l), ImageShaderInput::Image(r)) => l.id() == r.id(),
            _ => false,
        }
    }
}

impl PartialEqSpecImpl for ImageShaderInput {
    open spec fn obeys_eq_spec() -> bool {
        true
    }

    open spec fn eq_spec(&self, other: &Self) -> bool {
        same_input(*self, *other)
    }
}

impl Eq for ImageShaderInput {

}

/// Per-draw bindings of a custom image shader: inputs bound to slots by
/// position, the history and screen semantics, and images bound by name.
#[derive(Debug, Clone)]
pub struct ImageShaderBindings {
    pub(crate) extra_inputs: [ImageShaderInput; MAX_IMAGE_SHADER_EXTRA_TEXTURES],
    pub(crate) history: bool,
    pub(crate) screen: bool,
    pub(crate) named_inputs: Vec<(String, ImageShaderInput)>,
}

/// No name occurs twice among the named inputs.
pub open spec fn unique_names(v: Seq<(String, ImageShaderInput)>) -> bool {
    forall|i: int, j: int| 0 <= i < v.len() && 0 <= j < v.len() && i != j ==> #[trigger] v[i].0@ != #[trigger] v[j].0@
}

/// The named inputs as a map from names to inputs.
pub open spec fn named_map(v: Seq<(String, ImageShaderInput)>) -> Map<Seq<char>, ImageShaderInput> {
    Map::new(
        |k: Seq<char>| exists|i: int| 0 <= i < v.len() && #[trigger] v[i].0@ == k,
        |k: Seq<char>| v[choose|i: int| 0 <= i < v.len() && #[trigger] v[i].0@ == k].1,
    )
}

impl ImageShaderBindings {
    /// Inputs bound by position.
    pub closed spec fn slots(&self) -> Seq<ImageShaderInput> {
        self.extra_inputs@
    }

    /// Whether the history and screen semantics are requested.
    pub closed spec fn semantics(&self) -> (bool, bool) {
        (self.history, self.screen)
    }

    /// Images bound by name.
    pub closed spec fn named(&self) -> Map<Seq<char>, ImageShaderInput> {
        named_map(self.named_inputs@)
    }

    /// No name is bound twice.
    pub closed spec fn wf(&self) -> bool {
        unique_names(self.named_inputs@)
    }

    /// No binding at all.
    pub fn new() -> (b: Self)
        ensures
            b.slots() == seq![
                ImageShaderInput::Unbound,
                ImageShaderInput::Unbound,
                ImageShaderInput::Unbound,
                ImageShaderInput::Unbound,
            ],
            b.semantics() == (false, false),
            b.named() == Map::<Seq<char>, ImageShaderInput>::empty(),
            b.wf(),
    {
        let b = ImageShaderBindings {
            extra_inputs: [
                ImageShaderInput::Unbound,
                ImageShaderInput::Unbound,
                ImageShaderInput::Unbound,
                ImageShaderInput::Unbound,
            ],
            history: false,
            screen: false,
            named_inputs: Vec::new(),
        };
        assert(b.slots() =~= seq![
            ImageShaderInput::Unbound,
            ImageShaderInput::Unbound,
            ImageShaderInput::Unbound,
            ImageShaderInput::Unbound,
        ]);
        assert(b.named() =~= Map::<Seq<char>, ImageShaderInput>::empty());
        b
    }

    fn with_slot(self, slot: usize, input: ImageShaderInput) -> (b: Self)
        ensures
            b.slots() == if slot < MAX_IMAGE_SHADER_EXTRA_TEXTURES {
                self.slots().update(slot as int, input)
            } else {
                self.slots()
            },
            b.semantics() == self.semantics(),
            b.named() == self.named(),
            b.wf() == self.wf(),
    {
        let mut b = self;
        if slot < MAX_IMAGE_SHADER_EXTRA_TEXTURES {
            b.extra_inputs[slot] = input;
            assert(b.slots() =~= self.slots().update(slot as int, input));
        }
        b
    }

    /// Binds `image` to slot `slot` (ignored unless `slot < 4`).
    pub fn with_extra_image(self, slot: usize, image: Image) -> (b: Self)
        ensures
            b.slots() == if slot < MAX_IMAGE_SHADER_EXTRA_TEXTURES {
                self.slots().update(slot as int, ImageShaderInput::Image(image))
            } else {
                self.slots()
            },
            b.semantics() == self.semantics(),
            b.named() == self.named(),
            b.wf() == self.wf(),
    {
        self.with_slot(slot, ImageShaderInput::Image(image))
    }

    /// Binds the current target snapshot to slot `slot` (ignored unless
    /// `slot < 4`).
    pub fn with_screen_at_slot(self, slot: usize) -> (b: Self)
        ensures
            b.slots() == if slot < MAX_IMAGE_SHADER_EXTRA_TEXTURES {
                self.slots().update(slot as int, ImageShaderInput::Screen)
            } else {
                self.slots()
            },
            b.semantics() == self.semantics(),
            b.named() == self.named(),
            b.wf() == self.wf(),
    {
        self.with_slot(slot, ImageShaderInput::Screen)
    }

    /// Binds the previous-frame target snapshot to slot `slot` (ignored
    /// unless `slot < 4`).
    pub fn with_history_at_slot(self, slot: usize) -> (b: Self)
        ensures
            b.slots() == if slot < MAX_IMAGE_SHADER_EXTRA_TEXTURES {
                self.slots().update(slot as int, ImageShaderInput::History)
            } else {
                self.slots()
            },
            b.semantics() == self.semantics(),
            b.named() == self.named(),
            b.wf() == self.wf(),
    {
        self.with_slot(slot, ImageShaderInput::History)
    }

    /// Requests the current target snapshot in whichever slot the shader
    /// expects it.
    pub fn with_screen(self) -> (b: Self)
        ensures
            b.slots() == self.slots(),
            b.semantics() == (self.semantics().0, true),
            b.named() == self.named(),
            b.wf() == self.wf(),
    {
        let mut b = self;
        b.screen = true;
        b
    }

    /// Requests the previous-frame target snapshot in whichever slot the
    /// shader expects it.
    pub fn with_history(self) -> (b: Self)
        ensures
            b.slots() == self.slots(),
            b.semantics() == (true, self.semantics().1),
            b.named() == self.named(),
            b.wf() == self.wf(),
    {
        let mut b = self;
        b.history = true;
        b
    }

    /// Binds `image` to the slot named `name`, replacing an earlier binding
    /// of that name.
    pub fn with_image(self, name: &str, image: Image) -> (b: Self)
        requires
            self.wf(),
        ensures
            b.wf(),
            b.slots() == self.slots(),
            b.semantics() == self.semantics(),
            b.named() == self.named().insert(name@, ImageShaderInput::Image(image)),
    {
        let mut b = self;
        let input = ImageShaderInput::Image(image);
        let ghost before = b.named_inputs@;
        match b.find_named(name) {
            Some(i) => {
                b.named_inputs.set(i, (name.to_owned(), input));
                proof {
                    let after = b.named_inputs@;
                    assert forall|p: int, q: int| 0 <= p < after.len() && 0 <= q < after.len() && p != q implies #[trigger] after[p].0@ != #[trigger] after[q].0@ by {
                        assert(before[p].0@ != before[q].0@);
                    }
                    assert forall|k: Seq<char>| #[trigger] named_map(after).contains_key(k) == named_map(before).insert(name@, input).contains_key(k) by {
                        if k != name@ {
                            if exists|t: int| 0 <= t < after.len() && #[trigger] after[t].0@ == k {
                                let t = choose|t: int| 0 <= t < after.len() && #[trigger] after[t].0@ == k;
                                assert(before[t].0@ == k);
                            }
                            if exists|t: int| 0 <= t < before.len() && #[trigger] before[t].0@ == k {
                                let t = choose|t: int| 0 <= t < before.len() && #[trigger] before[t].0@ == k;
                                assert(after[t].0@ == k);
                            }
                        } else {
                            assert(after[i as int].0@ == k);
                        }
                    }
                    assert(named_map(after) =~= named_map(before).insert(name@, input)) by {
                        assert forall|k: Seq<char>| #[trigger] named_map(after).contains_key(k) implies named_map(after)[k] == named_map(before).insert(name@, input)[k] by {
                            let t = choose|t: int| 0 <= t < after.len() && #[trigger] after[t].0@ == k;
                            if k == name@ {
                                assert(after[i as int].0@ == k);
                            } else {
                                assert(before[t].0@ == k);
                                let u = choose|u: int| 0 <= u < before.len() && #[trigger] before[u].0@ == k;
                                assert(t == u);
                            }
                        }
                    }
                }
            },
            None => {
                b.named_inputs.push((name.to_owned(), input));
                proof {
                    let after = b.named_inputs@;
                    let n = before.len() as int;
                    assert forall|p: int, q: int| 0 <= p < after.len() && 0 <= q < after.len() && p != q implies #[trigger] after[p].0@ != #[trigger] after[q].0@ by {
                        if p < n && q < n {
                            assert(before[p].0@ != before[q].0@);
                        } else if p < n {
                            assert(before[p].0@ != name@);
                        } else {
                            assert(before[q].0@ != name@);
                        }
                    }
                    assert forall|k: Seq<char>| #[trigger] named_map(after).contains_key(k) == named_map(before).insert(name@, input).contains_key(k) by {
                        if k != name@ {
                            if exists|t: int| 0 <= t < after.len() && #[trigger] after[t].0@ == k {
                                let t = choose|t: int| 0 <= t < after.len() && #[trigger] after[t].0@ == k;
                                assert(before[t].0@ == k);
                            }
                            if exists|t: int| 0 <= t < before.len() && #[trigger] before[t].0@ == k {
                                let t = choose|t: int| 0 <= t < before.len() && #[trigger] before[t].0@ == k;
                                assert(after[t].0@ == k);
                            }
                        } else {
                            assert(after[n].0@ == k);
                        }
                    }
                    assert(named_map(after) =~= named_map(before).insert(name@, input)) by {
                        assert forall|k: Seq<char>| #[trigger] named_map(after).contains_key(k) implies named_map(after)[k] == named_map(before).insert(name@, input)[k] by {
                            let t = choose|t: int| 0 <= t < after.len() && #[trigger] after[t].0@ == k;
                            if k == name@ {
                                assert(after[n].0@ == k);
                            } else {
                                assert(before[t].0@ == k);
                                let u = choose|u: int| 0 <= u < before.len() && #[trigger] before[u].0@ == k;
                                assert(t == u);
                            }
                        }
                    }
                }
            },
        }
        b
    }

    /// Position of the binding named `name`, if any.
    fn find_named(&self, name: &str) -> (r: Option<usize>)
        ensures
            match r {
                Some(i) => i < self.named_inputs@.len() && self.named_inputs@[i as int].0@ == name@,
                None => forall|t: int| 0 <= t < self.named_inputs@.len() ==> #[trigger] self.named_inputs@[t].0@ != name@,
            },
    {
        let key = name.to_owned();
        let mut i: usize = 0;
        while i < self.named_inputs.len()
            invariant
                0 <= i <= self.named_inputs@.len(),
                key@ == name@,
                forall|t: int| 0 <= t < i ==> #[trigger] self.named_inputs@[t].0@ != name@,
            decreases self.named_inputs@.len() - i,
        {
            if self.named_inputs[i].0 == key {
                return Some(i);
            }
            i = i + 1;
        }
        None
    }

    /// Input bound to the slot named `name`, if any.
    pub fn named_input(&self, name: &str) -> (r: Option<ImageShaderInput>)
        requires
            self.wf(),
        ensures
            r == (if self.named().contains_key(name@) {
                Some(self.named()[name@])
            } else {
                None
            }),
    {
        match self.find_named(name) {
            Some(i) => {
                proof {
                    let v = self.named_inputs@;
                    assert(v[i as int].0@ == name@);
                    let u = choose|u: int| 0 <= u < v.len() && #[trigger] v[u].0@ == name@;
                    assert(u == i);
                }
                Some(self.named_inputs[i].1)
            },
            None => None,
        }
    }

    /// Input bound to slot `slot` by position.
    pub fn slot_input(&self, slot: usize) -> (i: ImageShaderInput)
        requires
            slot < MAX_IMAGE_SHADER_EXTRA_TEXTURES,
        ensures
            i == self.slots()[slot as int],
    {
        self.extra_inputs[slot]
    }

    /// Whether the history semantic is requested.
    pub fn wants_history(&self) -> (b: bool)
        ensures
            b == self.semantics().0,
    {
        self.history
    }

    /// Whether the screen semantic is requested.
    pub fn wants_screen(&self) -> (b: bool)
        ensures
            b == self.semantics().1,
    {
        self.screen
    }
}

/// The first binding of `b` named `name` holds an input that is the same as
/// `input`.
pub open spec fn first_named_is(b: Seq<(String, ImageShaderInput)>, name: Seq<char>, input: ImageShaderInput) -> bool {
    exists|j: int|
        0 <= j < b.len() && #[trigger] b[j].0@ == name && same_input(b[j].1, input) && forall|k: int|
            0 <= k < j ==> #[trigger] b[k].0@ != name
}

/// The named bindings of `a` and `b` are equal as maps from names to
/// inputs: as many of each, and every name of `a` bound in `b` to the same
/// input.
pub open spec fn same_named(a: Seq<(String, ImageShaderInput)>, b: Seq<(String, ImageShaderInput)>) -> bool {
    &&& a.len() == b.len()
    &&& forall|i: int| 0 <= i < a.len() ==> first_named_is(b, #[trigger] a[i].0@, a[i].1)
}

/// Two bindings are equal when their slots hold the same inputs, they ask
/// for the same semantics, and their named bindings are equal as maps (in
/// whatever order the names were bound).
pub closed spec fn same_bindings(a: ImageShaderBindings, b: ImageShaderBindings) -> bool {
    &&& forall|i: int| 0 <= i < MAX_IMAGE_SHADER_EXTRA_TEXTURES ==> same_input(#[trigger] a.extra_inputs@[i], b.extra_inputs@[i])
    &&& a.history == b.history
    &&& a.screen == b.screen
    &&& same_named(a.named_inputs@, b.named_inputs@)
}

fn same_input_exec(a: &ImageShaderInput, b: &ImageShaderInput) -> (r: bool)
    ensures
        r == same_input(*a, *b),
{
    match (a, b) {
        (ImageShaderInput::Unbound, ImageShaderInput::Unbound) => true,
        (ImageShaderInput::Screen, ImageShaderInput::Screen) => true,
        (ImageShaderInput::History, ImageShaderInput::History) => true,
        (ImageShaderInput::Image(l), ImageShaderInput::Image(r)) => l.id() == r.id(),
        _ => false,
    }
}

fn first_named_matches(b: &Vec<(String, ImageShaderInput)>, name: &String, input: &ImageShaderInput) -> (r: bool)
    ensures
        r == first_named_is(b@, name@, *input),
{
    let mut j: usize = 0;
    while j < b.len()
        invariant
            0 <= j <= b@.len(),
            forall|k: int| 0 <= k < j ==> #[trigger] b@[k].0@ != name@,
        decreases b@.len() - j,
    {
        if b[j].0 == *name {
            let m = same_input_exec(&b[j].1, input);
            proof {
                if !m {
                    assert forall|t: int|
                        !(0 <= t < b@.len() && #[trigger] b@[t].0@ == name@ && same_input(b@[t].1, *input) && forall|k: int|
                            0 <= k < t ==> #[trigger] b@[k].0@ != name@) by {
                        if 0 <= t < b@.len() && b@[t].0@ == name@ && same_input(b@[t].1, *input) {
                            if t < j {
                            } else if t > j {
                                assert(b@[j as int].0@ == name@);
                            }
                        }
                    }
                }
            }
            return m;
        }
        j = j + 1;
    }
    proof {
        assert forall|t: int|
            !(0 <= t < b@.len() && #[trigger] b@[t].0@ == name@ && same_input(b@[t].1, *input) && forall|k: int|
                0 <= k < t ==> #[trigger] b@[k].0@ != name@) by {
        }
    }
    false
}

impl PartialEq for ImageShaderBindings {
    fn eq(&self, other: &Self) -> (r: bool) {
        let mut i: usize = 0;
        while i < MAX_IMAGE_SHADER_EXTRA_TEXTURES
            invariant
                0 <= i <= MAX_IMAGE_SHADER_EXTRA_TEXTURES,
                forall|t: int| 0 <= t < i ==> same_input(#[trigger] self.extra_inputs@[t], other.extra_inputs@[t]),
            decreases MAX_IMAGE_SHADER_EXTRA_TEXTURES - i,
        {
            if !same_input_exec(&self.extra_inputs[i], &other.extra_inputs[i]) {
                return false;
            }
            i = i + 1;
        }
        if self.history != other.history || self.screen != other.screen {
            return false;
        }
        if self.named_inputs.len() != other.named_inputs.len() {
            return false;
        }
        let mut k: usize = 0;
        while k < self.named_inputs.len()
            invariant
                0 <= k <= self.named_inputs@.len(),
                forall|t: int| 0 <= t < k ==> first_named_is(other.named_inputs@, #[trigger] self.named_inputs@[t].0@, self.named_inputs@[t].1),
            decreases self.named_inputs@.len() - k,
        {
            if !first_named_matches(&other.named_inputs, &self.named_inputs[k].0, &self.named_inputs[k].1) {
                return false;
            }
            k = k + 1;
        }
        true
    }
}

impl PartialEqSpecImpl for ImageShaderBindings {
    open spec fn obeys_eq_spec() -> bool {
        true
    }

    open spec fn eq_spec(&self, other: &Self) -> bool {
        same_bindings(*self, *other)
    }
}

impl Eq for ImageShaderBindings {

}

/// The names of the named bindings, in order.
pub open spec fn binding_names(v: Seq<(String, ImageShaderInput)>) -> Seq<Seq<char>> {
    v.map_values(|e: (String, ImageShaderInput)| e.0@)
}

proof fn lemma_named_map_at(v: Seq<(String, ImageShaderInput)>, i: int)
    requires
        unique_names(v),
        0 <= i < v.len(),
    ensures
        named_map(v).contains_key(v[i].0@),
        named_map(v)[v[i].0@] == v[i].1,
{
    let k = v[i].0@;
    assert(v[i].0@ == k);
    let c = choose|c: int| 0 <= c < v.len() && #[trigger] v[c].0@ == k;
    assert(0 <= c < v.len() && v[c].0@ == k);
    if c != i {
        assert(v[c].0@ != v[i].0@);
    }
}

proof fn lemma_named_dom(v: Seq<(String, ImageShaderInput)>)
    requires
        unique_names(v),
    ensures
        named_map(v).dom() == binding_names(v).to_set(),
        binding_names(v).to_set().finite(),
        binding_names(v).to_set().len() == v.len(),
{
    let n = binding_names(v);
    assert(n.no_duplicates()) by {
        assert forall|i: int, j: int| 0 <= i < n.len() && 0 <= j < n.len() && i != j implies n[i] != n[j] by {
            assert(v[i].0@ != v[j].0@);
        }
    }
    n.unique_seq_to_set();
    vstd::seq_lib::seq_to_set_is_finite(n);
    assert forall|k: Seq<char>| named_map(v).dom().contains(k) == n.to_set().contains(k) by {
        if named_map(v).dom().contains(k) {
            let c = choose|c: int| 0 <= c < v.len() && #[trigger] v[c].0@ == k;
            assert(n[c] == k);
        }
        if n.to_set().contains(k) {
            let c = choose|c: int| 0 <= c < n.len() && n[c] == k;
            assert(v[c].0@ == k);
        }
    }
    assert(named_map(v).dom() =~= n.to_set());
}

impl ImageShaderBindings {
    /// Two well-formed bindings are equal (`==`) exactly when their slots hold
    /// the same inputs, they ask for the same semantics, and they bind the
    /// same names to the same inputs, whatever the order of binding.
    pub proof fn lemma_eq_is_same_model(a: ImageShaderBindings, b: ImageShaderBindings)
        requires
            a.wf(),
            b.wf(),
        ensures
            same_bindings(a, b) <==> {
                &&& forall|i: int| 0 <= i < MAX_IMAGE_SHADER_EXTRA_TEXTURES ==> same_input(#[trigger] a.slots()[i], b.slots()[i])
                &&& a.semantics() == b.semantics()
                &&& a.named().dom() == b.named().dom()
                &&& forall|k: Seq<char>| #[trigger] a.named().contains_key(k) ==> same_input(a.named()[k], b.named()[k])
            },
    {
        let va = a.named_inputs@;
        let vb = b.named_inputs@;
        lemma_named_dom(va);
        lemma_named_dom(vb);
        let sa = binding_names(va).to_set();
        let sb = binding_names(vb).to_set();
        if same_named(va, vb) {
            assert forall|k: Seq<char>| sa.contains(k) implies sb.contains(k) && same_input(named_map(va)[k], named_map(vb)[k]) by {
                let i = choose|i: int| 0 <= i < binding_names(va).len() && binding_names(va)[i] == k;
                assert(va[i].0@ == k);
                assert(first_named_is(vb, va[i].0@, va[i].1));
                let j = choose|j: int|
                    0 <= j < vb.len() && #[trigger] vb[j].0@ == k && same_input(vb[j].1, va[i].1) && forall|t: int|
                        0 <= t < j ==> #[trigger] vb[t].0@ != k;
                lemma_named_map_at(va, i);
                lemma_named_map_at(vb, j);
                assert(binding_names(vb)[j] == k);
            }
            assert(sb.subset_of(sa) ) by {
                assert forall|k: Seq<char>| sb.contains(k) implies sa.contains(k) by {
                    if !sa.contains(k) {
                        sa.lemma_subset_not_in_lt(sb, k);
                    }
                }
            }
            assert(sa =~= sb);
            assert(a.named().dom() == b.named().dom());
            assert forall|k: Seq<char>| #[trigger] a.named().contains_key(k) implies same_input(a.named()[k], b.named()[k]) by {
                assert(sa.contains(k));
            }
        }
        let model = {
            &&& a.named().dom() == b.named().dom()
            &&& forall|k: Seq<char>| #[trigger] a.named().contains_key(k) ==> same_input(a.named()[k], b.named()[k])
        };
        if model {
            assert(sa =~= sb);
            assert(va.len() == vb.len());
            assert forall|i: int| 0 <= i < va.len() implies first_named_is(vb, #[trigger] va[i].0@, va[i].1) by {
                let k = va[i].0@;
                lemma_named_map_at(va, i);
                assert(named_map(vb).contains_key(k));
                let j = choose|j: int| 0 <= j < vb.len() && #[trigger] vb[j].0@ == k;
                lemma_named_map_at(vb, j);
                assert forall|t: int| 0 <= t < j implies #[trigger] vb[t].0@ != k by {
                    assert(vb[t].0@ != vb[j].0@);
                }
                assert(same_input(vb[j].1, va[i].1)) by {
                    assert(same_input(va[i].1, vb[j].1));
                }
            }
            assert(same_named(va, vb));
        }
        assert(a.slots() == a.extra_inputs@ && b.slots() == b.extra_inputs@);
        assert((a.semantics() == b.semantics()) == (a.history == b.history && a.screen == b.screen));
        assert(same_named(va, vb) == model);
    }
}

impl Default for ImageShaderBindings {
    fn default() -> (b: Self)
        ensures
            b.slots() == seq![
                ImageShaderInput::Unbound,
                ImageShaderInput::Unbound,
                ImageShaderInput::Unbound,
                ImageShaderInput::Unbound,
            ],
            b.semantics() == (false, false),
            b.named() == Map::<Seq<char>, ImageShaderInput>::empty(),
            b.wf(),
    {
        ImageShaderBindings::new()
    }
}

} // verus!
