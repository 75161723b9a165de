//! The resource registry: textures, images, fonts and image shaders, each
//! under a numeric identifier handed out in increasing order.
use std::collections::HashMap;
use vstd::prelude::*;

use crate::image::{Bounds, Image, ImageEntry, PixelBounds};
use crate::pt::Pt;
use crate::texture::{Texture, TextureEntry};

verus! {

broadcast use vstd::std_specs::hash::group_hash_axioms;

/// Content of slot `i` of a slot table (`None` past its end).
pub open spec fn slot<T>(v: Seq<Option<T>>, i: int) -> Option<T> {
    if 0 <= i < v.len() {
        v[i]
    } else {
        None
    }
}

/// Stores `val` in slot `idx`, growing the table with empty slots as needed.
pub fn put_slot<T>(v: &mut Vec<Option<T>>, idx: usize, val: T)
    ensures
        forall|j: int| #[trigger] slot(final(v)@, j) == if j == idx {
            Some(val)
        } else {
            slot(old(v)@, j)
        },
{
    while v.len() <= idx
        invariant
            forall|j: int| #[trigger] slot(v@, j) == slot(old(v)@, j),
        decreases idx + 1 - v.len(),
    {
        let ghost before = v@;
        v.push(None);
        assert forall|j: int| #[trigger] slot(v@, j) == slot(old(v)@, j) by {
            assert(slot(v@, j) == slot(before, j));
        }
    }
    let ghost before = v@;
    v.set(idx, Some(val));
    assert forall|j: int| #[trigger] slot(v@, j) == if j == idx {
        Some(val)
    } else {
        slot(old(v)@, j)
    } by {
        assert(slot(v@, j) == if j == idx {
            Some(val)
        } else {
            slot(before, j)
        });
    }
}

/// Why a texture could not be created from pixel data.
#[derive(Debug, Clone, Copy, PartialEq, Eq, Structural)]
pub enum TextureError {
    /// The RGBA data does not hold `expected` bytes (width x height x 4).
    LengthMismatch { expected: usize, got: usize },
}

/// Why an image cannot be drawn into.
#[derive(Debug, Clone, Copy, PartialEq, Eq, Structural)]
pub enum TargetError {
    /// The image's texture is not registered.
    MissingTexture,
    /// The image's texture is not a render target.
    NotRenderTarget,
    /// The image is not the full view of its render target.
    NotFullView,
}

/// Textures, images, fonts and image shaders of a context.
#[derive(Debug)]
pub struct ResourceRegistry {
    textures: Vec<Option<TextureEntry>>,
    images: Vec<Option<ImageEntry>>,
    fonts: HashMap<u32, Vec<u8>>,
    image_shaders: HashMap<u32, String>,
    next_texture_id: u32,
    next_image_id: u32,
    next_font_id: u32,
    next_image_shader_id: u32,
    gpu_generation: u32,
    dirty_assets: bool,
}

/// A texture record holds the given values and has not been uploaded.
pub open spec fn fresh_texture(
    e: TextureEntry,
    width: Pt,
    height: Pt,
    pixel_width: u32,
    pixel_height: u32,
    view_id: u32,
    render_target: bool,
    data: Option<Seq<u8>>,
) -> bool {
    &&& e.width == width && e.height == height
    &&& e.pixel_width == pixel_width && e.pixel_height == pixel_height
    &&& e.default_view_id == view_id
    &&& e.render_target == render_target
    &&& !e.dynamic_atlas
    &&& match data {
        Some(d) => e.raw_data matches Some(r) && r@ == d,
        None => e.raw_data is None,
    }
    &&& !e.has_gpu_texture && e.generation == 0
}

/// The full-size record of the default view of a `pixel_width` x
/// `pixel_height` texture `texture_id` with logical size `width` x `height`.
pub open spec fn full_view_entry(texture_id: u32, width: Pt, height: Pt, pixel_width: u32, pixel_height: u32) -> ImageEntry {
    ImageEntry {
        texture_id,
        bounds: Bounds { x: Pt::zero_spec(), y: Pt::zero_spec(), width, height },
        pixel_bounds: PixelBounds { x: 0, y: 0, width: pixel_width, height: pixel_height },
        visible: true,
    }
}

/// Registry `after` is `before` with a new texture under the next texture
/// identifier (logical size `width` x `height`, pixel size `pw` x `ph`,
/// render target or not, holding `data`) and its full view under the next
/// image identifier.
pub open spec fn texture_registered(
    before: ResourceRegistry,
    after: ResourceRegistry,
    width: Pt,
    height: Pt,
    pw: u32,
    ph: u32,
    render_target: bool,
    data: Option<Seq<u8>>,
) -> bool {
    let tid = before.next_ids().0;
    let view = before.next_ids().1;
    &&& after.wf()
    &&& after.next_ids() == (
        (tid + 1) as u32,
        (view + 1) as u32,
        before.next_ids().2,
        before.next_ids().3,
    )
    &&& after.texture_at(tid as int) matches Some(e) && fresh_texture(e, width, height, pw, ph, view, render_target, data)
    &&& after.image_at(view as int) == Some(full_view_entry(tid, width, height, pw, ph))
    &&& forall|i: int| i != tid ==> #[trigger] after.texture_at(i) == before.texture_at(i)
    &&& forall|i: int| i != view ==> #[trigger] after.image_at(i) == before.image_at(i)
    &&& after.font_map() == before.font_map()
    &&& after.shader_map() == before.shader_map()
    &&& after.generation() == before.generation()
    &&& after.dirty()
}

impl ResourceRegistry {
    /// Texture record `id`.
    pub closed spec fn texture_at(&self, id: int) -> Option<TextureEntry> {
        slot(self.textures@, id)
    }

    /// Image record `id`.
    pub closed spec fn image_at(&self, id: int) -> Option<ImageEntry> {
        slot(self.images@, id)
    }

    /// Registered fonts.
    pub closed spec fn font_map(&self) -> Map<u32, Seq<u8>> {
        self.fonts@.map_values(|v: Vec<u8>| v@)
    }

    /// Registered image shader sources.
    pub closed spec fn shader_map(&self) -> Map<u32, Seq<char>> {
        self.image_shaders@.map_values(|s: String| s@)
    }

    /// Next texture, image, font and image shader identifiers.
    pub closed spec fn next_ids(&self) -> (u32, u32, u32, u32) {
        (self.next_texture_id, self.next_image_id, self.next_font_id, self.next_image_shader_id)
    }

    /// Current GPU generation.
    pub closed spec fn generation(&self) -> u32 {
        self.gpu_generation
    }

    /// Whether assets changed since the last upload.
    pub closed spec fn dirty(&self) -> bool {
        self.dirty_assets
    }

    /// Identifiers below the counters: a record exists only under an
    /// identifier that was handed out.
    pub closed spec fn wf(&self) -> bool {
        &&& forall|i: int| #[trigger] self.texture_at(i) is Some ==> 1 <= i < self.next_texture_id
        &&& forall|i: int| #[trigger] self.image_at(i) is Some ==> 1 <= i < self.next_image_id
        &&& forall|k: u32| #[trigger] self.fonts@.contains_key(k) ==> 1 <= k < self.next_font_id
        &&& forall|k: u32| #[trigger] self.image_shaders@.contains_key(k) ==> 1 <= k
            < self.next_image_shader_id
        &&& self.next_texture_id >= 1 && self.next_image_id >= 1
        &&& self.next_font_id >= 1 && self.next_image_shader_id >= 1
    }

    /// An empty registry; every identifier sequence starts at 1.
    pub fn new() -> (r: Self)
        ensures
            r.wf(),
            forall|i: int| r.texture_at(i) is None && r.image_at(i) is None,
            r.font_map() == Map::<u32, Seq<u8>>::empty(),
            r.shader_map() == Map::<u32, Seq<char>>::empty(),
            r.next_ids() == (1u32, 1u32, 1u32, 1u32),
            r.generation() == 1,
            r.dirty(),
    {
        let r = ResourceRegistry {
            textures: Vec::new(),
            images: Vec::new(),
            fonts: HashMap::new(),
            image_shaders: HashMap::new(),
            next_texture_id: 1,
            next_image_id: 1,
            next_font_id: 1,
            next_image_shader_id: 1,
            gpu_generation: 1,
            dirty_assets: true,
        };
        assert(r.font_map() =~= Map::<u32, Seq<u8>>::empty());
        assert(r.shader_map() =~= Map::<u32, Seq<char>>::empty());
        r
    }

    /// Next texture identifier.
    pub fn next_texture_id(&self) -> (id: u32)
        ensures
            id == self.next_ids().0,
    {
        self.next_texture_id
    }

    /// Next image identifier.
    pub fn next_image_id(&self) -> (id: u32)
        ensures
            id == self.next_ids().1,
    {
        self.next_image_id
    }

    /// Current GPU generation.
    pub fn gpu_generation(&self) -> (g: u32)
        ensures
            g == self.generation(),
    {
        self.gpu_generation
    }

    /// Whether assets changed since the last upload.
    pub fn dirty_assets(&self) -> (b: bool)
        ensures
            b == self.dirty(),
    {
        self.dirty_assets
    }

    /// Marks the assets as uploaded.
    pub fn clear_dirty(&mut self)
        requires
            old(self).wf(),
        ensures
            !final(self).dirty(),
            final(self).wf(),
            forall|i: int| final(self).texture_at(i) == old(self).texture_at(i),
            forall|i: int| final(self).image_at(i) == old(self).image_at(i),
            final(self).font_map() == old(self).font_map(),
            final(self).shader_map() == old(self).shader_map(),
            final(self).next_ids() == old(self).next_ids(),
            final(self).generation() == old(self).generation(),
    {
        self.dirty_assets = false;
        assert(forall|i: int| #[trigger] self.texture_at(i) == old(self).texture_at(i));
        assert(forall|i: int| #[trigger] self.image_at(i) == old(self).image_at(i));
        assert(self.fonts@ == old(self).fonts@);
        assert(self.image_shaders@ == old(self).image_shaders@);
    }

    /// Texture record `id`.
    pub fn texture(&self, id: u32) -> (e: Option<&TextureEntry>)
        ensures
            match e {
                Some(t) => self.texture_at(id as int) == Some(*t),
                None => self.texture_at(id as int) is None,
            },
    {
        if (id as usize) < self.textures.len() {
            match &self.textures[id as usize] {
                Some(t) => Some(t),
                None => None,
            }
        } else {
            None
        }
    }

    /// Image record `id`.
    pub fn image(&self, id: u32) -> (e: Option<ImageEntry>)
        ensures
            e == self.image_at(id as int),
    {
        if (id as usize) < self.images.len() {
            self.images[id as usize]
        } else {
            None
        }
    }

    /// Registers a sampled texture holding `rgba` and its full-size default
    /// view; returns the texture handle. The texture gets the next texture
    /// identifier and its view the next image identifier.
    pub fn register_texture(
        &mut self,
        pixel_width: u32,
        pixel_height: u32,
        width: Pt,
        height: Pt,
        rgba: &[u8],
    ) -> (t: Texture)
        requires
            old(self).wf(),
            old(self).next_ids().0 < u32::MAX,
            old(self).next_ids().1 < u32::MAX,
        ensures
            final(self).wf(),
            t.id_spec() == old(self).next_ids().0,
            t.default_view_spec() == old(self).next_ids().1,
            t.size_spec() == (width, height),
            t.pixel_size_spec() == (pixel_width, pixel_height),
            final(self).next_ids() == (
                (old(self).next_ids().0 + 1) as u32,
                (old(self).next_ids().1 + 1) as u32,
                old(self).next_ids().2,
                old(self).next_ids().3,
            ),
            final(self).texture_at(t.id_spec() as int) matches Some(e) && fresh_texture(
                e,
                width,
                height,
                pixel_width,
                pixel_height,
                t.default_view_spec(),
                false,
                Some(rgba@),
            ),
            final(self).image_at(t.default_view_spec() as int) == Some(
                full_view_entry(t.id_spec(), width, height, pixel_width, pixel_height),
            ),
            forall|i: int| i != t.id_spec() ==> #[trigger] final(self).texture_at(i) == old(self).texture_at(i),
            forall|i: int| i != t.default_view_spec() ==> #[trigger] final(self).image_at(i) == old(self).image_at(i),
            final(self).font_map() == old(self).font_map(),
            final(self).shader_map() == old(self).shader_map(),
            final(self).generation() == old(self).generation(),
            final(self).dirty(),
    {
        let texture_id = self.next_texture_id;
        self.next_texture_id = self.next_texture_id + 1;
        let image_id = self.next_image_id;
        self.next_image_id = self.next_image_id + 1;
        let data = vstd::slice::slice_to_vec(rgba);
        let entry = TextureEntry::new_sampled(width, height, pixel_width, pixel_height, image_id, data);
        put_slot(&mut self.textures, texture_id as usize, entry);
        let bounds = Bounds::new(Pt::zero(), Pt::zero(), width, height);
        let view = ImageEntry::new(
            texture_id,
            bounds,
            PixelBounds { x: 0, y: 0, width: pixel_width, height: pixel_height },
        );
        put_slot(&mut self.images, image_id as usize, view);
        self.dirty_assets = true;
        proof {
            assert forall|i: int| #[trigger] self.texture_at(i) is Some implies 1 <= i < self.next_texture_id by {
                if i != texture_id {
                    assert(old(self).texture_at(i) is Some);
                }
            }
            assert forall|i: int| #[trigger] self.image_at(i) is Some implies 1 <= i < self.next_image_id by {
                if i != image_id {
                    assert(old(self).image_at(i) is Some);
                }
            }
        }
        Texture::from_parts(texture_id, image_id, width, height, pixel_width, pixel_height)
    }
    /// Registers a render-target texture of logical size `width` x `height`
    /// and its full-size default view. `clamped_width` and `clamped_height`
    /// are the logical sizes converted to whole pixels (clamped to the `u32`
    /// range); a zero pixel size becomes 1.
    pub fn register_render_target_texture(
        &mut self,
        width: Pt,
        height: Pt,
        clamped_width: u32,
        clamped_height: u32,
    ) -> (t: Texture)
        requires
            old(self).wf(),
            old(self).next_ids().0 < u32::MAX,
            old(self).next_ids().1 < u32::MAX,
        ensures
            final(self).wf(),
            t.id_spec() == old(self).next_ids().0,
            t.default_view_spec() == old(self).next_ids().1,
            t.size_spec() == (width, height),
            t.pixel_size_spec() == (
                if clamped_width == 0 { 1u32 } else { clamped_width },
                if clamped_height == 0 { 1u32 } else { clamped_height },
            ),
            final(self).next_ids() == (
                (old(self).next_ids().0 + 1) as u32,
                (old(self).next_ids().1 + 1) as u32,
                old(self).next_ids().2,
                old(self).next_ids().3,
            ),
            final(self).texture_at(t.id_spec() as int) matches Some(e) && fresh_texture(
                e,
                width,
                height,
                t.pixel_size_spec().0,
                t.pixel_size_spec().1,
                t.default_view_spec(),
                true,
                None,
            ),
            final(self).image_at(t.default_view_spec() as int) == Some(
                full_view_entry(t.id_spec(), width, height, t.pixel_size_spec().0, t.pixel_size_spec().1),
            ),
            forall|i: int| i != t.id_spec() ==> #[trigger] final(self).texture_at(i) == old(self).texture_at(i),
            forall|i: int| i != t.default_view_spec() ==> #[trigger] final(self).image_at(i) == old(self).image_at(i),
            final(self).font_map() == old(self).font_map(),
            final(self).shader_map() == old(self).shader_map(),
            final(self).generation() == old(self).generation(),
            final(self).dirty(),
    {
        let texture_id = self.next_texture_id;
        self.next_texture_id = self.next_texture_id + 1;
        let image_id = self.next_image_id;
        self.next_image_id = self.next_image_id + 1;
        let pixel_width = if clamped_width == 0 { 1 } else { clamped_width };
        let pixel_height = if clamped_height == 0 { 1 } else { clamped_height };
        let entry = TextureEntry::new_render_target(width, height, pixel_width, pixel_height, image_id);
        put_slot(&mut self.textures, texture_id as usize, entry);
        let view = ImageEntry::new(
            texture_id,
            Bounds::new(Pt::zero(), Pt::zero(), width, height),
            PixelBounds { x: 0, y: 0, width: pixel_width, height: pixel_height },
        );
        put_slot(&mut self.images, image_id as usize, view);
        self.dirty_assets = true;
        proof {
            assert forall|i: int| #[trigger] self.texture_at(i) is Some implies 1 <= i < self.next_texture_id by {
                if i != texture_id {
                    assert(old(self).texture_at(i) is Some);
                }
            }
            assert forall|i: int| #[trigger] self.image_at(i) is Some implies 1 <= i < self.next_image_id by {
                if i != image_id {
                    assert(old(self).image_at(i) is Some);
                }
            }
        }
        Texture::from_parts(texture_id, image_id, width, height, pixel_width, pixel_height)
    }

    /// Registers a view of part of `image`, with logical bounds `bounds` and
    /// the pixel rectangle that starts `offset_x`, `offset_y` pixels into the
    /// pixel rectangle of `image`; returns the new image identifier.
    pub fn register_sub_image(
        &mut self,
        image: Image,
        bounds: Bounds,
        offset_x: u32,
        offset_y: u32,
        pixel_width: u32,
        pixel_height: u32,
    ) -> (id: u32)
        requires
            old(self).wf(),
            old(self).next_ids().1 < u32::MAX,
            old(self).image_at(image.id_spec() as int) matches Some(p) && p.pixel_bounds.x + offset_x
                <= u32::MAX && p.pixel_bounds.y + offset_y <= u32::MAX,
        ensures
            final(self).wf(),
            id == old(self).next_ids().1,
            final(self).next_ids() == (
                old(self).next_ids().0,
                (old(self).next_ids().1 + 1) as u32,
                old(self).next_ids().2,
                old(self).next_ids().3,
            ),
            final(self).image_at(id as int) == Some(
                ImageEntry {
                    texture_id: image.texture_id_spec(),
                    bounds,
                    pixel_bounds: PixelBounds {
                        x: (old(self).image_at(image.id_spec() as int)->0.pixel_bounds.x + offset_x) as u32,
                        y: (old(self).image_at(image.id_spec() as int)->0.pixel_bounds.y + offset_y) as u32,
                        width: pixel_width,
                        height: pixel_height,
                    },
                    visible: true,
                },
            ),
            forall|i: int| #[trigger] final(self).texture_at(i) == old(self).texture_at(i),
            forall|i: int| i != id ==> #[trigger] final(self).image_at(i) == old(self).image_at(i),
            final(self).font_map() == old(self).font_map(),
            final(self).shader_map() == old(self).shader_map(),
            final(self).generation() == old(self).generation(),
            final(self).dirty(),
    {
        let id = self.next_image_id;
        self.next_image_id = self.next_image_id + 1;
        let parent = self.image(image.texture_id_and_index().1).unwrap();
        let entry = ImageEntry::new(
            image.texture_id(),
            bounds,
            PixelBounds {
                x: parent.pixel_bounds.x + offset_x,
                y: parent.pixel_bounds.y + offset_y,
                width: pixel_width,
                height: pixel_height,
            },
        );
        put_slot(&mut self.images, id as usize, entry);
        self.dirty_assets = true;
        proof {
            assert(forall|i: int| #[trigger] self.texture_at(i) == old(self).texture_at(i));
            assert(self.fonts@ == old(self).fonts@);
            assert(self.image_shaders@ == old(self).image_shaders@);
            assert forall|i: int| #[trigger] self.image_at(i) is Some implies 1 <= i < self.next_image_id by {
                if i != id {
                    assert(old(self).image_at(i) is Some);
                }
            }
        }
        id
    }

    /// Registers font data under the next font identifier and returns it.
    pub fn register_font(&mut self, font_data: Vec<u8>) -> (id: u32)
        requires
            old(self).wf(),
            old(self).next_ids().2 < u32::MAX,
        ensures
            final(self).wf(),
            id == old(self).next_ids().2,
            final(self).next_ids() == (
                old(self).next_ids().0,
                old(self).next_ids().1,
                (old(self).next_ids().2 + 1) as u32,
                old(self).next_ids().3,
            ),
            final(self).font_map() == old(self).font_map().insert(id, font_data@),
            forall|i: int| #[trigger] final(self).texture_at(i) == old(self).texture_at(i),
            forall|i: int| #[trigger] final(self).image_at(i) == old(self).image_at(i),
            final(self).shader_map() == old(self).shader_map(),
            final(self).generation() == old(self).generation(),
            final(self).dirty(),
    {
        let id = self.next_font_id;
        self.next_font_id = self.next_font_id + 1;
        let ghost fd = font_data@;
        self.fonts.insert(id, font_data);
        self.dirty_assets = true;
        assert(self.font_map() =~= old(self).font_map().insert(id, fd));
        assert(forall|i: int| #[trigger] self.texture_at(i) == old(self).texture_at(i));
        assert(forall|i: int| #[trigger] self.image_at(i) == old(self).image_at(i));
        assert(self.image_shaders@ == old(self).image_shaders@);
        assert forall|k: u32| #[trigger] self.fonts@.contains_key(k) implies 1 <= k < self.next_font_id by {
            if k != id {
                assert(old(self).fonts@.contains_key(k));
            }
        }
        id
    }

    /// Copy of the data of font `id`.
    pub fn get_font(&self, id: u32) -> (r: Option<Vec<u8>>)
        ensures
            match r {
                Some(d) => self.font_map().contains_key(id) && self.font_map()[id] == d@,
                None => !self.font_map().contains_key(id),
            },
    {
        match self.fonts.get(&id) {
            Some(d) => Some(vstd::slice::slice_to_vec(d.as_slice())),
            None => None,
        }
    }

    /// Forgets font `id`.
    pub fn unregister_font(&mut self, id: u32)
        requires
            old(self).wf(),
        ensures
            final(self).wf(),
            final(self).font_map() == old(self).font_map().remove(id),
            forall|i: int| #[trigger] final(self).texture_at(i) == old(self).texture_at(i),
            forall|i: int| #[trigger] final(self).image_at(i) == old(self).image_at(i),
            final(self).shader_map() == old(self).shader_map(),
            final(self).next_ids() == old(self).next_ids(),
            final(self).generation() == old(self).generation(),
            final(self).dirty() == old(self).dirty(),
    {
        self.fonts.remove(&id);
        assert(self.font_map() =~= old(self).font_map().remove(id));
        assert(forall|i: int| #[trigger] self.texture_at(i) == old(self).texture_at(i));
        assert(forall|i: int| #[trigger] self.image_at(i) == old(self).image_at(i));
        assert(self.image_shaders@ == old(self).image_shaders@);
        assert forall|k: u32| #[trigger] self.fonts@.contains_key(k) implies 1 <= k < self.next_font_id by {
            assert(old(self).fonts@.contains_key(k));
        }
    }

    /// Registers an image shader source under the next shader identifier and
    /// returns it.
    pub fn register_image_shader(&mut self, user_functions: &str) -> (id: u32)
        requires
            old(self).wf(),
            old(self).next_ids().3 < u32::MAX,
        ensures
            final(self).wf(),
            id == old(self).next_ids().3,
            final(self).next_ids() == (
                old(self).next_ids().0,
                old(self).next_ids().1,
                old(self).next_ids().2,
                (old(self).next_ids().3 + 1) as u32,
            ),
            final(self).shader_map() == old(self).shader_map().insert(id, user_functions@),
            forall|i: int| #[trigger] final(self).texture_at(i) == old(self).texture_at(i),
            forall|i: int| #[trigger] final(self).image_at(i) == old(self).image_at(i),
            final(self).font_map() == old(self).font_map(),
            final(self).generation() == old(self).generation(),
            final(self).dirty(),
    {
        let id = self.next_image_shader_id;
        self.next_image_shader_id = self.next_image_shader_id + 1;
        self.image_shaders.insert(id, user_functions.to_owned());
        self.dirty_assets = true;
        assert(self.shader_map() =~= old(self).shader_map().insert(id, user_functions@));
        assert(forall|i: int| #[trigger] self.texture_at(i) == old(self).texture_at(i));
        assert(forall|i: int| #[trigger] self.image_at(i) == old(self).image_at(i));
        assert(self.fonts@ == old(self).fonts@);
        assert forall|k: u32| #[trigger] self.image_shaders@.contains_key(k) implies 1 <= k
            < self.next_image_shader_id by {
            if k != id {
                assert(old(self).image_shaders@.contains_key(k));
            }
        }
        id
    }

    /// Removes image record `id`; returns whether there was one.
    pub fn destroy_image(&mut self, id: u32) -> (b: bool)
        requires
            old(self).wf(),
        ensures
            final(self).wf(),
            b == old(self).image_at(id as int) is Some,
            final(self).image_at(id as int) is None,
            forall|i: int| i != id ==> #[trigger] final(self).image_at(i) == old(self).image_at(i),
            forall|i: int| #[trigger] final(self).texture_at(i) == old(self).texture_at(i),
            final(self).font_map() == old(self).font_map(),
            final(self).shader_map() == old(self).shader_map(),
            final(self).next_ids() == old(self).next_ids(),
            final(self).generation() == old(self).generation(),
            final(self).dirty() == old(self).dirty(),
    {
        let idx = id as usize;
        if idx < self.images.len() {
            let had = self.images[idx].is_some();
            let ghost before = self.images@;
            self.images.set(idx, None);
            assert forall|i: int| i != id implies #[trigger] self.image_at(i) == old(self).image_at(i) by {
                assert(slot(self.images@, i) == slot(before, i));
            }
            assert forall|i: int| #[trigger] self.image_at(i) is Some implies 1 <= i < self.next_image_id by {
                if i != id {
                    assert(self.image_at(i) == old(self).image_at(i));
                    assert(old(self).image_at(i) is Some);
                }
            }
            assert forall|i: int| #[trigger] self.texture_at(i) is Some implies 1 <= i < self.next_texture_id by {
                assert(self.texture_at(i) == old(self).texture_at(i));
            }
            had
        } else {
            false
        }
    }

    /// Whether texture `id` exists and is a render target.
    pub fn texture_is_render_target(&self, id: u32) -> (b: bool)
        ensures
            b == (self.texture_at(id as int) matches Some(e) && e.render_target),
    {
        match self.texture(id) {
            Some(e) => e.is_render_target(),
            None => false,
        }
    }

    /// Whether texture `id` exists and its GPU copy belongs to the current
    /// GPU generation.
    pub fn texture_is_ready(&self, id: u32) -> (b: bool)
        ensures
            b == (self.texture_at(id as int) matches Some(e) && e.has_gpu_texture && e.generation
                == self.generation()),
    {
        match self.texture(id) {
            Some(e) => e.is_ready(self.gpu_generation),
            None => false,
        }
    }

    /// Records that the GPU copy of texture `id` was made for the current GPU
    /// generation; does nothing when there is no such texture.
    pub fn mark_texture_uploaded(&mut self, id: u32)
        requires
            old(self).wf(),
        ensures
            final(self).wf(),
            match old(self).texture_at(id as int) {
                Some(e) => final(self).texture_at(id as int) == Some(
                    TextureEntry { has_gpu_texture: true, generation: old(self).generation(), ..e },
                ),
                None => final(self).texture_at(id as int) is None,
            },
            forall|i: int| i != id ==> #[trigger] final(self).texture_at(i) == old(self).texture_at(i),
            forall|i: int| #[trigger] final(self).image_at(i) == old(self).image_at(i),
            final(self).font_map() == old(self).font_map(),
            final(self).shader_map() == old(self).shader_map(),
            final(self).next_ids() == old(self).next_ids(),
            final(self).generation() == old(self).generation(),
            final(self).dirty() == old(self).dirty(),
    {
        let idx = id as usize;
        if idx < self.textures.len() {
            let ghost before = self.textures@;
            let mut taken: Option<TextureEntry> = None;
            std::mem::swap(&mut taken, &mut self.textures[idx]);
            match taken {
                Some(mut e) => {
                    e.has_gpu_texture = true;
                    e.generation = self.gpu_generation;
                    self.textures.set(idx, Some(e));
                },
                None => {},
            }
            assert forall|i: int| i != id implies #[trigger] self.texture_at(i) == old(self).texture_at(i) by {
                assert(slot(self.textures@, i) == slot(before, i));
            }
            assert forall|i: int| #[trigger] self.texture_at(i) is Some implies 1 <= i < self.next_texture_id by {
                if i != id {
                    assert(self.texture_at(i) == old(self).texture_at(i));
                }
                assert(old(self).texture_at(i) is Some);
            }
            assert forall|i: int| #[trigger] self.image_at(i) is Some implies 1 <= i < self.next_image_id by {
                assert(self.image_at(i) == old(self).image_at(i));
            }
        }
    }

    /// Starts a new GPU generation (saturating at `u32::MAX`): every GPU copy
    /// made before is out of date.
    pub fn bump_gpu_generation(&mut self)
        requires
            old(self).wf(),
        ensures
            final(self).wf(),
            final(self).generation() == if old(self).generation() == u32::MAX {
                u32::MAX
            } else {
                (old(self).generation() + 1) as u32
            },
            final(self).dirty(),
            forall|i: int| #[trigger] final(self).texture_at(i) == old(self).texture_at(i),
            forall|i: int| #[trigger] final(self).image_at(i) == old(self).image_at(i),
            final(self).font_map() == old(self).font_map(),
            final(self).shader_map() == old(self).shader_map(),
            final(self).next_ids() == old(self).next_ids(),
    {
        self.gpu_generation = self.gpu_generation.saturating_add(1);
        self.dirty_assets = true;
        assert(forall|i: int| #[trigger] self.texture_at(i) == old(self).texture_at(i));
        assert(forall|i: int| #[trigger] self.image_at(i) == old(self).image_at(i));
        assert(self.fonts@ == old(self).fonts@);
        assert(self.image_shaders@ == old(self).image_shaders@);
    }

    /// Registers image record `entry` under the next image identifier and
    /// returns that identifier.
    pub fn register_image_entry(&mut self, entry: ImageEntry) -> (id: u32)
        requires
            old(self).wf(),
            old(self).next_ids().1 < u32::MAX,
        ensures
            final(self).wf(),
            id == old(self).next_ids().1,
            final(self).next_ids() == (
                old(self).next_ids().0,
                (old(self).next_ids().1 + 1) as u32,
                old(self).next_ids().2,
                old(self).next_ids().3,
            ),
            final(self).image_at(id as int) == Some(entry),
            forall|i: int| i != id ==> #[trigger] final(self).image_at(i) == old(self).image_at(i),
            forall|i: int| #[trigger] final(self).texture_at(i) == old(self).texture_at(i),
            final(self).font_map() == old(self).font_map(),
            final(self).shader_map() == old(self).shader_map(),
            final(self).generation() == old(self).generation(),
            final(self).dirty(),
    {
        let id = self.next_image_id;
        self.next_image_id = self.next_image_id + 1;
        put_slot(&mut self.images, id as usize, entry);
        self.dirty_assets = true;
        proof {
            assert(forall|i: int| #[trigger] self.texture_at(i) == old(self).texture_at(i));
            assert(self.fonts@ == old(self).fonts@);
            assert(self.image_shaders@ == old(self).image_shaders@);
            assert forall|i: int| #[trigger] self.image_at(i) is Some implies 1 <= i < self.next_image_id by {
                if i != id {
                    assert(old(self).image_at(i) is Some);
                }
            }
        }
        id
    }

    /// Replaces the pixel data of texture `id` by `data` and marks the assets
    /// dirty; does nothing when there is no such texture.
    pub fn set_texture_data(&mut self, id: u32, data: Vec<u8>)
        requires
            old(self).wf(),
        ensures
            final(self).wf(),
            match old(self).texture_at(id as int) {
                Some(e) => final(self).texture_at(id as int) == Some(
                    TextureEntry { raw_data: Some(data), ..e },
                ) && final(self).dirty(),
                None => final(self).texture_at(id as int) is None && final(self).dirty() == old(
                    self,
                ).dirty(),
            },
            forall|i: int| i != id ==> #[trigger] final(self).texture_at(i) == old(self).texture_at(i),
            forall|i: int| #[trigger] final(self).image_at(i) == old(self).image_at(i),
            final(self).font_map() == old(self).font_map(),
            final(self).shader_map() == old(self).shader_map(),
            final(self).next_ids() == old(self).next_ids(),
            final(self).generation() == old(self).generation(),
    {
        let idx = id as usize;
        if idx < self.textures.len() {
            let ghost before = self.textures@;
            let mut taken: Option<TextureEntry> = None;
            std::mem::swap(&mut taken, &mut self.textures[idx]);
            match taken {
                Some(mut e) => {
                    e.raw_data = Some(data);
                    self.textures.set(idx, Some(e));
                    self.dirty_assets = true;
                },
                None => {},
            }
            assert forall|i: int| i != id implies #[trigger] self.texture_at(i) == old(self).texture_at(i) by {
                assert(slot(self.textures@, i) == slot(before, i));
            }
            assert forall|i: int| #[trigger] self.texture_at(i) is Some implies 1 <= i < self.next_texture_id by {
                if i != id {
                    assert(self.texture_at(i) == old(self).texture_at(i));
                }
                assert(old(self).texture_at(i) is Some);
            }
            assert forall|i: int| #[trigger] self.image_at(i) is Some implies 1 <= i < self.next_image_id by {
                assert(self.image_at(i) == old(self).image_at(i));
            }
        }
    }

    /// The texture a draw into `target` goes to: 0 for the window, else the
    /// texture of `target`, which must be the full view of a render target.
    pub fn resolve_target_texture_id(&self, target: Image) -> (id: u32)
        requires
            target.texture_id_spec() != 0 ==> (self.texture_at(target.texture_id_spec() as int) matches Some(
                e,
            ) && e.render_target && e.default_view_id == target.id_spec()),
        ensures
            id == target.texture_id_spec(),
    {
        target.texture_id()
    }

    /// The texture a draw into `target` goes to, or why `target` cannot be
    /// drawn into: 0 for the window; otherwise the texture of `target` must
    /// be registered, be a render target, and have `target` as its full view.
    pub fn check_draw_target(&self, target: Image) -> (r: Result<u32, TargetError>)
        ensures
            r == if target.texture_id_spec() == 0 {
                Ok(0u32)
            } else {
                match self.texture_at(target.texture_id_spec() as int) {
                    None => Err(TargetError::MissingTexture),
                    Some(e) => if !e.render_target {
                        Err(TargetError::NotRenderTarget)
                    } else if e.default_view_id != target.id_spec() {
                        Err(TargetError::NotFullView)
                    } else {
                        Ok(target.texture_id_spec())
                    },
                }
            },
    {
        let tid = target.texture_id();
        if tid == 0 {
            return Ok(0);
        }
        match self.texture(tid) {
            None => Err(TargetError::MissingTexture),
            Some(e) => {
                if !e.render_target {
                    Err(TargetError::NotRenderTarget)
                } else if e.default_view_id != target.id() {
                    Err(TargetError::NotFullView)
                } else {
                    Ok(self.resolve_target_texture_id(target))
                }
            },
        }
    }

    /// Logical size of draw target `target_texture_id`: the window size for 0,
    /// else the size of that texture, if it exists.
    pub fn target_logical_size(&self, target_texture_id: u32, window_size: (Pt, Pt)) -> (r: Option<(Pt, Pt)>)
        ensures
            r == if target_texture_id == 0 {
                Some(window_size)
            } else {
                match self.texture_at(target_texture_id as int) {
                    Some(e) => Some((e.width, e.height)),
                    None => None,
                }
            },
    {
        if target_texture_id == 0 {
            return Some(window_size);
        }
        match self.texture(target_texture_id) {
            Some(e) => Some((e.width, e.height)),
            None => None,
        }
    }
}


impl ResourceRegistry {
    /// Identifiers are never reused: in a well-formed registry nothing is
    /// recorded under the identifiers that the next registrations will get.
    pub proof fn lemma_texture_ids_bounded(&self, id: int)
        requires
            self.wf(),
            self.texture_at(id) is Some,
        ensures
            1 <= id < self.next_ids().0,
    {
    }

    pub proof fn lemma_next_ids_unused(&self)
        requires
            self.wf(),
        ensures
            self.texture_at(self.next_ids().0 as int) is None,
            self.image_at(self.next_ids().1 as int) is None,
            !self.font_map().contains_key(self.next_ids().2),
            !self.shader_map().contains_key(self.next_ids().3),
    {
    }
}

/// Texture record `e` has a GPU copy made for GPU generation `generation`.
pub open spec fn entry_ready(e: TextureEntry, generation: u32) -> bool {
    e.has_gpu_texture && e.generation == generation
}

impl ResourceRegistry {
    /// Forgets every GPU copy (the GPU resources are being rebuilt): each
    /// texture record loses its GPU copy and its generation goes back to 0.
    pub fn reset_gpu_state(&mut self)
        requires
            old(self).wf(),
        ensures
            final(self).wf(),
            forall|i: int| #[trigger] final(self).texture_at(i) == match old(self).texture_at(i) {
                Some(e) => Some(TextureEntry { has_gpu_texture: false, generation: 0, ..e }),
                None => None,
            },
            forall|i: int| #[trigger] final(self).image_at(i) == old(self).image_at(i),
            final(self).font_map() == old(self).font_map(),
            final(self).shader_map() == old(self).shader_map(),
            final(self).next_ids() == old(self).next_ids(),
            final(self).generation() == old(self).generation(),
            final(self).dirty() == old(self).dirty(),
    {
        let mut i: usize = 0;
        while i < self.textures.len()
            invariant
                0 <= i <= self.textures@.len(),
                self.textures@.len() == old(self).textures@.len(),
                forall|j: int| 0 <= j < i ==> #[trigger] self.textures@[j] == match old(self).textures@[j] {
                    Some(e) => Some(TextureEntry { has_gpu_texture: false, generation: 0, ..e }),
                    None => None,
                },
                forall|j: int| i <= j < self.textures@.len() ==> #[trigger] self.textures@[j] == old(self).textures@[j],
                self.images@ == old(self).images@,
                self.fonts@ == old(self).fonts@,
                self.image_shaders@ == old(self).image_shaders@,
                self.next_texture_id == old(self).next_texture_id,
                self.next_image_id == old(self).next_image_id,
                self.next_font_id == old(self).next_font_id,
                self.next_image_shader_id == old(self).next_image_shader_id,
                self.gpu_generation == old(self).gpu_generation,
                self.dirty_assets == old(self).dirty_assets,
            decreases self.textures@.len() - i,
        {
            let mut taken: Option<TextureEntry> = None;
            std::mem::swap(&mut taken, &mut self.textures[i]);
            match taken {
                Some(mut e) => {
                    e.has_gpu_texture = false;
                    e.generation = 0;
                    self.textures.set(i, Some(e));
                },
                None => {},
            }
            i = i + 1;
        }
        assert forall|k: int| #[trigger] self.texture_at(k) == match old(self).texture_at(k) {
            Some(e) => Some(TextureEntry { has_gpu_texture: false, generation: 0, ..e }),
            None => None,
        } by {}
        assert forall|k: int| #[trigger] self.texture_at(k) is Some implies 1 <= k < self.next_texture_id by {
            assert(old(self).texture_at(k) is Some);
        }
        assert forall|k: int| #[trigger] self.image_at(k) is Some implies 1 <= k < self.next_image_id by {
            assert(old(self).image_at(k) is Some);
        }
    }

    /// Identifiers, in increasing order, of the textures whose GPU copy is
    /// missing or was made for an earlier GPU generation.
    pub fn textures_to_upload(&self) -> (ids: Vec<u32>)
        requires
            self.wf(),
        ensures
            forall|k: int| 0 <= k < ids@.len() ==> (#[trigger] self.texture_at(ids@[k] as int) matches Some(e) && !entry_ready(e, self.generation())),
            forall|k: int, l: int| 0 <= k < l < ids@.len() ==> #[trigger] ids@[k] < #[trigger] ids@[l],
            forall|i: u32| (#[trigger] self.texture_at(i as int) matches Some(e) && !entry_ready(e, self.generation())) ==> ids@.contains(i),
    {
        let mut ids: Vec<u32> = Vec::new();
        let len = self.textures.len();
        let mut i: usize = 0;
        while i < len
            invariant
                0 <= i <= len,
                len == self.textures@.len(),
                forall|k: int| 0 <= k < ids@.len() ==> (#[trigger] self.texture_at(ids@[k] as int) matches Some(e) && !entry_ready(e, self.generation())),
                forall|k: int| 0 <= k < ids@.len() ==> #[trigger] ids@[k] < i,
                forall|k: int, l: int| 0 <= k < l < ids@.len() ==> #[trigger] ids@[k] < #[trigger] ids@[l],
                forall|j: u32| j < i && (#[trigger] self.texture_at(j as int) matches Some(e) && !entry_ready(e, self.generation())) ==> ids@.contains(j),
                self.wf(),
            decreases len - i,
        {
            match &self.textures[i] {
                Some(e) => {
                    if !e.is_ready(self.gpu_generation) {
                        let ghost before = ids@;
                        assert(self.texture_at(i as int) is Some);
                        assert(i < self.next_texture_id);
                        ids.push(i as u32);
                        assert(self.texture_at((i as u32) as int) == Some(*e));
                        assert forall|j: u32| j < i + 1 && (#[trigger] self.texture_at(j as int) matches Some(e) && !entry_ready(e, self.generation())) implies ids@.contains(j) by {
                            if j < i {
                                let k = choose|k: int| 0 <= k < before.len() && before[k] == j;
                                assert(ids@[k] == j);
                            } else {
                                assert(ids@[before.len() as int] == j);
                            }
                        }
                    }
                },
                None => {},
            }
            i = i + 1;
        }
        ids
    }
}

} // verus!
