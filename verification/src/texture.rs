//! Texture handles and texture registry records.
use vstd::prelude::*;

use crate::image::{Bounds, Image, PixelBounds};
use crate::pt::Pt;
use crate::registry::{texture_registered, ResourceRegistry, TextureError};

verus! {

/// Handle to a texture: the pixel data or render target behind images.
#[derive(Debug, Clone, Copy, PartialEq, Eq, Structural, Hash)]
pub struct Texture {
    pub(crate) id: u32,
    pub(crate) default_view_id: u32,
    pub(crate) width: Pt,
    pub(crate) height: Pt,
    pub(crate) pixel_width: u32,
    pub(crate) pixel_height: u32,
}

impl Texture {
    /// Identifier of the texture.
    pub closed spec fn id_spec(self) -> u32 {
        self.id
    }

    /// Identifier of the full-image view.
    pub closed spec fn default_view_spec(self) -> u32 {
        self.default_view_id
    }

    /// Logical size.
    pub closed spec fn size_spec(self) -> (Pt, Pt) {
        (self.width, self.height)
    }

    /// Pixel size.
    pub closed spec fn pixel_size_spec(self) -> (u32, u32) {
        (self.pixel_width, self.pixel_height)
    }

    /// A texture handle with the given parts.
    pub closed spec fn from_parts_spec(
        id: u32,
        default_view_id: u32,
        width: Pt,
        height: Pt,
        pixel_width: u32,
        pixel_height: u32,
    ) -> Texture {
        Texture { id, default_view_id, width, height, pixel_width, pixel_height }
    }

    /// A texture handle with the given parts.
    pub fn from_parts(
        id: u32,
        default_view_id: u32,
        width: Pt,
        height: Pt,
        pixel_width: u32,
        pixel_height: u32,
    ) -> (t: Texture)
        ensures
            t == Texture::from_parts_spec(id, default_view_id, width, height, pixel_width, pixel_height),
            t.id_spec() == id,
            t.default_view_spec() == default_view_id,
            t.size_spec() == (width, height),
            t.pixel_size_spec() == (pixel_width, pixel_height),
    {
        Texture { id, default_view_id, width, height, pixel_width, pixel_height }
    }

    /// The default full-image view of this texture.
    pub fn view(self) -> (i: Image)
        ensures
            i.id_spec() == self.default_view_spec(),
            i.texture_id_spec() == self.id_spec(),
            i.bounds_spec() == (Bounds {
                x: Pt::zero_spec(),
                y: Pt::zero_spec(),
                width: self.size_spec().0,
                height: self.size_spec().1,
            }),
            i.pixel_bounds_spec() == (PixelBounds {
                x: 0,
                y: 0,
                width: self.pixel_size_spec().0,
                height: self.pixel_size_spec().1,
            }),
    {
        Image::from_parts(
            self.default_view_id,
            self.id,
            Bounds { x: Pt::zero(), y: Pt::zero(), width: self.width, height: self.height },
            PixelBounds { x: 0, y: 0, width: self.pixel_width, height: self.pixel_height },
        )
    }

    /// Logical width.
    pub fn width(self) -> (w: Pt)
        ensures
            w == self.size_spec().0,
    {
        self.width
    }

    /// Logical height.
    pub fn height(self) -> (h: Pt)
        ensures
            h == self.size_spec().1,
    {
        self.height
    }

    /// Identifier of the texture.
    pub fn id(self) -> (id: u32)
        ensures
            id == self.id_spec(),
    {
        self.id
    }
}

/// A pixel size of at least one: 0 becomes 1.
pub open spec fn at_least_one(n: u32) -> u32 {
    if n == 0 {
        1
    } else {
        n
    }
}

impl Texture {
    /// Creates a texture from RGBA8 pixels. `clamped_width` and
    /// `clamped_height` are `width` and `height` converted to whole pixels
    /// (clamped to the `u32` range); a zero pixel size becomes 1. The data
    /// must hold exactly 4 bytes per pixel.
    pub fn new(
        registry: &mut ResourceRegistry,
        width: Pt,
        height: Pt,
        clamped_width: u32,
        clamped_height: u32,
        rgba: &[u8],
    ) -> (res: Result<Texture, TextureError>)
        requires
            old(registry).wf(),
            old(registry).next_ids().0 < u32::MAX,
            old(registry).next_ids().1 < u32::MAX,
            at_least_one(clamped_width) * at_least_one(clamped_height) * 4 <= usize::MAX,
        ensures
            ({
                let pw = at_least_one(clamped_width);
                let ph = at_least_one(clamped_height);
                if rgba@.len() == pw * ph * 4 {
                    &&& res matches Ok(t)
                    &&& t.id_spec() == old(registry).next_ids().0
                    &&& t.default_view_spec() == old(registry).next_ids().1
                    &&& t.size_spec() == (width, height)
                    &&& t.pixel_size_spec() == (pw, ph)
                    &&& texture_registered(*old(registry), *final(registry), width, height, pw, ph, false, Some(rgba@))
                } else {
                    &&& res == Err::<Texture, TextureError>(
                        TextureError::LengthMismatch { expected: (pw * ph * 4) as usize, got: rgba@.len() as usize },
                    )
                    &&& *final(registry) == *old(registry)
                }
            }),
    {
        let pixel_width = if clamped_width == 0 {
            1
        } else {
            clamped_width
        };
        let pixel_height = if clamped_height == 0 {
            1
        } else {
            clamped_height
        };
        let expected_len = (pixel_width as usize) * (pixel_height as usize) * 4;
        if rgba.len() != expected_len {
            return Err(TextureError::LengthMismatch { expected: expected_len, got: rgba.len() });
        }
        Ok(registry.register_texture(pixel_width, pixel_height, width, height, rgba))
    }

    /// Creates a render-target texture that can be drawn into and sampled
    /// from; `clamped_width` and `clamped_height` are as for `Texture::new`.
    pub fn new_render_target(
        registry: &mut ResourceRegistry,
        width: Pt,
        height: Pt,
        clamped_width: u32,
        clamped_height: u32,
    ) -> (t: Texture)
        requires
            old(registry).wf(),
            old(registry).next_ids().0 < u32::MAX,
            old(registry).next_ids().1 < u32::MAX,
        ensures
            t.id_spec() == old(registry).next_ids().0,
            t.default_view_spec() == old(registry).next_ids().1,
            t.size_spec() == (width, height),
            t.pixel_size_spec() == (at_least_one(clamped_width), at_least_one(clamped_height)),
            texture_registered(
                *old(registry),
                *final(registry),
                width,
                height,
                at_least_one(clamped_width),
                at_least_one(clamped_height),
                true,
                None,
            ),
    {
        registry.register_render_target_texture(width, height, clamped_width, clamped_height)
    }

    /// Whether this texture exists in `registry` and can be drawn into.
    pub fn is_render_target(self, registry: &ResourceRegistry) -> (b: bool)
        ensures
            b == (registry.texture_at(self.id_spec() as int) matches Some(e) && e.render_target),
    {
        registry.texture_is_render_target(self.id)
    }

    /// Whether this texture exists in `registry` and its GPU copy is ready
    /// for the current GPU generation.
    pub fn is_ready(self, registry: &ResourceRegistry) -> (b: bool)
        ensures
            b == (registry.texture_at(self.id_spec() as int) matches Some(e) && e.has_gpu_texture
                && e.generation == registry.generation()),
    {
        registry.texture_is_ready(self.id)
    }
}

/// Registry record of a texture. Whether the GPU copy exists and which GPU
/// generation it was made for stand for the GPU objects, which the
/// application keeps.
#[derive(Debug, Clone)]
pub struct TextureEntry {
    pub width: Pt,
    pub height: Pt,
    pub pixel_width: u32,
    pub pixel_height: u32,
    pub default_view_id: u32,
    pub render_target: bool,
    pub dynamic_atlas: bool,
    pub raw_data: Option<Vec<u8>>,
    pub has_gpu_texture: bool,
    pub generation: u32,
}

impl TextureEntry {
    /// A sampled texture holding `raw_data`, not uploaded yet.
    pub fn new_sampled(
        width: Pt,
        height: Pt,
        pixel_width: u32,
        pixel_height: u32,
        default_view_id: u32,
        raw_data: Vec<u8>,
    ) -> (e: Self)
        ensures
            e.width == width && e.height == height,
            e.pixel_width == pixel_width && e.pixel_height == pixel_height,
            e.default_view_id == default_view_id,
            !e.render_target && !e.dynamic_atlas,
            e.raw_data == Some(raw_data),
            !e.has_gpu_texture && e.generation == 0,
    {
        TextureEntry {
            width,
            height,
            pixel_width,
            pixel_height,
            default_view_id,
            render_target: false,
            dynamic_atlas: false,
            raw_data: Some(raw_data),
            has_gpu_texture: false,
            generation: 0,
        }
    }

    /// An atlas page texture holding `raw_data`, not uploaded yet.
    pub fn new_dynamic_atlas(
        width: Pt,
        height: Pt,
        pixel_width: u32,
        pixel_height: u32,
        default_view_id: u32,
        raw_data: Vec<u8>,
    ) -> (e: Self)
        ensures
            e.width == width && e.height == height,
            e.pixel_width == pixel_width && e.pixel_height == pixel_height,
            e.default_view_id == default_view_id,
            !e.render_target && e.dynamic_atlas,
            e.raw_data == Some(raw_data),
            !e.has_gpu_texture && e.generation == 0,
    {
        TextureEntry {
            width,
            height,
            pixel_width,
            pixel_height,
            default_view_id,
            render_target: false,
            dynamic_atlas: true,
            raw_data: Some(raw_data),
            has_gpu_texture: false,
            generation: 0,
        }
    }

    /// A render-target texture without pixel data, not created on the GPU yet.
    pub fn new_render_target(
        width: Pt,
        height: Pt,
        pixel_width: u32,
        pixel_height: u32,
        default_view_id: u32,
    ) -> (e: Self)
        ensures
            e.width == width && e.height == height,
            e.pixel_width == pixel_width && e.pixel_height == pixel_height,
            e.default_view_id == default_view_id,
            e.render_target && !e.dynamic_atlas,
            e.raw_data is None,
            !e.has_gpu_texture && e.generation == 0,
    {
        TextureEntry {
            width,
            height,
            pixel_width,
            pixel_height,
            default_view_id,
            render_target: true,
            dynamic_atlas: false,
            raw_data: None,
            has_gpu_texture: false,
            generation: 0,
        }
    }

    /// The GPU copy exists and belongs to GPU generation `current_gen`.
    pub fn is_ready(&self, current_gen: u32) -> (b: bool)
        ensures
            b == (self.has_gpu_texture && self.generation == current_gen),
    {
        self.has_gpu_texture && self.generation == current_gen
    }

    /// Whether this texture can be drawn into.
    pub fn is_render_target(&self) -> (b: bool)
        ensures
            b == self.render_target,
    {
        self.render_target
    }
}


/// Byte `i` of RGBA8 data as a texture with blue and red channels swapped
/// stores it: in every whole 4-byte pixel bytes 0 and 2 trade places; a
/// trailing partial pixel is left as it is.
pub open spec fn bgra_byte(data: Seq<u8>, i: int) -> u8 {
    let whole = data.len() - data.len() % 4;
    if i < whole && i % 4 == 0 {
        data[i + 2]
    } else if i < whole && i % 4 == 2 {
        data[i - 2]
    } else {
        data[i]
    }
}

/// The bytes to write for a `width` x `height` region of RGBA8 data `rgba`
/// into a texture whose format stores blue first when `bgra_target` holds.
/// An empty region writes nothing (`None`).
pub fn texture_upload_bytes(rgba: &[u8], bgra_target: bool, width: u32, height: u32) -> (r: Option<Vec<u8>>)
    ensures
        (width == 0 || height == 0) <==> r is None,
        r matches Some(out) ==> {
            &&& out.len() == rgba.len()
            &&& forall|i: int|
                0 <= i < rgba.len() ==> #[trigger] out@[i] == if bgra_target {
                    bgra_byte(rgba@, i)
                } else {
                    rgba@[i]
                }
        },
{
    if width == 0 || height == 0 {
        return None;
    }
    let n = rgba.len();
    let mut out: Vec<u8> = Vec::with_capacity(n);
    if !bgra_target {
        let mut i: usize = 0;
        while i < n
            invariant
                i <= n,
                n == rgba.len(),
                out.len() == i,
                forall|j: int| 0 <= j < i ==> #[trigger] out@[j] == rgba@[j],
            decreases n - i,
        {
            out.push(rgba[i]);
            i = i + 1;
        }
        return Some(out);
    }
    let ghost whole: int = n - n % 4;
    let mut p: usize = 0;
    while n - p >= 4
        invariant
            p <= n,
            n == rgba.len(),
            whole == n - n % 4,
            p % 4 == 0,
            p <= whole,
            out.len() == p,
            forall|j: int| 0 <= j < p ==> #[trigger] out@[j] == bgra_byte(rgba@, j),
        decreases n - p,
    {
        assert(p + 4 <= whole);
        out.push(rgba[p + 2]);
        out.push(rgba[p + 1]);
        out.push(rgba[p]);
        out.push(rgba[p + 3]);
        p = p + 4;
    }
    assert(p == whole);
    let mut i: usize = p;
    while i < n
        invariant
            whole <= i <= n,
            n == rgba.len(),
            whole == n - n % 4,
            out.len() == i,
            forall|j: int| 0 <= j < i ==> #[trigger] out@[j] == bgra_byte(rgba@, j),
        decreases n - i,
    {
        out.push(rgba[i]);
        i = i + 1;
    }
    Some(out)
}

} // verus!
