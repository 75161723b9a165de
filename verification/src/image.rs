//! Image handles and the bounds they cover.
use vstd::prelude::*;

use crate::atlas::{atlas_takes, handle_of, region_added, register_image, DynamicAtlas};
use crate::pt::Pt;
use crate::registry::{full_view_entry, texture_registered, ResourceRegistry};

verus! {

/// Rectangle bounds, in logical points, of a sub-region of an image.
#[derive(Debug, Clone, Copy, PartialEq, Eq, Structural, Hash)]
pub struct Bounds {
    pub x: Pt,
    pub y: Pt,
    pub width: Pt,
    pub height: Pt,
}

/// Rectangle bounds in physical pixels of a texture.
#[derive(Debug, Clone, Copy, PartialEq, Eq, Structural, Hash)]
pub struct PixelBounds {
    pub x: u32,
    pub y: u32,
    pub width: u32,
    pub height: u32,
}

impl Bounds {
    /// Width of the bounds.
    pub fn width(&self) -> (w: Pt)
        ensures
            w == self.width,
    {
        self.width
    }

    /// Height of the bounds.
    pub fn height(&self) -> (h: Pt)
        ensures
            h == self.height,
    {
        self.height
    }

    /// X coordinate of the top-left corner.
    pub fn x(&self) -> (x: Pt)
        ensures
            x == self.x,
    {
        self.x
    }

    /// Y coordinate of the top-left corner.
    pub fn y(&self) -> (y: Pt)
        ensures
            y == self.y,
    {
        self.y
    }

    /// Bounds with the given corner and size.
    pub fn new(x: Pt, y: Pt, width: Pt, height: Pt) -> (b: Self)
        ensures
            b == (Bounds { x, y, width, height }),
    {
        Bounds { x, y, width, height }
    }
}

/// Handle to an image: a sub-rectangle of a texture.
#[derive(Debug, Clone, Copy)]
pub struct Image {
    pub(crate) id: u32,
    pub(crate) texture_id: u32,
    pub(crate) x: Pt,
    pub(crate) y: Pt,
    pub(crate) width: Pt,
    pub(crate) height: Pt,
    pub(crate) pixel_bounds: PixelBounds,
}

impl Image {
    /// Identifier of the image.
    pub closed spec fn id_spec(self) -> u32 {
        self.id
    }

    /// Identifier of the texture that holds the image.
    pub closed spec fn texture_id_spec(self) -> u32 {
        self.texture_id
    }

    /// Source-texture bounds of the image.
    pub closed spec fn bounds_spec(self) -> Bounds {
        Bounds { x: self.x, y: self.y, width: self.width, height: self.height }
    }

    /// Pixel bounds of the image.
    pub closed spec fn pixel_bounds_spec(self) -> PixelBounds {
        self.pixel_bounds
    }

    /// An image handle with the given parts.
    pub fn from_parts(id: u32, texture_id: u32, bounds: Bounds, pixel_bounds: PixelBounds) -> (i: Image)
        ensures
            i.id_spec() == id,
            i.texture_id_spec() == texture_id,
            i.bounds_spec() == bounds,
            i.pixel_bounds_spec() == pixel_bounds,
    {
        Image {
            id,
            texture_id,
            x: bounds.x,
            y: bounds.y,
            width: bounds.width,
            height: bounds.height,
            pixel_bounds,
        }
    }

    /// Logical width of the image.
    pub fn width(self) -> (w: Pt)
        ensures
            w == self.bounds_spec().width,
    {
        self.width
    }

    /// Logical height of the image.
    pub fn height(self) -> (h: Pt)
        ensures
            h == self.bounds_spec().height,
    {
        self.height
    }

    /// Identifier of the image.
    pub fn id(self) -> (id: u32)
        ensures
            id == self.id_spec(),
    {
        self.id
    }

    /// Identifier of the texture that holds the image.
    pub fn texture_id(self) -> (id: u32)
        ensures
            id == self.texture_id_spec(),
    {
        self.texture_id
    }

    /// Physical pixel bounds of the image in its texture or atlas.
    pub fn pixel_bounds(self) -> (p: PixelBounds)
        ensures
            p == self.pixel_bounds_spec(),
    {
        self.pixel_bounds
    }

    /// Index of the image in the image registry.
    pub fn index(self) -> (i: usize)
        ensures
            i == self.id_spec(),
    {
        self.id as usize
    }

    /// Texture identifier and registry index of the image.
    pub fn texture_id_and_index(self) -> (r: (u32, u32))
        ensures
            r == (self.texture_id_spec(), self.id_spec()),
    {
        (self.texture_id, self.id)
    }

    /// Source-texture bounds of the image.
    pub fn bounds(self) -> (b: Bounds)
        ensures
            b == self.bounds_spec(),
    {
        Bounds { x: self.x, y: self.y, width: self.width, height: self.height }
    }

    /// Images are equal when their identifiers are.
    pub fn same_image(self, other: Image) -> (b: bool)
        ensures
            b == (self.id_spec() == other.id_spec()),
    {
        self.id == other.id
    }
}

impl Image {
    /// Creates an image from `pixel_width` x `pixel_height` RGBA8 pixels
    /// with logical size `width` x `height` (see `register_image`: small
    /// images share the atlas when there is one).
    pub fn new<F: Fn(u32) -> Pt>(
        registry: &mut ResourceRegistry,
        atlas: &mut Option<DynamicAtlas>,
        to_logical: &F,
        pixel_width: u32,
        pixel_height: u32,
        width: Pt,
        height: Pt,
        rgba: &[u8],
    ) -> (img: Image)
        requires
            old(registry).wf(),
            old(registry).next_ids().0 < u32::MAX,
            old(registry).next_ids().1 < u32::MAX - 1,
            *old(atlas) matches Some(a) ==> a.wf(),
            forall|p: u32| to_logical.requires((p,)),
            atlas_takes(*old(atlas), pixel_width, pixel_height) ==> rgba@.len() >= pixel_width * pixel_height
                * 4,
        ensures
            (*final(atlas) is Some) == (*old(atlas) is Some),
            *final(atlas) matches Some(a) ==> a.wf() && a.max_dim == old(atlas)->0.max_dim,
            atlas_takes(*old(atlas), pixel_width, pixel_height) ==> region_added(
                *to_logical,
                old(atlas)->0.page_views(),
                final(atlas)->0.page_views(),
                *old(registry),
                *final(registry),
                old(atlas)->0.max_dim,
                width,
                height,
                pixel_width,
                pixel_height,
                rgba@,
                img,
            ),
            !atlas_takes(*old(atlas), pixel_width, pixel_height) ==> {
                &&& *old(atlas) is Some ==> final(atlas)->0.page_views() == old(atlas)->0.page_views()
                &&& texture_registered(
                    *old(registry),
                    *final(registry),
                    width,
                    height,
                    pixel_width,
                    pixel_height,
                    false,
                    Some(rgba@),
                )
                &&& handle_of(
                    img,
                    old(registry).next_ids().1,
                    full_view_entry(old(registry).next_ids().0, width, height, pixel_width, pixel_height),
                )
            },
    {
        register_image(registry, atlas, to_logical, pixel_width, pixel_height, width, height, rgba)
    }

    /// Whether the texture behind this image exists in `registry` and its
    /// GPU copy is ready for the current GPU generation.
    pub fn is_ready(self, registry: &ResourceRegistry) -> (b: bool)
        ensures
            b == (registry.texture_at(self.texture_id_spec() as int) matches Some(e) && e.has_gpu_texture
                && e.generation == registry.generation()),
    {
        registry.texture_is_ready(self.texture_id)
    }

    /// Removes this image from `registry`; returns whether it was there.
    pub fn destroy(self, registry: &mut ResourceRegistry) -> (b: bool)
        requires
            old(registry).wf(),
        ensures
            final(registry).wf(),
            b == old(registry).image_at(self.id_spec() as int) is Some,
            final(registry).image_at(self.id_spec() as int) is None,
            forall|i: int| i != self.id_spec() ==> #[trigger] final(registry).image_at(i) == old(registry).image_at(i),
            forall|i: int| #[trigger] final(registry).texture_at(i) == old(registry).texture_at(i),
            final(registry).font_map() == old(registry).font_map(),
            final(registry).shader_map() == old(registry).shader_map(),
            final(registry).next_ids() == old(registry).next_ids(),
            final(registry).generation() == old(registry).generation(),
            final(registry).dirty() == old(registry).dirty(),
    {
        registry.destroy_image(self.id)
    }

    /// Creates a view of part of `image`: `bounds` are its logical bounds in
    /// the texture of `image`, and its pixel rectangle is `pixel_width` x
    /// `pixel_height` pixels starting `offset_x`, `offset_y` pixels into the
    /// pixel rectangle of `image`.
    pub fn sub_image(
        registry: &mut ResourceRegistry,
        image: Image,
        bounds: Bounds,
        offset_x: u32,
        offset_y: u32,
        pixel_width: u32,
        pixel_height: u32,
    ) -> (img: Image)
        requires
            old(registry).wf(),
            old(registry).next_ids().1 < u32::MAX,
            old(registry).image_at(image.id_spec() as int) matches Some(p) && p.pixel_bounds.x + offset_x
                <= u32::MAX && p.pixel_bounds.y + offset_y <= u32::MAX,
        ensures
            img.id_spec() == old(registry).next_ids().1,
            img.texture_id_spec() == image.texture_id_spec(),
            img.bounds_spec() == bounds,
            final(registry).image_at(img.id_spec() as int) == Some(
                ImageEntry { texture_id: image.texture_id_spec(), bounds, pixel_bounds: img.pixel_bounds_spec(), visible: true },
            ),
            img.pixel_bounds_spec() == (PixelBounds {
                x: (old(registry).image_at(image.id_spec() as int)->0.pixel_bounds.x + offset_x) as u32,
                y: (old(registry).image_at(image.id_spec() as int)->0.pixel_bounds.y + offset_y) as u32,
                width: pixel_width,
                height: pixel_height,
            }),
            final(registry).wf(),
            final(registry).next_ids() == (
                old(registry).next_ids().0,
                (old(registry).next_ids().1 + 1) as u32,
                old(registry).next_ids().2,
                old(registry).next_ids().3,
            ),
            forall|i: int| #[trigger] final(registry).texture_at(i) == old(registry).texture_at(i),
            forall|i: int| i != img.id_spec() ==> #[trigger] final(registry).image_at(i) == old(registry).image_at(i),
            final(registry).font_map() == old(registry).font_map(),
            final(registry).shader_map() == old(registry).shader_map(),
            final(registry).generation() == old(registry).generation(),
            final(registry).dirty(),
    {
        let id = registry.register_sub_image(image, bounds, offset_x, offset_y, pixel_width, pixel_height);
        let pixel_bounds = registry.image(id).unwrap().pixel_bounds;
        Image::from_parts(id, image.texture_id, bounds, pixel_bounds)
    }
}

/// Registry record of an image.
#[derive(Debug, Clone, Copy, PartialEq, Eq, Structural)]
pub struct ImageEntry {
    pub texture_id: u32,
    pub bounds: Bounds,
    pub pixel_bounds: PixelBounds,
    pub visible: bool,
}

impl ImageEntry {
    /// A visible image record.
    pub fn new(texture_id: u32, bounds: Bounds, pixel_bounds: PixelBounds) -> (e: Self)
        ensures
            e == (ImageEntry { texture_id, bounds, pixel_bounds, visible: true }),
    {
        ImageEntry { texture_id, bounds, pixel_bounds, visible: true }
    }
}

} // verus!
