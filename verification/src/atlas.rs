//! Dynamic texture atlas: pages of RGBA pixels that many small images share.
//!
//! Each page is a texture of the resource registry together with a packer
//! that hands out rectangles of it and a CPU copy of its pixels. A region is
//! put on the first page that is large enough and still has room for it, and
//! on a new page otherwise; every region keeps one pixel of padding to its
//! right and below it.
use vstd::arithmetic::div_mod::{lemma_fundamental_div_mod, lemma_fundamental_div_mod_converse};
use vstd::prelude::*;

use crate::image::{Bounds, Image, ImageEntry, PixelBounds};
use crate::packer::{arith_ok, in_page, lemma_place_in_page, place, Packer, Rect};
use crate::pt::Pt;
use crate::registry::{fresh_texture, full_view_entry, texture_registered, ResourceRegistry};
use crate::texture::TextureEntry;
use vstd::multiset::Multiset;

verus! {

/// Pixels of padding kept to the right of and below every region.
pub const ATLAS_PADDING: u32 = 1;

/// Smallest side, in pixels, of a new page.
pub const MIN_PAGE_SIDE: u32 = 256;

/// The smallest power of two that is at least `n`, searched upwards from `p`
/// by doubling.
pub open spec fn pow2_from(n: int, p: int) -> int
    decreases (if n > p {
        n - p
    } else {
        0
    }),
    when p >= 1
{
    if p >= n {
        p
    } else {
        pow2_from(n, 2 * p)
    }
}

/// The smallest power of two that is at least `n` (1 for `n <= 1`).
pub open spec fn next_pow2(n: int) -> int {
    pow2_from(n, 1)
}

/// Side of a new page for a region side of `t` pixels (padding included):
/// the next power of two, at least `MIN_PAGE_SIDE`, at most `max_dim`.
pub open spec fn page_side(t: int, max_dim: int) -> int {
    let p = if next_pow2(t) > MIN_PAGE_SIDE {
        next_pow2(t)
    } else {
        MIN_PAGE_SIDE as int
    };
    if p < max_dim {
        p
    } else {
        max_dim
    }
}

proof fn lemma_pow2_from_bounds(n: int, p: int)
    requires
        p >= 1,
    ensures
        pow2_from(n, p) >= n,
        pow2_from(n, p) >= p,
    decreases (if n > p {
        n - p
    } else {
        0
    }),
{
    if p < n {
        lemma_pow2_from_bounds(n, 2 * p);
    }
}

/// The smallest power of two that is at least `n`.
pub fn next_power_of_two(n: u32) -> (r: u32)
    requires
        n <= 0x4000_0000,
    ensures
        r == next_pow2(n as int),
{
    let mut p: u32 = 1;
    while p < n
        invariant
            1 <= p < 0x8000_0000,
            n <= 0x4000_0000,
            pow2_from(n as int, p as int) == next_pow2(n as int),
        decreases 0x8000_0000 - p,
    {
        p = p * 2;
    }
    p
}

proof fn lemma_pow2_from_upper(n: int, p: int)
    requires
        1 <= p <= n,
    ensures
        pow2_from(n, p) < 2 * n,
    decreases n - p,
{
    if p < n {
        assert(pow2_from(n, p) == pow2_from(n, 2 * p));
        if 2 * p < n {
            lemma_pow2_from_upper(n, 2 * p);
        } else {
            assert(pow2_from(n, 2 * p) == 2 * p);
        }
    }
}

proof fn lemma_page_side(t: int, max_dim: int)
    requires
        1 <= t <= max_dim,
    ensures
        t <= page_side(t, max_dim) <= max_dim,
{
    lemma_pow2_from_bounds(t, 1);
}

/// Side of a new page for a region side of `t` pixels (padding included).
fn new_page_side(t: u32, max_dim: u32) -> (s: u32)
    requires
        t <= 0x4000_0000,
    ensures
        s == page_side(t as int, max_dim as int),
{
    let p = next_power_of_two(t);
    let p = if p > MIN_PAGE_SIDE {
        p
    } else {
        MIN_PAGE_SIDE
    };
    if p < max_dim {
        p
    } else {
        max_dim
    }
}

/// Byte offset of pixel (`x`, `y`) in an RGBA page `pw` pixels wide.
pub open spec fn byte_offset(pw: int, x: int, y: int) -> int {
    (y * pw + x) * 4
}

/// `page` with the `w` x `h` RGBA pixels of `src` (rows of `4 * w` bytes,
/// one after the other) copied to pixel (`x`, `y`) of a page `pw` pixels
/// wide; the bytes outside that rectangle are kept.
pub open spec fn blit(page: Seq<u8>, pw: int, x: int, y: int, w: int, h: int, src: Seq<u8>) -> Seq<u8> {
    Seq::new(
        page.len(),
        |k: int|
            {
                let row = k / (4 * pw);
                let col = k % (4 * pw);
                if y <= row < y + h && 4 * x <= col < 4 * (x + w) {
                    src[(row - y) * (4 * w) + (col - 4 * x)]
                } else {
                    page[k]
                }
            },
    )
}

/// `blit` of the first `r` rows of the region and the first `j` bytes of row
/// `r`.
spec fn blit_partial(page: Seq<u8>, pw: int, x: int, y: int, w: int, r: int, j: int, src: Seq<u8>) -> Seq<u8> {
    Seq::new(
        page.len(),
        |k: int|
            {
                let row = k / (4 * pw);
                let col = k % (4 * pw);
                if (y <= row < y + r && 4 * x <= col < 4 * (x + w)) || (row == y + r && 4 * x <= col < 4
                    * x + j) {
                    src[(row - y) * (4 * w) + (col - 4 * x)]
                } else {
                    page[k]
                }
            },
    )
}

proof fn lemma_byte_position(pw: int, x: int, y: int, r: int, j: int)
    requires
        pw >= 1,
        0 <= x,
        0 <= 4 * x + j < 4 * pw,
        0 <= y + r,
    ensures
        byte_offset(pw, x, y + r) + j == (y + r) * (4 * pw) + (4 * x + j),
        (byte_offset(pw, x, y + r) + j) / (4 * pw) == y + r,
        (byte_offset(pw, x, y + r) + j) % (4 * pw) == 4 * x + j,
{
    assert(byte_offset(pw, x, y + r) + j == (y + r) * (4 * pw) + (4 * x + j)) by (nonlinear_arith);
    lemma_fundamental_div_mod_converse(
        byte_offset(pw, x, y + r) + j,
        4 * pw,
        y + r,
        4 * x + j,
    );
}

/// Copies the `w` x `h` RGBA pixels of `src` to pixel (`x`, `y`) of the
/// `pw` x `ph` RGBA page `page`.
fn blit_region(page: &mut Vec<u8>, pw: u32, ph: u32, x: u32, y: u32, w: u32, h: u32, src: &[u8])
    requires
        old(page)@.len() == pw * ph * 4,
        pw * ph * 4 <= u32::MAX,
        x + w <= pw,
        y + h <= ph,
        src@.len() >= w * h * 4,
    ensures
        final(page)@ == blit(old(page)@, pw as int, x as int, y as int, w as int, h as int, src@),
{
    let ghost base = page@;
    if w == 0 || h == 0 {
        assert(page@ =~= blit(base, pw as int, x as int, y as int, w as int, h as int, src@));
        return;
    }
    assert(page@ =~= blit_partial(base, pw as int, x as int, y as int, w as int, 0, 0, src@));
    assert(w * 4 <= pw * ph * 4) by (nonlinear_arith)
        requires
            w <= pw,
            ph >= 1,
    ;
    let row_bytes: usize = (w as usize) * 4;
    let mut r: u32 = 0;
    while r < h
        invariant
            0 <= r <= h,
            h >= 1,
            w >= 1,
            row_bytes == w * 4,
            base.len() == pw * ph * 4,
            pw * ph * 4 <= u32::MAX,
            x + w <= pw,
            y + h <= ph,
            src@.len() >= w * h * 4,
            page@ == blit_partial(base, pw as int, x as int, y as int, w as int, r as int, 0, src@),
        decreases h - r,
    {
        assert((y + r) * pw + x + w <= pw * ph) by (nonlinear_arith)
            requires
                y + r < ph,
                x + w <= pw,
        ;
        assert((r + 1) * (w * 4) <= w * h * 4) by (nonlinear_arith)
            requires
                r < h,
        ;
        assert(r * (w * 4) + w * 4 == (r + 1) * (w * 4)) by (nonlinear_arith);
        assert(((y + r) * pw + x) * 4 + w * 4 == ((y + r) * pw + x + w) * 4) by (nonlinear_arith);
        assert(0 <= (y + r) * pw) by (nonlinear_arith)
            requires
                0 <= y + r,
                0 <= pw,
        ;
        let dst: usize = (((y + r) as usize) * (pw as usize) + (x as usize)) * 4;
        assert((r as int) * (row_bytes as int) == (r as int) * (w * 4));
        assert(src@.len() == src.len());
        let src_start: usize = (r as usize) * row_bytes;
        let mut j: usize = 0;
        while j < row_bytes
            invariant
                0 <= j <= row_bytes,
                row_bytes == w * 4,
                0 <= r < h,
                w >= 1,
                dst == byte_offset(pw as int, x as int, (y + r) as int),
                dst + row_bytes <= pw * ph * 4,
                src_start == r * (w * 4),
                src_start + row_bytes <= src@.len(),
                base.len() == pw * ph * 4,
                pw * ph * 4 <= u32::MAX,
                src@.len() == src.len(),
                x + w <= pw,
                page@ == blit_partial(base, pw as int, x as int, y as int, w as int, r as int, j as int, src@),
            decreases row_bytes - j,
        {
            let ghost before = page@;
            page.set(dst + j, src[src_start + j]);
            proof {
                let pwi = pw as int;
                let d = 4 * pwi;
                lemma_byte_position(pwi, x as int, y as int, r as int, j as int);
                assert forall|k: int| 0 <= k < page@.len() implies page@[k] == blit_partial(
                    base,
                    pwi,
                    x as int,
                    y as int,
                    w as int,
                    r as int,
                    (j + 1) as int,
                    src@,
                )[k] by {
                    lemma_fundamental_div_mod(k, d);
                    if k != dst + j {
                        assert(page@[k] == before[k]);
                        if k / d == y + r && k % d == 4 * x + j {
                            assert(k == d * (y + r) + (4 * x + j));
                            assert(d * (y + r) == (y + r) * d) by (nonlinear_arith);
                        }
                    }
                }
                assert(page@ =~= blit_partial(
                    base,
                    pwi,
                    x as int,
                    y as int,
                    w as int,
                    r as int,
                    (j + 1) as int,
                    src@,
                ));
            }
            j = j + 1;
        }
        proof {
            assert(blit_partial(base, pw as int, x as int, y as int, w as int, r as int, j as int, src@)
                =~= blit_partial(base, pw as int, x as int, y as int, w as int, (r + 1) as int, 0, src@));
        }
        r = r + 1;
    }
    assert(page@ =~= blit(base, pw as int, x as int, y as int, w as int, h as int, src@));
}

} // verus!

verus! {

/// `n` zero bytes.
pub open spec fn zeros(n: int) -> Seq<u8> {
    Seq::new(n as nat, |k: int| 0u8)
}

/// Why a region could not be added to the atlas.
#[derive(Debug, Clone, Copy, PartialEq, Eq, Structural)]
pub enum AtlasError {
    /// The region, padding included, is larger than a page may be.
    RegionTooLarge { width: u32, height: u32 },
    /// A new page could not hold the region.
    InsertFailed,
}

/// One page of the atlas: a registry texture, the packer that hands out its
/// rectangles and the CPU copy of its pixels.
pub struct AtlasPage {
    pub texture_id: u32,
    pub packer: Packer,
    pub buffer: Vec<u8>,
    pub pixel_width: u32,
    pub pixel_height: u32,
}

/// What a page holds, seen from outside.
#[verifier::ext_equal]
pub struct PageView {
    pub texture_id: u32,
    pub pixel_width: u32,
    pub pixel_height: u32,
    pub free: Seq<Rect>,
    pub used: Multiset<Rect>,
    pub pixels: Seq<u8>,
}

impl View for AtlasPage {
    type V = PageView;

    open spec fn view(&self) -> PageView {
        PageView {
            texture_id: self.texture_id,
            pixel_width: self.pixel_width,
            pixel_height: self.pixel_height,
            free: self.packer.free(),
            used: self.packer.used(),
            pixels: self.buffer@,
        }
    }
}

impl AtlasPage {
    /// The packer covers the page and the pixel copy has the page's size.
    pub open spec fn wf(&self) -> bool {
        &&& self.packer.wf()
        &&& self.packer.width() == self.pixel_width as int
        &&& self.packer.height() == self.pixel_height as int
        &&& 1 <= self.pixel_width && 1 <= self.pixel_height
        &&& self.pixel_width * self.pixel_height * 4 <= u32::MAX
        &&& self.buffer@.len() == self.pixel_width * self.pixel_height * 4
    }
}

/// The page is at least `w` x `h` pixels large.
pub open spec fn page_fits(p: PageView, w: int, h: int) -> bool {
    p.pixel_width >= w && p.pixel_height >= h
}

/// Index of the first page at least `w` x `h` pixels large.
pub open spec fn first_page(pages: Seq<PageView>, w: int, h: int) -> Option<int>
    decreases pages.len(),
{
    if pages.len() == 0 {
        None
    } else if page_fits(pages[0], w, h) {
        Some(0)
    } else {
        match first_page(pages.drop_first(), w, h) {
            Some(k) => Some(k + 1),
            None => None,
        }
    }
}

proof fn lemma_first_page_props(pages: Seq<PageView>, w: int, h: int)
    ensures
        match first_page(pages, w, h) {
            Some(k) => 0 <= k < pages.len() && page_fits(pages[k], w, h) && forall|j: int|
                0 <= j < k ==> !page_fits(#[trigger] pages[j], w, h),
            None => forall|j: int| 0 <= j < pages.len() ==> !page_fits(#[trigger] pages[j], w, h),
        },
    decreases pages.len(),
{
    if pages.len() > 0 && !page_fits(pages[0], w, h) {
        lemma_first_page_props(pages.drop_first(), w, h);
        assert forall|j: int| 0 < j < pages.len() implies pages[j] == pages.drop_first()[j - 1] by {}
    }
}

/// The page that a `tw` x `th` request (padding included) goes to when an
/// existing page can take it, with the position its packer hands out.
pub open spec fn reuse_target(pages: Seq<PageView>, tw: int, th: int) -> Option<(int, (i32, i32))> {
    match first_page(pages, tw, th) {
        Some(i) => match place(pages[i].free, tw, th).1 {
            Some(pos) => Some((i, pos)),
            None => None,
        },
        None => None,
    }
}

/// `after` is page `before` once a `tw` x `th` rectangle was placed at
/// (`x`, `y`) and the `w` x `h` pixels of `src` were copied there.
pub open spec fn page_written(
    before: PageView,
    after: PageView,
    tw: int,
    th: int,
    x: i32,
    y: i32,
    w: int,
    h: int,
    src: Seq<u8>,
) -> bool {
    &&& after.texture_id == before.texture_id
    &&& after.pixel_width == before.pixel_width && after.pixel_height == before.pixel_height
    &&& (after.free, Some((x, y))) == place(before.free, tw, th)
    &&& after.used == before.used.insert(Rect { x, y, w: tw as i32, h: th as i32 })
    &&& after.pixels == blit(before.pixels, before.pixel_width as int, x as int, y as int, w, h, src)
}

/// A new, empty `w` x `h` page on texture `texture_id`.
pub open spec fn empty_page(texture_id: u32, w: u32, h: u32) -> PageView {
    PageView {
        texture_id,
        pixel_width: w,
        pixel_height: h,
        free: seq![Rect { x: 0, y: 0, w: w as i32, h: h as i32 }],
        used: Multiset::empty(),
        pixels: zeros(w * h * 4),
    }
}

/// Record of a region of texture `texture_id` at pixel (`x`, `y`) of size
/// `w` x `h` with logical bounds `bounds`.
pub open spec fn region_entry(texture_id: u32, bounds: Bounds, x: u32, y: u32, w: u32, h: u32) -> ImageEntry {
    ImageEntry { texture_id, bounds, pixel_bounds: PixelBounds { x, y, width: w, height: h }, visible: true }
}

/// `img` is the handle of image `id` recorded as `entry`.
pub open spec fn handle_of(img: Image, id: u32, entry: ImageEntry) -> bool {
    &&& img.id_spec() == id
    &&& img.texture_id_spec() == entry.texture_id
    &&& img.bounds_spec() == entry.bounds
    &&& img.pixel_bounds_spec() == entry.pixel_bounds
}

/// `f` is texture record `e` holding the pixels `data`.
pub open spec fn holds_data(e: TextureEntry, f: TextureEntry, data: Seq<u8>) -> bool {
    &&& f == TextureEntry { raw_data: f.raw_data, ..e }
    &&& f.raw_data matches Some(d) && d@ == data
}

/// Registry `after` is `before` with texture `tid` (if it exists) holding
/// `data` and `entry` registered under the next image identifier.
pub open spec fn region_registered(
    before: ResourceRegistry,
    after: ResourceRegistry,
    tid: u32,
    data: Seq<u8>,
    entry: ImageEntry,
) -> bool {
    let view = before.next_ids().1;
    &&& after.wf()
    &&& after.next_ids() == (
        before.next_ids().0,
        (view + 1) as u32,
        before.next_ids().2,
        before.next_ids().3,
    )
    &&& match before.texture_at(tid as int) {
        Some(e) => after.texture_at(tid as int) matches Some(f) && holds_data(e, f, data),
        None => after.texture_at(tid as int) is None,
    }
    &&& forall|i: int| i != tid ==> #[trigger] after.texture_at(i) == before.texture_at(i)
    &&& after.image_at(view as int) == Some(entry)
    &&& forall|i: int| i != view ==> #[trigger] after.image_at(i) == before.image_at(i)
    &&& after.font_map() == before.font_map()
    &&& after.shader_map() == before.shader_map()
    &&& after.generation() == before.generation()
    &&& after.dirty()
}

/// Registry `after` is `before` with a new `w` x `h` page texture of logical
/// size `lw` x `lh` holding `data`, its full view, and then `entry`
/// registered: the texture gets the next texture identifier, the view the
/// next image identifier and `entry` the one after.
pub open spec fn page_and_region_registered(
    before: ResourceRegistry,
    after: ResourceRegistry,
    lw: Pt,
    lh: Pt,
    w: u32,
    h: u32,
    data: Seq<u8>,
    entry: ImageEntry,
) -> bool {
    let tid = before.next_ids().0;
    let view = before.next_ids().1;
    &&& after.wf()
    &&& after.next_ids() == (
        (tid + 1) as u32,
        (view + 2) as u32,
        before.next_ids().2,
        before.next_ids().3,
    )
    &&& after.texture_at(tid as int) matches Some(e) && fresh_texture(e, lw, lh, w, h, view, false, Some(data))
    &&& forall|i: int| i != tid ==> #[trigger] after.texture_at(i) == before.texture_at(i)
    &&& after.image_at(view as int) == Some(full_view_entry(tid, lw, lh, w, h))
    &&& after.image_at(view + 1) == Some(entry)
    &&& forall|i: int| i != view && i != view + 1 ==> #[trigger] after.image_at(i) == before.image_at(i)
    &&& after.font_map() == before.font_map()
    &&& after.shader_map() == before.shader_map()
    &&& after.generation() == before.generation()
    &&& after.dirty()
}

/// A region of `w` x `h` pixels fits on a page once padded.
pub open spec fn region_accepted(w: u32, h: u32, max_dim: u32) -> bool {
    w + ATLAS_PADDING <= max_dim && h + ATLAS_PADDING <= max_dim
}

/// The outcome of a successful `DynamicAtlas::add_region`: `img` is the new
/// image of the `w` x `h` region `src` (padded to `w + 1` x `h + 1`), placed
/// on the page `reuse_target` names if there is one, else on a new page
/// appended to the atlas; `pages` and `after` are the atlas pages and the
/// registry afterwards.
pub open spec fn region_added<F: Fn(u32) -> Pt>(
    to_logical: F,
    old_pages: Seq<PageView>,
    pages: Seq<PageView>,
    before: ResourceRegistry,
    after: ResourceRegistry,
    max_dim: u32,
    logical_w: Pt,
    logical_h: Pt,
    w: u32,
    h: u32,
    src: Seq<u8>,
    img: Image,
) -> bool {
    let tw = w + ATLAS_PADDING;
    let th = h + ATLAS_PADDING;
    &&& img.bounds_spec().width == logical_w
    &&& img.bounds_spec().height == logical_h
    &&& to_logical.ensures((img.pixel_bounds_spec().x,), img.bounds_spec().x)
    &&& to_logical.ensures((img.pixel_bounds_spec().y,), img.bounds_spec().y)
    &&& match reuse_target(old_pages, tw as int, th as int) {
        Some((i, (x, y))) => {
            let entry = region_entry(old_pages[i].texture_id, img.bounds_spec(), x as u32, y as u32, w, h);
            &&& pages.len() == old_pages.len()
            &&& forall|j: int| 0 <= j < pages.len() && j != i ==> #[trigger] pages[j] == old_pages[j]
            &&& page_written(old_pages[i], pages[i], tw as int, th as int, x, y, w as int, h as int, src)
            &&& handle_of(img, before.next_ids().1, entry)
            &&& region_registered(before, after, old_pages[i].texture_id, pages[i].pixels, entry)
        },
        None => {
            let n = old_pages.len() as int;
            let tid = before.next_ids().0;
            let sw = page_side(tw as int, max_dim as int) as u32;
            let sh = page_side(th as int, max_dim as int) as u32;
            let page_size = after.texture_at(tid as int)->0;
            let entry = region_entry(tid, img.bounds_spec(), 0, 0, w, h);
            &&& pages.len() == n + 1
            &&& forall|j: int| 0 <= j < n ==> #[trigger] pages[j] == old_pages[j]
            &&& page_written(empty_page(tid, sw, sh), pages[n], tw as int, th as int, 0, 0, w as int, h as int, src)
            &&& handle_of(img, (before.next_ids().1 + 1) as u32, entry)
            &&& to_logical.ensures((sw,), page_size.width)
            &&& to_logical.ensures((sh,), page_size.height)
            &&& page_and_region_registered(before, after, page_size.width, page_size.height, sw, sh, pages[n].pixels, entry)
        },
    }
}

/// A texture atlas that grows by pages of at most `max_dim` x `max_dim`
/// pixels.
pub struct DynamicAtlas {
    pub pages: Vec<AtlasPage>,
    pub max_dim: u32,
}

impl DynamicAtlas {
    /// The pages, seen from outside.
    pub open spec fn page_views(&self) -> Seq<PageView> {
        self.pages@.map_values(|p: AtlasPage| p@)
    }

    /// Every page is well formed.
    pub open spec fn wf(&self) -> bool {
        forall|i: int| 0 <= i < self.pages@.len() ==> (#[trigger] self.pages@[i]).wf()
    }

    /// An atlas without pages.
    pub fn new(max_dim: u32) -> (a: Self)
        ensures
            a.wf(),
            a.page_views() == Seq::<PageView>::empty(),
            a.max_dim == max_dim,
    {
        let a = DynamicAtlas { pages: Vec::new(), max_dim };
        assert(a.page_views() =~= Seq::<PageView>::empty());
        a
    }

    /// Index of the first page at least `w` x `h` pixels large.
    fn find_page_for_region(&self, w: u32, h: u32) -> (r: Option<usize>)
        ensures
            match r {
                Some(i) => first_page(self.page_views(), w as int, h as int) == Some(i as int),
                None => first_page(self.page_views(), w as int, h as int) is None,
            },
    {
        proof {
            lemma_first_page_props(self.page_views(), w as int, h as int);
        }
        let mut i: usize = 0;
        while i < self.pages.len()
            invariant
                0 <= i <= self.pages@.len(),
                forall|j: int| 0 <= j < i ==> !page_fits(#[trigger] self.page_views()[j], w as int, h as int),
                match first_page(self.page_views(), w as int, h as int) {
                    Some(k) => 0 <= k < self.page_views().len() && page_fits(self.page_views()[k], w as int, h as int) && forall|j: int|
                        0 <= j < k ==> !page_fits(#[trigger] self.page_views()[j], w as int, h as int),
                    None => forall|j: int| 0 <= j < self.page_views().len() ==> !page_fits(#[trigger] self.page_views()[j], w as int, h as int),
                },
            decreases self.pages@.len() - i,
        {
            assert(self.page_views()[i as int] == self.pages@[i as int]@);
            if self.pages[i].pixel_width >= w && self.pages[i].pixel_height >= h {
                return Some(i);
            }
            i = i + 1;
        }
        None
    }
}


impl DynamicAtlas {
    /// Adds an empty `w_px` x `h_px` page on a new registry texture (with its
    /// full view) whose logical size is `to_logical` of the pixel size;
    /// returns the index of the page.
    fn create_page<F: Fn(u32) -> Pt>(
        &mut self,
        registry: &mut ResourceRegistry,
        to_logical: &F,
        w_px: u32,
        h_px: u32,
    ) -> (idx: usize)
        requires
            old(self).wf(),
            old(registry).wf(),
            old(registry).next_ids().0 < u32::MAX,
            old(registry).next_ids().1 < u32::MAX,
            1 <= w_px,
            1 <= h_px,
            w_px * h_px * 4 <= u32::MAX,
            to_logical.requires((w_px,)),
            to_logical.requires((h_px,)),
        ensures
            final(self).wf(),
            final(self).max_dim == old(self).max_dim,
            idx == old(self).pages@.len(),
            final(self).pages@.len() == idx + 1,
            final(self).page_views() == old(self).page_views().push(
                empty_page(old(registry).next_ids().0, w_px, h_px),
            ),
            final(registry).texture_at(old(registry).next_ids().0 as int) matches Some(e) && to_logical.ensures(
                (w_px,),
                e.width,
            ) && to_logical.ensures((h_px,), e.height) && fresh_texture(
                e,
                e.width,
                e.height,
                w_px,
                h_px,
                old(registry).next_ids().1,
                false,
                Some(zeros(w_px * h_px * 4)),
            ),
            forall|i: int| i != old(registry).next_ids().0 ==> #[trigger] final(registry).texture_at(i)
                == old(registry).texture_at(i),
            final(registry).image_at(old(registry).next_ids().1 as int) == Some(
                full_view_entry(
                    old(registry).next_ids().0,
                    final(registry).texture_at(old(registry).next_ids().0 as int)->0.width,
                    final(registry).texture_at(old(registry).next_ids().0 as int)->0.height,
                    w_px,
                    h_px,
                ),
            ),
            forall|i: int| i != old(registry).next_ids().1 ==> #[trigger] final(registry).image_at(i)
                == old(registry).image_at(i),
            final(registry).wf(),
            final(registry).next_ids() == (
                (old(registry).next_ids().0 + 1) as u32,
                (old(registry).next_ids().1 + 1) as u32,
                old(registry).next_ids().2,
                old(registry).next_ids().3,
            ),
            final(registry).font_map() == old(registry).font_map(),
            final(registry).shader_map() == old(registry).shader_map(),
            final(registry).generation() == old(registry).generation(),
            final(registry).dirty(),
    {
        assert(w_px * 4 <= w_px * h_px * 4 && h_px * 4 <= w_px * h_px * 4) by (nonlinear_arith)
            requires
                1 <= w_px,
                1 <= h_px,
        ;
        let len: usize = (w_px as usize) * (h_px as usize) * 4;
        let buffer: Vec<u8> = vec![0u8; len];
        assert(buffer@ =~= zeros(w_px * h_px * 4));
        let logical_w = to_logical(w_px);
        let logical_h = to_logical(h_px);
        let t = registry.register_texture(w_px, h_px, logical_w, logical_h, buffer.as_slice());
        let texture_id = t.id();
        let page = AtlasPage {
            texture_id,
            packer: Packer::new(w_px as i32, h_px as i32),
            buffer,
            pixel_width: w_px,
            pixel_height: h_px,
        };
        assert(page@ =~= empty_page(texture_id, w_px, h_px));
        let ghost before = self.page_views();
        self.pages.push(page);
        proof {
            assert(self.page_views() =~= before.push(empty_page(texture_id, w_px, h_px))) by {
                assert forall|j: int| 0 <= j < before.len() implies self.page_views()[j] == before[j] by {
                    assert(self.pages@[j] == old(self).pages@[j]);
                }
            }
            assert forall|i: int| 0 <= i < self.pages@.len() implies (#[trigger] self.pages@[i]).wf() by {
                if i < before.len() {
                    assert(self.pages@[i] == old(self).pages@[i]);
                }
            }
        }
        self.pages.len() - 1
    }
}

impl DynamicAtlas {
    /// Copies the `w` x `h` pixels of `rgba` to pixel (`x`, `y`) of page
    /// `page_idx`, hands the new pixels to the page's texture and registers
    /// the region as an image whose logical position is `to_logical` of its
    /// pixel position; returns the image.
    fn write_to_page<F: Fn(u32) -> Pt>(
        &mut self,
        registry: &mut ResourceRegistry,
        to_logical: &F,
        page_idx: usize,
        x: u32,
        y: u32,
        logical_w: Pt,
        logical_h: Pt,
        w: u32,
        h: u32,
        rgba: &[u8],
    ) -> (img: Image)
        requires
            old(self).wf(),
            old(registry).wf(),
            old(registry).next_ids().1 < u32::MAX,
            page_idx < old(self).pages@.len(),
            x + w <= old(self).pages@[page_idx as int].pixel_width,
            y + h <= old(self).pages@[page_idx as int].pixel_height,
            rgba@.len() >= w * h * 4,
            to_logical.requires((x,)),
            to_logical.requires((y,)),
        ensures
            final(self).wf(),
            final(self).max_dim == old(self).max_dim,
            final(self).page_views() == old(self).page_views().update(
                page_idx as int,
                PageView {
                    pixels: blit(
                        old(self).page_views()[page_idx as int].pixels,
                        old(self).page_views()[page_idx as int].pixel_width as int,
                        x as int,
                        y as int,
                        w as int,
                        h as int,
                        rgba@,
                    ),
                    ..old(self).page_views()[page_idx as int]
                },
            ),
            to_logical.ensures((x,), img.bounds_spec().x),
            to_logical.ensures((y,), img.bounds_spec().y),
            img.bounds_spec().width == logical_w,
            img.bounds_spec().height == logical_h,
            handle_of(
                img,
                old(registry).next_ids().1,
                region_entry(old(self).pages@[page_idx as int].texture_id, img.bounds_spec(), x, y, w, h),
            ),
            region_registered(
                *old(registry),
                *final(registry),
                old(self).pages@[page_idx as int].texture_id,
                final(self).page_views()[page_idx as int].pixels,
                region_entry(old(self).pages@[page_idx as int].texture_id, img.bounds_spec(), x, y, w, h),
            ),
    {
        let ghost views = self.page_views();
        let ghost p0 = self.pages@[page_idx as int];
        let pw = self.pages[page_idx].pixel_width;
        let ph = self.pages[page_idx].pixel_height;
        let texture_id = self.pages[page_idx].texture_id;
        blit_region(&mut self.pages[page_idx].buffer, pw, ph, x, y, w, h, rgba);
        let data = self.pages[page_idx].buffer.clone();
        assert(data@ =~= self.pages@[page_idx as int].buffer@);
        registry.set_texture_data(texture_id, data);
        let logical_x = to_logical(x);
        let logical_y = to_logical(y);
        let bounds = Bounds::new(logical_x, logical_y, logical_w, logical_h);
        let pixel_bounds = PixelBounds { x, y, width: w, height: h };
        let view_id = registry.register_image_entry(ImageEntry::new(texture_id, bounds, pixel_bounds));
        proof {
            let np = self.pages@[page_idx as int];
            assert(np.packer == p0.packer);
            assert(self.page_views() =~= views.update(page_idx as int, PageView { pixels: np.buffer@, ..views[page_idx as int] })) by {
                assert forall|j: int| 0 <= j < views.len() && j != page_idx implies self.page_views()[j] == views[j] by {
                    assert(self.pages@[j] == old(self).pages@[j]);
                }
            }
            assert forall|i: int| 0 <= i < self.pages@.len() implies (#[trigger] self.pages@[i]).wf() by {
                if i != page_idx {
                    assert(self.pages@[i] == old(self).pages@[i]);
                }
            }
        }
        Image::from_parts(view_id, texture_id, bounds, pixel_bounds)
    }
}

impl DynamicAtlas {
    /// Puts a `w_px` x `h_px` RGBA region (of logical size `logical_w` x
    /// `logical_h`) on the atlas and registers it as an image; logical
    /// positions are `to_logical` of pixel positions.
    ///
    /// The region, with one pixel of padding to its right and below it, goes
    /// to the first page large enough for it if that page's packer still has
    /// room, else to a new page whose sides are the next powers of two of the
    /// padded sides, at least `MIN_PAGE_SIDE` and at most `max_dim`. A region
    /// whose padded size exceeds `max_dim` is refused.
    pub fn add_region<F: Fn(u32) -> Pt>(
        &mut self,
        registry: &mut ResourceRegistry,
        to_logical: &F,
        logical_w: Pt,
        logical_h: Pt,
        w_px: u32,
        h_px: u32,
        rgba: &[u8],
    ) -> (res: Result<Image, AtlasError>)
        requires
            old(self).wf(),
            old(registry).wf(),
            old(registry).next_ids().0 < u32::MAX,
            old(registry).next_ids().1 < u32::MAX - 1,
            w_px < u32::MAX,
            h_px < u32::MAX,
            forall|p: u32| to_logical.requires((p,)),
            region_accepted(w_px, h_px, old(self).max_dim) ==> page_side(
                w_px + ATLAS_PADDING,
                old(self).max_dim as int,
            ) * page_side(h_px + ATLAS_PADDING, old(self).max_dim as int) * 4 <= u32::MAX,
            region_accepted(w_px, h_px, old(self).max_dim) ==> rgba@.len() >= w_px * h_px * 4,
        ensures
            final(self).wf(),
            final(self).max_dim == old(self).max_dim,
            !region_accepted(w_px, h_px, old(self).max_dim) ==> res == Err::<Image, AtlasError>(
                AtlasError::RegionTooLarge { width: w_px, height: h_px },
            ) && final(self).page_views() == old(self).page_views() && *final(registry) == *old(
                registry,
            ),
            region_accepted(w_px, h_px, old(self).max_dim) ==> (res matches Ok(img) && region_added(
                *to_logical,
                old(self).page_views(),
                final(self).page_views(),
                *old(registry),
                *final(registry),
                old(self).max_dim,
                logical_w,
                logical_h,
                w_px,
                h_px,
                rgba@,
                img,
            )),
    {
        let padding = ATLAS_PADDING;
        if w_px + padding > self.max_dim || h_px + padding > self.max_dim {
            return Err(AtlasError::RegionTooLarge { width: w_px, height: h_px });
        }
        let total_w = w_px + padding;
        let total_h = h_px + padding;
        let ghost md = self.max_dim as int;
        proof {
            lemma_page_side(total_w as int, md);
            lemma_page_side(total_h as int, md);
            let sw = page_side(total_w as int, md);
            let sh = page_side(total_h as int, md);
            assert(total_w * 4 <= sw * sh * 4 && total_h * 4 <= sw * sh * 4) by (nonlinear_arith)
                requires
                    1 <= total_w <= sw,
                    1 <= total_h <= sh,
            ;
        }
        let ghost old_pages = self.page_views();
        if let Some(page_idx) = self.find_page_for_region(total_w, total_h) {
            proof {
                lemma_first_page_props(old_pages, total_w as int, total_h as int);
                assert(old_pages[page_idx as int] == self.pages@[page_idx as int]@);
            }
            let inserted = self.pages[page_idx].packer.insert(total_w as i32, total_h as i32);
            match inserted {
                Some((x, y)) => {
                    let ghost mid_pages = self.page_views();
                    proof {
                        assert(mid_pages =~= old_pages.update(
                            page_idx as int,
                            PageView {
                                free: place(old_pages[page_idx as int].free, total_w as int, total_h as int).0,
                                used: old_pages[page_idx as int].used.insert(
                                    Rect { x, y, w: total_w as i32, h: total_h as i32 },
                                ),
                                ..old_pages[page_idx as int]
                            },
                        )) by {
                            assert forall|j: int| 0 <= j < old_pages.len() && j != page_idx implies mid_pages[j]
                                == old_pages[j] by {
                                assert(self.pages@[j] == old(self).pages@[j]);
                            }
                        }
                        assert forall|i: int| 0 <= i < self.pages@.len() implies (#[trigger] self.pages@[i]).wf() by {
                            if i != page_idx {
                                assert(self.pages@[i] == old(self).pages@[i]);
                            }
                        }
                    }
                    let img = self.write_to_page(
                        registry,
                        to_logical,
                        page_idx,
                        x as u32,
                        y as u32,
                        logical_w,
                        logical_h,
                        w_px,
                        h_px,
                        rgba,
                    );
                    return Ok(img);
                },
                None => {
                    proof {
                        assert(self.page_views() =~= old_pages) by {
                            assert forall|j: int| 0 <= j < old_pages.len() implies self.page_views()[j]
                                == old_pages[j] by {
                                if j != page_idx {
                                    assert(self.pages@[j] == old(self).pages@[j]);
                                }
                            }
                        }
                        assert forall|i: int| 0 <= i < self.pages@.len() implies (#[trigger] self.pages@[i]).wf() by {
                            if i != page_idx {
                                assert(self.pages@[i] == old(self).pages@[i]);
                            }
                        }
                    }
                },
            }
        }
        assert(self.page_views() =~= old_pages);
        let new_w = new_page_side(total_w, self.max_dim);
        let new_h = new_page_side(total_h, self.max_dim);
        let ghost mid_reg = *registry;
        let page_idx = self.create_page(registry, to_logical, new_w, new_h);
        let ghost created = self.page_views();
        let ghost created_pages = self.pages@;
        proof {
            assert(created[page_idx as int] == self.pages@[page_idx as int]@);
            assert(new_w * 4 <= new_w * new_h * 4 && new_h * 4 <= new_w * new_h * 4) by (nonlinear_arith)
                requires
                    1 <= new_w,
                    1 <= new_h,
            ;
            let f0 = Rect { x: 0, y: 0, w: new_w as i32, h: new_h as i32 };
            assert(self.pages@[page_idx as int].packer.free() == seq![f0]);
            assert(seq![f0][0] == f0);
            assert(crate::packer::fits(f0, total_w as int, total_h as int));
            assert(crate::packer::first_fit(seq![f0], total_w as int, total_h as int) == Some(0int));
        }
        let inserted = self.pages[page_idx].packer.insert(total_w as i32, total_h as i32);
        match inserted {
            Some((x, y)) => {
                proof {
                    assert(x == 0 && y == 0);
                    assert forall|i: int| 0 <= i < self.pages@.len() implies (#[trigger] self.pages@[i]).wf() by {
                        if i != page_idx {
                            assert(self.pages@[i] == created_pages[i]);
                        }
                    }
                    assert forall|j: int| 0 <= j < page_idx implies #[trigger] self.page_views()[j] == old_pages[j] by {
                        assert(self.pages@[j] == created_pages[j]);
                        assert(created[j] == old_pages[j]);
                    }
                }
                let img = self.write_to_page(
                    registry,
                    to_logical,
                    page_idx,
                    x as u32,
                    y as u32,
                    logical_w,
                    logical_h,
                    w_px,
                    h_px,
                    rgba,
                );
                assert(forall|j: int| 0 <= j < page_idx ==> #[trigger] self.page_views()[j] == old_pages[j]);
                Ok(img)
            },
            None => Err(AtlasError::InsertFailed),
        }
    }
}

/// Largest side, in pixels, of an image that may go to the shared atlas.
pub const ATLAS_MAX_IMAGE_SIDE: u32 = 512;

/// An image of `w` x `h` pixels goes to `atlas`: there is one, the image is
/// at most `ATLAS_MAX_IMAGE_SIDE` pixels on each side and fits on a page once
/// padded.
pub open spec fn atlas_takes(atlas: Option<DynamicAtlas>, w: u32, h: u32) -> bool {
    atlas matches Some(a) && w <= ATLAS_MAX_IMAGE_SIDE && h <= ATLAS_MAX_IMAGE_SIDE && region_accepted(
        w,
        h,
        a.max_dim,
    )
}

/// Registers an image of `pixel_width` x `pixel_height` RGBA pixels with
/// logical size `width` x `height`: small images go to the shared atlas when
/// there is one (see `DynamicAtlas::add_region`), the others get a texture of
/// their own and are its full view.
pub fn register_image<F: Fn(u32) -> Pt>(
    registry: &mut ResourceRegistry,
    atlas: &mut Option<DynamicAtlas>,
    to_logical: &F,
    pixel_width: u32,
    pixel_height: u32,
    width: Pt,
    height: Pt,
    rgba: &[u8],
) -> (img: Image)
    requires
        old(registry).wf(),
        old(registry).next_ids().0 < u32::MAX,
        old(registry).next_ids().1 < u32::MAX - 1,
        *old(atlas) matches Some(a) ==> a.wf(),
        forall|p: u32| to_logical.requires((p,)),
        atlas_takes(*old(atlas), pixel_width, pixel_height) ==> rgba@.len() >= pixel_width * pixel_height * 4,
    ensures
        (*final(atlas) is Some) == (*old(atlas) is Some),
        *final(atlas) matches Some(a) ==> a.wf() && a.max_dim == old(atlas)->0.max_dim,
        atlas_takes(*old(atlas), pixel_width, pixel_height) ==> region_added(
            *to_logical,
            old(atlas)->0.page_views(),
            final(atlas)->0.page_views(),
            *old(registry),
            *final(registry),
            old(atlas)->0.max_dim,
            width,
            height,
            pixel_width,
            pixel_height,
            rgba@,
            img,
        ),
        !atlas_takes(*old(atlas), pixel_width, pixel_height) ==> {
            &&& *old(atlas) is Some ==> final(atlas)->0.page_views() == old(atlas)->0.page_views()
            &&& texture_registered(
                *old(registry),
                *final(registry),
                width,
                height,
                pixel_width,
                pixel_height,
                false,
                Some(rgba@),
            )
            &&& handle_of(
                img,
                old(registry).next_ids().1,
                full_view_entry(old(registry).next_ids().0, width, height, pixel_width, pixel_height),
            )
        },
{
    if pixel_width <= ATLAS_MAX_IMAGE_SIDE && pixel_height <= ATLAS_MAX_IMAGE_SIDE {
        match atlas {
            Some(a) => {
                proof {
                    let md = a.max_dim as int;
                    if region_accepted(pixel_width, pixel_height, a.max_dim) {
                        let tw = pixel_width + ATLAS_PADDING;
                        let th = pixel_height + ATLAS_PADDING;
                        lemma_pow2_from_upper(tw as int, 1);
                        lemma_pow2_from_upper(th as int, 1);
                        lemma_page_side(tw as int, md);
                        lemma_page_side(th as int, md);
                        let sw = page_side(tw as int, md);
                        let sh = page_side(th as int, md);
                        assert(sw <= 1025 && sh <= 1025);
                        assert(sw * sh * 4 <= 1025 * 1025 * 4) by (nonlinear_arith)
                            requires
                                0 <= sw <= 1025,
                                0 <= sh <= 1025,
                        ;
                    }
                }
                let added = a.add_region(registry, to_logical, width, height, pixel_width, pixel_height, rgba);
                match added {
                    Ok(img) => {
                        return img;
                    },
                    Err(_) => {},
                }
            },
            None => {},
        }
    }
    let t = registry.register_texture(pixel_width, pixel_height, width, height, rgba);
    t.view()
}

/// Position in an RGBA page `pw` pixels wide of byte `j` of row `r` of a
/// region whose top-left pixel is (`x`, `y`).
pub open spec fn region_byte(pw: int, x: int, y: int, r: int, j: int) -> int {
    byte_offset(pw, x, y + r) + j
}

/// Position of byte `j` of row `r` in the pixels of a `w` pixels wide
/// region.
pub open spec fn source_byte(w: int, r: int, j: int) -> int {
    r * (4 * w) + j
}

/// A page's free rectangles lie in the page, their far corners are
/// representable, and its pixels fill it.
pub open spec fn page_view_wf(p: PageView) -> bool {
    &&& arith_ok(p.free)
    &&& forall|k: int| 0 <= k < p.free.len() ==> in_page(#[trigger] p.free[k], p.pixel_width as int, p.pixel_height as int)
    &&& p.pixels.len() == p.pixel_width * p.pixel_height * 4
}

impl DynamicAtlas {
    /// Every page of a well-formed atlas is well formed seen from outside.
    pub proof fn lemma_page_views_wf(&self)
        requires
            self.wf(),
        ensures
            forall|i: int| 0 <= i < self.page_views().len() ==> page_view_wf(#[trigger] self.page_views()[i]),
    {
        assert forall|i: int| 0 <= i < self.page_views().len() implies page_view_wf(#[trigger] self.page_views()[i]) by {
            assert(self.page_views()[i] == self.pages@[i]@);
            assert(self.pages@[i].wf());
            self.pages@[i].packer.lemma_free_in_page();
        }
    }
}

proof fn lemma_blit_reads_back(page: Seq<u8>, pw: int, ph: int, x: int, y: int, w: int, h: int, src: Seq<u8>, r: int, j: int)
    requires
        pw >= 1,
        page.len() == pw * ph * 4,
        0 <= x,
        0 <= y,
        x + w <= pw,
        y + h <= ph,
        0 <= r < h,
        0 <= j < 4 * w,
    ensures
        0 <= byte_offset(pw, x, y + r) + j < page.len(),
        blit(page, pw, x, y, w, h, src)[byte_offset(pw, x, y + r) + j] == src[r * (4 * w) + j],
{
    lemma_byte_position(pw, x, y, r, j);
    let k = byte_offset(pw, x, y + r) + j;
    assert(k < pw * ph * 4) by (nonlinear_arith)
        requires
            pw >= 1,
            k == (y + r) * (4 * pw) + (4 * x + j),
            4 * x + j < 4 * pw,
            y + r + 1 <= ph,
    ;
    assert(0 <= k) by (nonlinear_arith)
        requires
            k == (y + r) * (4 * pw) + (4 * x + j),
            0 <= 4 * x + j,
            0 <= y + r,
            pw >= 1,
    ;
}

/// Page `p` is the page of `img`, which lies in it with its padding, and it
/// holds the `w` x `h` pixels `src` at the image's pixel bounds.
pub open spec fn stores_region(p: PageView, img: Image, w: u32, h: u32, src: Seq<u8>) -> bool {
    let pb = img.pixel_bounds_spec();
    let pw = p.pixel_width as int;
    &&& p.texture_id == img.texture_id_spec()
    &&& pb.width == w && pb.height == h
    &&& pb.x + w + ATLAS_PADDING <= pw
    &&& pb.y + h + ATLAS_PADDING <= p.pixel_height
    &&& forall|r: int, j: int|
        0 <= r < h && 0 <= j < 4 * w ==> p.pixels[#[trigger] region_byte(pw, pb.x as int, pb.y as int, r, j)]
            == src[source_byte(w as int, r, j)]
}

/// An image that the atlas hands out lies, with its padding, inside the page
/// of its texture, and that page holds the image's pixels at the image's
/// pixel bounds: byte `j` of row `r` of the source is byte `j` of pixel row
/// `y + r` starting at pixel `x`.
pub proof fn lemma_atlas_stores_region<F: Fn(u32) -> Pt>(
    to_logical: F,
    old_pages: Seq<PageView>,
    pages: Seq<PageView>,
    before: ResourceRegistry,
    after: ResourceRegistry,
    max_dim: u32,
    logical_w: Pt,
    logical_h: Pt,
    w: u32,
    h: u32,
    src: Seq<u8>,
    img: Image,
)
    requires
        forall|i: int| 0 <= i < old_pages.len() ==> page_view_wf(#[trigger] old_pages[i]),
        region_accepted(w, h, max_dim),
        region_added(to_logical, old_pages, pages, before, after, max_dim, logical_w, logical_h, w, h, src, img),
    ensures
        exists|i: int| 0 <= i < pages.len() && stores_region(#[trigger] pages[i], img, w, h, src),
{
    let tw = w + ATLAS_PADDING;
    let th = h + ATLAS_PADDING;
    let pb = img.pixel_bounds_spec();
    match reuse_target(old_pages, tw as int, th as int) {
        Some((i, (x, y))) => {
            let p = old_pages[i];
            lemma_first_page_props(old_pages, tw as int, th as int);
            assert(page_view_wf(p));
            crate::packer::lemma_first_fit_props(p.free, tw as int, th as int);
            lemma_place_in_page(p.free, tw as int, th as int, p.pixel_width as int, p.pixel_height as int);
            assert(pb.x == x && pb.y == y);
            assert forall|r: int, j: int| 0 <= r < h && 0 <= j < 4 * w implies pages[i].pixels[#[trigger] region_byte(
                pages[i].pixel_width as int,
                pb.x as int,
                pb.y as int,
                r,
                j,
            )] == src[source_byte(w as int, r, j)] by {
                lemma_blit_reads_back(
                    p.pixels,
                    p.pixel_width as int,
                    p.pixel_height as int,
                    x as int,
                    y as int,
                    w as int,
                    h as int,
                    src,
                    r,
                    j,
                );
            }
            assert(pages[i].texture_id == img.texture_id_spec());
            assert(stores_region(pages[i], img, w, h, src));
        },
        None => {
            let n = old_pages.len() as int;
            let md = max_dim as int;
            lemma_page_side(tw as int, md);
            lemma_page_side(th as int, md);
            let sw = page_side(tw as int, md) as u32;
            let sh = page_side(th as int, md) as u32;
            let e = empty_page(before.next_ids().0, sw, sh);
            assert(pb.x == 0 && pb.y == 0);
            assert forall|r: int, j: int| 0 <= r < h && 0 <= j < 4 * w implies pages[n].pixels[#[trigger] region_byte(
                pages[n].pixel_width as int,
                pb.x as int,
                pb.y as int,
                r,
                j,
            )] == src[source_byte(w as int, r, j)] by {
                lemma_blit_reads_back(e.pixels, sw as int, sh as int, 0, 0, w as int, h as int, src, r, j);
            }
            assert(pages[n].texture_id == img.texture_id_spec());
            assert(stores_region(pages[n], img, w, h, src));
        },
    }
}

} // verus!
