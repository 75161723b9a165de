use spottedcat::glyph_cache::{GlyphCache, GlyphCacheKey, GlyphEntry};
use spottedcat::image::{Bounds, ImageEntry, PixelBounds};
use spottedcat::pt::Pt;

fn entry(texture_id: u32, x: u32, advance: f32) -> GlyphEntry {
    let zero = Pt::from_bits(0.0f32.to_bits());
    let bounds = Bounds { x: zero, y: zero, width: zero, height: zero };
    let pixel_bounds = PixelBounds { x, y: 0, width: 8, height: 8 };
    GlyphEntry {
        image: ImageEntry::new(texture_id, bounds, pixel_bounds),
        offset_x_bits: 1.5f32.to_bits(),
        offset_y_bits: (-2.0f32).to_bits(),
        advance_bits: advance.to_bits(),
    }
}

#[test]
fn glyph_cache_reads_back_what_was_cached() {
    let mut cache = GlyphCache::new();
    let a = GlyphCacheKey { font_id: 1, font_size_bits: 16.0f32.to_bits(), glyph_id: 65 };
    let b = GlyphCacheKey { font_id: 1, font_size_bits: 16.0f32.to_bits(), glyph_id: 66 };
    let c = GlyphCacheKey { font_id: 2, font_size_bits: 16.0f32.to_bits(), glyph_id: 65 };
    assert!(!cache.contains(&a));
    assert_eq!(cache.get(&a), None);

    cache.insert(a, entry(7, 0, 9.0));
    cache.insert(b, entry(7, 8, 10.0));
    assert!(cache.contains(&a));
    assert!(cache.contains(&b));
    assert!(!cache.contains(&c));
    assert_eq!(cache.get(&a), Some(&entry(7, 0, 9.0)));
    assert_eq!(cache.get(&b), Some(&entry(7, 8, 10.0)));

    cache.insert(a, entry(7, 16, 11.0));
    assert_eq!(cache.get(&a), Some(&entry(7, 16, 11.0)));
    assert_eq!(cache.get(&b), Some(&entry(7, 8, 10.0)));
}

#[test]
fn glyph_keys_differing_only_in_size_are_distinct() {
    let mut cache = GlyphCache::default();
    let small = GlyphCacheKey { font_id: 0, font_size_bits: 12.0f32.to_bits(), glyph_id: 3 };
    let large = GlyphCacheKey { font_id: 0, font_size_bits: 24.0f32.to_bits(), glyph_id: 3 };
    cache.insert(small, entry(1, 0, 6.0));
    assert!(cache.contains(&small));
    assert!(!cache.contains(&large));
}
