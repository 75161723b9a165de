//! Cache of glyphs already rendered into the font atlas.
use vstd::prelude::*;

use crate::image::ImageEntry;
use std::collections::HashMap;

verus! {

broadcast use vstd::std_specs::hash::group_hash_axioms;

/// Key of a cached glyph: the font, the font size (the bits of its `f32`)
/// and the glyph.
#[derive(Debug, Clone, Copy, PartialEq, Eq, Structural, Hash)]
pub struct GlyphCacheKey {
    pub font_id: u32,
    pub font_size_bits: u32,
    pub glyph_id: u32,
}

/// A cached glyph: its image in the atlas, the offset at which it is drawn
/// and its horizontal advance (each `f32` held by its bits).
#[derive(Debug, Clone, Copy, PartialEq, Eq, Structural)]
pub struct GlyphEntry {
    pub image: ImageEntry,
    pub offset_x_bits: u32,
    pub offset_y_bits: u32,
    pub advance_bits: u32,
}

/// The three parts of a key laid side by side in one 96-bit number.
pub open spec fn packed_key(k: GlyphCacheKey) -> u128 {
    ((k.font_id as u128) << 64u128) | ((k.font_size_bits as u128) << 32u128) | (k.glyph_id as u128)
}

proof fn lemma_packed_parts_injective(f1: u32, s1: u32, g1: u32, f2: u32, s2: u32, g2: u32)
    by (bit_vector)
    requires
        ((f1 as u128) << 64u128) | ((s1 as u128) << 32u128) | (g1 as u128) == ((f2 as u128) << 64u128) | ((
        s2 as u128) << 32u128) | (g2 as u128),
    ensures
        f1 == f2,
        s1 == s2,
        g1 == g2,
{
}

/// Two keys with the same packed number are the same key.
pub proof fn lemma_packed_key_injective(a: GlyphCacheKey, b: GlyphCacheKey)
    ensures
        packed_key(a) == packed_key(b) <==> a == b,
{
    if packed_key(a) == packed_key(b) {
        lemma_packed_parts_injective(a.font_id, a.font_size_bits, a.glyph_id, b.font_id, b.font_size_bits, b.glyph_id);
    }
}

fn pack_key(k: &GlyphCacheKey) -> (r: u128)
    ensures
        r == packed_key(*k),
{
    ((k.font_id as u128) << 64u128) | ((k.font_size_bits as u128) << 32u128) | (k.glyph_id as u128)
}

/// Glyphs rendered so far, by key.
pub struct GlyphCache {
    cache: HashMap<u128, GlyphEntry>,
}

impl GlyphCache {
    /// The cached glyphs.
    pub closed spec fn entries(&self) -> Map<GlyphCacheKey, GlyphEntry> {
        Map::new(
            |k: GlyphCacheKey| self.cache@.contains_key(packed_key(k)),
            |k: GlyphCacheKey| self.cache@[packed_key(k)],
        )
    }

    /// An empty cache.
    pub fn new() -> (c: Self)
        ensures
            c.entries() == Map::<GlyphCacheKey, GlyphEntry>::empty(),
    {
        let c = GlyphCache { cache: HashMap::new() };
        assert(c.entries() =~= Map::<GlyphCacheKey, GlyphEntry>::empty());
        c
    }

    /// The glyph cached under `key`, if any.
    pub fn get(&self, key: &GlyphCacheKey) -> (r: Option<&GlyphEntry>)
        ensures
            r == (if self.entries().contains_key(*key) {
                Some(&self.entries()[*key])
            } else {
                None
            }),
    {
        let code = pack_key(key);
        self.cache.get(&code)
    }

    /// Caches `entry` under `key`, replacing what was there.
    pub fn insert(&mut self, key: GlyphCacheKey, entry: GlyphEntry)
        ensures
            final(self).entries() == old(self).entries().insert(key, entry),
    {
        let code = pack_key(&key);
        self.cache.insert(code, entry);
        proof {
            let expected = old(self).entries().insert(key, entry);
            assert forall|k: GlyphCacheKey| #[trigger] self.entries().contains_key(k) == expected.contains_key(k) by {
                lemma_packed_key_injective(k, key);
            }
            assert forall|k: GlyphCacheKey| #[trigger] expected.contains_key(k) implies self.entries()[k] == expected[k] by {
                lemma_packed_key_injective(k, key);
            }
            assert(self.entries() =~= expected);
        }
    }

    /// Whether a glyph is cached under `key`.
    pub fn contains(&self, key: &GlyphCacheKey) -> (b: bool)
        ensures
            b == self.entries().contains_key(*key),
    {
        let code = pack_key(key);
        self.cache.contains_key(&code)
    }
}

impl Default for GlyphCache {
    fn default() -> (c: Self)
        ensures
            c.entries() == Map::<GlyphCacheKey, GlyphEntry>::empty(),
    {
        Self::new()
    }
}

/// A glyph read back from the cache is the one last cached under its key,
/// and caching under one key leaves every other key's glyph as it was.
pub proof fn lemma_cache_read_after_write(
    before: Map<GlyphCacheKey, GlyphEntry>,
    key: GlyphCacheKey,
    entry: GlyphEntry,
    other: GlyphCacheKey,
)
    requires
        other != key,
    ensures
        before.insert(key, entry).contains_key(key),
        before.insert(key, entry)[key] == entry,
        before.insert(key, entry).contains_key(other) == before.contains_key(other),
        before.contains_key(other) ==> before.insert(key, entry)[other] == before[other],
{
}

} // verus!
