use skia_rs::arith::{FloatOp, FloatUnit};
use skia_rs::geometry::{Point, Rect};
use skia_rs::glyph_cache::{
    AtlasAllocResult, AtlasConfig, AtlasEntryId, AtlasRegion, BatchValidity, CachedGlyph,
    GlyphBatch, GlyphCache, GlyphCacheConfig, GlyphCacheStats, GlyphKey, InsertStep, NewGlyph,
};

fn fl(x: f32) -> u32 {
    x.to_bits()
}

fn compute(op: FloatOp, a: u32, b: u32, c: u32) -> u32 {
    let x = f32::from_bits(a);
    let y = f32::from_bits(b);
    let z = f32::from_bits(c);
    let r = match op {
        FloatOp::Add => x + y,
        FloatOp::Sub => x - y,
        FloatOp::Mul => x * y,
        FloatOp::Div => x / y,
        FloatOp::MulAdd => x.mul_add(y, z),
        FloatOp::Floor => x.floor(),
        FloatOp::Ceil => x.ceil(),
        FloatOp::Sin => x.sin(),
        FloatOp::Cos => x.cos(),
        FloatOp::Tan => x.tan(),
        FloatOp::Asin => x.asin(),
        FloatOp::Acos => x.acos(),
        FloatOp::Atan => x.atan(),
        FloatOp::Atan2 => x.atan2(y),
        FloatOp::Exp => x.exp(),
        FloatOp::Exp2 => x.exp2(),
        FloatOp::Ln => x.ln(),
        FloatOp::Log2 => x.log2(),
        FloatOp::Sqrt => x.sqrt(),
        FloatOp::Pow => x.powf(y),
        FloatOp::Radians => x.to_radians(),
        FloatOp::Degrees => x.to_degrees(),
        FloatOp::Rem => x.rem_euclid(y),
        FloatOp::Hypot => x.hypot(y),
        FloatOp::Blend => (y - x).mul_add(z, x),
        FloatOp::Round => x.round(),
        FloatOp::OfNatural => a as f32,
        FloatOp::Midpoint => ((f64::from(x) + f64::from(y)) / 2.0) as f32,
        FloatOp::Fract => x.fract(),
    };
    r.to_bits()
}

type Arith = fn(FloatOp, u32, u32, u32) -> u32;

fn unit() -> FloatUnit<Arith> {
    FloatUnit { arith: compute }
}

/// Rows of cells of one size; enough of an atlas to fill and to empty.
struct Cells {
    side: u32,
    next: u64,
    held: Vec<Option<AtlasEntryId>>,
    cell: u32,
    padding: u32,
}

impl Cells {
    fn new(side: u32, cell: u32, padding: u32) -> Self {
        let step = cell + 2 * padding;
        let across = (side / step) as usize;
        Cells { side, next: 0, held: vec![None; across * across], cell, padding }
    }

    fn region(&self, i: usize) -> AtlasRegion {
        let step = self.cell + 2 * self.padding;
        let across = self.side / step;
        AtlasRegion {
            x: (i as u32 % across) * step + self.padding,
            y: (i as u32 / across) * step + self.padding,
            width: self.cell,
            height: self.cell,
            layer: 0,
        }
    }

    fn allocate(&mut self, width: u32, height: u32) -> AtlasAllocResult {
        if width + 2 * self.padding > self.side || height + 2 * self.padding > self.side {
            return AtlasAllocResult::TooLarge;
        }
        match self.held.iter().position(|h| h.is_none()) {
            Some(i) => {
                let id = AtlasEntryId { id: self.next };
                self.next += 1;
                self.held[i] = Some(id);
                AtlasAllocResult::Success(id, self.region(i))
            }
            None => AtlasAllocResult::Full,
        }
    }

    fn free(&mut self, id: AtlasEntryId) {
        for h in &mut self.held {
            if *h == Some(id) {
                *h = None;
            }
        }
    }
}

fn insert(
    cache: &mut GlyphCache,
    atlas: &mut Cells,
    key: GlyphKey,
    size: (u32, u32),
    offset: Point,
    advance: f32,
) -> Option<AtlasRegion> {
    match cache.begin_insert(&key) {
        Ok(region) => return Some(region),
        Err(freed) => {
            for id in freed {
                atlas.free(id);
            }
        }
    }
    let bounds = Rect { left: 0, top: 0, right: fl(size.0 as f32), bottom: fl(size.1 as f32) };
    let new = NewGlyph { key, offset, advance: fl(advance), bounds };
    loop {
        match cache.continue_insert(&new, atlas.allocate(size.0, size.1)) {
            InsertStep::Done(region) => return Some(region),
            InsertStep::Failed => return None,
            InsertStep::Compact(id) => {
                atlas.free(id);
                cache.reconcile(&Vec::new(), &vec![id]);
            }
            InsertStep::ResetAtlas => {
                for h in &mut atlas.held {
                    *h = None;
                }
            }
        }
    }
}

fn key(glyph: u32) -> GlyphKey {
    GlyphKey::new(&unit(), 1, glyph, fl(16.0), Point { x: 0, y: 0 })
}

fn zero() -> Point {
    Point { x: 0, y: 0 }
}

#[test]
fn test_glyph_key() {
    let key = GlyphKey::new(&unit(), 1, 65, fl(16.0), Point { x: fl(0.25), y: fl(0.5) });
    assert_eq!(key.font_id, 1);
    assert_eq!(key.glyph_id, 65);
    assert_eq!(key.size_px, 64); // 16 * 4
    assert_eq!(key.sub_pixel_x, 1); // 0.25 * 4
    assert_eq!(key.sub_pixel_y, 2); // 0.5 * 4
    assert_eq!(key.with_flags(3).flags, 3);
}

#[test]
fn test_glyph_cache_insert_lookup() {
    let mut cache = GlyphCache::default();
    let mut atlas = Cells::new(1024, 20, 1);

    let key = key(65);
    let offset = Point { x: fl(0.0), y: fl(-15.0) };
    let region = insert(&mut cache, &mut atlas, key, (16, 20), offset, 10.0);

    assert!(region.is_some());
    assert_eq!(cache.len(), 1);

    let glyph = cache.lookup(&key);
    assert!(glyph.is_some());
    assert_eq!(glyph.unwrap().advance, fl(10.0));
}

#[test]
fn test_glyph_cache_eviction() {
    let config = GlyphCacheConfig { max_glyphs: 3, ..Default::default() };
    let mut cache = GlyphCache::new(config);
    let mut atlas = Cells::new(1024, 16, 1);

    // Insert 4 glyphs, should evict first
    for i in 0..4 {
        insert(&mut cache, &mut atlas, key(i), (16, 16), zero(), 10.0);
    }

    assert_eq!(cache.len(), 3);
    assert_eq!(cache.stats().evictions, 1);
    assert!(!cache.contains(&key(0)));
}

#[test]
fn a_used_glyph_outlives_an_older_one() {
    let config = GlyphCacheConfig { max_glyphs: 2, ..Default::default() };
    let mut cache = GlyphCache::new(config);
    let mut atlas = Cells::new(1024, 16, 1);
    insert(&mut cache, &mut atlas, key(0), (16, 16), zero(), 10.0);
    insert(&mut cache, &mut atlas, key(1), (16, 16), zero(), 10.0);
    assert!(cache.lookup(&key(0)).is_some());
    insert(&mut cache, &mut atlas, key(2), (16, 16), zero(), 10.0);
    assert!(cache.contains(&key(0)));
    assert!(!cache.contains(&key(1)));
}

#[test]
fn a_cached_glyph_is_not_placed_again() {
    let mut cache = GlyphCache::default();
    let mut atlas = Cells::new(1024, 16, 1);
    let a = insert(&mut cache, &mut atlas, key(0), (16, 16), zero(), 10.0);
    let b = insert(&mut cache, &mut atlas, key(0), (16, 16), zero(), 10.0);
    assert_eq!(a, b);
    assert_eq!(cache.len(), 1);
    let stats = cache.stats().clone();
    assert_eq!(cache.begin_insert(&key(0)), Ok(a.unwrap()));
    assert_eq!(*cache.stats(), stats);
}

#[test]
fn reconciling_moves_and_drops() {
    let mut cache = GlyphCache::default();
    let mut atlas = Cells::new(1024, 16, 1);
    insert(&mut cache, &mut atlas, key(0), (16, 16), zero(), 10.0);
    insert(&mut cache, &mut atlas, key(1), (16, 16), zero(), 10.0);
    let new = AtlasRegion { x: 500, y: 1, width: 16, height: 16, layer: 2 };
    cache.reconcile(&vec![(AtlasEntryId { id: 1 }, new)], &vec![AtlasEntryId { id: 0 }]);
    assert_eq!(cache.len(), 1);
    assert_eq!(cache.stats().cached_count, 1);
    assert_eq!(cache.lookup(&key(1)).unwrap().region, new);
}

#[test]
fn test_glyph_cache_stats() {
    let mut cache = GlyphCache::default();
    let mut atlas = Cells::new(1024, 16, 1);

    insert(&mut cache, &mut atlas, key(65), (16, 16), zero(), 10.0);

    // Miss
    cache.lookup(&key(66));

    // Hit
    cache.lookup(&key(65));

    assert_eq!(cache.stats().hits, 1);
    assert_eq!(cache.stats().misses, 1);
    let rate = cache.stats().hit_rate(|a, b| (a as f64 / b as f64).to_bits());
    assert!((f64::from_bits(rate) - 0.5).abs() < 0.001);
    assert_eq!(GlyphCacheStats::default().hit_rate(|_, _| 1), 0);
}

#[test]
fn test_glyph_batch() {
    let mut batch = GlyphBatch::new(0);
    assert!(batch.is_empty());

    let glyph = CachedGlyph {
        entry_id: AtlasEntryId { id: 0 },
        region: AtlasRegion { x: 0, y: 0, width: 16, height: 20, layer: 0 },
        offset: Point { x: fl(0.0), y: fl(-15.0) },
        advance: fl(10.0),
        bounds: Rect { left: 0, top: 0, right: fl(16.0), bottom: fl(20.0) },
    };

    batch.add_glyph(
        &unit(),
        &glyph,
        Point { x: fl(100.0), y: fl(100.0) },
        [fl(1.0); 4],
        [fl(0.0), fl(0.0), fl(16.0 / 1024.0), fl(20.0 / 1024.0)],
    );

    assert_eq!(batch.len(), 1);
    assert_eq!(batch.instances[0].position.x, fl(100.0));
    assert_eq!(batch.instances[0].position.y, fl(85.0)); // 100 + (-15)
    assert_eq!(batch.instances[0].size, [fl(16.0), fl(20.0)]);
    batch.clear();
    assert!(batch.is_empty());
}

#[test]
fn test_oversized_glyph_returns_none_no_infinite_loop() {
    let config = GlyphCacheConfig {
        max_glyphs: 16,
        atlas_config: AtlasConfig {
            width: 64,
            height: 64,
            max_layers: 1,
            padding: 1,
            allow_resize: false,
        },
        sub_pixel_rendering: false,
    };
    let mut cache = GlyphCache::new(config);
    let mut atlas = Cells::new(64, 10, 1);
    // 64 + 2*1 = 66 > 64 -> TooLarge -> None.
    assert!(insert(&mut cache, &mut atlas, key(1), (64, 10), zero(), 5.0).is_none());
    assert_eq!(cache.len(), 0);
}

#[test]
fn test_atlas_full_reclaims_via_eviction() {
    let config = GlyphCacheConfig {
        max_glyphs: 100_000, // do not cap on cache size; force atlas pressure
        atlas_config: AtlasConfig {
            width: 128,
            height: 128,
            max_layers: 1,
            padding: 1,
            allow_resize: false,
        },
        sub_pixel_rendering: false,
    };
    let mut cache = GlyphCache::new(config);
    let mut atlas = Cells::new(128, 30, 1);

    for i in 0..200u32 {
        let r = insert(&mut cache, &mut atlas, key(i), (30, 30), zero(), 5.0);
        assert!(r.is_some(), "insert {i} failed to place a fitting glyph");
    }
    // The cache is bounded by atlas capacity via eviction, not unbounded.
    assert!(cache.len() <= 32, "cache should be bounded by atlas capacity");
    assert!(cache.stats().evictions > 0);
}

#[test]
fn a_full_atlas_without_glyphs_is_reset() {
    let mut cache = GlyphCache::default();
    let new = NewGlyph {
        key: key(1),
        offset: zero(),
        advance: 0,
        bounds: Rect { left: 0, top: 0, right: 0, bottom: 0 },
    };
    assert_eq!(cache.continue_insert(&new, AtlasAllocResult::Full), InsertStep::ResetAtlas);
}

#[test]
fn test_batch_validation_detects_stale_generation() {
    let generation = 7;
    let batch = GlyphBatch::new(generation);
    assert_eq!(batch.validate(generation), BatchValidity::Current);
    assert_eq!(batch.validate(generation), BatchValidity::Current);
    assert_eq!(batch.validate(generation + 1), BatchValidity::Stale);
    assert!(!(batch.validate(generation + 1) == BatchValidity::Current));
}

#[test]
fn test_glyph_cache_reset() {
    let mut cache = GlyphCache::default();
    let mut atlas = Cells::new(1024, 16, 1);

    insert(&mut cache, &mut atlas, key(65), (16, 16), zero(), 10.0);
    assert_eq!(cache.len(), 1);

    cache.reset();
    assert!(cache.is_empty());
}

#[test]
fn caches_stay_within_their_limit() {
    let config = GlyphCacheConfig { max_glyphs: 3, ..GlyphCacheConfig::default() };
    let mut cache = GlyphCache::new(config);
    let mut atlas = Cells::new(64, 10, 1);
    for i in 0..20 {
        let k = key(i % 7);
        assert!(insert(&mut cache, &mut atlas, k, (10, 10), zero(), 5.0).is_some());
        assert!(cache.contains(&k));
        assert!(cache.len() <= 3);
        assert_eq!(cache.stats().cached_count, cache.len());
    }
    assert!(insert(&mut cache, &mut atlas, key(99), (100, 100), zero(), 5.0).is_none());
    assert!(!cache.contains(&key(99)));
}
