//! A cache of rasterized glyphs, kept in a texture atlas.
//!
//! The cache decides which glyphs stay and which leave. The atlas itself lives
//! with the caller: an insertion tells the caller what to ask of the atlas,
//! and goes on from its answer.

use vstd::prelude::*;

use crate::arith::{FloatOp, FloatUnit, Ops};
use crate::color_filter::{truncated_byte, whole_byte};
use crate::float_bits::{bits_to_natural, natural_of_float};
use crate::geometry::{Point, Rect};

verus! {

/// What identifies a glyph.
#[derive(Debug, Clone, Copy, PartialEq, Eq, Hash, Structural)]
pub struct GlyphKey {
    /// Font.
    pub font_id: u32,
    /// Glyph in the font.
    pub glyph_id: u32,
    /// Size in quarter pixels.
    pub size_px: u32,
    /// Horizontal position in quarter pixels.
    pub sub_pixel_x: u8,
    /// Vertical position in quarter pixels.
    pub sub_pixel_y: u8,
    /// Flags.
    pub flags: u8,
}

/// The smaller of a position and the last quarter of a pixel.
pub open spec fn quarter(v: u8) -> u8 {
    if v < 3 {
        v
    } else {
        3
    }
}

/// A position in quarter pixels within its pixel.
pub open spec fn quarters(f: Ops, v: u32) -> u8 {
    quarter(whole_byte(f(FloatOp::Mul, f(FloatOp::Fract, v, 0, 0), 0x4080_0000, 0)))
}

/// A position in quarter pixels within its pixel.
fn count_quarters<A: Fn(FloatOp, u32, u32, u32) -> u32>(f: &FloatUnit<A>, v: u32) -> (q: u8)
    requires
        f.steady(),
    ensures
        q == quarters(f.ops(), v),
{
    let part: u32 = f.op(FloatOp::Fract, v, 0, 0);
    let four: u32 = f.op(FloatOp::Mul, part, 0x4080_0000, 0);
    let n: u8 = truncated_byte(four);
    if n < 3 {
        n
    } else {
        3
    }
}

impl GlyphKey {
    /// The key of a glyph of the given size at the given position, both taken
    /// to a quarter of a pixel.
    pub fn new<A: Fn(FloatOp, u32, u32, u32) -> u32>(
        f: &FloatUnit<A>,
        font_id: u32,
        glyph_id: u32,
        size: u32,
        sub_pixel: Point,
    ) -> (r: GlyphKey)
        requires
            f.steady(),
        ensures
            r.font_id == font_id,
            r.glyph_id == glyph_id,
            r.size_px == natural_of_float(f.ops()(FloatOp::Mul, size, 0x4080_0000, 0)),
            r.sub_pixel_x == quarters(f.ops(), sub_pixel.x),
            r.sub_pixel_y == quarters(f.ops(), sub_pixel.y),
            r.flags == 0,
    {
        let four: u32 = f.op(FloatOp::Mul, size, 0x4080_0000, 0);
        GlyphKey {
            font_id,
            glyph_id,
            size_px: bits_to_natural(four),
            sub_pixel_x: count_quarters(f, sub_pixel.x),
            sub_pixel_y: count_quarters(f, sub_pixel.y),
            flags: 0,
        }
    }

    /// The key with other flags.
    pub fn with_flags(self, flags: u8) -> (r: GlyphKey)
        ensures
            r == (GlyphKey { flags, ..self }),
    {
        GlyphKey { flags, ..self }
    }
}

/// An entry of the atlas.
#[derive(Debug, Clone, Copy, PartialEq, Eq, Hash, Structural)]
pub struct AtlasEntryId {
    /// Its number.
    pub id: u64,
}

/// A part of the atlas.
#[derive(Debug, Clone, Copy, PartialEq, Eq, Structural)]
pub struct AtlasRegion {
    /// Left edge.
    pub x: u32,
    /// Top edge.
    pub y: u32,
    /// Width.
    pub width: u32,
    /// Height.
    pub height: u32,
    /// Layer.
    pub layer: u32,
}

/// How the atlas is laid out.
#[derive(Debug, Clone, Copy, PartialEq, Eq, Structural)]
pub struct AtlasConfig {
    /// Width of a layer.
    pub width: u32,
    /// Height of a layer.
    pub height: u32,
    /// Largest number of layers.
    pub max_layers: u32,
    /// Space between entries.
    pub padding: u32,
    /// Whether the atlas may grow.
    pub allow_resize: bool,
}

/// A glyph in the cache.
#[derive(Debug, Clone, Copy, PartialEq, Eq, Structural)]
pub struct CachedGlyph {
    /// Its entry in the atlas.
    pub entry_id: AtlasEntryId,
    /// Its part of the atlas.
    pub region: AtlasRegion,
    /// Offset from the baseline.
    pub offset: Point,
    /// Advance width.
    pub advance: u32,
    /// Bounding box.
    pub bounds: Rect,
}

/// Counts of what the cache did.
#[derive(Debug, Clone, Copy, PartialEq, Eq, Structural)]
pub struct GlyphCacheStats {
    /// Lookups that found a glyph.
    pub hits: u64,
    /// Lookups that found none.
    pub misses: u64,
    /// Glyphs that had to leave.
    pub evictions: u64,
    /// Glyphs that are there.
    pub cached_count: usize,
}

impl GlyphCacheStats {
    /// The part of the lookups that hit, as the bit pattern of a double;
    /// `divide` is the quotient of two counts. Without lookups it is zero.
    pub fn hit_rate<D: Fn(u64, u64) -> u64>(&self, divide: D) -> (r: u64)
        requires
            self.hits + self.misses <= u64::MAX,
            forall|a: u64, b: u64| b > 0 ==> #[trigger] call_requires(divide, (a, b)),
        ensures
            self.hits + self.misses == 0 ==> r == 0,
            self.hits + self.misses > 0 ==> call_ensures(
                divide,
                (self.hits, (self.hits + self.misses) as u64),
                r,
            ),
    {
        let total: u64 = self.hits + self.misses;
        if total == 0 {
            0
        } else {
            divide(self.hits, total)
        }
    }
}

impl Default for GlyphCacheStats {
    fn default() -> (r: GlyphCacheStats)
        ensures
            r == (GlyphCacheStats { hits: 0, misses: 0, evictions: 0, cached_count: 0 }),
    {
        GlyphCacheStats { hits: 0, misses: 0, evictions: 0, cached_count: 0 }
    }
}

/// What the cache may hold.
#[derive(Debug, Clone, Copy, PartialEq, Eq, Structural)]
pub struct GlyphCacheConfig {
    /// Largest number of glyphs.
    pub max_glyphs: usize,
    /// Layout of the atlas.
    pub atlas_config: AtlasConfig,
    /// Whether positions between pixels count.
    pub sub_pixel_rendering: bool,
}

impl Default for GlyphCacheConfig {
    fn default() -> (r: GlyphCacheConfig)
        ensures
            r == (GlyphCacheConfig {
                max_glyphs: 4096,
                atlas_config: AtlasConfig {
                    width: 1024,
                    height: 1024,
                    max_layers: 4,
                    padding: 1,
                    allow_resize: true,
                },
                sub_pixel_rendering: true,
            }),
    {
        GlyphCacheConfig {
            max_glyphs: 4096,
            atlas_config: AtlasConfig {
                width: 1024,
                height: 1024,
                max_layers: 4,
                padding: 1,
                allow_resize: true,
            },
            sub_pixel_rendering: true,
        }
    }
}

/// A glyph with its key.
#[derive(Debug, Clone, Copy, PartialEq, Eq, Structural)]
pub struct Slot {
    /// The key.
    pub key: GlyphKey,
    /// The glyph.
    pub glyph: CachedGlyph,
}

/// A cache as a mathematical value.
#[verifier::ext_equal]
pub struct CacheModel {
    /// The configuration.
    pub config: GlyphCacheConfig,
    /// The glyphs, the most recently used one first.
    pub slots: Seq<Slot>,
    /// The counts.
    pub stats: GlyphCacheStats,
}

impl CacheModel {
    /// Whether no key occurs twice and the count of glyphs is right.
    pub open spec fn valid(self) -> bool {
        &&& self.stats.cached_count == self.slots.len()
        &&& forall|i: int, j: int|
            0 <= i < j < self.slots.len() ==> (#[trigger] self.slots[i]).key != (
            #[trigger] self.slots[j]).key
    }

    /// How many glyphs there can be at most. A limit of zero still leaves room
    /// for the glyph inserted last.
    pub open spec fn capacity(self) -> nat {
        if self.config.max_glyphs == 0 {
            1
        } else {
            self.config.max_glyphs as nat
        }
    }

    /// Whether the cache is consistent and holds no more glyphs than it may.
    pub open spec fn sound(self) -> bool {
        self.valid() && self.slots.len() <= self.capacity()
    }

    /// Whether a glyph is cached.
    pub open spec fn has(self, key: GlyphKey) -> bool {
        exists|i: int| 0 <= i < self.slots.len() && (#[trigger] self.slots[i]).key == key
    }

    /// Where the glyph with a key stands.
    pub open spec fn place(self, key: GlyphKey) -> int {
        choose|i: int| 0 <= i < self.slots.len() && (#[trigger] self.slots[i]).key == key
    }

    /// The cached glyph with a key.
    pub open spec fn get(self, key: GlyphKey) -> CachedGlyph {
        self.slots[self.place(key)].glyph
    }

    /// The cache with other glyphs.
    pub open spec fn with_slots(self, slots: Seq<Slot>) -> CacheModel {
        CacheModel {
            slots,
            stats: GlyphCacheStats { cached_count: slots.len() as usize, ..self.stats },
            ..self
        }
    }

    /// The cache after the glyph at `i` has been used.
    pub open spec fn touched(self, i: int) -> CacheModel {
        CacheModel { slots: seq![self.slots[i]] + self.slots.remove(i), ..self }
    }

    /// The cache without its least recently used glyph.
    pub open spec fn evicted(self) -> CacheModel {
        let c = self.with_slots(self.slots.drop_last());
        CacheModel {
            stats: GlyphCacheStats { evictions: (c.stats.evictions + 1) as u64, ..c.stats },
            ..c
        }
    }

    /// The cache after `n` evictions.
    pub open spec fn evicted_times(self, n: nat) -> CacheModel
        decreases n,
    {
        if n == 0 {
            self
        } else {
            self.evicted_times((n - 1) as nat).evicted()
        }
    }

    /// How many glyphs must leave before another one can be added.
    pub open spec fn surplus(self) -> nat {
        if self.config.max_glyphs == 0 {
            self.slots.len()
        } else if self.slots.len() >= self.config.max_glyphs {
            (self.slots.len() - self.config.max_glyphs + 1) as nat
        } else {
            0
        }
    }

    /// The cache with one more glyph, the most recently used one.
    pub open spec fn added(self, s: Slot) -> CacheModel {
        self.with_slots(seq![s] + self.slots)
    }

    /// The cache after a lookup.
    pub open spec fn looked_up(self, key: GlyphKey) -> CacheModel {
        if self.has(key) {
            let m = self.touched(self.place(key));
            CacheModel {
                stats: GlyphCacheStats { hits: (m.stats.hits + 1) as u64, ..m.stats },
                ..m
            }
        } else {
            CacheModel {
                stats: GlyphCacheStats { misses: (self.stats.misses + 1) as u64, ..self.stats },
                ..self
            }
        }
    }

    /// The cache after an insertion has begun.
    pub open spec fn begun(self, key: GlyphKey) -> CacheModel {
        if self.has(key) {
            self
        } else {
            self.evicted_times(self.surplus())
        }
    }

    /// The cache after an answer of the atlas to an insertion.
    pub open spec fn answered(self, new: NewGlyph, answer: AtlasAllocResult) -> CacheModel {
        match answer {
            AtlasAllocResult::Success(id, region) => self.added(new.placed(id, region)),
            AtlasAllocResult::TooLarge => self,
            AtlasAllocResult::Full => if self.slots.len() > 0 {
                self.evicted()
            } else {
                self.cleared()
            },
        }
    }

    /// The cache after a compaction of the atlas.
    pub open spec fn followed(
        self,
        moved: Seq<(AtlasEntryId, AtlasRegion)>,
        dropped: Seq<AtlasEntryId>,
    ) -> CacheModel {
        self.with_slots(reconciled(self.slots, moved, dropped, self.slots.len()))
    }

    /// The cache without glyphs.
    pub open spec fn cleared(self) -> CacheModel {
        self.with_slots(Seq::empty())
    }
}

/// What the atlas answers to a request for space.
#[derive(Debug, Clone, Copy, PartialEq, Eq, Structural)]
pub enum AtlasAllocResult {
    /// There is space.
    Success(AtlasEntryId, AtlasRegion),
    /// There is none now.
    Full,
    /// There never will be.
    TooLarge,
}

/// What an insertion asks the caller to do next.
#[derive(Debug, Clone, Copy, PartialEq, Eq, Structural)]
pub enum InsertStep {
    /// Nothing: the glyph stands in this part of the atlas.
    Done(AtlasRegion),
    /// Nothing: the glyph fits into no atlas.
    Failed,
    /// Free an entry of the atlas, compact the atlas, reconcile the cache, and
    /// ask for space again.
    Compact(AtlasEntryId),
    /// Reset the atlas and ask for space again.
    ResetAtlas,
}

/// A glyph that is about to be inserted.
#[derive(Debug, Clone, Copy, PartialEq, Eq, Structural)]
pub struct NewGlyph {
    /// The key.
    pub key: GlyphKey,
    /// Offset from the baseline.
    pub offset: Point,
    /// Advance width.
    pub advance: u32,
    /// Bounding box.
    pub bounds: Rect,
}

impl NewGlyph {
    /// The glyph once it has a part of the atlas.
    pub open spec fn placed(self, id: AtlasEntryId, region: AtlasRegion) -> Slot {
        Slot {
            key: self.key,
            glyph: CachedGlyph {
                entry_id: id,
                region,
                offset: self.offset,
                advance: self.advance,
                bounds: self.bounds,
            },
        }
    }
}

/// A cache of glyphs.
pub struct GlyphCache {
    config: GlyphCacheConfig,
    slots: Vec<Slot>,
    stats: GlyphCacheStats,
}

impl View for GlyphCache {
    type V = CacheModel;

    closed spec fn view(&self) -> CacheModel {
        CacheModel { config: self.config, slots: self.slots@, stats: self.stats }
    }
}

/// Numbers of evicted entries of the atlas, in the order they left.
pub open spec fn freed_entries(slots: Seq<Slot>, n: nat) -> Seq<AtlasEntryId> {
    Seq::new(n, |i: int| slots[slots.len() - 1 - i].glyph.entry_id)
}

proof fn lemma_evicted_times(m: CacheModel, n: nat)
    requires
        n <= m.slots.len(),
        m.stats.evictions + n <= u64::MAX,
        m.slots.len() <= usize::MAX,
        m.stats.cached_count == m.slots.len(),
    ensures
        m.evicted_times(n).slots == m.slots.take(m.slots.len() - n),
        m.evicted_times(n).config == m.config,
        m.evicted_times(n).stats == (GlyphCacheStats {
            evictions: (m.stats.evictions + n) as u64,
            cached_count: (m.slots.len() - n) as usize,
            ..m.stats
        }),
    decreases n,
{
    if n > 0 {
        lemma_evicted_times(m, (n - 1) as nat);
        assert(m.slots.take(m.slots.len() - (n - 1)).drop_last() =~= m.slots.take(
            m.slots.len() - n,
        ));
    } else {
        assert(m.slots.take(m.slots.len() as int) =~= m.slots);
    }
}

/// Evictions add no glyphs.
proof fn lemma_evicted_has(m: CacheModel, n: nat, key: GlyphKey)
    requires
        n <= m.slots.len(),
        m.stats.evictions + n <= u64::MAX,
        m.slots.len() <= usize::MAX,
        m.stats.cached_count == m.slots.len(),
    ensures
        m.evicted_times(n).has(key) ==> m.has(key),
{
    lemma_evicted_times(m, n);
    let e = m.evicted_times(n);
    if e.has(key) {
        let i = e.place(key);
        assert(m.slots[i].key == key);
    }
}

impl GlyphCache {
    #[verifier::type_invariant]
    spec fn well_formed(&self) -> bool {
        self@.sound()
    }

    /// An empty cache.
    pub fn new(config: GlyphCacheConfig) -> (r: GlyphCache)
        ensures
            r@ == (CacheModel {
                config,
                slots: Seq::empty(),
                stats: GlyphCacheStats { hits: 0, misses: 0, evictions: 0, cached_count: 0 },
            }),
            r@.sound(),
    {
        let r = GlyphCache { config, slots: Vec::new(), stats: GlyphCacheStats::default() };
        assert(r@.slots =~= Seq::empty());
        r
    }

    /// The configuration.
    pub fn config(&self) -> (r: &GlyphCacheConfig)
        ensures
            *r == self@.config,
    {
        &self.config
    }

    /// The counts.
    pub fn stats(&self) -> (r: &GlyphCacheStats)
        ensures
            *r == self@.stats,
            r.cached_count == self@.slots.len(),
    {
        proof {
            use_type_invariant(self);
        }
        &self.stats
    }

    /// The number of glyphs.
    pub fn len(&self) -> (n: usize)
        ensures
            n == self@.slots.len(),
            self@.sound(),
    {
        proof {
            use_type_invariant(self);
        }
        self.slots.len()
    }

    /// Whether there are no glyphs.
    pub fn is_empty(&self) -> (r: bool)
        ensures
            r == (self@.slots.len() == 0),
    {
        self.slots.len() == 0
    }

    /// Where the glyph with a key stands.
    fn find(&self, key: &GlyphKey) -> (r: Option<usize>)
        ensures
            match r {
                Some(i) => self@.has(*key) && i < self@.slots.len() && i == self@.place(*key)
                    && self@.slots[i as int].key == *key,
                None => !self@.has(*key),
            },
    {
        proof {
            use_type_invariant(self);
        }
        let mut i: usize = 0;
        while i < self.slots.len()
            invariant
                i <= self.slots@.len(),
                self@.slots == self.slots@,
                self@.valid(),
                forall|k: int| 0 <= k < i ==> (#[trigger] self@.slots[k]).key != *key,
            decreases self.slots@.len() - i,
        {
            if self.slots[i].key == *key {
                assert(self@.slots[i as int].key == *key);
                assert(self@.has(*key));
                let ghost p = self@.place(*key);
                assert(p == i);
                return Some(i);
            }
            i = i + 1;
        }
        None
    }

    /// Whether a glyph is cached. This does not count as a use.
    pub fn contains(&self, key: &GlyphKey) -> (r: bool)
        ensures
            r == self@.has(*key),
    {
        match self.find(key) {
            Some(_) => true,
            None => false,
        }
    }

    /// Looks a glyph up. One that is found becomes the most recently used.
    pub fn lookup(&mut self, key: &GlyphKey) -> (r: Option<CachedGlyph>)
        requires
            old(self)@.stats.hits < u64::MAX,
            old(self)@.stats.misses < u64::MAX,
        ensures
            r == if old(self)@.has(*key) {
                Some(old(self)@.get(*key))
            } else {
                None
            },
            final(self)@ == old(self)@.looked_up(*key),
            final(self)@.sound(),
    {
        proof {
            use_type_invariant(&*self);
        }
        let config = self.config;
        let mut stats = self.stats;
        match self.find(key) {
            Some(i) => {
                stats.hits = stats.hits + 1;
                let found = self.slots[i];
                let mut slots: Vec<Slot> = Vec::new();
                slots.push(found);
                let mut k: usize = 0;
                while k < self.slots.len()
                    invariant
                        k <= self.slots@.len(),
                        i < self.slots@.len(),
                        found == self.slots@[i as int],
                        slots@ == seq![found] + if k <= i {
                            self.slots@.take(k as int)
                        } else {
                            self.slots@.take(k as int).remove(i as int)
                        },
                    decreases self.slots@.len() - k,
                {
                    if k != i {
                        slots.push(self.slots[k]);
                    }
                    assert(slots@ =~= seq![found] + if k + 1 <= i {
                        self.slots@.take(k + 1)
                    } else {
                        self.slots@.take(k + 1).remove(i as int)
                    });
                    k = k + 1;
                }
                assert(self.slots@.take(k as int) =~= self.slots@);
                assert(slots@ == seq![found] + self.slots@.remove(i as int));
                proof {
                    lemma_touch_keeps(self@, i as int);
                }
                *self = GlyphCache { config, slots, stats };
                Some(found.glyph)
            },
            None => {
                stats.misses = stats.misses + 1;
                self.stats = stats;
                None
            },
        }
    }

    /// Removes the least recently used glyph and returns its entry in the
    /// atlas, which is to be freed.
    pub fn evict_lru(&mut self) -> (r: Option<AtlasEntryId>)
        requires
            old(self)@.stats.evictions < u64::MAX,
        ensures
            match r {
                Some(id) => old(self)@.slots.len() > 0 && id == old(
                    self,
                )@.slots.last().glyph.entry_id && final(self)@ == old(self)@.evicted(),
                None => old(self)@.slots.len() == 0 && final(self)@ == old(self)@,
            },
            final(self)@.sound(),
    {
        proof {
            use_type_invariant(&*self);
        }
        let config = self.config;
        let mut stats = self.stats;
        let n: usize = self.slots.len();
        if n == 0 {
            return None;
        }
        let last = self.slots[n - 1];
        let mut slots: Vec<Slot> = Vec::new();
        let mut k: usize = 0;
        while k < n - 1
            invariant
                n == self.slots@.len(),
                k <= n - 1,
                slots@ == self.slots@.take(k as int),
            decreases n - k,
        {
            slots.push(self.slots[k]);
            assert(slots@ =~= self.slots@.take(k + 1));
            k = k + 1;
        }
        assert(slots@ =~= self.slots@.drop_last());
        stats.evictions = stats.evictions + 1;
        stats.cached_count = n - 1;
        *self = GlyphCache { config, slots, stats };
        Some(last.glyph.entry_id)
    }

    /// Starts an insertion. A glyph that is cached is found in its part of the
    /// atlas. Otherwise the least recently used glyphs leave until there is
    /// room for one more, and their entries in the atlas are to be freed; then
    /// the caller asks the atlas for space.
    pub fn begin_insert(&mut self, key: &GlyphKey) -> (r: Result<AtlasRegion, Vec<AtlasEntryId>>)
        requires
            old(self)@.stats.evictions + old(self)@.slots.len() <= u64::MAX,
        ensures
            match r {
                Ok(region) => old(self)@.has(*key) && region == old(self)@.get(*key).region,
                Err(freed) => !old(self)@.has(*key) && freed@ == freed_entries(
                    old(self)@.slots,
                    old(self)@.surplus(),
                ) && !final(self)@.has(*key)
                    && final(self)@.slots.len() < final(self)@.capacity(),
            },
            final(self)@ == old(self)@.begun(*key),
            final(self)@.sound(),
    {
        proof {
            use_type_invariant(&*self);
        }
        match self.find(key) {
            Some(i) => {
                return Ok(self.slots[i].glyph.region);
            },
            None => {},
        }
        let mut freed: Vec<AtlasEntryId> = Vec::new();
        let ghost m = self@;
        let total: usize = self.slots.len();
        let max: usize = self.config.max_glyphs;
        let ghost mut n: nat = 0;
        assert(freed@ =~= freed_entries(m.slots, 0));
        while self.slots.len() >= max && self.slots.len() > 0
            invariant
                m.valid(),
                m.slots.len() == total,
                m.config.max_glyphs == max,
                m.stats.evictions + total <= u64::MAX,
                n <= total,
                self@ == m.evicted_times(n),
                self@.slots == m.slots.take(total - n),
                self.slots@ == self@.slots,
                freed@ == freed_entries(m.slots, n),
                n <= m.surplus(),
            ensures
                self@ == m.evicted_times(n),
                freed@ == freed_entries(m.slots, n),
                n == m.surplus(),
            decreases self.slots@.len(),
        {
            proof {
                lemma_evicted_times(m, n);
                lemma_evicted_times(m, n + 1);
            }
            match self.evict_lru() {
                Some(id) => {
                    freed.push(id);
                },
                None => {},
            }
            proof {
                n = n + 1;
            }
            assert(freed@ =~= freed_entries(m.slots, n));
        }
        proof {
            use_type_invariant(&*self);
            lemma_evicted_times(m, m.surplus());
            lemma_evicted_has(m, m.surplus(), *key);
        }
        Err(freed)
    }

    /// Goes on with an insertion from the answer of the atlas. If the atlas is
    /// full, one more glyph leaves; if there is none, the atlas starts afresh.
    pub fn continue_insert(&mut self, new: &NewGlyph, answer: AtlasAllocResult) -> (r: InsertStep)
        requires
            !old(self)@.has(new.key),
            old(self)@.stats.evictions < u64::MAX,
            old(self)@.slots.len() < old(self)@.capacity(),
        ensures
            match answer {
                AtlasAllocResult::Success(_, region) => r == InsertStep::Done(region),
                AtlasAllocResult::TooLarge => r == InsertStep::Failed,
                AtlasAllocResult::Full => if old(self)@.slots.len() > 0 {
                    r == InsertStep::Compact(old(self)@.slots.last().glyph.entry_id)
                } else {
                    r == InsertStep::ResetAtlas
                },
            },
            final(self)@ == old(self)@.answered(*new, answer),
            final(self)@.has(new.key) == (answer is Success),
            final(self)@.sound(),
    {
        proof {
            use_type_invariant(&*self);
        }
        match answer {
            AtlasAllocResult::Success(id, region) => {
                let config = self.config;
                let mut stats = self.stats;
                let slot = Slot {
                    key: new.key,
                    glyph: CachedGlyph {
                        entry_id: id,
                        region,
                        offset: new.offset,
                        advance: new.advance,
                        bounds: new.bounds,
                    },
                };
                let n: usize = self.slots.len();
                let mut slots: Vec<Slot> = Vec::new();
                slots.push(slot);
                let mut k: usize = 0;
                while k < n
                    invariant
                        n == self.slots@.len(),
                        k <= n,
                        slots@ == seq![slot] + self.slots@.take(k as int),
                    decreases n - k,
                {
                    slots.push(self.slots[k]);
                    assert(slots@ =~= seq![slot] + self.slots@.take(k + 1));
                    k = k + 1;
                }
                assert(self.slots@.take(n as int) =~= self.slots@);
                stats.cached_count = n + 1;
                proof {
                    lemma_add_keeps(self@, slot);
                }
                *self = GlyphCache { config, slots, stats };
                assert(self@.slots[0].key == new.key);
                InsertStep::Done(region)
            },
            AtlasAllocResult::TooLarge => InsertStep::Failed,
            AtlasAllocResult::Full => {
                match self.evict_lru() {
                    Some(id) => {
                        proof {
                            if self@.has(new.key) {
                                let i = self@.place(new.key);
                                assert(old(self)@.slots[i].key == new.key);
                            }
                        }
                        InsertStep::Compact(id)
                    },
                    None => {
                        self.reset();
                        InsertStep::ResetAtlas
                    },
                }
            },
        }
    }

    /// Removes all glyphs.
    pub fn reset(&mut self)
        ensures
            final(self)@ == old(self)@.cleared(),
            final(self)@.sound(),
    {
        let config = self.config;
        let mut stats = self.stats;
        stats.cached_count = 0;
        let slots: Vec<Slot> = Vec::new();
        assert(slots@ =~= Seq::empty());
        *self = GlyphCache { config, slots, stats };
    }

    /// Follows a compaction of the atlas: glyphs whose entries moved are found
    /// in their new part, and those whose entries were dropped leave.
    pub fn reconcile(
        &mut self,
        moved: &Vec<(AtlasEntryId, AtlasRegion)>,
        dropped: &Vec<AtlasEntryId>,
    )
        ensures
            final(self)@ == old(self)@.followed(moved@, dropped@),
            final(self)@.sound(),
    {
        proof {
            use_type_invariant(&*self);
        }
        let config = self.config;
        let mut stats = self.stats;
        let n: usize = self.slots.len();
        let mut slots: Vec<Slot> = Vec::new();
        let mut k: usize = 0;
        assert(slots@ =~= reconciled(self.slots@, moved@, dropped@, 0));
        while k < n
            invariant
                n == self.slots@.len(),
                k <= n,
                slots@.len() <= k,
                slots@ == reconciled(self.slots@, moved@, dropped@, k as nat),
            decreases n - k,
        {
            let s = self.slots[k];
            if !is_dropped(dropped, s.glyph.entry_id) {
                let region = new_region(moved, s.glyph.entry_id, s.glyph.region);
                slots.push(Slot { key: s.key, glyph: CachedGlyph { region, ..s.glyph } });
            }
            k = k + 1;
        }
        stats.cached_count = slots.len();
        proof {
            lemma_reconcile_keeps(self@, moved@, dropped@, self@.slots.len());
        }
        *self = GlyphCache { config, slots, stats };
    }
}

impl Default for GlyphCache {
    fn default() -> (r: GlyphCache)
        ensures
            r@ == (CacheModel {
                config: GlyphCacheConfig {
                    max_glyphs: 4096,
                    atlas_config: AtlasConfig {
                        width: 1024,
                        height: 1024,
                        max_layers: 4,
                        padding: 1,
                        allow_resize: true,
                    },
                    sub_pixel_rendering: true,
                },
                slots: Seq::empty(),
                stats: GlyphCacheStats { hits: 0, misses: 0, evictions: 0, cached_count: 0 },
            }),
            r@.sound(),
    {
        GlyphCache::new(GlyphCacheConfig::default())
    }
}

/// The part of the atlas that an entry has after the first `n` moves; the last
/// move of an entry counts.
pub open spec fn region_after(
    moved: Seq<(AtlasEntryId, AtlasRegion)>,
    n: nat,
    id: AtlasEntryId,
    region: AtlasRegion,
) -> AtlasRegion
    decreases n,
{
    if n == 0 || n > moved.len() {
        region
    } else if moved[n - 1].0 == id {
        moved[n - 1].1
    } else {
        region_after(moved, (n - 1) as nat, id, region)
    }
}

/// The first `n` glyphs after entries of the atlas moved or were dropped.
pub open spec fn reconciled(
    slots: Seq<Slot>,
    moved: Seq<(AtlasEntryId, AtlasRegion)>,
    dropped: Seq<AtlasEntryId>,
    n: nat,
) -> Seq<Slot>
    decreases n,
{
    if n == 0 || n > slots.len() {
        Seq::empty()
    } else {
        let rest = reconciled(slots, moved, dropped, (n - 1) as nat);
        let s = slots[n - 1];
        if dropped.contains(s.glyph.entry_id) {
            rest
        } else {
            rest.push(
                Slot {
                    key: s.key,
                    glyph: CachedGlyph {
                        region: region_after(
                            moved,
                            moved.len(),
                            s.glyph.entry_id,
                            s.glyph.region,
                        ),
                        ..s.glyph
                    },
                },
            )
        }
    }
}

/// Whether an entry was dropped.
fn is_dropped(dropped: &Vec<AtlasEntryId>, id: AtlasEntryId) -> (r: bool)
    ensures
        r == dropped@.contains(id),
{
    let mut i: usize = 0;
    while i < dropped.len()
        invariant
            i <= dropped@.len(),
            forall|k: int| 0 <= k < i ==> #[trigger] dropped@[k] != id,
        decreases dropped@.len() - i,
    {
        if dropped[i] == id {
            assert(dropped@[i as int] == id);
            return true;
        }
        i = i + 1;
    }
    false
}

/// The part of the atlas that an entry has after all moves.
fn new_region(
    moved: &Vec<(AtlasEntryId, AtlasRegion)>,
    id: AtlasEntryId,
    region: AtlasRegion,
) -> (r: AtlasRegion)
    ensures
        r == region_after(moved@, moved@.len(), id, region),
{
    let mut r = region;
    let mut i: usize = 0;
    while i < moved.len()
        invariant
            i <= moved@.len(),
            r == region_after(moved@, i as nat, id, region),
        decreases moved@.len() - i,
    {
        if moved[i].0 == id {
            r = moved[i].1;
        }
        i = i + 1;
    }
    r
}

proof fn lemma_touch_keeps(m: CacheModel, i: int)
    requires
        m.valid(),
        0 <= i < m.slots.len(),
    ensures
        m.touched(i).valid(),
{
    let t = m.touched(i).slots;
    assert(t.len() == m.slots.len());
    assert forall|a: int, b: int| 0 <= a < b < t.len() implies (#[trigger] t[a]).key != (
    #[trigger] t[b]).key by {
        let pa = if a == 0 {
            i
        } else if a - 1 < i {
            a - 1
        } else {
            a
        };
        let pb = if b - 1 < i {
            b - 1
        } else {
            b
        };
        assert(t[a] == m.slots[pa]);
        assert(t[b] == m.slots[pb]);
        if pa < pb {
            assert(m.slots[pa].key != m.slots[pb].key);
        } else {
            assert(m.slots[pb].key != m.slots[pa].key);
        }
    }
}

proof fn lemma_add_keeps(m: CacheModel, s: Slot)
    requires
        m.valid(),
        !m.has(s.key),
        m.slots.len() < usize::MAX,
    ensures
        m.added(s).valid(),
{
    let t = m.added(s).slots;
    assert forall|a: int, b: int| 0 <= a < b < t.len() implies (#[trigger] t[a]).key != (
    #[trigger] t[b]).key by {
        assert(t[b] == m.slots[b - 1]);
        if a > 0 {
            assert(t[a] == m.slots[a - 1]);
            assert(m.slots[a - 1].key != m.slots[b - 1].key);
        }
    }
}

proof fn lemma_reconcile_keeps(
    m: CacheModel,
    moved: Seq<(AtlasEntryId, AtlasRegion)>,
    dropped: Seq<AtlasEntryId>,
    n: nat,
)
    requires
        m.valid(),
        n <= m.slots.len(),
    ensures
        ({
            let t = reconciled(m.slots, moved, dropped, n);
            &&& t.len() <= n
            &&& forall|a: int, b: int|
                0 <= a < b < t.len() ==> (#[trigger] t[a]).key != (#[trigger] t[b]).key
            &&& forall|a: int|
                0 <= a < t.len() ==> exists|i: int|
                    0 <= i < n && (#[trigger] m.slots[i]).key == (#[trigger] t[a]).key
        }),
    decreases n,
{
    if n > 0 {
        lemma_reconcile_keeps(m, moved, dropped, (n - 1) as nat);
        let r = reconciled(m.slots, moved, dropped, (n - 1) as nat);
        let t = reconciled(m.slots, moved, dropped, n);
        assert forall|a: int| 0 <= a < t.len() implies exists|i: int|
            0 <= i < n && (#[trigger] m.slots[i]).key == (#[trigger] t[a]).key by {
            if a < r.len() {
                assert(t[a] == r[a]);
            } else {
                assert(m.slots[n - 1].key == t[a].key);
            }
        }
        assert forall|a: int, b: int| 0 <= a < b < t.len() implies (#[trigger] t[a]).key != (
        #[trigger] t[b]).key by {
            assert(t[a] == r[a]);
            if b < r.len() {
                assert(t[b] == r[b]);
            } else {
                assert(t[b].key == m.slots[n - 1].key);
                let i = choose|i: int| 0 <= i < n - 1 && (#[trigger] m.slots[i]).key == r[a].key;
                assert(m.slots[i].key != m.slots[n - 1].key);
            }
        }
    }
}

/// A glyph that was just used is not the next to leave, unless it is the only
/// one.
pub proof fn used_glyph_stays(m: CacheModel, i: int)
    requires
        m.valid(),
        0 <= i < m.slots.len(),
        m.slots.len() > 1,
    ensures
        m.touched(i).evicted().has(m.slots[i].key),
{
    let t = m.touched(i);
    assert(t.slots[0] == m.slots[i]);
    assert(t.evicted().slots[0] == m.slots[i]);
}

/// After an insertion has made room and the glyph has been added, the cache
/// holds no more glyphs than it may, but always the new one.
pub proof fn insertion_respects_the_limit(m: CacheModel, s: Slot)
    requires
        m.valid(),
        m.stats.evictions + m.slots.len() <= u64::MAX,
        m.slots.len() <= usize::MAX,
    ensures
        ({
            let r = m.evicted_times(m.surplus()).added(s);
            &&& r.has(s.key)
            &&& r.slots.len() <= m.config.max_glyphs || r.slots.len() == 1
        }),
{
    lemma_evicted_times(m, m.surplus());
    let r = m.evicted_times(m.surplus()).added(s);
    assert(r.slots[0] == s);
}

/// Following a compaction never adds glyphs.
proof fn lemma_reconciled_len(
    slots: Seq<Slot>,
    moved: Seq<(AtlasEntryId, AtlasRegion)>,
    dropped: Seq<AtlasEntryId>,
    n: nat,
)
    requires
        n <= slots.len(),
    ensures
        reconciled(slots, moved, dropped, n).len() <= n,
    decreases n,
{
    if n > 0 {
        lemma_reconciled_len(slots, moved, dropped, (n - 1) as nat);
    }
}

/// Each time the atlas is full, the cache holds fewer glyphs after the eviction
/// and the compaction that follows, whatever the compaction moves or drops.
pub proof fn full_atlas_loses_glyphs(
    m: CacheModel,
    moved: Seq<(AtlasEntryId, AtlasRegion)>,
    dropped: Seq<AtlasEntryId>,
)
    requires
        m.valid(),
        m.slots.len() > 0,
    ensures
        reconciled(m.evicted().slots, moved, dropped, m.evicted().slots.len()).len()
            < m.slots.len(),
{
    lemma_reconciled_len(m.evicted().slots, moved, dropped, m.evicted().slots.len());
}

/// What is asked of the atlas once in an insertion: its answer, and what the
/// compaction that follows moves and drops.
pub struct AtlasReply {
    /// The answer.
    pub answer: AtlasAllocResult,
    /// The entries that moved.
    pub moved: Seq<(AtlasEntryId, AtlasRegion)>,
    /// The entries that were dropped.
    pub dropped: Seq<AtlasEntryId>,
}

/// The cache after the first `n` replies of the atlas to an insertion. A
/// compaction follows an eviction.
pub open spec fn inserting(m: CacheModel, new: NewGlyph, replies: Seq<AtlasReply>, n: nat) -> CacheModel
    decreases n,
{
    if n == 0 || n > replies.len() {
        m.begun(new.key)
    } else {
        let b = inserting(m, new, replies, (n - 1) as nat);
        let r = replies[n - 1];
        let a = b.answered(new, r.answer);
        if r.answer is Full && b.slots.len() > 0 {
            a.followed(r.moved, r.dropped)
        } else {
            a
        }
    }
}

/// What a cache that is being filled with a new glyph keeps.
spec fn awaits(m: CacheModel, b: CacheModel, new: NewGlyph, n: nat) -> bool {
    &&& b.sound()
    &&& !b.has(new.key)
    &&& b.config == m.config
    &&& b.slots.len() < b.capacity()
    &&& b.slots.len() <= usize::MAX
    &&& b.slots.len() + n <= m.slots.len() || b.slots.len() == 0
    &&& b.stats.evictions + b.slots.len() <= m.stats.evictions + m.slots.len()
}

proof fn lemma_awaits(m: CacheModel, new: NewGlyph, replies: Seq<AtlasReply>, n: nat)
    requires
        m.sound(),
        !m.has(new.key),
        m.stats.evictions + m.slots.len() < u64::MAX,
        n <= replies.len(),
        forall|k: int| 0 <= k < n ==> (#[trigger] replies[k]).answer is Full,
    ensures
        awaits(m, inserting(m, new, replies, n), new, n),
    decreases n,
{
    if n == 0 {
        lemma_call_keeps(m, CacheCall::Begin(new.key));
        lemma_evicted_times(m, m.surplus());
        lemma_evicted_has(m, m.surplus(), new.key);
    } else {
        lemma_awaits(m, new, replies, (n - 1) as nat);
        let b = inserting(m, new, replies, (n - 1) as nat);
        let r = replies[n - 1];
        lemma_call_keeps(b, CacheCall::Continue(new, r.answer));
        if b.slots.len() > 0 {
            let a = b.answered(new, r.answer);
            lemma_call_keeps(a, CacheCall::Reconcile(r.moved, r.dropped));
            lemma_reconcile_keeps(a, r.moved, r.dropped, a.slots.len());
            let c = a.followed(r.moved, r.dropped);
            if c.has(new.key) {
                let i = c.place(new.key);
                let j = choose|j: int|
                    0 <= j < a.slots.len() && (#[trigger] a.slots[j]).key == c.slots[i].key;
                assert(b.slots[j].key == new.key);
            }
        }
    }
}

/// An insertion that the atlas ends leaves a cache that is consistent and
/// within its limit, whatever the atlas answered, moved and dropped before. It
/// holds the new glyph exactly if the atlas had space, and then in the part
/// that the atlas gave.
pub proof fn insertion_ends_well(m: CacheModel, new: NewGlyph, replies: Seq<AtlasReply>)
    requires
        m.sound(),
        !m.has(new.key),
        m.stats.evictions + m.slots.len() < u64::MAX,
        replies.len() > 0,
        forall|k: int| 0 <= k < replies.len() - 1 ==> (#[trigger] replies[k]).answer is Full,
        !(replies.last().answer is Full),
    ensures
        inserting(m, new, replies, replies.len()).sound(),
        inserting(m, new, replies, replies.len()).has(new.key) == (replies.last().answer is Success),
        replies.last().answer matches AtlasAllocResult::Success(id, region) ==> inserting(
            m,
            new,
            replies,
            replies.len(),
        ).get(new.key) == new.placed(id, region).glyph,
{
    let n = (replies.len() - 1) as nat;
    lemma_awaits(m, new, replies, n);
    let b = inserting(m, new, replies, n);
    lemma_call_keeps(b, CacheCall::Continue(new, replies.last().answer));
    let c = inserting(m, new, replies, replies.len());
    if replies.last().answer is Success {
        assert(c.slots[0].key == new.key);
        let i = c.place(new.key);
        assert(i == 0);
    }
}

/// Inserting a glyph that is cached changes nothing: neither the glyphs, nor
/// their order, nor the counters. A glyph that was just inserted is cached, in
/// the part that the atlas gave.
pub proof fn cached_glyph_is_not_inserted_again(
    m: CacheModel,
    new: NewGlyph,
    replies: Seq<AtlasReply>,
)
    requires
        m.sound(),
        m.stats.evictions + m.slots.len() < u64::MAX,
    ensures
        m.has(new.key) ==> m.begun(new.key) == m,
        !m.has(new.key) && replies.len() > 0 && (forall|k: int|
            0 <= k < replies.len() - 1 ==> (#[trigger] replies[k]).answer is Full) && replies.last().answer is Success ==> {
            let c = inserting(m, new, replies, replies.len());
            &&& c.begun(new.key) == c
            &&& c.get(new.key).region == replies.last().answer->Success_1
        },
{
    if !m.has(new.key) && replies.len() > 0 && replies.last().answer is Success && (forall|k: int|
        0 <= k < replies.len() - 1 ==> (#[trigger] replies[k]).answer is Full) {
        insertion_ends_well(m, new, replies);
    }
}

/// An insertion does not go on for ever: while the atlas is full, each reply
/// leaves fewer glyphs, until there are none and the atlas starts afresh.
pub proof fn insertion_comes_to_an_end(m: CacheModel, new: NewGlyph, replies: Seq<AtlasReply>)
    requires
        m.sound(),
        !m.has(new.key),
        m.stats.evictions + m.slots.len() < u64::MAX,
        forall|k: int| 0 <= k < replies.len() ==> (#[trigger] replies[k]).answer is Full,
    ensures
        inserting(m, new, replies, replies.len()).slots.len() + replies.len() <= m.slots.len()
            || inserting(m, new, replies, replies.len()).slots.len() == 0,
        !inserting(m, new, replies, replies.len()).has(new.key),
{
    lemma_awaits(m, new, replies, replies.len());
}

/// A call that changes a cache.
#[allow(inconsistent_fields)]
pub enum CacheCall {
    /// `lookup`
    Lookup(GlyphKey),
    /// `evict_lru`
    Evict,
    /// `begin_insert`
    Begin(GlyphKey),
    /// `continue_insert`
    Continue(NewGlyph, AtlasAllocResult),
    /// `reconcile`
    Reconcile(Seq<(AtlasEntryId, AtlasRegion)>, Seq<AtlasEntryId>),
    /// `reset`
    Reset,
}

/// Whether a cache may be called so.
pub open spec fn callable(m: CacheModel, call: CacheCall) -> bool {
    match call {
        CacheCall::Lookup(_) => m.stats.hits < u64::MAX && m.stats.misses < u64::MAX,
        CacheCall::Evict => m.stats.evictions < u64::MAX,
        CacheCall::Begin(_) => m.stats.evictions + m.slots.len() <= u64::MAX,
        CacheCall::Continue(new, _) => !m.has(new.key) && m.stats.evictions < u64::MAX
            && m.slots.len() < m.capacity(),
        CacheCall::Reconcile(_, _) => true,
        CacheCall::Reset => true,
    }
}

/// A cache after a call.
pub open spec fn called(m: CacheModel, call: CacheCall) -> CacheModel {
    match call {
        CacheCall::Lookup(key) => m.looked_up(key),
        CacheCall::Evict => if m.slots.len() > 0 {
            m.evicted()
        } else {
            m
        },
        CacheCall::Begin(key) => m.begun(key),
        CacheCall::Continue(new, answer) => m.answered(new, answer),
        CacheCall::Reconcile(moved, dropped) => m.followed(moved, dropped),
        CacheCall::Reset => m.cleared(),
    }
}

/// A new cache after the first `n` calls.
pub open spec fn reached(config: GlyphCacheConfig, calls: Seq<CacheCall>, n: nat) -> CacheModel
    decreases n,
{
    if n == 0 || n > calls.len() {
        CacheModel {
            config,
            slots: Seq::empty(),
            stats: GlyphCacheStats { hits: 0, misses: 0, evictions: 0, cached_count: 0 },
        }
    } else {
        called(reached(config, calls, (n - 1) as nat), calls[n - 1])
    }
}

proof fn lemma_call_keeps(m: CacheModel, call: CacheCall)
    requires
        m.sound(),
        callable(m, call),
    ensures
        called(m, call).sound(),
        called(m, call).config == m.config,
{
    match call {
        CacheCall::Lookup(key) => {
            if m.has(key) {
                lemma_touch_keeps(m, m.place(key));
            }
        },
        CacheCall::Evict => {
            if m.slots.len() > 0 {
                lemma_evict_keeps(m);
            }
        },
        CacheCall::Begin(key) => {
            if !m.has(key) {
                lemma_evicted_times(m, m.surplus());
                let e = m.evicted_times(m.surplus());
                assert forall|i: int, j: int| 0 <= i < j < e.slots.len() implies (
                #[trigger] e.slots[i]).key != (#[trigger] e.slots[j]).key by {
                    assert(m.slots[i].key != m.slots[j].key);
                }
            }
        },
        CacheCall::Continue(new, answer) => {
            match answer {
                AtlasAllocResult::Success(id, region) => {
                    lemma_add_keeps(m, new.placed(id, region));
                },
                AtlasAllocResult::TooLarge => {},
                AtlasAllocResult::Full => {
                    if m.slots.len() > 0 {
                        lemma_evict_keeps(m);
                    }
                },
            }
        },
        CacheCall::Reconcile(moved, dropped) => {
            lemma_reconcile_keeps(m, moved, dropped, m.slots.len());
        },
        CacheCall::Reset => {},
    }
}

proof fn lemma_evict_keeps(m: CacheModel)
    requires
        m.sound(),
        m.slots.len() > 0,
    ensures
        m.evicted().sound(),
{
    let e = m.evicted();
    assert forall|i: int, j: int| 0 <= i < j < e.slots.len() implies (#[trigger] e.slots[i]).key
        != (#[trigger] e.slots[j]).key by {
        assert(m.slots[i].key != m.slots[j].key);
    }
}

/// Every cache that calls lead to is consistent and within its limit: no key
/// occurs twice, the count is the number of glyphs, and there are no more
/// glyphs than the configuration allows.
pub proof fn reached_caches_are_sound(config: GlyphCacheConfig, calls: Seq<CacheCall>)
    requires
        forall|k: int|
            0 <= k < calls.len() ==> callable(reached(config, calls, k as nat), #[trigger] calls[k]),
    ensures
        reached(config, calls, calls.len()).sound(),
        reached(config, calls, calls.len()).config == config,
{
    lemma_reached(config, calls, calls.len());
}

/// Whatever calls came before, and whatever the atlas replies until it ends an
/// insertion, the cache is then consistent and within its limit. It holds the
/// glyph exactly if it did so before or the atlas had space for it. A glyph that
/// was cached before stays where it is, with nothing changed.
pub proof fn insertion_into_a_reached_cache(
    config: GlyphCacheConfig,
    calls: Seq<CacheCall>,
    new: NewGlyph,
    replies: Seq<AtlasReply>,
)
    requires
        config.max_glyphs >= 1,
        forall|k: int|
            0 <= k < calls.len() ==> callable(reached(config, calls, k as nat), #[trigger] calls[k]),
        ({
            let m = reached(config, calls, calls.len());
            &&& m.stats.evictions + m.slots.len() < u64::MAX
            &&& m.has(new.key) ==> replies.len() == 0
            &&& !m.has(new.key) ==> replies.len() > 0 && !(replies.last().answer is Full)
        }),
        forall|k: int| 0 <= k < replies.len() - 1 ==> (#[trigger] replies[k]).answer is Full,
    ensures
        ({
            let m = reached(config, calls, calls.len());
            let c = inserting(m, new, replies, replies.len());
            &&& c.stats.cached_count == c.slots.len()
            &&& c.slots.len() <= config.max_glyphs
            &&& m.has(new.key) ==> c == m
            &&& !m.has(new.key) ==> c.has(new.key) == (replies.last().answer is Success)
        }),
{
    reached_caches_are_sound(config, calls);
    let m = reached(config, calls, calls.len());
    if !m.has(new.key) {
        insertion_ends_well(m, new, replies);
        lemma_awaits(m, new, replies, (replies.len() - 1) as nat);
    }
}

proof fn lemma_reached(config: GlyphCacheConfig, calls: Seq<CacheCall>, n: nat)
    requires
        n <= calls.len(),
        forall|k: int|
            0 <= k < calls.len() ==> callable(reached(config, calls, k as nat), #[trigger] calls[k]),
    ensures
        reached(config, calls, n).sound(),
        reached(config, calls, n).config == config,
    decreases n,
{
    if n > 0 {
        lemma_reached(config, calls, (n - 1) as nat);
        assert(callable(reached(config, calls, (n - 1) as nat), calls[n - 1]));
        lemma_call_keeps(reached(config, calls, (n - 1) as nat), calls[n - 1]);
    }
}

// ---------------------------------------------------------------------------
// Batches
// ---------------------------------------------------------------------------

/// Whether a batch can still be drawn.
#[derive(Debug, Clone, Copy, PartialEq, Eq, Structural)]
pub enum BatchValidity {
    /// It shows what the atlas holds.
    Current,
    /// The atlas has changed since; the batch must be built again.
    Stale,
}

/// A glyph on the screen.
#[derive(Debug, Clone, Copy)]
pub struct GlyphInstance {
    /// Position.
    pub position: Point,
    /// Corners in the atlas.
    pub uv: [u32; 4],
    /// Size.
    pub size: [u32; 2],
    /// Color.
    pub color: [u32; 4],
    /// Layer of the atlas.
    pub layer: u32,
}

/// Glyphs to draw.
#[derive(Debug)]
pub struct GlyphBatch {
    /// The generation of the atlas that the batch was built for.
    pub atlas_generation: u64,
    /// The glyphs.
    pub instances: Vec<GlyphInstance>,
}

impl GlyphBatch {
    /// An empty batch.
    pub fn new(atlas_generation: u64) -> (r: GlyphBatch)
        ensures
            r.atlas_generation == atlas_generation,
            r.instances@ == Seq::<GlyphInstance>::empty(),
    {
        GlyphBatch { atlas_generation, instances: Vec::new() }
    }

    /// Adds a cached glyph at a position. `uv` are the corners of its region in
    /// the atlas.
    pub fn add_glyph<A: Fn(FloatOp, u32, u32, u32) -> u32>(
        &mut self,
        f: &FloatUnit<A>,
        glyph: &CachedGlyph,
        position: Point,
        color: [u32; 4],
        uv: [u32; 4],
    )
        requires
            f.steady(),
        ensures
            final(self).atlas_generation == old(self).atlas_generation,
            final(self).instances@ == old(self).instances@.push(
                (GlyphInstance {
                    position: Point {
                        x: f.ops()(FloatOp::Add, position.x, glyph.offset.x, 0),
                        y: f.ops()(FloatOp::Add, position.y, glyph.offset.y, 0),
                    },
                    uv,
                    size: [
                        f.ops()(FloatOp::OfNatural, glyph.region.width, 0, 0),
                        f.ops()(FloatOp::OfNatural, glyph.region.height, 0, 0),
                    ],
                    color,
                    layer: glyph.region.layer,
                }),
            ),
    {
        let x: u32 = f.op(FloatOp::Add, position.x, glyph.offset.x, 0);
        let y: u32 = f.op(FloatOp::Add, position.y, glyph.offset.y, 0);
        let w: u32 = f.op(FloatOp::OfNatural, glyph.region.width, 0, 0);
        let h: u32 = f.op(FloatOp::OfNatural, glyph.region.height, 0, 0);
        self.instances.push(
            GlyphInstance {
                position: Point { x, y },
                uv,
                size: [w, h],
                color,
                layer: glyph.region.layer,
            },
        );
    }

    /// Whether there are no glyphs.
    pub fn is_empty(&self) -> (r: bool)
        ensures
            r == (self.instances@.len() == 0),
    {
        self.instances.len() == 0
    }

    /// The number of glyphs.
    pub fn len(&self) -> (n: usize)
        ensures
            n == self.instances@.len(),
    {
        self.instances.len()
    }

    /// Removes all glyphs.
    pub fn clear(&mut self)
        ensures
            final(self).atlas_generation == old(self).atlas_generation,
            final(self).instances@ == Seq::<GlyphInstance>::empty(),
    {
        self.instances.clear();
    }

    /// Whether the batch can still be drawn.
    pub fn validate(&self, current_generation: u64) -> (r: BatchValidity)
        ensures
            r == if self.atlas_generation == current_generation {
                BatchValidity::Current
            } else {
                BatchValidity::Stale
            },
    {
        if self.atlas_generation == current_generation {
            BatchValidity::Current
        } else {
            BatchValidity::Stale
        }
    }
}

} // verus!
