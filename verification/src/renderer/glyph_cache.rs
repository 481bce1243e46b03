//! The texture atlas that glyph bitmaps are packed into.

use vstd::prelude::*;

verus! {

/// Simple texture atlas allocator for glyphs. It fills rows from left to
/// right and starts a new row below the tallest glyph of the row before.
pub struct TextureAtlas {
    /// Atlas dimensions
    width: u32,
    height: u32,
    /// Current packing position
    current_x: u32,
    current_y: u32,
    /// Current row height
    row_height: u32,
    /// Actual texture data (grayscale, R8)
    data: Vec<u8>,
}

/// An atlas as a mathematical value.
pub struct AtlasView {
    pub width: u32,
    pub height: u32,
    /// Where the next glyph of the current row goes
    pub current_x: u32,
    /// Where the current row starts
    pub current_y: u32,
    /// The height of the tallest glyph of the current row
    pub row_height: u32,
    /// The texture, row by row
    pub data: Seq<u8>,
}

impl View for TextureAtlas {
    type V = AtlasView;

    closed spec fn view(&self) -> AtlasView {
        AtlasView {
            width: self.width,
            height: self.height,
            current_x: self.current_x,
            current_y: self.current_y,
            row_height: self.row_height,
            data: self.data@,
        }
    }
}

impl AtlasView {
    /// The current row lies in the atlas, and the texture has one byte for
    /// each texel.
    pub open spec fn wf(self) -> bool {
        &&& self.current_y + self.row_height <= self.height
        &&& self.data.len() == self.width * self.height
    }

    /// Whether a glyph of that width starts a new row: it does not fit
    /// behind the glyphs of the current row.
    pub open spec fn wraps(self, width: u32) -> bool {
        self.current_x + width > self.width
    }

    /// Where the row starts that a glyph of that width goes into.
    pub open spec fn row_of(self, width: u32) -> int {
        if self.wraps(width) {
            self.current_y + self.row_height
        } else {
            self.current_y as int
        }
    }

    /// Where in its row a glyph of that width goes.
    pub open spec fn column_of(self, width: u32) -> int {
        if self.wraps(width) {
            0
        } else {
            self.current_x as int
        }
    }

    /// Whether the atlas has room for a glyph: the row that it goes into
    /// has room for its height.
    pub open spec fn has_room(self, width: u32, height: u32) -> bool {
        self.row_of(width) + height <= self.height
    }

    /// The atlas after a glyph was asked for. Starting a new row stays
    /// where the glyph then finds no room.
    pub open spec fn after_allocate(self, width: u32, height: u32) -> AtlasView {
        let row_height: int = if self.wraps(width) {
            0
        } else {
            self.row_height as int
        };
        if self.has_room(width, height) {
            AtlasView {
                current_x: (self.column_of(width) + width) as u32,
                current_y: self.row_of(width) as u32,
                row_height: (if row_height >= height {
                    row_height
                } else {
                    height as int
                }) as u32,
                ..self
            }
        } else {
            AtlasView {
                current_x: self.column_of(width) as u32,
                current_y: self.row_of(width) as u32,
                row_height: row_height as u32,
                ..self
            }
        }
    }
}

/// The texture after the first `rows` rows of a glyph bitmap were copied
/// to `(x, y)`. A row is copied where the bitmap holds all of it and the
/// texture has room for all of it, and is left out else.
pub open spec fn uploaded(
    texture: Seq<u8>,
    atlas_width: int,
    x: int,
    y: int,
    width: int,
    bitmap: Seq<u8>,
    rows: int,
) -> Seq<u8>
    decreases rows,
{
    if rows <= 0 {
        texture
    } else {
        let before = uploaded(texture, atlas_width, x, y, width, bitmap, rows - 1);
        let row = rows - 1;
        let src_start = row * width;
        let dst_start = (y + row) * atlas_width + x;
        if src_start + width <= bitmap.len() && dst_start + width <= before.len() {
            Seq::new(
                before.len(),
                |i: int|
                    if dst_start <= i < dst_start + width {
                        bitmap[src_start + (i - dst_start)]
                    } else {
                        before[i]
                    },
            )
        } else {
            before
        }
    }
}

/// Copying rows keeps the size of the texture.
pub proof fn lemma_uploaded_len(
    texture: Seq<u8>,
    atlas_width: int,
    x: int,
    y: int,
    width: int,
    bitmap: Seq<u8>,
    rows: int,
)
    ensures
        uploaded(texture, atlas_width, x, y, width, bitmap, rows).len() == texture.len(),
    decreases rows,
{
    if rows > 0 {
        lemma_uploaded_len(texture, atlas_width, x, y, width, bitmap, rows - 1);
    }
}

impl TextureAtlas {
    /// Create a new texture atlas, empty and black.
    pub fn new(width: u32, height: u32) -> (atlas: Self)
        requires
            width * height <= usize::MAX,
        ensures
            atlas@.wf(),
            atlas@.width == width,
            atlas@.height == height,
            atlas@.current_x == 0,
            atlas@.current_y == 0,
            atlas@.row_height == 0,
            atlas@.data.len() == width * height,
            forall|i: int| 0 <= i < atlas@.data.len() ==> atlas@.data[i] == 0,
    {
        assert(0 <= width * height <= 0xffff_ffff * 0xffff_ffff) by (nonlinear_arith)
            requires
                0 <= width <= 0xffff_ffff,
                0 <= height <= 0xffff_ffff,
        ;
        let size: usize = ((width as u64) * (height as u64)) as usize;
        let mut data: Vec<u8> = Vec::new();
        let mut i: usize = 0;
        while i < size
            invariant
                i <= size,
                data@.len() == i,
                forall|j: int| 0 <= j < i ==> data@[j] == 0,
            decreases size - i,
        {
            data.push(0);
            i = i + 1;
        }
        TextureAtlas { width, height, current_x: 0, current_y: 0, row_height: 0, data }
    }

    /// Try to allocate space for a glyph in the atlas.
    /// Returns (x, y) position if successful.
    ///
    /// The glyph goes behind the glyphs of the current row, or to the start
    /// of a new row where it does not fit there. None where that row has
    /// no room for the height of the glyph.
    pub fn allocate(&mut self, width: u32, height: u32) -> (position: Option<(u32, u32)>)
        requires
            old(self)@.wf(),
        ensures
            final(self)@.wf(),
            final(self)@ == old(self)@.after_allocate(width, height),
            match position {
                Some((x, y)) => old(self)@.has_room(width, height) && x == old(self)@.column_of(
                    width,
                ) && y == old(self)@.row_of(width),
                None => !old(self)@.has_room(width, height),
            },
    {
        if (self.current_x as u64) + (width as u64) > (self.width as u64) {
            self.current_x = 0;
            self.current_y = self.current_y + self.row_height;
            self.row_height = 0;
        }
        if (self.current_y as u64) + (height as u64) > (self.height as u64) {
            return None;
        }
        let x = self.current_x;
        let y = self.current_y;
        self.current_x = self.current_x + width;
        if height > self.row_height {
            self.row_height = height;
        }
        Some((x, y))
    }

    /// A glyph that is no wider than the atlas and finds room lies inside
    /// the atlas, at or below the start of the current row.
    pub proof fn lemma_allocated_inside(before: AtlasView, width: u32, height: u32)
        requires
            before.wf(),
            before.current_x <= before.width,
            width <= before.width,
            before.has_room(width, height),
        ensures
            before.column_of(width) + width <= before.width,
            before.row_of(width) + height <= before.height,
            before.row_of(width) >= before.current_y,
            before.after_allocate(width, height).current_x <= before.width,
            before.after_allocate(width, height).wf(),
    {
    }

    /// Upload glyph bitmap data to the atlas: the rows of the bitmap, each
    /// `width` long, go to the rows of the texture from `(x, y)` on.
    pub fn upload_glyph(&mut self, x: u32, y: u32, width: u32, height: u32, data: &[u8])
        requires
            old(self)@.wf(),
        ensures
            final(self)@ == (AtlasView {
                data: uploaded(
                    old(self)@.data,
                    old(self)@.width as int,
                    x as int,
                    y as int,
                    width as int,
                    data@,
                    height as int,
                ),
                ..old(self)@
            }),
    {
        let ghost texture = self.data@;
        let mut row: u32 = 0;
        while row < height
            invariant
                row <= height,
                self.width == old(self).width,
                self.height == old(self).height,
                self.current_x == old(self).current_x,
                self.current_y == old(self).current_y,
                self.row_height == old(self).row_height,
                texture == old(self).data@,
                self.data@ == uploaded(
                    texture,
                    self.width as int,
                    x as int,
                    y as int,
                    width as int,
                    data@,
                    row as int,
                ),
            decreases height - row,
        {
            proof {
                lemma_uploaded_len(
                    texture,
                    self.width as int,
                    x as int,
                    y as int,
                    width as int,
                    data@,
                    row as int,
                );
                assert(0 <= row * width <= 0xffff_ffff * 0xffff_ffff) by (nonlinear_arith)
                    requires
                        0 <= row <= 0xffff_ffff,
                        0 <= width <= 0xffff_ffff,
                ;
                assert(0 <= (y + row) * self.width <= 0x1_ffff_fffe * 0xffff_ffff)
                    by (nonlinear_arith)
                    requires
                        0 <= y + row <= 0x1_ffff_fffe,
                        0 <= self.width <= 0xffff_ffff,
                ;
            }
            let src_start: u128 = (row as u128) * (width as u128);
            let src_end: u128 = src_start + (width as u128);
            let dst_start: u128 = ((y as u128) + (row as u128)) * (self.width as u128) + (x as u128);
            let dst_end: u128 = dst_start + (width as u128);
            if src_end <= data.len() as u128 && dst_end <= self.data.len() as u128 {
                let ghost before = self.data@;
                let src: usize = src_start as usize;
                let dst: usize = dst_start as usize;
                let mut column: usize = 0;
                while column < width as usize
                    invariant
                        column <= width,
                        src + width <= data@.len(),
                        dst + width <= self.data@.len(),
                        data@.len() <= usize::MAX,
                        self.data@.len() <= usize::MAX,
                        self.data@.len() == before.len(),
                        self.width == old(self).width,
                        self.height == old(self).height,
                        self.current_x == old(self).current_x,
                        self.current_y == old(self).current_y,
                        self.row_height == old(self).row_height,
                        forall|i: int|
                            0 <= i < before.len() ==> self.data@[i] == if dst <= i < dst + column {
                                data@[src + (i - dst)]
                            } else {
                                before[i]
                            },
                    decreases width - column,
                {
                    self.data.set(dst + column, data[src + column]);
                    column = column + 1;
                }
                assert(self.data@ =~= uploaded(
                    texture,
                    self.width as int,
                    x as int,
                    y as int,
                    width as int,
                    data@,
                    row as int + 1,
                ));
            }
            row = row + 1;
        }
    }

    /// Get the atlas texture data
    pub fn data(&self) -> (data: &[u8])
        ensures
            data@ == self@.data,
    {
        self.data.as_slice()
    }

    /// Get atlas dimensions
    pub fn dimensions(&self) -> (size: (u32, u32))
        ensures
            size == (self@.width, self@.height),
    {
        (self.width, self.height)
    }
}

/// Key for identifying a cached glyph
#[derive(Debug, Clone, Copy, PartialEq, Eq, Hash, Structural)]
pub struct GlyphKey {
    /// Character being rendered
    pub character: char,
    /// Font size in pixels
    pub size: u32,
    /// Font index (for multiple fonts)
    pub font_id: usize,
}

/// Information about a rasterized glyph in the atlas
#[derive(Debug, Clone, Copy, PartialEq, Eq, Structural)]
pub struct GlyphInfo {
    /// Position in atlas texture (pixels)
    pub atlas_x: u32,
    pub atlas_y: u32,
    /// Size of the glyph bitmap (pixels)
    pub width: u32,
    pub height: u32,
    /// Offset from the pen position to the top-left of the glyph
    pub bearing_x: i32,
    pub bearing_y: i32,
    /// Horizontal advance to the next glyph position, in layout units
    pub advance: i64,
}

/// What a rasterizer tells of a glyph beside its bitmap.
#[derive(Debug, Clone, Copy, PartialEq, Eq, Structural)]
pub struct GlyphMetrics {
    /// Size of the bitmap (pixels)
    pub width: u32,
    pub height: u32,
    /// Where the bitmap begins, from the pen position
    pub xmin: i32,
    pub ymin: i32,
    /// Horizontal advance to the next glyph position, in layout units
    pub advance_width: i64,
}

/// The place of the first glyph from `from` on that has a key, and the
/// number of glyphs where none has.
pub open spec fn glyph_at(glyphs: Seq<(GlyphKey, GlyphInfo)>, key: GlyphKey, from: int) -> int
    decreases glyphs.len() - from,
{
    if from < 0 || from >= glyphs.len() {
        glyphs.len() as int
    } else if glyphs[from].0 == key {
        from
    } else {
        glyph_at(glyphs, key, from + 1)
    }
}

proof fn lemma_glyph_at(glyphs: Seq<(GlyphKey, GlyphInfo)>, key: GlyphKey, from: int, passed: int)
    requires
        0 <= from <= passed <= glyphs.len(),
        forall|j: int| from <= j < passed ==> glyphs[j].0 != key,
    ensures
        glyph_at(glyphs, key, from) == glyph_at(glyphs, key, passed),
        passed < glyphs.len() && glyphs[passed].0 == key ==> glyph_at(glyphs, key, from) == passed,
        passed == glyphs.len() ==> glyph_at(glyphs, key, from) == glyphs.len(),
    decreases passed - from,
{
    if from < passed {
        lemma_glyph_at(glyphs, key, from + 1, passed);
    }
}

/// What is known of a glyph without a bitmap, such as a space.
pub open spec fn empty_glyph(metrics: GlyphMetrics) -> GlyphInfo {
    GlyphInfo {
        atlas_x: 0,
        atlas_y: 0,
        width: 0,
        height: 0,
        bearing_x: metrics.xmin,
        bearing_y: metrics.ymin,
        advance: metrics.advance_width,
    }
}

/// What is known of a glyph whose bitmap stands at a place of the atlas.
pub open spec fn placed_glyph(metrics: GlyphMetrics, x: u32, y: u32) -> GlyphInfo {
    GlyphInfo {
        atlas_x: x,
        atlas_y: y,
        width: metrics.width,
        height: metrics.height,
        bearing_x: metrics.xmin,
        bearing_y: metrics.ymin,
        advance: metrics.advance_width,
    }
}

/// Glyph cache with texture atlas. The fonts themselves are the
/// rasterizer's; the cache counts them.
pub struct GlyphCache {
    /// Texture atlas for all glyphs
    atlas: TextureAtlas,
    /// Cached glyph information, in the order in which the glyphs came
    glyphs: Vec<(GlyphKey, GlyphInfo)>,
    /// The number of registered fonts
    font_count: usize,
    /// Whether atlas has been modified since last upload
    dirty: bool,
}

/// A glyph cache as a mathematical value.
pub struct GlyphCacheView {
    pub atlas: AtlasView,
    pub glyphs: Seq<(GlyphKey, GlyphInfo)>,
    pub font_count: usize,
    pub dirty: bool,
}

impl GlyphCacheView {
    /// Whether a glyph is cached.
    pub open spec fn has(self, key: GlyphKey) -> bool {
        glyph_at(self.glyphs, key, 0) < self.glyphs.len()
    }

    /// What the cache knows of a glyph.
    pub open spec fn info(self, key: GlyphKey) -> GlyphInfo {
        self.glyphs[glyph_at(self.glyphs, key, 0)].1
    }

    /// Whether a glyph has to be rasterized: it is not cached, and its
    /// font is registered.
    pub open spec fn wants(self, key: GlyphKey) -> bool {
        !self.has(key) && key.font_id < self.font_count
    }

    /// The cache after a glyph that it wanted was rasterized. One without
    /// a bitmap is noted. One with a bitmap is given room in the atlas
    /// and put there, and the atlas is dirty; where it finds no room, it
    /// is not noted, though a new row may have been begun.
    pub open spec fn with_rasterized(self, key: GlyphKey, metrics: GlyphMetrics, bitmap: Seq<u8>) -> GlyphCacheView {
        if !self.wants(key) {
            self
        } else if bitmap.len() == 0 {
            GlyphCacheView { glyphs: self.glyphs.push((key, empty_glyph(metrics))), ..self }
        } else if self.atlas.has_room(metrics.width, metrics.height) {
            let x = self.atlas.column_of(metrics.width) as u32;
            let y = self.atlas.row_of(metrics.width) as u32;
            GlyphCacheView {
                atlas: AtlasView {
                    data: uploaded(
                        self.atlas.data,
                        self.atlas.width as int,
                        x as int,
                        y as int,
                        metrics.width as int,
                        bitmap,
                        metrics.height as int,
                    ),
                    ..self.atlas.after_allocate(metrics.width, metrics.height)
                },
                glyphs: self.glyphs.push((key, placed_glyph(metrics, x, y))),
                dirty: true,
                ..self
            }
        } else {
            GlyphCacheView {
                atlas: self.atlas.after_allocate(metrics.width, metrics.height),
                ..self
            }
        }
    }

    /// What is told of a glyph that was handed in: what the cache knows
    /// of it afterwards, if anything.
    pub open spec fn told(self, key: GlyphKey, metrics: GlyphMetrics, bitmap: Seq<u8>) -> Option<GlyphInfo> {
        if self.has(key) {
            Some(self.info(key))
        } else if key.font_id >= self.font_count {
            None
        } else if bitmap.len() == 0 {
            Some(empty_glyph(metrics))
        } else if self.atlas.has_room(metrics.width, metrics.height) {
            Some(
                placed_glyph(
                    metrics,
                    self.atlas.column_of(metrics.width) as u32,
                    self.atlas.row_of(metrics.width) as u32,
                ),
            )
        } else {
            None
        }
    }
}

impl View for GlyphCache {
    type V = GlyphCacheView;

    closed spec fn view(&self) -> GlyphCacheView {
        GlyphCacheView {
            atlas: self.atlas@,
            glyphs: self.glyphs@,
            font_count: self.font_count,
            dirty: self.dirty,
        }
    }
}

impl GlyphCache {
    /// Create a new glyph cache with specified atlas size
    pub fn new(atlas_width: u32, atlas_height: u32) -> (cache: Self)
        requires
            atlas_width * atlas_height <= usize::MAX,
        ensures
            cache@.atlas.wf(),
            cache@.atlas.width == atlas_width,
            cache@.atlas.height == atlas_height,
            cache@.glyphs.len() == 0,
            cache@.font_count == 0,
            !cache@.dirty,
    {
        GlyphCache {
            atlas: TextureAtlas::new(atlas_width, atlas_height),
            glyphs: Vec::new(),
            font_count: 0,
            dirty: false,
        }
    }

    /// Register a font and return its ID: the number of fonts that were
    /// registered before it.
    pub fn register_font(&mut self) -> (id: usize)
        requires
            old(self)@.font_count < usize::MAX,
        ensures
            id == old(self)@.font_count,
            final(self)@ == (GlyphCacheView { font_count: (id + 1) as usize, ..old(self)@ }),
    {
        let id = self.font_count;
        self.font_count = self.font_count + 1;
        id
    }

    /// The place of a glyph, and the number of glyphs where it is not
    /// cached.
    fn position(&self, key: &GlyphKey) -> (at: usize)
        ensures
            at == glyph_at(self@.glyphs, *key, 0),
            at <= self.glyphs@.len(),
    {
        let mut i: usize = 0;
        while i < self.glyphs.len() && !(self.glyphs[i].0.character == key.character
            && self.glyphs[i].0.size == key.size && self.glyphs[i].0.font_id == key.font_id)
            invariant
                i <= self.glyphs@.len(),
                forall|j: int| 0 <= j < i ==> self.glyphs@[j].0 != *key,
            decreases self.glyphs@.len() - i,
        {
            i = i + 1;
        }
        proof {
            lemma_glyph_at(self.glyphs@, *key, 0, i as int);
        }
        i
    }

    /// What the cache knows of a glyph.
    pub fn get(&self, key: GlyphKey) -> (info: Option<GlyphInfo>)
        ensures
            info == if self@.has(key) {
                Some(self@.info(key))
            } else {
                None
            },
    {
        let at = self.position(&key);
        if at < self.glyphs.len() {
            Some(self.glyphs[at].1)
        } else {
            None
        }
    }

    /// Whether a glyph has to be rasterized.
    pub fn wants(&self, key: GlyphKey) -> (wanted: bool)
        ensures
            wanted == self@.wants(key),
    {
        self.position(&key) >= self.glyphs.len() && key.font_id < self.font_count
    }

    /// Takes in a glyph as the rasterizer gave it, and tells what the
    /// cache knows of it afterwards. A glyph that is cached stays as it
    /// is; one of a font that is not registered is left out.
    pub fn insert_rasterized(&mut self, key: GlyphKey, metrics: GlyphMetrics, bitmap: &[u8]) -> (info:
        Option<GlyphInfo>)
        requires
            old(self)@.atlas.wf(),
        ensures
            final(self)@.atlas.wf(),
            final(self)@ == old(self)@.with_rasterized(key, metrics, bitmap@),
            info == old(self)@.told(key, metrics, bitmap@),
    {
        let at = self.position(&key);
        if at < self.glyphs.len() {
            return Some(self.glyphs[at].1);
        }
        if key.font_id >= self.font_count {
            return None;
        }
        if bitmap.len() == 0 {
            let info = GlyphInfo {
                atlas_x: 0,
                atlas_y: 0,
                width: 0,
                height: 0,
                bearing_x: metrics.xmin,
                bearing_y: metrics.ymin,
                advance: metrics.advance_width,
            };
            self.glyphs.push((key, info));
            return Some(info);
        }
        match self.atlas.allocate(metrics.width, metrics.height) {
            Some((atlas_x, atlas_y)) => {
                let ghost texture = self.atlas@.data;
                self.atlas.upload_glyph(atlas_x, atlas_y, metrics.width, metrics.height, bitmap);
                proof {
                    lemma_uploaded_len(
                        texture,
                        self.atlas@.width as int,
                        atlas_x as int,
                        atlas_y as int,
                        metrics.width as int,
                        bitmap@,
                        metrics.height as int,
                    );
                }
                let info = GlyphInfo {
                    atlas_x,
                    atlas_y,
                    width: metrics.width,
                    height: metrics.height,
                    bearing_x: metrics.xmin,
                    bearing_y: metrics.ymin,
                    advance: metrics.advance_width,
                };
                self.glyphs.push((key, info));
                self.dirty = true;
                Some(info)
            },
            None => None,
        }
    }

    /// Get the atlas texture data
    pub fn atlas_data(&self) -> (data: &[u8])
        ensures
            data@ == self@.atlas.data,
    {
        self.atlas.data()
    }

    /// Get atlas dimensions
    pub fn atlas_dimensions(&self) -> (size: (u32, u32))
        ensures
            size == (self@.atlas.width, self@.atlas.height),
    {
        self.atlas.dimensions()
    }

    /// Check if atlas has been updated
    pub fn is_dirty(&self) -> (dirty: bool)
        ensures
            dirty == self@.dirty,
    {
        self.dirty
    }

    /// Mark atlas as clean (after GPU upload)
    pub fn mark_clean(&mut self)
        ensures
            final(self)@ == (GlyphCacheView { dirty: false, ..old(self)@ }),
    {
        self.dirty = false;
    }

    /// Get number of cached glyphs
    pub fn glyph_count(&self) -> (count: usize)
        ensures
            count == self@.glyphs.len(),
    {
        self.glyphs.len()
    }
}

} // verus!
