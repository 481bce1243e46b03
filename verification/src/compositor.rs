//! The compositor: layers cut into tiles, the tiles of each layer that
//! have to be painted again, and the order in which layers are painted.
//! Lengths are whole layout units; opacity and scale are given in
//! thousandths.

use vstd::prelude::*;
use crate::layout::Rect;

verus! {

/// Tile size for rendering (256x256 is a common choice)
pub const TILE_SIZE: i64 = 256;

/// The number that stands for 1 where a value is given in thousandths.
pub const THOUSAND: i64 = 1000;

/// The most that a tile coordinate can be.
pub const LAST_TILE: u32 = 0xffff_ffff;

/// Unique layer identifier
pub type LayerId = u64;

/// Layer transform
#[derive(Debug, Clone, Copy, PartialEq, Eq, Structural)]
pub struct Transform {
    /// Translation
    pub translate_x: i64,
    pub translate_y: i64,
    /// Scale, in thousandths
    pub scale_x: i64,
    pub scale_y: i64,
}

/// A coordinate scaled and then moved; the scaled coordinate is rounded
/// down.
pub open spec fn transformed(v: i64, scale: i64, translate: i64) -> int {
    v * scale / (THOUSAND as int) + translate
}

impl Default for Transform {
    /// The transform that changes nothing.
    fn default() -> (transform: Self)
        ensures
            transform == (Transform {
                translate_x: 0,
                translate_y: 0,
                scale_x: THOUSAND,
                scale_y: THOUSAND,
            }),
    {
        Transform { translate_x: 0, translate_y: 0, scale_x: THOUSAND, scale_y: THOUSAND }
    }
}

impl Transform {
    /// Create identity transform
    pub fn identity() -> (transform: Self)
        ensures
            transform == (Transform {
                translate_x: 0,
                translate_y: 0,
                scale_x: THOUSAND,
                scale_y: THOUSAND,
            }),
    {
        Transform { translate_x: 0, translate_y: 0, scale_x: THOUSAND, scale_y: THOUSAND }
    }

    /// Whether a point can be transformed: the result are two `i64`.
    pub open spec fn can_apply(&self, x: i64, y: i64) -> bool {
        &&& i64::MIN <= transformed(x, self.scale_x, self.translate_x) <= i64::MAX
        &&& i64::MIN <= transformed(y, self.scale_y, self.translate_y) <= i64::MAX
    }

    /// Apply transform to a point
    pub fn apply(&self, x: i64, y: i64) -> (point: (i64, i64))
        requires
            self.can_apply(x, y),
        ensures
            point.0 == transformed(x, self.scale_x, self.translate_x),
            point.1 == transformed(y, self.scale_y, self.translate_y),
    {
        (scale_and_move(x, self.scale_x, self.translate_x), scale_and_move(
            y,
            self.scale_y,
            self.translate_y,
        ))
    }

    /// Apply transform to a point, where the result are two `i64`.
    pub fn try_apply(&self, x: i64, y: i64) -> (point: Option<(i64, i64)>)
        ensures
            match point {
                Some(p) => self.can_apply(x, y) && p.0 == transformed(
                    x,
                    self.scale_x,
                    self.translate_x,
                ) && p.1 == transformed(y, self.scale_y, self.translate_y),
                None => !self.can_apply(x, y),
            },
    {
        let moved_x = scaled(x, self.scale_x) + self.translate_x as i128;
        let moved_y = scaled(y, self.scale_y) + self.translate_y as i128;
        if moved_x < i64::MIN as i128 || moved_x > i64::MAX as i128 || moved_y < i64::MIN as i128
            || moved_y > i64::MAX as i128 {
            None
        } else {
            Some((moved_x as i64, moved_y as i64))
        }
    }
}

/// A coordinate times a scale in thousandths, rounded down.
fn scaled(v: i64, scale: i64) -> (r: i128)
    ensures
        r == v * scale / (THOUSAND as int),
        -0x4000_0000_0000_0000_0000_0000_0000_0000 <= r <= 0x4000_0000_0000_0000_0000_0000_0000_0000,
{
    assert(-0x4000_0000_0000_0000_0000_0000_0000_0000 <= v * scale
        <= 0x4000_0000_0000_0000_0000_0000_0000_0000) by (nonlinear_arith)
        requires
            -0x8000_0000_0000_0000 <= v <= 0x8000_0000_0000_0000,
            -0x8000_0000_0000_0000 <= scale <= 0x8000_0000_0000_0000,
    ;
    let product: i128 = v as i128 * scale as i128;
    let quotient = product / 1000;
    let remainder = product % 1000;
    if remainder < 0 {
        quotient - 1
    } else {
        quotient
    }
}

/// A coordinate scaled and moved.
fn scale_and_move(v: i64, scale: i64, translate: i64) -> (r: i64)
    requires
        i64::MIN <= transformed(v, scale, translate) <= i64::MAX,
    ensures
        r == transformed(v, scale, translate),
{
    (scaled(v, scale) + translate as i128) as i64
}

/// Tile coordinate (x, y in tile space)
#[derive(Debug, Clone, Copy, PartialEq, Eq, Hash, Structural)]
pub struct TileCoord {
    pub x: u32,
    pub y: u32,
}

/// The tile in which a coordinate lies along one axis: the coordinate
/// over the tile size, rounded down, and held to what a tile coordinate
/// can be.
pub open spec fn tile_floor(v: int) -> u32 {
    if v < 0 {
        0
    } else if v / (TILE_SIZE as int) > LAST_TILE {
        LAST_TILE
    } else {
        (v / (TILE_SIZE as int)) as u32
    }
}

/// The first tile that begins at or behind a coordinate along one axis:
/// the coordinate over the tile size, rounded up, and held to what a
/// tile coordinate can be.
pub open spec fn tile_ceil(v: int) -> u32 {
    if v <= 0 {
        0
    } else if (v + TILE_SIZE - 1) / (TILE_SIZE as int) > LAST_TILE {
        LAST_TILE
    } else {
        ((v + TILE_SIZE - 1) / (TILE_SIZE as int)) as u32
    }
}

/// The tile in which a coordinate lies along one axis.
fn floor_tile(v: i128) -> (tile: u32)
    ensures
        tile == tile_floor(v as int),
{
    if v < 0 {
        0
    } else {
        let q = v / 256;
        if q > LAST_TILE as i128 {
            LAST_TILE
        } else {
            q as u32
        }
    }
}

/// The first tile that begins at or behind a coordinate along one axis.
fn ceil_tile(v: i128) -> (tile: u32)
    requires
        v <= 0x1_0000_0000_0000_0000,
    ensures
        tile == tile_ceil(v as int),
{
    if v <= 0 {
        0
    } else {
        let q = (v + 255) / 256;
        if q > LAST_TILE as i128 {
            LAST_TILE
        } else {
            q as u32
        }
    }
}

impl TileCoord {
    /// The rectangle that a tile covers.
    pub open spec fn rect(self) -> Rect {
        Rect {
            x: (self.x * TILE_SIZE) as i64,
            y: (self.y * TILE_SIZE) as i64,
            width: TILE_SIZE,
            height: TILE_SIZE,
        }
    }

    /// Create tile coord from pixel position
    pub fn from_pixel(x: i64, y: i64) -> (coord: Self)
        ensures
            coord == (TileCoord { x: tile_floor(x as int), y: tile_floor(y as int) }),
    {
        TileCoord { x: floor_tile(x as i128), y: floor_tile(y as i128) }
    }

    /// Get pixel bounds of this tile
    pub fn to_rect(&self) -> (rect: Rect)
        ensures
            rect == self.rect(),
    {
        Rect {
            x: self.x as i64 * TILE_SIZE,
            y: self.y as i64 * TILE_SIZE,
            width: TILE_SIZE,
            height: TILE_SIZE,
        }
    }
}

/// A rendered tile
#[derive(Debug, Clone, Copy, PartialEq, Eq, Structural)]
pub struct Tile {
    pub coord: TileCoord,
    pub rendered: bool,
    pub version: u32,
}

/// The tiles of row `y` from column `from` up to, not including, `to`.
pub open spec fn tile_row(from: int, to: int, y: u32) -> Seq<TileCoord>
    decreases to - from,
{
    if to <= from {
        Seq::empty()
    } else {
        tile_row(from, to - 1, y).push(TileCoord { x: (to - 1) as u32, y })
    }
}

/// The tiles of the rows from `y0` up to, not including, `y1`, each from
/// column `x0` up to, not including, `x1`: row by row, each from left to
/// right.
pub open spec fn tile_grid(x0: int, x1: int, y0: int, y1: int) -> Seq<TileCoord>
    decreases y1 - y0,
{
    if y1 <= y0 {
        Seq::empty()
    } else {
        tile_grid(x0, x1, y0, y1 - 1) + tile_row(x0, x1, (y1 - 1) as u32)
    }
}

/// The tiles of a grid.
fn tiles_between(x0: u32, x1: u64, y0: u32, y1: u64) -> (tiles: Vec<TileCoord>)
    requires
        x1 <= 0x1_0000_0000,
        y1 <= 0x1_0000_0000,
    ensures
        tiles@ == tile_grid(x0 as int, x1 as int, y0 as int, y1 as int),
{
    let mut tiles: Vec<TileCoord> = Vec::new();
    let mut y: u64 = y0 as u64;
    while y < y1
        invariant
            y0 <= y,
            y <= y1 || y1 <= y0,
            y1 <= y0 ==> y == y0,
            x1 <= 0x1_0000_0000,
            y1 <= 0x1_0000_0000,
            tiles@ == tile_grid(x0 as int, x1 as int, y0 as int, y as int),
        decreases y1 - y,
    {
        let ghost before = tiles@;
        let mut x: u64 = x0 as u64;
        while x < x1
            invariant
                x0 <= x,
                x <= x1 || x1 <= x0,
                x1 <= x0 ==> x == x0,
                x1 <= 0x1_0000_0000,
                y < 0x1_0000_0000,
                tiles@ == before + tile_row(x0 as int, x as int, y as u32),
            decreases x1 - x,
        {
            tiles.push(TileCoord { x: x as u32, y: y as u32 });
            assert(tiles@ =~= before + tile_row(x0 as int, x as int + 1, y as u32));
            x = x + 1;
        }
        proof {
            if x1 <= x0 {
                assert(tile_row(x0 as int, x as int, y as u32) =~= tile_row(
                    x0 as int,
                    x1 as int,
                    y as u32,
                ));
            }
        }
        y = y + 1;
    }
    proof {
        if y1 <= y0 {
            assert(tile_grid(x0 as int, x1 as int, y0 as int, y as int) =~= tile_grid(
                x0 as int,
                x1 as int,
                y0 as int,
                y1 as int,
            ));
        }
    }
    tiles
}

/// The right edge of a rectangle.
fn right_of(r: &Rect) -> (right: i128)
    ensures
        right == r.x + r.width,
{
    r.x as i128 + r.width as i128
}

/// The bottom edge of a rectangle.
fn bottom_of(r: &Rect) -> (bottom: i128)
    ensures
        bottom == r.y + r.height,
{
    r.y as i128 + r.height as i128
}

/// The tiles that a layer with these bounds is cut into: from the tile
/// in which the bounds begin to the last in which they lie.
pub open spec fn tiles_of(bounds: Rect) -> Seq<TileCoord> {
    tile_grid(
        tile_floor(bounds.x as int) as int,
        tile_ceil(bounds.x + bounds.width) as int,
        tile_floor(bounds.y as int) as int,
        tile_ceil(bounds.y + bounds.height) as int,
    )
}

/// The tiles that a rectangle touches: from the tile in which it begins
/// to the tile in which it ends, that one included.
pub open spec fn tiles_touched(rect: Rect) -> Seq<TileCoord> {
    tile_grid(
        tile_floor(rect.x as int) as int,
        tile_floor(rect.x + rect.width) + 1,
        tile_floor(rect.y as int) as int,
        tile_floor(rect.y + rect.height) + 1,
    )
}

/// The damaged tiles after the first `k` of some tiles were damaged:
/// each that was not among them stands behind them.
pub open spec fn damaged_with(damaged: Seq<TileCoord>, tiles: Seq<TileCoord>, k: int) -> Seq<
    TileCoord,
>
    decreases k,
{
    if k <= 0 || k > tiles.len() {
        damaged
    } else {
        let before = damaged_with(damaged, tiles, k - 1);
        if before.contains(tiles[k - 1]) {
            before
        } else {
            before.push(tiles[k - 1])
        }
    }
}

/// The first `k` of the damaged tiles without a tile.
pub open spec fn damaged_without(damaged: Seq<TileCoord>, tile: TileCoord, k: int) -> Seq<TileCoord>
    decreases k,
{
    if k <= 0 || k > damaged.len() {
        Seq::empty()
    } else if damaged[k - 1] == tile {
        damaged_without(damaged, tile, k - 1)
    } else {
        damaged_without(damaged, tile, k - 1).push(damaged[k - 1])
    }
}

/// The tiles as they are when a layer is made: not rendered, in their
/// first version.
pub open spec fn fresh_tiles(coords: Seq<TileCoord>) -> Seq<Tile> {
    Seq::new(coords.len(), |i: int| Tile { coord: coords[i], rendered: false, version: 0 })
}

/// The place of the first of the tiles from `from` on that has a
/// coordinate, and the number of tiles where none has.
pub open spec fn tile_at(tiles: Seq<Tile>, coord: TileCoord, from: int) -> int
    decreases tiles.len() - from,
{
    if from < 0 || from >= tiles.len() {
        tiles.len() as int
    } else if tiles[from].coord == coord {
        from
    } else {
        tile_at(tiles, coord, from + 1)
    }
}

/// A tile after it was rendered once more. The version counts the
/// renderings, as far as a `u32` counts.
pub open spec fn rendered_again(tile: Tile) -> Tile {
    Tile {
        rendered: true,
        version: if tile.version < LAST_TILE {
            (tile.version + 1) as u32
        } else {
            tile.version
        },
        ..tile
    }
}

/// The tiles after the one with a coordinate was rendered.
pub open spec fn tiles_rendered(tiles: Seq<Tile>, coord: TileCoord) -> Seq<Tile> {
    let at = tile_at(tiles, coord, 0);
    if at < tiles.len() {
        tiles.update(at, rendered_again(tiles[at]))
    } else {
        tiles
    }
}

/// Whether one of the tiles has a coordinate and is rendered.
pub open spec fn is_rendered(tiles: Seq<Tile>, coord: TileCoord) -> bool {
    exists|i: int| 0 <= i < tiles.len() && (#[trigger] tiles[i]).coord == coord && tiles[i].rendered
}

proof fn lemma_tile_at(tiles: Seq<Tile>, coord: TileCoord, from: int, passed: int)
    requires
        0 <= from <= passed <= tiles.len(),
        forall|j: int| from <= j < passed ==> tiles[j].coord != coord,
    ensures
        tile_at(tiles, coord, from) == tile_at(tiles, coord, passed),
        passed < tiles.len() && tiles[passed].coord == coord ==> tile_at(tiles, coord, from)
            == passed,
        passed == tiles.len() ==> tile_at(tiles, coord, from) == tiles.len(),
    decreases passed - from,
{
    if from < passed {
        lemma_tile_at(tiles, coord, from + 1, passed);
    }
}

/// Whether a tile is among some.
fn holds_tile(tiles: &Vec<TileCoord>, tile: TileCoord) -> (held: bool)
    ensures
        held == tiles@.contains(tile),
{
    let mut i: usize = 0;
    while i < tiles.len()
        invariant
            i <= tiles@.len(),
            forall|j: int| 0 <= j < i ==> tiles@[j] != tile,
        decreases tiles@.len() - i,
    {
        if tiles[i].x == tile.x && tiles[i].y == tile.y {
            assert(tiles@[i as int] == tile);
            return true;
        }
        i = i + 1;
    }
    false
}

/// Whether bounds lie in a viewport in more than an edge.
pub open spec fn overlaps(bounds: Rect, viewport: Rect) -> bool {
    &&& bounds.x < viewport.x + viewport.width
    &&& bounds.x + bounds.width > viewport.x
    &&& bounds.y < viewport.y + viewport.height
    &&& bounds.y + bounds.height > viewport.y
}

/// The tiles of a layer with these bounds that a viewport shows: from the
/// tile in which the viewport begins (not before the origin) to the tile
/// in which the viewport or the layer ends, whichever comes first.
pub open spec fn tiles_shown(bounds: Rect, viewport: Rect) -> Seq<TileCoord> {
    let right = if viewport.x + viewport.width <= bounds.x + bounds.width {
        viewport.x + viewport.width
    } else {
        bounds.x + bounds.width
    };
    let bottom = if viewport.y + viewport.height <= bounds.y + bounds.height {
        viewport.y + viewport.height
    } else {
        bounds.y + bounds.height
    };
    tile_grid(
        tile_floor(viewport.x as int) as int,
        tile_floor(right) + 1,
        tile_floor(viewport.y as int) as int,
        tile_floor(bottom) + 1,
    )
}

/// A layer as a mathematical value.
pub struct LayerView {
    pub id: LayerId,
    pub bounds: Rect,
    pub z_index: i32,
    pub opacity: i64,
    pub transform: Transform,
    pub visible: bool,
    pub damaged: Seq<TileCoord>,
    pub tiles: Seq<Tile>,
    pub parent_id: Option<LayerId>,
    pub children: Seq<LayerId>,
}

impl LayerView {
    /// The layer as it is made: visible, opaque, untransformed, without
    /// parent or children, with all its tiles damaged.
    pub open spec fn fresh(id: LayerId, bounds: Rect) -> LayerView {
        LayerView {
            id,
            bounds,
            z_index: 0,
            opacity: THOUSAND,
            transform: Transform {
                translate_x: 0,
                translate_y: 0,
                scale_x: THOUSAND,
                scale_y: THOUSAND,
            },
            visible: true,
            damaged: damaged_with(Seq::empty(), tiles_of(bounds), tiles_of(bounds).len() as int),
            tiles: fresh_tiles(tiles_of(bounds)),
            parent_id: None,
            children: Seq::empty(),
        }
    }

    /// The layer after a region was damaged.
    pub open spec fn damaged_by(self, rect: Rect) -> LayerView {
        LayerView {
            damaged: damaged_with(
                self.damaged,
                tiles_touched(rect),
                tiles_touched(rect).len() as int,
            ),
            ..self
        }
    }

    /// The layer after tiles were marked as rendered.
    pub open spec fn rendered(self, coords: Seq<TileCoord>) -> LayerView {
        LayerView {
            damaged: marked(self.damaged, self.tiles, coords, coords.len() as int).0,
            tiles: marked(self.damaged, self.tiles, coords, coords.len() as int).1,
            ..self
        }
    }

    /// The layer without damage.
    pub open spec fn undamaged(self) -> LayerView {
        LayerView { damaged: Seq::empty(), ..self }
    }
}

/// A single compositing layer
#[derive(Debug)]
pub struct Layer {
    /// Unique identifier for this layer
    pub id: LayerId,
    /// Layer bounds in document coordinates
    pub bounds: Rect,
    /// Z-index for stacking
    pub z_index: i32,
    /// Opacity, in thousandths (0 to 1000)
    pub opacity: i64,
    /// Transform (for future CSS transforms)
    pub transform: Transform,
    /// Whether this layer is visible
    pub visible: bool,
    /// Damaged tiles that need repainting, each once, in the order in
    /// which they were damaged
    pub damaged_tiles: Vec<TileCoord>,
    /// Cached tile data
    pub tiles: Vec<Tile>,
    /// Parent layer ID (for hierarchical compositing)
    pub parent_id: Option<LayerId>,
    /// Child layer IDs
    pub children: Vec<LayerId>,
}

impl View for Layer {
    type V = LayerView;

    open spec fn view(&self) -> LayerView {
        LayerView {
            id: self.id,
            bounds: self.bounds,
            z_index: self.z_index,
            opacity: self.opacity,
            transform: self.transform,
            visible: self.visible,
            damaged: self.damaged_tiles@,
            tiles: self.tiles@,
            parent_id: self.parent_id,
            children: self.children@,
        }
    }
}

impl Layer {
    /// The damaged tiles, in the order in which they were damaged.
    pub open spec fn damaged(&self) -> Seq<TileCoord> {
        self.damaged_tiles@
    }

    /// The tiles that the layer is cut into.
    pub open spec fn cached(&self) -> Seq<Tile> {
        self.tiles@
    }

    /// Whether the rest of the layer is the same as that of another.
    pub open spec fn same_frame(&self, other: &Layer) -> bool {
        &&& self.id == other.id
        &&& self.bounds == other.bounds
        &&& self.z_index == other.z_index
        &&& self.opacity == other.opacity
        &&& self.transform == other.transform
        &&& self.visible == other.visible
        &&& self.parent_id == other.parent_id
        &&& self.children == other.children
    }

    /// Whether the layer lies in the viewport in more than an edge.
    pub open spec fn in_view(&self, viewport: Rect) -> bool {
        overlaps(self.bounds, viewport)
    }

    /// The tiles of the layer that a viewport shows.
    pub open spec fn tiles_in_view(&self, viewport: Rect) -> Seq<TileCoord> {
        tiles_shown(self.bounds, viewport)
    }

    /// Create a new layer: visible, opaque, untransformed, without parent
    /// or children, with all its tiles damaged.
    pub fn new(id: LayerId, bounds: Rect) -> (layer: Self)
        ensures
            layer@ == LayerView::fresh(id, bounds),
    {
        let coords = tiles_between(
            floor_tile(bounds.x as i128),
            ceil_tile(right_of(&bounds)) as u64,
            floor_tile(bounds.y as i128),
            ceil_tile(bottom_of(&bounds)) as u64,
        );
        let mut tiles: Vec<Tile> = Vec::new();
        let mut damaged_tiles: Vec<TileCoord> = Vec::new();
        let mut i: usize = 0;
        while i < coords.len()
            invariant
                i <= coords@.len(),
                tiles@.len() == i,
                forall|j: int|
                    0 <= j < i ==> #[trigger] tiles@[j] == (Tile {
                        coord: coords@[j],
                        rendered: false,
                        version: 0,
                    }),
                damaged_tiles@ == damaged_with(Seq::empty(), coords@, i as int),
            decreases coords@.len() - i,
        {
            tiles.push(Tile { coord: coords[i], rendered: false, version: 0 });
            if !holds_tile(&damaged_tiles, coords[i]) {
                damaged_tiles.push(coords[i]);
            }
            i = i + 1;
        }
        assert(tiles@ =~= fresh_tiles(coords@));
        let children: Vec<LayerId> = Vec::new();
        assert(children@ =~= Seq::<LayerId>::empty());
        Layer {
            id,
            bounds,
            z_index: 0,
            opacity: THOUSAND,
            transform: Transform::identity(),
            visible: true,
            damaged_tiles,
            tiles,
            parent_id: None,
            children,
        }
    }

    /// Mark a region as damaged (needs repaint): every tile that the
    /// region touches is damaged.
    pub fn damage(&mut self, rect: &Rect)
        ensures
            final(self).same_frame(old(self)),
            final(self)@ == old(self)@.damaged_by(*rect),
    {
        let coords = tiles_between(
            floor_tile(rect.x as i128),
            floor_tile(right_of(rect)) as u64 + 1,
            floor_tile(rect.y as i128),
            floor_tile(bottom_of(rect)) as u64 + 1,
        );
        let mut i: usize = 0;
        while i < coords.len()
            invariant
                i <= coords@.len(),
                self.same_frame(old(self)),
                self.tiles == old(self).tiles,
                self.damaged_tiles@ == damaged_with(old(self).damaged_tiles@, coords@, i as int),
            decreases coords@.len() - i,
        {
            if !holds_tile(&self.damaged_tiles, coords[i]) {
                self.damaged_tiles.push(coords[i]);
            }
            i = i + 1;
        }
    }

    /// Get all damaged tiles
    pub fn damaged_tiles(&self) -> (tiles: Vec<TileCoord>)
        ensures
            tiles@ == self.damaged(),
    {
        let mut tiles: Vec<TileCoord> = Vec::new();
        let mut i: usize = 0;
        while i < self.damaged_tiles.len()
            invariant
                i <= self.damaged_tiles@.len(),
                tiles@ == self.damaged_tiles@.subrange(0, i as int),
            decreases self.damaged_tiles@.len() - i,
        {
            tiles.push(self.damaged_tiles[i]);
            assert(tiles@ =~= self.damaged_tiles@.subrange(0, i as int + 1));
            i = i + 1;
        }
        assert(self.damaged_tiles@.subrange(0, self.damaged_tiles@.len() as int)
            =~= self.damaged_tiles@);
        tiles
    }

    /// Whether a tile is damaged.
    pub fn is_damaged(&self, coord: TileCoord) -> (damaged: bool)
        ensures
            damaged == self.damaged().contains(coord),
    {
        holds_tile(&self.damaged_tiles, coord)
    }

    /// Whether any tile is damaged.
    pub fn has_damage(&self) -> (any: bool)
        ensures
            any == (self.damaged().len() > 0),
    {
        self.damaged_tiles.len() > 0
    }

    /// Mark one tile as rendered: it is damaged no more, and the first
    /// tile of the layer at that place counts one more rendering.
    pub fn mark_tile_rendered(&mut self, coord: TileCoord)
        ensures
            final(self).same_frame(old(self)),
            final(self).damaged() == damaged_without(
                old(self).damaged(),
                coord,
                old(self).damaged().len() as int,
            ),
            final(self).cached() == tiles_rendered(old(self).cached(), coord),
    {
        let mut kept: Vec<TileCoord> = Vec::new();
        let mut i: usize = 0;
        while i < self.damaged_tiles.len()
            invariant
                i <= self.damaged_tiles@.len(),
                *self == *old(self),
                kept@ == damaged_without(self.damaged_tiles@, coord, i as int),
            decreases self.damaged_tiles@.len() - i,
        {
            let tile = self.damaged_tiles[i];
            if !(tile.x == coord.x && tile.y == coord.y) {
                kept.push(tile);
            }
            i = i + 1;
        }
        self.damaged_tiles = kept;
        let mut at: usize = 0;
        while at < self.tiles.len() && !(self.tiles[at].coord.x == coord.x
            && self.tiles[at].coord.y == coord.y)
            invariant
                at <= self.tiles@.len(),
                self.tiles == old(self).tiles,
                forall|j: int| 0 <= j < at ==> self.tiles@[j].coord != coord,
            decreases self.tiles@.len() - at,
        {
            at = at + 1;
        }
        proof {
            lemma_tile_at(self.tiles@, coord, 0, at as int);
        }
        if at < self.tiles.len() {
            let tile = self.tiles[at];
            let version = if tile.version < LAST_TILE {
                tile.version + 1
            } else {
                tile.version
            };
            self.tiles.set(at, Tile { coord: tile.coord, rendered: true, version });
        }
    }

    /// Mark tiles as rendered (no longer damaged), one after the other.
    pub fn mark_tiles_rendered(&mut self, coords: &[TileCoord])
        ensures
            final(self).same_frame(old(self)),
            final(self)@ == old(self)@.rendered(coords@),
    {
        let mut i: usize = 0;
        while i < coords.len()
            invariant
                i <= coords@.len(),
                self.same_frame(old(self)),
                self.damaged() == marked(old(self).damaged(), old(self).cached(), coords@, i as int).0,
                self.cached() == marked(old(self).damaged(), old(self).cached(), coords@, i as int).1,
            decreases coords@.len() - i,
        {
            self.mark_tile_rendered(coords[i]);
            i = i + 1;
        }
    }

    /// Clear all damage
    pub fn clear_damage(&mut self)
        ensures
            final(self).same_frame(old(self)),
            final(self)@ == old(self)@.undamaged(),
    {
        self.damaged_tiles.clear();
        assert(self.damaged_tiles@ =~= Seq::<TileCoord>::empty());
    }

    /// Check if layer intersects with viewport
    pub fn intersects_viewport(&self, viewport: &Rect) -> (intersects: bool)
        ensures
            intersects == self.in_view(*viewport),
    {
        (self.bounds.x as i128) < right_of(viewport) && right_of(&self.bounds) > viewport.x as i128
            && (self.bounds.y as i128) < bottom_of(viewport) && bottom_of(&self.bounds)
            > viewport.y as i128
    }

    /// Get tiles that intersect with viewport
    pub fn visible_tiles(&self, viewport: &Rect) -> (tiles: Vec<TileCoord>)
        ensures
            tiles@ == self.tiles_in_view(*viewport),
    {
        let view_right = right_of(viewport);
        let own_right = right_of(&self.bounds);
        let right = if view_right <= own_right { view_right } else { own_right };
        let view_bottom = bottom_of(viewport);
        let own_bottom = bottom_of(&self.bounds);
        let bottom = if view_bottom <= own_bottom { view_bottom } else { own_bottom };
        tiles_between(
            floor_tile(viewport.x as i128),
            floor_tile(right) as u64 + 1,
            floor_tile(viewport.y as i128),
            floor_tile(bottom) as u64 + 1,
        )
    }
}

/// The damaged tiles and the tiles of a layer after the first `k` of
/// some tiles were marked as rendered, one after the other.
pub open spec fn marked(damaged: Seq<TileCoord>, tiles: Seq<Tile>, coords: Seq<TileCoord>, k: int) -> (
    Seq<TileCoord>,
    Seq<Tile>,
)
    decreases k,
{
    if k <= 0 || k > coords.len() {
        (damaged, tiles)
    } else {
        let before = marked(damaged, tiles, coords, k - 1);
        (
            damaged_without(before.0, coords[k - 1], before.0.len() as int),
            tiles_rendered(before.1, coords[k - 1]),
        )
    }
}

/// The layers as mathematical values.
pub open spec fn layer_views(layers: Seq<Layer>) -> Seq<LayerView> {
    Seq::new(layers.len(), |i: int| layers[i]@)
}

/// The layers that references lead to, as mathematical values.
pub open spec fn views_of(layers: Seq<&Layer>) -> Seq<LayerView> {
    Seq::new(layers.len(), |i: int| (*layers[i])@)
}

/// The place of the first layer from `from` on that has an ID, and the
/// number of layers where none has.
pub open spec fn layer_at(layers: Seq<LayerView>, id: LayerId, from: int) -> int
    decreases layers.len() - from,
{
    if from < 0 || from >= layers.len() {
        layers.len() as int
    } else if layers[from].id == id {
        from
    } else {
        layer_at(layers, id, from + 1)
    }
}

proof fn lemma_layer_at(layers: Seq<LayerView>, id: LayerId, from: int, passed: int)
    requires
        0 <= from <= passed <= layers.len(),
        forall|j: int| from <= j < passed ==> layers[j].id != id,
    ensures
        layer_at(layers, id, from) == layer_at(layers, id, passed),
        passed < layers.len() && layers[passed].id == id ==> layer_at(layers, id, from) == passed,
        passed == layers.len() ==> layer_at(layers, id, from) == layers.len(),
    decreases passed - from,
{
    if from < passed {
        lemma_layer_at(layers, id, from + 1, passed);
    }
}

/// The first `k` of some IDs without an ID.
pub open spec fn ids_without(ids: Seq<LayerId>, id: LayerId, k: int) -> Seq<LayerId>
    decreases k,
{
    if k <= 0 || k > ids.len() {
        Seq::empty()
    } else if ids[k - 1] == id {
        ids_without(ids, id, k - 1)
    } else {
        ids_without(ids, id, k - 1).push(ids[k - 1])
    }
}

/// The layers after the layer of an ID left its parent: where it has a
/// parent among the layers, that one has it as a child no more.
pub open spec fn orphaned(layers: Seq<LayerView>, id: LayerId) -> Seq<LayerView> {
    let at = layer_at(layers, id, 0);
    if at < layers.len() {
        match layers[at].parent_id {
            Some(parent_id) => {
                let parent_at = layer_at(layers, parent_id, 0);
                if parent_at < layers.len() {
                    layers.update(
                        parent_at,
                        LayerView {
                            children: ids_without(
                                layers[parent_at].children,
                                id,
                                layers[parent_at].children.len() as int,
                            ),
                            ..layers[parent_at]
                        },
                    )
                } else {
                    layers
                }
            },
            None => layers,
        }
    } else {
        layers
    }
}

/// The layers after one became the child of another: the parent has it
/// among its children, once, and the child knows its parent. Nothing
/// changes where one of the two is missing.
pub open spec fn adopted(layers: Seq<LayerView>, parent_id: LayerId, child_id: LayerId) -> Seq<
    LayerView,
> {
    let parent_at = layer_at(layers, parent_id, 0);
    let child_at = layer_at(layers, child_id, 0);
    if parent_at < layers.len() && child_at < layers.len() {
        let parent = layers[parent_at];
        let with_child = layers.update(
            parent_at,
            LayerView {
                children: if parent.children.contains(child_id) {
                    parent.children
                } else {
                    parent.children.push(child_id)
                },
                ..parent
            },
        );
        with_child.update(child_at, LayerView { parent_id: Some(parent_id), ..with_child[child_at] })
    } else {
        layers
    }
}

/// The layers after a region was damaged: each layer that the region
/// overlaps is damaged by it.
pub open spec fn damaged_layers(layers: Seq<LayerView>, rect: Rect) -> Seq<LayerView> {
    Seq::new(
        layers.len(),
        |i: int|
            if overlaps(layers[i].bounds, rect) {
                layers[i].damaged_by(rect)
            } else {
                layers[i]
            },
    )
}

/// The layers without damage.
pub open spec fn undamaged_layers(layers: Seq<LayerView>) -> Seq<LayerView> {
    Seq::new(layers.len(), |i: int| layers[i].undamaged())
}

/// Of the first `k` layers those that are visible and damaged, each with
/// its damaged tiles.
pub open spec fn damage_report(layers: Seq<LayerView>, k: int) -> Seq<(LayerId, Seq<TileCoord>)>
    decreases k,
{
    if k <= 0 || k > layers.len() {
        Seq::empty()
    } else if layers[k - 1].visible && layers[k - 1].damaged.len() > 0 {
        damage_report(layers, k - 1).push((layers[k - 1].id, layers[k - 1].damaged))
    } else {
        damage_report(layers, k - 1)
    }
}

/// The place of a z-index among layers in paint order, looked for from
/// `from` on: before the first layer with a higher z-index, or at the
/// end.
pub open spec fn z_place(sorted: Seq<LayerView>, z_index: i32, from: int) -> int
    decreases sorted.len() - from,
{
    if from < 0 || from >= sorted.len() {
        sorted.len() as int
    } else if sorted[from].z_index > z_index {
        from
    } else {
        z_place(sorted, z_index, from + 1)
    }
}

proof fn lemma_z_place(sorted: Seq<LayerView>, z_index: i32, from: int, passed: int)
    requires
        0 <= from <= passed <= sorted.len(),
        forall|j: int| from <= j < passed ==> sorted[j].z_index <= z_index,
    ensures
        z_place(sorted, z_index, from) == z_place(sorted, z_index, passed),
        passed <= z_place(sorted, z_index, passed) <= sorted.len(),
        passed < sorted.len() && sorted[passed].z_index > z_index ==> z_place(
            sorted,
            z_index,
            from,
        ) == passed,
        passed == sorted.len() ==> z_place(sorted, z_index, from) == sorted.len(),
    decreases sorted.len() - from,
{
    if from < passed {
        lemma_z_place(sorted, z_index, from + 1, passed);
    } else if passed < sorted.len() && sorted[passed].z_index <= z_index {
        lemma_z_place(sorted, z_index, passed + 1, passed + 1);
    }
}

/// The visible ones of the first `k` layers in the order in which they
/// are painted: by their z-index, lowest first, and layers of one
/// z-index in the order in which they were created.
pub open spec fn paint_order(layers: Seq<LayerView>, k: int) -> Seq<LayerView>
    decreases k,
{
    if k <= 0 || k > layers.len() {
        Seq::empty()
    } else {
        let before = paint_order(layers, k - 1);
        if layers[k - 1].visible {
            before.insert(z_place(before, layers[k - 1].z_index, 0), layers[k - 1])
        } else {
            before
        }
    }
}

/// Layers in paint order rise in z-index and are all visible.
pub proof fn lemma_paint_order(layers: Seq<LayerView>, k: int)
    requires
        0 <= k <= layers.len(),
    ensures
        paint_order(layers, k).len() <= k,
        forall|i: int|
            0 <= i < paint_order(layers, k).len() ==> (#[trigger] paint_order(layers, k)[i]).visible,
        forall|i: int, j: int|
            0 <= i < j < paint_order(layers, k).len() ==> (#[trigger] paint_order(
                layers,
                k,
            )[i]).z_index <= (#[trigger] paint_order(layers, k)[j]).z_index,
    decreases k,
{
    if k > 0 {
        lemma_paint_order(layers, k - 1);
        let before = paint_order(layers, k - 1);
        let layer = layers[k - 1];
        if layer.visible {
            let at = z_place(before, layer.z_index, 0);
            lemma_z_place(before, layer.z_index, 0, 0);
            lemma_z_before(before, layer.z_index, 0);
            let after = before.insert(at, layer);
            assert forall|i: int, j: int| 0 <= i < j < after.len() implies (#[trigger] after[i]).z_index
                <= (#[trigger] after[j]).z_index by {
                if j < at {
                    assert(after[i] == before[i] && after[j] == before[j]);
                } else if j == at {
                    assert(after[i] == before[i]);
                } else if i < at {
                    assert(after[i] == before[i] && after[j] == before[j - 1]);
                } else if i == at {
                    assert(after[j] == before[j - 1]);
                    assert(before[at].z_index <= before[j - 1].z_index || at == j - 1);
                } else {
                    assert(after[i] == before[i - 1] && after[j] == before[j - 1]);
                }
            }
            assert forall|i: int| 0 <= i < after.len() implies (#[trigger] after[i]).visible by {
                if i < at {
                    assert(after[i] == before[i]);
                } else if i > at {
                    assert(after[i] == before[i - 1]);
                }
            }
        }
    }
}

/// Before its place no layer has a higher z-index, and at its place one
/// has.
proof fn lemma_z_before(sorted: Seq<LayerView>, z_index: i32, from: int)
    requires
        0 <= from <= sorted.len(),
    ensures
        forall|j: int| from <= j < z_place(sorted, z_index, from) ==> sorted[j].z_index <= z_index,
        z_place(sorted, z_index, from) < sorted.len() ==> sorted[z_place(
            sorted,
            z_index,
            from,
        )].z_index > z_index,
    decreases sorted.len() - from,
{
    if from < sorted.len() && sorted[from].z_index <= z_index {
        lemma_z_before(sorted, z_index, from + 1);
    }
}

/// Of the first `k` of the tiles of a layer those that have to be
/// rendered: the damaged ones, and those that were never rendered. Each
/// comes with the layer's ID and its rectangle.
pub open spec fn tiles_wanted(layer: LayerView, tiles: Seq<TileCoord>, k: int) -> Seq<
    (LayerId, TileCoord, Rect),
>
    decreases k,
{
    if k <= 0 || k > tiles.len() {
        Seq::empty()
    } else if layer.damaged.contains(tiles[k - 1]) || !is_rendered(layer.tiles, tiles[k - 1]) {
        tiles_wanted(layer, tiles, k - 1).push((layer.id, tiles[k - 1], tiles[k - 1].rect()))
    } else {
        tiles_wanted(layer, tiles, k - 1)
    }
}

/// The tiles to render of the first `k` of some layers: of each layer
/// that the viewport shows, those of its tiles in view that have to be
/// rendered.
pub open spec fn tiles_to_render(layers: Seq<LayerView>, viewport: Rect, k: int) -> Seq<
    (LayerId, TileCoord, Rect),
>
    decreases k,
{
    if k <= 0 || k > layers.len() {
        Seq::empty()
    } else if overlaps(layers[k - 1].bounds, viewport) {
        tiles_to_render(layers, viewport, k - 1) + tiles_wanted(
            layers[k - 1],
            tiles_shown(layers[k - 1].bounds, viewport),
            tiles_shown(layers[k - 1].bounds, viewport).len() as int,
        )
    } else {
        tiles_to_render(layers, viewport, k - 1)
    }
}

/// Whether one of the first `k` layers has damaged tiles.
pub open spec fn any_damage(layers: Seq<LayerView>, k: int) -> bool
    decreases k,
{
    if k <= 0 || k > layers.len() {
        false
    } else {
        any_damage(layers, k - 1) || layers[k - 1].damaged.len() > 0
    }
}

/// Whether one of the tiles has a coordinate and is rendered.
fn tile_is_rendered(tiles: &Vec<Tile>, coord: TileCoord) -> (rendered: bool)
    ensures
        rendered == is_rendered(tiles@, coord),
{
    let mut i: usize = 0;
    while i < tiles.len()
        invariant
            i <= tiles@.len(),
            forall|j: int| 0 <= j < i ==> !((#[trigger] tiles@[j]).coord == coord && tiles@[j].rendered),
        decreases tiles@.len() - i,
    {
        if tiles[i].coord.x == coord.x && tiles[i].coord.y == coord.y && tiles[i].rendered {
            assert(tiles@[i as int].coord == coord);
            return true;
        }
        i = i + 1;
    }
    false
}

/// Whether an ID is among some.
fn holds_id(ids: &Vec<LayerId>, id: LayerId) -> (held: bool)
    ensures
        held == ids@.contains(id),
{
    let mut i: usize = 0;
    while i < ids.len()
        invariant
            i <= ids@.len(),
            forall|j: int| 0 <= j < i ==> ids@[j] != id,
        decreases ids@.len() - i,
    {
        if ids[i] == id {
            return true;
        }
        i = i + 1;
    }
    false
}

/// The compositor manages layers and coordinates rendering
pub struct Compositor {
    /// All layers, in the order in which they were created
    layers: Vec<Layer>,
    /// Next layer ID
    next_layer_id: LayerId,
    /// Viewport bounds
    viewport: Rect,
    /// Root layer ID
    root_layer_id: Option<LayerId>,
    /// Screen damage regions (in screen coordinates)
    screen_damage: Vec<Rect>,
}

/// A compositor as a mathematical value.
pub struct CompositorView {
    pub layers: Seq<LayerView>,
    pub next_layer_id: LayerId,
    pub viewport: Rect,
    pub root_layer_id: Option<LayerId>,
    pub screen_damage: Seq<Rect>,
}

impl View for Compositor {
    type V = CompositorView;

    closed spec fn view(&self) -> CompositorView {
        CompositorView {
            layers: layer_views(self.layers@),
            next_layer_id: self.next_layer_id,
            viewport: self.viewport,
            root_layer_id: self.root_layer_id,
            screen_damage: self.screen_damage@,
        }
    }
}

impl Compositor {
    /// The layers, in the order in which they were created.
    pub closed spec fn layers(&self) -> Seq<Layer> {
        self.layers@
    }

    /// Create a new compositor, without layers.
    pub fn new(viewport: Rect) -> (compositor: Self)
        ensures
            compositor@ == (CompositorView {
                layers: Seq::empty(),
                next_layer_id: 1,
                viewport,
                root_layer_id: None,
                screen_damage: Seq::empty(),
            }),
    {
        let compositor = Compositor {
            layers: Vec::new(),
            next_layer_id: 1,
            viewport,
            root_layer_id: None,
            screen_damage: Vec::new(),
        };
        assert(compositor@.layers =~= Seq::empty());
        assert(compositor@.screen_damage =~= Seq::empty());
        compositor
    }

    /// Whether an ID is left for one more layer.
    pub fn can_create_layer(&self) -> (can: bool)
        ensures
            can == (self@.next_layer_id < u64::MAX),
    {
        self.next_layer_id < u64::MAX
    }

    /// Create a new layer, which gets the next ID. The first layer is the
    /// root.
    pub fn create_layer(&mut self, bounds: Rect) -> (id: LayerId)
        requires
            old(self)@.next_layer_id < u64::MAX,
        ensures
            id == old(self)@.next_layer_id,
            final(self)@ == (CompositorView {
                layers: old(self)@.layers.push(LayerView::fresh(id, bounds)),
                next_layer_id: (id + 1) as u64,
                root_layer_id: if old(self)@.root_layer_id.is_none() {
                    Some(id)
                } else {
                    old(self)@.root_layer_id
                },
                ..old(self)@
            }),
    {
        let id = self.next_layer_id;
        self.next_layer_id = self.next_layer_id + 1;
        let layer = Layer::new(id, bounds);
        let ghost before = self@.layers;
        self.layers.push(layer);
        assert(self@.layers =~= before.push(LayerView::fresh(id, bounds)));
        if self.root_layer_id.is_none() {
            self.root_layer_id = Some(id);
        }
        id
    }

    /// The place of the layer of an ID, and the number of layers where
    /// there is none.
    fn position(&self, id: LayerId) -> (at: usize)
        ensures
            at == layer_at(self@.layers, id, 0),
            at <= self.layers@.len(),
            at < self.layers@.len() ==> self.layers@[at as int].id == id,
    {
        let ghost views = self@.layers;
        let mut i: usize = 0;
        while i < self.layers.len() && self.layers[i].id != id
            invariant
                i <= self.layers@.len(),
                views == self@.layers,
                forall|j: int| 0 <= j < i ==> views[j].id != id,
            decreases self.layers@.len() - i,
        {
            i = i + 1;
        }
        proof {
            lemma_layer_at(views, id, 0, i as int);
            if i < self.layers@.len() {
                assert(views[i as int].id == id);
            }
        }
        i
    }

    /// Get a layer by ID
    pub fn get_layer(&self, id: LayerId) -> (found: Option<&Layer>)
        ensures
            match found {
                Some(layer) => layer_at(self@.layers, id, 0) < self.layers().len() && *layer
                    == self.layers()[layer_at(self@.layers, id, 0)],
                None => layer_at(self@.layers, id, 0) == self.layers().len(),
            },
    {
        let at = self.position(id);
        if at < self.layers.len() {
            Some(&self.layers[at])
        } else {
            None
        }
    }

    /// Get a mutable layer by ID, to be changed in place.
    pub fn get_layer_mut(&mut self, id: LayerId) -> (found: Option<&mut Layer>)
        ensures
            final(self)@.next_layer_id == old(self)@.next_layer_id,
            final(self)@.viewport == old(self)@.viewport,
            final(self)@.root_layer_id == old(self)@.root_layer_id,
            final(self)@.screen_damage == old(self)@.screen_damage,
            match found {
                Some(layer) => {
                    let at = layer_at(old(self)@.layers, id, 0);
                    &&& at < old(self).layers().len()
                    &&& *layer == old(self).layers()[at]
                    &&& final(self).layers() == old(self).layers().update(at, *final(layer))
                },
                None => layer_at(old(self)@.layers, id, 0) == old(self).layers().len() && final(self).layers() == old(self).layers(),
            },
    {
        let at = self.position(id);
        if at < self.layers.len() {
            Some(&mut self.layers[at])
        } else {
            None
        }
    }

    /// Remove a layer. Its parent has it as a child no more, and where it
    /// was the root, there is no root any more. Whether there was such a
    /// layer.
    pub fn remove_layer(&mut self, id: LayerId) -> (removed: bool)
        ensures
            removed == (layer_at(old(self)@.layers, id, 0) < old(self)@.layers.len()),
            final(self)@ == if removed {
                CompositorView {
                    layers: orphaned(old(self)@.layers, id).remove(
                        layer_at(old(self)@.layers, id, 0),
                    ),
                    root_layer_id: if old(self)@.root_layer_id == Some(id) {
                        None
                    } else {
                        old(self)@.root_layer_id
                    },
                    ..old(self)@
                }
            } else {
                old(self)@
            },
    {
        let pos = self.position(id);
        if pos >= self.layers.len() {
            return false;
        }
        let ghost before = self@.layers;
        match self.layers[pos].parent_id {
            Some(parent_id) => {
                let parent_at = self.position(parent_id);
                if parent_at < self.layers.len() {
                    let children = &self.layers[parent_at].children;
                    let mut kept: Vec<LayerId> = Vec::new();
                    let mut i: usize = 0;
                    while i < children.len()
                        invariant
                            i <= children@.len(),
                            kept@ == ids_without(children@, id, i as int),
                        decreases children@.len() - i,
                    {
                        if children[i] != id {
                            kept.push(children[i]);
                        }
                        i = i + 1;
                    }
                    self.layers[parent_at].children = kept;
                    assert(self@.layers =~= orphaned(before, id));
                }
            },
            None => {},
        }
        let ghost parted = self@.layers;
        assert(parted == orphaned(before, id));
        self.layers.remove(pos);
        assert(self@.layers =~= parted.remove(pos as int));
        if self.root_layer_id == Some(id) {
            self.root_layer_id = None;
        }
        true
    }

    /// Add a layer as a child of another layer. Whether both layers are
    /// there.
    pub fn add_child(&mut self, parent_id: LayerId, child_id: LayerId) -> (added: bool)
        ensures
            added == (layer_at(old(self)@.layers, parent_id, 0) < old(self)@.layers.len()
                && layer_at(old(self)@.layers, child_id, 0) < old(self)@.layers.len()),
            final(self)@ == (CompositorView {
                layers: adopted(old(self)@.layers, parent_id, child_id),
                ..old(self)@
            }),
    {
        let parent_at = self.position(parent_id);
        let child_at = self.position(child_id);
        let ghost before = self@.layers;
        if parent_at >= self.layers.len() || child_at >= self.layers.len() {
            assert(self@.layers =~= adopted(before, parent_id, child_id));
            return false;
        }
        let held = holds_id(&self.layers[parent_at].children, child_id);
        if !held {
            self.layers[parent_at].children.push(child_id);
        }
        self.layers[child_at].parent_id = Some(parent_id);
        assert(self@.layers =~= adopted(before, parent_id, child_id));
        true
    }

    /// Mark a region as damaged across all layers that it overlaps.
    pub fn damage_region(&mut self, rect: Rect)
        ensures
            final(self)@ == (CompositorView {
                layers: damaged_layers(old(self)@.layers, rect),
                screen_damage: old(self)@.screen_damage.push(rect),
                ..old(self)@
            }),
    {
        self.screen_damage.push(rect);
        let mut i: usize = 0;
        while i < self.layers.len()
            invariant
                i <= self.layers@.len(),
                self.layers@.len() == old(self).layers@.len(),
                self.next_layer_id == old(self).next_layer_id,
                self.viewport == old(self).viewport,
                self.root_layer_id == old(self).root_layer_id,
                self.screen_damage@ == old(self).screen_damage@.push(rect),
                forall|j: int|
                    0 <= j < self.layers@.len() ==> (#[trigger] self.layers@[j])@ == if j < i
                        && overlaps(old(self).layers@[j].bounds, rect) {
                        old(self).layers@[j]@.damaged_by(rect)
                    } else {
                        old(self).layers@[j]@
                    },
            decreases self.layers@.len() - i,
        {
            if self.layers[i].intersects_viewport(&rect) {
                self.layers[i].damage(&rect);
            }
            i = i + 1;
        }
        assert(self@.layers =~= damaged_layers(old(self)@.layers, rect));
    }

    /// Get all damaged tiles across all visible layers
    pub fn get_damaged_tiles(&self) -> (report: Vec<(LayerId, Vec<TileCoord>)>)
        ensures
            report@.len() == damage_report(self@.layers, self@.layers.len() as int).len(),
            forall|i: int|
                0 <= i < report@.len() ==> (#[trigger] report@[i]).0 == damage_report(
                    self@.layers,
                    self@.layers.len() as int,
                )[i].0 && report@[i].1@ == damage_report(
                    self@.layers,
                    self@.layers.len() as int,
                )[i].1,
    {
        let mut report: Vec<(LayerId, Vec<TileCoord>)> = Vec::new();
        let mut i: usize = 0;
        while i < self.layers.len()
            invariant
                i <= self.layers@.len(),
                self@.layers.len() == self.layers@.len(),
                report@.len() == damage_report(self@.layers, i as int).len(),
                forall|j: int|
                    0 <= j < report@.len() ==> (#[trigger] report@[j]).0 == damage_report(
                        self@.layers,
                        i as int,
                    )[j].0 && report@[j].1@ == damage_report(self@.layers, i as int)[j].1,
            decreases self.layers@.len() - i,
        {
            if self.layers[i].visible && self.layers[i].has_damage() {
                report.push((self.layers[i].id, self.layers[i].damaged_tiles()));
            }
            i = i + 1;
        }
        report
    }

    /// Mark tiles of a layer as rendered. Nothing happens where there is
    /// no such layer.
    pub fn mark_tiles_rendered(&mut self, layer_id: LayerId, tiles: &[TileCoord])
        ensures
            final(self)@ == (CompositorView {
                layers: if layer_at(old(self)@.layers, layer_id, 0) < old(self)@.layers.len() {
                    old(self)@.layers.update(
                        layer_at(old(self)@.layers, layer_id, 0),
                        old(self)@.layers[layer_at(old(self)@.layers, layer_id, 0)].rendered(
                            tiles@,
                        ),
                    )
                } else {
                    old(self)@.layers
                },
                ..old(self)@
            }),
    {
        let at = self.position(layer_id);
        let ghost before = self@.layers;
        if at < self.layers.len() {
            self.layers[at].mark_tiles_rendered(tiles);
            assert(self@.layers =~= before.update(at as int, before[at as int].rendered(tiles@)));
        }
    }

    /// Get layers sorted by z-index (paint order): the visible ones,
    /// lowest z-index first.
    pub fn layers_in_paint_order(&self) -> (ordered: Vec<&Layer>)
        ensures
            views_of(ordered@) == paint_order(self@.layers, self@.layers.len() as int),
    {
        let mut ordered: Vec<&Layer> = Vec::new();
        let mut i: usize = 0;
        assert(views_of(ordered@) =~= paint_order(self@.layers, 0));
        while i < self.layers.len()
            invariant
                i <= self.layers@.len(),
                self@.layers.len() == self.layers@.len(),
                views_of(ordered@) == paint_order(self@.layers, i as int),
            decreases self.layers@.len() - i,
        {
            if self.layers[i].visible {
                let z_index = self.layers[i].z_index;
                let ghost sorted = views_of(ordered@);
                let mut j: usize = 0;
                while j < ordered.len() && ordered[j].z_index <= z_index
                    invariant
                        j <= ordered@.len(),
                        sorted == views_of(ordered@),
                        forall|t: int| 0 <= t < j ==> sorted[t].z_index <= z_index,
                    decreases ordered@.len() - j,
                {
                    j = j + 1;
                }
                proof {
                    lemma_z_place(sorted, z_index, 0, j as int);
                }
                ordered.insert(j, &self.layers[i]);
                assert(views_of(ordered@) =~= sorted.insert(j as int, self@.layers[i as int]));
            }
            i = i + 1;
        }
        ordered
    }

    /// Update viewport
    pub fn set_viewport(&mut self, viewport: Rect)
        ensures
            final(self)@ == (CompositorView { viewport, ..old(self)@ }),
    {
        self.viewport = viewport;
    }

    /// Get current viewport
    pub fn viewport(&self) -> (viewport: &Rect)
        ensures
            *viewport == self@.viewport,
    {
        &self.viewport
    }

    /// Get tiles that need rendering in the current viewport: of each
    /// layer in paint order that the viewport shows, the tiles in view
    /// that are damaged or were never rendered.
    pub fn get_tiles_to_render(&self) -> (tiles: Vec<(LayerId, TileCoord, Rect)>)
        ensures
            tiles@ == tiles_to_render(
                paint_order(self@.layers, self@.layers.len() as int),
                self@.viewport,
                paint_order(self@.layers, self@.layers.len() as int).len() as int,
            ),
    {
        let ordered = self.layers_in_paint_order();
        let ghost layers = views_of(ordered@);
        let mut tiles: Vec<(LayerId, TileCoord, Rect)> = Vec::new();
        let mut i: usize = 0;
        while i < ordered.len()
            invariant
                i <= ordered@.len(),
                layers == views_of(ordered@),
                tiles@ == tiles_to_render(layers, self.viewport, i as int),
            decreases ordered@.len() - i,
        {
            let layer = ordered[i];
            if layer.intersects_viewport(&self.viewport) {
                let visible = layer.visible_tiles(&self.viewport);
                let ghost before = tiles@;
                let mut k: usize = 0;
                while k < visible.len()
                    invariant
                        k <= visible@.len(),
                        tiles@ == before + tiles_wanted(layer@, visible@, k as int),
                    decreases visible@.len() - k,
                {
                    let coord = visible[k];
                    if layer.is_damaged(coord) || !tile_is_rendered(&layer.tiles, coord) {
                        tiles.push((layer.id, coord, coord.to_rect()));
                    }
                    assert(tiles@ =~= before + tiles_wanted(layer@, visible@, k as int + 1));
                    k = k + 1;
                }
            }
            i = i + 1;
        }
        tiles
    }

    /// Clear all damage
    pub fn clear_damage(&mut self)
        ensures
            final(self)@ == (CompositorView {
                layers: undamaged_layers(old(self)@.layers),
                screen_damage: Seq::empty(),
                ..old(self)@
            }),
    {
        self.screen_damage.clear();
        let mut i: usize = 0;
        while i < self.layers.len()
            invariant
                i <= self.layers@.len(),
                self.layers@.len() == old(self).layers@.len(),
                self.next_layer_id == old(self).next_layer_id,
                self.viewport == old(self).viewport,
                self.root_layer_id == old(self).root_layer_id,
                self.screen_damage@.len() == 0,
                forall|j: int|
                    0 <= j < self.layers@.len() ==> (#[trigger] self.layers@[j])@ == if j < i {
                        old(self).layers@[j]@.undamaged()
                    } else {
                        old(self).layers@[j]@
                    },
            decreases self.layers@.len() - i,
        {
            self.layers[i].clear_damage();
            i = i + 1;
        }
        assert(self@.layers =~= undamaged_layers(old(self)@.layers));
        assert(self@.screen_damage =~= Seq::empty());
    }

    /// Get layer count
    pub fn layer_count(&self) -> (count: usize)
        ensures
            count == self@.layers.len(),
    {
        self.layers.len()
    }

    /// Check if any layer has damage, or a region was damaged
    pub fn has_pending_work(&self) -> (pending: bool)
        ensures
            pending == (self@.screen_damage.len() > 0 || any_damage(
                self@.layers,
                self@.layers.len() as int,
            )),
    {
        if self.screen_damage.len() > 0 {
            return true;
        }
        let mut i: usize = 0;
        while i < self.layers.len()
            invariant
                i <= self.layers@.len(),
                self@.layers.len() == self.layers@.len(),
                !any_damage(self@.layers, i as int),
            decreases self.layers@.len() - i,
        {
            if self.layers[i].has_damage() {
                proof {
                    lemma_any_damage(self@.layers, i as int + 1, self@.layers.len() as int);
                }
                return true;
            }
            i = i + 1;
        }
        false
    }
}

/// Damage among the first layers is damage among more of them.
proof fn lemma_any_damage(layers: Seq<LayerView>, k: int, n: int)
    requires
        0 <= k <= n <= layers.len(),
        any_damage(layers, k),
    ensures
        any_damage(layers, n),
    decreases n - k,
{
    if k < n {
        lemma_any_damage(layers, k, n - 1);
    }
}

impl Default for Compositor {
    /// A compositor with a viewport of 800 by 600.
    fn default() -> (compositor: Self)
        ensures
            compositor@ == (CompositorView {
                layers: Seq::empty(),
                next_layer_id: 1,
                viewport: Rect { x: 0, y: 0, width: 800, height: 600 },
                root_layer_id: None,
                screen_damage: Seq::empty(),
            }),
    {
        Compositor::new(Rect { x: 0, y: 0, width: 800, height: 600 })
    }
}

} // verus!
