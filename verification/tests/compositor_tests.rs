// Layers, tiles and the compositor.

use browser_engine::compositor::{Compositor, Layer, Tile, TileCoord, Transform};
use browser_engine::layout::Rect;

fn rect(x: i64, y: i64, width: i64, height: i64) -> Rect {
    Rect { x, y, width, height }
}

fn tile(x: u32, y: u32) -> TileCoord {
    TileCoord { x, y }
}

#[test]
fn test_tile_coord_conversion() {
    let coord = TileCoord::from_pixel(300, 400);
    assert_eq!(coord.x, 1); // 300 / 256 = 1
    assert_eq!(coord.y, 1); // 400 / 256 = 1

    let rect = coord.to_rect();
    assert_eq!(rect.x, 256);
    assert_eq!(rect.y, 256);
    assert_eq!(rect.width, 256);
    assert_eq!(rect.height, 256);
}

#[test]
fn test_tile_coords_at_the_edges() {
    assert_eq!(TileCoord::from_pixel(0, 255), tile(0, 0));
    assert_eq!(TileCoord::from_pixel(256, 511), tile(1, 1));
    assert_eq!(TileCoord::from_pixel(512, 512), tile(2, 2));
    // Before the origin there is no tile: the first one is given.
    assert_eq!(TileCoord::from_pixel(-1, -1000), tile(0, 0));
    assert_eq!(TileCoord::from_pixel(i64::MIN, i64::MIN), tile(0, 0));
    // Behind the last tile the last one is given.
    assert_eq!(TileCoord::from_pixel(i64::MAX, 256 * 4294967295), tile(u32::MAX, u32::MAX));
    assert_eq!(TileCoord::from_pixel(256 * 4294967295 - 1, 0), tile(u32::MAX - 1, 0));
    assert_eq!(tile(u32::MAX, 0).to_rect(), rect(256 * 4294967295, 0, 256, 256));
}

#[test]
fn test_layer_creation() {
    let bounds = Rect { x: 0, y: 0, width: 512, height: 512 };
    let layer = Layer::new(1, bounds);

    assert_eq!(layer.id, 1);
    assert_eq!(layer.z_index, 0);
    assert_eq!(layer.opacity, 1000);
    assert!(layer.visible);

    // Should have 4 tiles (2x2) for 512x512 area
    assert_eq!(layer.tiles.len(), 4);
}

#[test]
fn test_layer_tiles_cover_the_bounds() {
    let layer = Layer::new(7, rect(300, 100, 300, 200));
    // From tile 1 (300 / 256) to tile 2 (600 / 256, rounded up, is 3) across, and 0 to 1 down.
    assert_eq!(
        layer.tiles,
        vec![
            Tile { coord: tile(1, 0), rendered: false, version: 0 },
            Tile { coord: tile(2, 0), rendered: false, version: 0 },
            Tile { coord: tile(1, 1), rendered: false, version: 0 },
            Tile { coord: tile(2, 1), rendered: false, version: 0 },
        ]
    );
    assert_eq!(layer.damaged_tiles(), vec![tile(1, 0), tile(2, 0), tile(1, 1), tile(2, 1)]);
    assert_eq!(layer.transform, Transform::identity());
    assert_eq!(layer.parent_id, None);
    assert!(layer.children.is_empty());
    // A layer without a size has the tile in which it lies, and none on the edge of a tile.
    assert_eq!(Layer::new(1, rect(10, 10, 0, 0)).tiles.len(), 1);
    assert!(Layer::new(1, rect(256, 256, 0, 0)).tiles.is_empty());
    assert!(Layer::new(1, rect(512, 0, -256, 10)).tiles.is_empty());
    assert!(!Layer::new(1, rect(256, 256, 0, 0)).has_damage());
    // One that ends on the edge of a tile does not reach the next.
    assert_eq!(Layer::new(1, rect(0, 0, 256, 257)).tiles.len(), 2);
    // What lies before the origin is cut off.
    assert_eq!(Layer::new(1, rect(-300, -300, 400, 400)).tiles.len(), 1);
}

#[test]
fn test_layer_damage() {
    let bounds = Rect { x: 0, y: 0, width: 512, height: 512 };
    let mut layer = Layer::new(1, bounds);
    layer.clear_damage(); // Start clean

    // Damage a small region
    let damage_rect = Rect { x: 100, y: 100, width: 50, height: 50 };
    layer.damage(&damage_rect);

    let damaged = layer.damaged_tiles();
    assert!(!damaged.is_empty());
    assert!(damaged.contains(&TileCoord { x: 0, y: 0 }));
}

#[test]
fn test_layer_damage_is_kept_once_for_each_tile() {
    let mut layer = Layer::new(1, rect(0, 0, 512, 512));
    layer.clear_damage();
    assert!(!layer.has_damage());
    layer.damage(&rect(200, 10, 100, 20));
    assert_eq!(layer.damaged_tiles(), vec![tile(0, 0), tile(1, 0)]);
    layer.damage(&rect(10, 10, 20, 300));
    assert_eq!(layer.damaged_tiles(), vec![tile(0, 0), tile(1, 0), tile(0, 1)]);
    // A region that ends on the edge of a tile touches the next.
    layer.damage(&rect(256, 256, 256, 0));
    assert_eq!(
        layer.damaged_tiles(),
        vec![tile(0, 0), tile(1, 0), tile(0, 1), tile(1, 1), tile(2, 1)]
    );
    assert!(layer.is_damaged(tile(2, 1)));
    assert!(!layer.is_damaged(tile(2, 2)));
}

#[test]
fn test_marking_tiles_as_rendered() {
    let mut layer = Layer::new(1, rect(0, 0, 512, 256));
    layer.mark_tiles_rendered(&[tile(1, 0), tile(5, 5), tile(1, 0)]);
    assert_eq!(layer.damaged_tiles(), vec![tile(0, 0)]);
    assert_eq!(
        layer.tiles,
        vec![
            Tile { coord: tile(0, 0), rendered: false, version: 0 },
            Tile { coord: tile(1, 0), rendered: true, version: 2 },
        ]
    );
    layer.tiles[0].version = u32::MAX;
    layer.mark_tile_rendered(tile(0, 0));
    assert_eq!(layer.tiles[0], Tile { coord: tile(0, 0), rendered: true, version: u32::MAX });
    assert!(!layer.has_damage());
}

#[test]
fn test_visible_tiles() {
    let layer = Layer::new(1, rect(0, 0, 1000, 1000));
    assert_eq!(
        layer.visible_tiles(&rect(300, 300, 300, 100)),
        vec![tile(1, 1), tile(2, 1)]
    );
    // The layer ends before the viewport does.
    assert_eq!(
        layer.visible_tiles(&rect(700, 700, 1000, 1000)),
        vec![tile(2, 2), tile(3, 2), tile(2, 3), tile(3, 3)]
    );
    // A viewport that begins before the origin.
    assert_eq!(layer.visible_tiles(&rect(-100, -100, 200, 200)), vec![tile(0, 0)]);
}

#[test]
fn test_compositor_layer_creation() {
    let mut compositor = Compositor::default();

    let bounds = Rect { x: 0, y: 0, width: 800, height: 600 };
    let layer_id = compositor.create_layer(bounds);

    assert_eq!(layer_id, 1);
    assert_eq!(compositor.layer_count(), 1);
    assert!(compositor.get_layer(layer_id).is_some());
}

#[test]
fn test_compositor_layer_hierarchy() {
    let mut compositor = Compositor::default();

    let parent_id = compositor.create_layer(Rect { x: 0, y: 0, width: 800, height: 600 });
    let child_id = compositor.create_layer(Rect { x: 100, y: 100, width: 200, height: 200 });

    assert!(compositor.add_child(parent_id, child_id));

    let parent = compositor.get_layer(parent_id).unwrap();
    assert!(parent.children.contains(&child_id));

    let child = compositor.get_layer(child_id).unwrap();
    assert_eq!(child.parent_id, Some(parent_id));
}

#[test]
fn test_compositor_children_are_kept_once_and_leave_with_their_layer() {
    let mut compositor = Compositor::new(rect(0, 0, 100, 100));
    assert!(compositor.can_create_layer());
    let a = compositor.create_layer(rect(0, 0, 10, 10));
    let b = compositor.create_layer(rect(0, 0, 10, 10));
    let c = compositor.create_layer(rect(0, 0, 10, 10));
    assert_eq!((a, b, c), (1, 2, 3));
    assert!(compositor.add_child(a, b));
    assert!(compositor.add_child(a, c));
    assert!(compositor.add_child(a, b));
    assert_eq!(compositor.get_layer(a).unwrap().children, vec![b, c]);
    assert!(!compositor.add_child(a, 9));
    assert!(!compositor.add_child(9, a));
    assert_eq!(compositor.get_layer(a).unwrap().children, vec![b, c]);
    assert_eq!(compositor.get_layer(a).unwrap().parent_id, None);
    // A layer that leaves is no child any more.
    assert!(compositor.remove_layer(b));
    assert!(!compositor.remove_layer(b));
    assert_eq!(compositor.get_layer(a).unwrap().children, vec![c]);
    assert_eq!(compositor.layer_count(), 2);
    // A child keeps the ID of a parent that left.
    assert!(compositor.remove_layer(a));
    assert_eq!(compositor.get_layer(c).unwrap().parent_id, Some(a));
    assert!(compositor.remove_layer(c));
    assert_eq!(compositor.layer_count(), 0);
    assert_eq!(compositor.create_layer(rect(0, 0, 1, 1)), 4);
}

#[test]
fn test_compositor_damage_tracking() {
    let mut compositor = Compositor::default();

    let layer_id = compositor.create_layer(Rect { x: 0, y: 0, width: 800, height: 600 });

    compositor.damage_region(Rect { x: 100, y: 100, width: 50, height: 50 });

    assert!(compositor.has_pending_work());

    let damaged = compositor.get_damaged_tiles();
    assert!(!damaged.is_empty());
    assert_eq!(damaged[0].0, layer_id);
}

#[test]
fn test_compositor_damages_the_layers_that_a_region_overlaps() {
    let mut compositor = Compositor::default();
    assert!(!compositor.has_pending_work());
    let near = compositor.create_layer(rect(0, 0, 256, 256));
    let far = compositor.create_layer(rect(1000, 1000, 256, 256));
    let hidden = compositor.create_layer(rect(0, 0, 256, 256));
    compositor.get_layer_mut(hidden).unwrap().visible = false;
    assert!(compositor.has_pending_work());
    compositor.clear_damage();
    assert!(!compositor.has_pending_work());
    assert!(compositor.get_damaged_tiles().is_empty());
    compositor.damage_region(rect(10, 10, 10, 10));
    assert!(compositor.has_pending_work());
    // The far layer is not touched; the hidden one is damaged but not reported.
    assert_eq!(compositor.get_damaged_tiles(), vec![(near, vec![tile(0, 0)])]);
    assert!(!compositor.get_layer(far).unwrap().has_damage());
    assert!(compositor.get_layer(hidden).unwrap().has_damage());
    compositor.mark_tiles_rendered(near, &[tile(0, 0)]);
    compositor.mark_tiles_rendered(99, &[tile(0, 0)]);
    assert!(compositor.get_damaged_tiles().is_empty());
    // The damaged region itself still waits.
    assert!(compositor.has_pending_work());
    compositor.clear_damage();
    assert!(!compositor.has_pending_work());
}

#[test]
fn test_compositor_layer_removal() {
    let mut compositor = Compositor::default();

    let layer_id = compositor.create_layer(Rect { x: 0, y: 0, width: 800, height: 600 });
    assert_eq!(compositor.layer_count(), 1);

    assert!(compositor.remove_layer(layer_id));
    assert_eq!(compositor.layer_count(), 0);
    assert!(compositor.get_layer(layer_id).is_none());
}

#[test]
fn test_compositor_paint_order() {
    let mut compositor = Compositor::default();

    let layer1_id = compositor.create_layer(Rect { x: 0, y: 0, width: 100, height: 100 });
    let layer2_id = compositor.create_layer(Rect { x: 0, y: 0, width: 100, height: 100 });
    let layer3_id = compositor.create_layer(Rect { x: 0, y: 0, width: 100, height: 100 });

    // Set z-indices
    compositor.get_layer_mut(layer1_id).unwrap().z_index = 10;
    compositor.get_layer_mut(layer2_id).unwrap().z_index = 5;
    compositor.get_layer_mut(layer3_id).unwrap().z_index = 15;

    let paint_order = compositor.layers_in_paint_order();

    // Should be sorted by z-index: layer2 (5), layer1 (10), layer3 (15)
    assert_eq!(paint_order[0].id, layer2_id);
    assert_eq!(paint_order[1].id, layer1_id);
    assert_eq!(paint_order[2].id, layer3_id);
}

#[test]
fn test_paint_order_keeps_equal_layers_as_they_came_and_leaves_hidden_ones_out() {
    let mut compositor = Compositor::default();
    let ids: Vec<u64> = (0..5).map(|_| compositor.create_layer(rect(0, 0, 10, 10))).collect();
    for (id, z) in ids.iter().zip([3, -1, 3, -1, 0]) {
        compositor.get_layer_mut(*id).unwrap().z_index = z;
    }
    compositor.get_layer_mut(ids[3]).unwrap().visible = false;
    let order: Vec<u64> = compositor.layers_in_paint_order().iter().map(|l| l.id).collect();
    assert_eq!(order, vec![ids[1], ids[4], ids[0], ids[2]]);
}

#[test]
fn test_tiles_to_render() {
    let mut compositor = Compositor::new(rect(0, 0, 300, 200));
    assert_eq!(compositor.viewport(), &rect(0, 0, 300, 200));
    let back = compositor.create_layer(rect(0, 0, 600, 600));
    let front = compositor.create_layer(rect(256, 0, 256, 256));
    let outside = compositor.create_layer(rect(2000, 2000, 100, 100));
    compositor.get_layer_mut(front).unwrap().z_index = -1;
    assert!(compositor.get_layer(outside).is_some());
    // In paint order: front (-1) before back (0); the third layer is not in view.
    assert_eq!(
        compositor.get_tiles_to_render(),
        vec![
            (front, tile(0, 0), rect(0, 0, 256, 256)),
            (front, tile(1, 0), rect(256, 0, 256, 256)),
            (back, tile(0, 0), rect(0, 0, 256, 256)),
            (back, tile(1, 0), rect(256, 0, 256, 256)),
        ]
    );
    // What was rendered is not rendered again, unless it is damaged.
    compositor.mark_tiles_rendered(back, &[tile(0, 0), tile(1, 0)]);
    compositor.mark_tiles_rendered(front, &[tile(1, 0)]);
    assert_eq!(compositor.get_tiles_to_render(), vec![(front, tile(0, 0), rect(0, 0, 256, 256))]);
    compositor.damage_region(rect(300, 10, 10, 10));
    assert_eq!(
        compositor.get_tiles_to_render(),
        vec![
            (front, tile(0, 0), rect(0, 0, 256, 256)),
            (front, tile(1, 0), rect(256, 0, 256, 256)),
            (back, tile(1, 0), rect(256, 0, 256, 256)),
        ]
    );
    compositor.set_viewport(rect(2000, 2000, 10, 10));
    assert_eq!(
        compositor.get_tiles_to_render(),
        vec![(outside, tile(7, 7), rect(1792, 1792, 256, 256))]
    );
}

#[test]
fn test_transform_apply() {
    let mut transform = Transform::identity();
    transform.translate_x = 10;
    transform.translate_y = 20;
    transform.scale_x = 2000;
    transform.scale_y = 2000;

    let (x, y) = transform.apply(5, 10);
    assert_eq!(x, 20); // 5 * 2 + 10
    assert_eq!(y, 40); // 10 * 2 + 20
}

#[test]
fn test_transform_rounds_down_and_knows_its_limits() {
    let transform = Transform { translate_x: 1, translate_y: -1, scale_x: 1500, scale_y: -500 };
    assert_eq!(transform.apply(3, 3), (5, -3));
    assert_eq!(transform.try_apply(-3, -3), Some((-4, 0)));
    assert_eq!(Transform::default().apply(-7, 9), (-7, 9));
    assert_eq!(Transform::default().try_apply(i64::MAX, i64::MIN), Some((i64::MAX, i64::MIN)));
    assert_eq!(transform.try_apply(i64::MAX, 0), None);
    let moved = Transform { translate_x: 1, translate_y: 0, scale_x: 1000, scale_y: 1000 };
    assert_eq!(moved.try_apply(i64::MAX, 0), None);
    assert_eq!(moved.try_apply(i64::MAX - 1, 0), Some((i64::MAX, 0)));
}

#[test]
fn test_viewport_intersection() {
    let bounds = Rect { x: 100, y: 100, width: 200, height: 200 };
    let layer = Layer::new(1, bounds);

    let viewport1 = Rect { x: 0, y: 0, width: 150, height: 150 };
    assert!(layer.intersects_viewport(&viewport1));

    let viewport2 = Rect { x: 400, y: 400, width: 100, height: 100 };
    assert!(!layer.intersects_viewport(&viewport2));
}
