use portal_render::{
    bubble_sort, render, render_sector, reverse_sectors, sort_back_to_front, Camera, Level,
    PixColor, PixelBuffer, Point2, Sector, Surface,
};

const BLACK: PixColor = PixColor(0, 0, 0, 255);
const GREY: PixColor = PixColor(128, 128, 128, 255);

fn with_depth(depth: u64) -> Sector {
    let mut s = Sector::new(0, 10);
    s.depth = depth;
    s
}

fn depths(v: &[Sector]) -> Vec<u64> {
    v.iter().map(|s| s.depth).collect()
}

/// A square room, 50 units wide.
fn square_room() -> Sector {
    let mut s = Sector::new(0, 20);
    s.add_wall(Point2::new(0, 50), Point2::new(0, 0), GREY);
    s.add_wall(Point2::new(50, 50), Point2::new(0, 50), GREY);
    s.add_wall(Point2::new(50, 0), Point2::new(50, 50), GREY);
    s.add_wall(Point2::new(0, 0), Point2::new(50, 0), GREY);
    s
}

#[test]
fn new_sector_defaults() {
    let s = Sector::new(3, 9);
    assert_eq!(s.floor, 3);
    assert_eq!(s.roof, 9);
    assert_eq!(s.depth, 0);
    assert!(s.walls.is_empty());
    assert_eq!(s.roof_col, PixColor(0, 0, 255, 255));
    assert_eq!(s.floor_col, PixColor(0, 255, 0, 255));
    assert_eq!(s.surface, Surface::Normal);
    assert_eq!(s.x_points.len(), 86400);
    assert_eq!(s.center, Point2::new(0, 0));
}

#[test]
fn add_wall_appends_directed_wall() {
    let mut s = Sector::new(0, 10);
    s.add_wall(Point2::new(1, 2), Point2::new(3, 4), GREY);
    s.add_wall(Point2::new(3, 4), Point2::new(5, 6), BLACK);
    assert_eq!(s.walls.len(), 2);
    assert_eq!(s.walls[0].points, [Point2::new(1, 2), Point2::new(3, 4)]);
    assert_eq!(s.walls[0].color, GREY);
    assert_eq!(s.walls[0].uv, [5, 1]);
    assert_eq!(s.walls[1].points[1], Point2::new(5, 6));
}

#[test]
fn sectors_compare_by_depth() {
    let mut a = Sector::new(0, 10);
    let b = Sector::new(5, 50);
    a.depth = 0;
    assert!(a == b);
    a.depth = 1;
    assert!(a != b);
}

#[test]
fn bubble_sort_orders_ascending() {
    let mut v = vec![with_depth(30), with_depth(5), with_depth(20), with_depth(5), with_depth(1)];
    bubble_sort(&mut v);
    assert_eq!(depths(&v), vec![1, 5, 5, 20, 30]);
}

#[test]
fn bubble_sort_empty_and_single() {
    let mut v: Vec<Sector> = Vec::new();
    bubble_sort(&mut v);
    assert!(v.is_empty());
    let mut v = vec![with_depth(7)];
    bubble_sort(&mut v);
    assert_eq!(depths(&v), vec![7]);
}

#[test]
fn reverse_flips_order() {
    let mut v = vec![with_depth(1), with_depth(2), with_depth(3)];
    reverse_sectors(&mut v);
    assert_eq!(depths(&v), vec![3, 2, 1]);
}

#[test]
fn back_to_front_is_descending() {
    let mut v = vec![with_depth(12), with_depth(40), with_depth(3), with_depth(25)];
    sort_back_to_front(&mut v);
    let d = depths(&v);
    assert_eq!(d, vec![40, 25, 12, 3]);
    for i in 0..d.len() - 1 {
        assert!(d[i] >= d[i + 1]);
    }
}

#[test]
fn two_sectors_far_one_first() {
    let mut v = vec![with_depth(5), with_depth(50)];
    sort_back_to_front(&mut v);
    assert_eq!(depths(&v), vec![50, 5]);
}

#[test]
fn room_centre_shows_a_wall() {
    let mut level = Level::new();
    level.sectors.push(square_room());
    let cam = Camera { x: 400, y: 160, z: -640, cos: 1024, sin: 0, pitch: 0 };
    let mut frame = PixelBuffer::new(320, 240, BLACK);
    render(&mut level, &cam, &mut frame, None);
    assert_eq!(frame.get_pixel(160, 120), Some(GREY));
    // the wall's projected bottom edge is at row 70, its top at row 170
    assert_eq!(frame.get_pixel(160, 69), Some(BLACK));
    assert_eq!(frame.get_pixel(160, 70), Some(GREY));
    assert_eq!(frame.get_pixel(160, 169), Some(GREY));
    assert_eq!(frame.get_pixel(160, 170), Some(BLACK));
    assert_eq!(frame.get_pixel(34, 120), Some(BLACK));
    assert_eq!(frame.get_pixel(35, 120), Some(GREY));
    assert_eq!(level.sectors[0].surface, Surface::Normal);
    assert_eq!(level.sectors[0].depth, 1077);
}

#[test]
fn sector_seen_from_above_fills_roof() {
    let mut s = square_room();
    let cam = Camera { x: 400, y: 960, z: -640, cos: 1024, sin: 0, pitch: 0 };
    let mut frame = PixelBuffer::new(320, 240, BLACK);
    render_sector(&mut s, &cam, &mut frame, None);
    assert_eq!(s.surface, Surface::Top);
    assert_eq!(s.x_points.len(), 320);
    // near wall: bottom row 120 - 60*200/40 = -180, top row 120 - 40*200/40 = -80: off screen
    // far wall at depth 90: top row 120 - 40*200/90 = 31; the roof fills
    // the rows below it
    assert_eq!(frame.get_pixel(160, 0), Some(PixColor(0, 0, 255, 255)));
    assert_eq!(frame.get_pixel(160, 30), Some(PixColor(0, 0, 255, 255)));
    assert_eq!(frame.get_pixel(160, 31), Some(BLACK));
}

#[test]
fn sector_seen_from_below_sets_horizon_height() {
    let mut s = square_room();
    s.floor = 30;
    s.roof = 40;
    let cam = Camera { x: 400, y: 160, z: -640, cos: 1024, sin: 0, pitch: 0 };
    let mut frame = PixelBuffer::new(16, 12, BLACK);
    render_sector(&mut s, &cam, &mut frame, None);
    assert_eq!(s.surface, Surface::Bottom);
    assert_eq!(s.x_points.len(), 16);
}

#[test]
fn sector_behind_camera_draws_nothing() {
    let mut s = square_room();
    let cam = Camera { x: 400, y: 160, z: 3200, cos: 1024, sin: 0, pitch: 0 };
    let mut frame = PixelBuffer::new(32, 24, BLACK);
    render_sector(&mut s, &cam, &mut frame, None);
    assert!(frame.pixels.iter().all(|c| *c == BLACK));
}

#[test]
fn empty_sector_has_zero_depth() {
    let mut s = Sector::new(0, 10);
    s.depth = 99;
    let cam = Camera { x: 0, y: 80, z: 0, cos: 1024, sin: 0, pitch: 0 };
    let mut frame = PixelBuffer::new(4, 4, BLACK);
    render_sector(&mut s, &cam, &mut frame, None);
    assert_eq!(s.depth, 0);
}

#[test]
fn far_sector_is_painted_first() {
    const RED: PixColor = PixColor(255, 0, 0, 255);
    let mut near = square_room();
    near.depth = 5;
    let mut far = Sector::new(0, 20);
    far.add_wall(Point2::new(0, 150), Point2::new(0, 100), RED);
    far.add_wall(Point2::new(50, 150), Point2::new(0, 150), RED);
    far.add_wall(Point2::new(50, 100), Point2::new(50, 150), RED);
    far.add_wall(Point2::new(0, 100), Point2::new(50, 100), RED);
    far.depth = 50;
    let mut level = Level::new();
    level.sectors.push(near);
    level.sectors.push(far);
    let cam = Camera { x: 400, y: 160, z: -640, cos: 1024, sin: 0, pitch: 0 };
    let mut frame = PixelBuffer::new(320, 240, BLACK);
    render(&mut level, &cam, &mut frame, None);
    // the far room is drawn first, the near room over it
    assert_eq!(level.sectors[0].walls[0].color, RED);
    assert_eq!(level.sectors[1].walls[0].color, GREY);
    assert_eq!(frame.get_pixel(160, 120), Some(GREY));
    // new depths, in sixteenths of a unit
    assert_eq!(level.sectors[1].depth, 1077);
    assert_eq!(level.sectors[0].depth, 2655);
}

#[test]
fn far_sector_alone_is_visible() {
    const RED: PixColor = PixColor(255, 0, 0, 255);
    let mut far = Sector::new(0, 20);
    far.add_wall(Point2::new(0, 100), Point2::new(50, 100), RED);
    let mut sectors = vec![far];
    let cam = Camera { x: 400, y: 160, z: -640, cos: 1024, sin: 0, pitch: 0 };
    let mut frame = PixelBuffer::new(320, 240, BLACK);
    portal_render::render_sectors(&mut sectors, &cam, &mut frame, None);
    // at depth 140 the wall spans columns 124..195 and rows 105..134
    assert_eq!(frame.get_pixel(160, 120), Some(RED));
    assert_eq!(frame.get_pixel(123, 120), Some(BLACK));
    assert_eq!(frame.get_pixel(124, 120), Some(RED));
    assert_eq!(frame.get_pixel(160, 104), Some(BLACK));
    assert_eq!(frame.get_pixel(160, 105), Some(RED));
    assert_eq!(frame.get_pixel(160, 133), Some(RED));
    assert_eq!(frame.get_pixel(160, 134), Some(BLACK));
    assert_eq!(sectors[0].depth, 2240);
}

#[test]
fn bubble_sort_keeps_equal_depths_in_order() {
    let mut v: Vec<Sector> = [5, 3, 5, 3]
        .iter()
        .enumerate()
        .map(|(i, d)| {
            let mut s = Sector::new(i as i64, 10);
            s.depth = *d;
            s
        })
        .collect();
    bubble_sort(&mut v);
    assert_eq!(depths(&v), vec![3, 3, 5, 5]);
    let floors: Vec<i64> = v.iter().map(|s| s.floor).collect();
    assert_eq!(floors, vec![1, 3, 0, 2]);
}

#[test]
fn bubble_sort_leaves_sorted_input_alone() {
    let mut v: Vec<Sector> = [1, 4, 4, 9]
        .iter()
        .enumerate()
        .map(|(i, d)| {
            let mut s = Sector::new(i as i64, 10);
            s.depth = *d;
            s
        })
        .collect();
    bubble_sort(&mut v);
    let floors: Vec<i64> = v.iter().map(|s| s.floor).collect();
    assert_eq!(floors, vec![0, 1, 2, 3]);
}

#[test]
fn closed_room_centre_is_wall_coloured() {
    let mut s = Sector::new(0, 10);
    s.add_wall(Point2::new(0, 25), Point2::new(0, 0), GREY);
    s.add_wall(Point2::new(25, 25), Point2::new(0, 25), GREY);
    s.add_wall(Point2::new(25, 0), Point2::new(25, 25), GREY);
    s.add_wall(Point2::new(0, 0), Point2::new(25, 0), GREY);
    let mut level = Level::new();
    level.sectors.push(s);
    // at (12.5, 5, -20), facing +Z
    let cam = Camera { x: 200, y: 80, z: -320, cos: 1024, sin: 0, pitch: 0 };
    let mut frame = PixelBuffer::new(320, 240, BLACK);
    render(&mut level, &cam, &mut frame, None);
    assert_eq!(frame.get_pixel(160, 120), Some(GREY));
    assert_ne!(frame.get_pixel(160, 120), Some(BLACK));
    // the near wall spans columns 35..285 and rows 70..170
    assert_eq!(frame.get_pixel(35, 70), Some(GREY));
    assert_eq!(frame.get_pixel(284, 169), Some(GREY));
    assert_eq!(frame.get_pixel(285, 120), Some(BLACK));
    assert_eq!(frame.get_pixel(160, 170), Some(BLACK));
}
