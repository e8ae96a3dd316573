use portal_render::{draw_wall, PixColor, PixelBuffer, ScreenPoint, Surface, Texture, WallPaint};

const BLACK: PixColor = PixColor(0, 0, 0, 255);
const RED: PixColor = PixColor(255, 0, 0, 255);
const GREEN: PixColor = PixColor(0, 255, 0, 255);
const BLUE: PixColor = PixColor(0, 0, 255, 255);

fn pixel(b: &PixelBuffer, x: u32, y: u32) -> PixColor {
    b.get_pixel(x, y).unwrap()
}

#[test]
fn set_pixel_outside_changes_nothing() {
    let mut b = PixelBuffer::new(4, 3, BLACK);
    let before = b.pixels.clone();
    b.set_pixel(4, 0, RED);
    b.set_pixel(0, 3, RED);
    b.set_pixel(u32::MAX, u32::MAX, RED);
    assert_eq!(b.pixels, before);
    b.set_pixel(3, 2, RED);
    assert_eq!(pixel(&b, 3, 2), RED);
    assert_eq!(b.pixels[2 * 4 + 3], RED);
    assert_eq!(b.get_pixel(4, 2), None);
}

#[test]
fn clear_paints_everything() {
    let mut b = PixelBuffer::new(3, 2, BLACK);
    b.set_pixel(1, 1, RED);
    b.clear(BLUE);
    assert!(b.pixels.iter().all(|c| *c == BLUE));
    assert_eq!(b.width(), 3);
    assert_eq!(b.height(), 2);
}

#[test]
fn on_screen_wall_follows_its_edges() {
    let mut b = PixelBuffer::new(8, 10, BLACK);
    let mut xp: Vec<u32> = vec![0; 8];
    let paint = WallPaint { surface: Surface::Normal, uv: [1, 1], color: RED, pass: 0 };
    draw_wall(
        ScreenPoint { x: 1, bottom: 2, top: 6 },
        ScreenPoint { x: 5, bottom: 4, top: 8 },
        paint,
        None,
        &mut b,
        &mut xp,
    );
    // column 3: edges at rows 3 and 7
    assert_eq!(pixel(&b, 3, 2), BLACK);
    assert_eq!(pixel(&b, 3, 3), RED);
    assert_eq!(pixel(&b, 3, 6), RED);
    assert_eq!(pixel(&b, 3, 7), BLACK);
    // column 1: edges at rows 2 and 6
    assert_eq!(pixel(&b, 1, 2), RED);
    assert_eq!(pixel(&b, 1, 6), BLACK);
    // the second end's column is not painted
    assert_eq!(pixel(&b, 5, 4), BLACK);
    assert_eq!(pixel(&b, 0, 4), BLACK);
    assert_eq!(xp, vec![0; 8]);
}

#[test]
fn wall_clamped_to_screen_edges() {
    let mut b = PixelBuffer::new(6, 6, BLACK);
    let mut xp: Vec<u32> = Vec::new();
    let paint = WallPaint { surface: Surface::Normal, uv: [1, 1], color: GREEN, pass: 0 };
    draw_wall(
        ScreenPoint { x: -4, bottom: -10, top: 20 },
        ScreenPoint { x: 40, bottom: -10, top: 20 },
        paint,
        None,
        &mut b,
        &mut xp,
    );
    for x in 0..5 {
        for y in 0..5 {
            assert_eq!(pixel(&b, x, y), GREEN);
        }
        assert_eq!(pixel(&b, x, 5), BLACK);
    }
    for y in 0..6 {
        assert_eq!(pixel(&b, 5, y), BLACK);
    }
}

#[test]
fn wall_facing_away_is_not_drawn() {
    let mut b = PixelBuffer::new(6, 6, BLACK);
    let mut xp: Vec<u32> = Vec::new();
    let paint = WallPaint { surface: Surface::Normal, uv: [1, 1], color: GREEN, pass: 0 };
    draw_wall(
        ScreenPoint { x: 4, bottom: 0, top: 5 },
        ScreenPoint { x: 1, bottom: 0, top: 5 },
        paint,
        None,
        &mut b,
        &mut xp,
    );
    assert!(b.pixels.iter().all(|c| *c == BLACK));
}

#[test]
fn floor_fill_stops_at_recorded_horizon() {
    let mut b = PixelBuffer::new(10, 10, BLACK);
    let mut xp: Vec<u32> = vec![10; 10];
    let wall = WallPaint { surface: Surface::Bottom, uv: [1, 1], color: RED, pass: 0 };
    draw_wall(
        ScreenPoint { x: 2, bottom: 3, top: 8 },
        ScreenPoint { x: 6, bottom: 3, top: 8 },
        wall,
        None,
        &mut b,
        &mut xp,
    );
    assert_eq!(xp, vec![10, 10, 3, 3, 3, 3, 10, 10, 10, 10]);
    let fill = WallPaint { surface: Surface::Bottom, uv: [1, 1], color: GREEN, pass: 1 };
    draw_wall(
        ScreenPoint { x: 2, bottom: 1, top: 9 },
        ScreenPoint { x: 6, bottom: 1, top: 9 },
        fill,
        None,
        &mut b,
        &mut xp,
    );
    assert_eq!(xp, vec![10, 10, 3, 3, 3, 3, 10, 10, 10, 10]);
    assert_eq!(pixel(&b, 3, 0), BLACK);
    assert_eq!(pixel(&b, 3, 1), GREEN);
    assert_eq!(pixel(&b, 3, 2), GREEN);
    assert_eq!(pixel(&b, 3, 3), RED);
    assert_eq!(pixel(&b, 3, 7), RED);
    assert_eq!(pixel(&b, 3, 8), BLACK);
    assert_eq!(pixel(&b, 6, 1), BLACK);
}

#[test]
fn ceiling_records_top_row() {
    let mut b = PixelBuffer::new(10, 10, BLACK);
    let mut xp: Vec<u32> = vec![0; 10];
    let wall = WallPaint { surface: Surface::Top, uv: [1, 1], color: RED, pass: 0 };
    draw_wall(
        ScreenPoint { x: 0, bottom: 2, top: 5 },
        ScreenPoint { x: 3, bottom: 2, top: 5 },
        wall,
        None,
        &mut b,
        &mut xp,
    );
    assert_eq!(xp, vec![5, 5, 5, 0, 0, 0, 0, 0, 0, 0]);
    let fill = WallPaint { surface: Surface::Top, uv: [1, 1], color: BLUE, pass: 1 };
    draw_wall(
        ScreenPoint { x: 0, bottom: 2, top: 7 },
        ScreenPoint { x: 3, bottom: 2, top: 7 },
        fill,
        None,
        &mut b,
        &mut xp,
    );
    assert_eq!(pixel(&b, 1, 4), RED);
    assert_eq!(pixel(&b, 1, 5), BLUE);
    assert_eq!(pixel(&b, 1, 6), BLUE);
    assert_eq!(pixel(&b, 1, 7), BLACK);
}

#[test]
fn texture_rejects_bad_sizes() {
    assert!(Texture::new(2, 2, 1, vec![0; 16]).is_some());
    assert!(Texture::new(2, 2, 2, vec![0; 32]).is_some());
    assert!(Texture::new(2, 2, 1, vec![0; 15]).is_none());
    assert!(Texture::new(0, 2, 1, vec![]).is_none());
    assert!(Texture::new(2, 2, 3, vec![0; 48]).is_none());
}

#[test]
fn texture_rows_are_stored_bottom_last() {
    let data: Vec<u8> = (0..16).collect();
    let t = Texture::new(2, 2, 1, data).unwrap();
    assert_eq!(t.sample(0, 0), PixColor(8, 9, 10, 255));
    assert_eq!(t.sample(1, 0), PixColor(12, 13, 14, 255));
    assert_eq!(t.sample(0, 1), PixColor(0, 1, 2, 255));
    // coordinates wrap
    assert_eq!(t.sample(3, 2), PixColor(12, 13, 14, 255));
}

#[test]
fn texture_two_byte_channels_use_high_byte() {
    let data: Vec<u8> = vec![1, 10, 2, 20, 3, 30, 4, 40];
    let t = Texture::new(1, 1, 2, data).unwrap();
    assert_eq!(t.sample(0, 0), PixColor(10, 20, 30, 255));
}

#[test]
fn textured_wall_samples_per_column() {
    let data: Vec<u8> = vec![255, 0, 0, 255, 0, 0, 255, 255];
    let t = Texture::new(2, 1, 1, data).unwrap();
    let mut b = PixelBuffer::new(4, 4, BLACK);
    let mut xp: Vec<u32> = Vec::new();
    let paint = WallPaint { surface: Surface::Normal, uv: [1, 1], color: GREEN, pass: 0 };
    draw_wall(
        ScreenPoint { x: 0, bottom: 0, top: 4 },
        ScreenPoint { x: 4, bottom: 0, top: 4 },
        paint,
        Some(&t),
        &mut b,
        &mut xp,
    );
    assert_eq!(pixel(&b, 0, 0), RED);
    assert_eq!(pixel(&b, 1, 1), RED);
    assert_eq!(pixel(&b, 2, 0), BLUE);
    assert_eq!(pixel(&b, 2, 2), BLUE);
    assert_eq!(pixel(&b, 3, 0), BLACK);
    assert_eq!(pixel(&b, 0, 3), BLACK);
}

#[test]
fn falling_edge_rounds_towards_zero() {
    let mut b = PixelBuffer::new(10, 10, BLACK);
    let mut xp: Vec<u32> = Vec::new();
    let paint = WallPaint { surface: Surface::Normal, uv: [1, 1], color: RED, pass: 0 };
    draw_wall(
        ScreenPoint { x: 0, bottom: 4, top: 9 },
        ScreenPoint { x: 4, bottom: 2, top: 9 },
        paint,
        None,
        &mut b,
        &mut xp,
    );
    // column 1: 4 - 2/4 keeps row 4
    assert_eq!(pixel(&b, 1, 3), BLACK);
    assert_eq!(pixel(&b, 1, 4), RED);
    // column 3: 4 - 6/4 gives row 3
    assert_eq!(pixel(&b, 3, 2), BLACK);
    assert_eq!(pixel(&b, 3, 3), RED);
}
