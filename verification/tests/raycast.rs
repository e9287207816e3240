use raycast::consts::{MAX_CELLS, SQUARE_SZ};
use raycast::grid::{Cell, GridMap};
use raycast::mapdump::wall;
use raycast::projector::{
    ceil_colour, column_direction, draw_column, floor_colour, floor_div, render, DIR_ONE,
};
use raycast::ray::{cast_ray, passable_at, Hit, Point};
use raycast::screen::{put, Pixel, Screen};
use raycast::textures::{Side, TextureSpec, Textures, ATLAS_LEN, TILE_SZ};

const S: i64 = SQUARE_SZ;

/// Turns a drawing of a map into cell bytes: `x` is a wall with texture 0,
/// a blank is passable.
fn cells_of(drawing: &[u8]) -> Vec<u8> {
    drawing.iter().map(|&c| if c == b'x' { 1 } else { 0 }).collect()
}

fn closed_room() -> Vec<u8> {
    cells_of(
        b"\
            xxxxx\
            x   x\
            x   x\
            x   x\
            xxxxx",
    )
}

fn room_with_holes() -> Vec<u8> {
    cells_of(
        b"\
            xx xx\
            x   x\
            x    \
            x   x\
            xx xx",
    )
}

/// An atlas in which every texel tells where it is: tile, row, column.
fn marked_atlas() -> Vec<Pixel> {
    let mut pixels = Vec::with_capacity(ATLAS_LEN);
    for tile in 0..(ATLAS_LEN / (TILE_SZ * TILE_SZ)) {
        for v in 0..TILE_SZ {
            for u in 0..TILE_SZ {
                pixels.push(Pixel { r: tile as u8, g: v as u8, b: u as u8, a: 255 });
            }
        }
    }
    pixels
}

fn unit_dir(rad: f64) -> Point {
    Point {
        x: (rad.cos() * DIR_ONE as f64).round() as i64,
        y: (rad.sin() * DIR_ONE as f64).round() as i64,
    }
}

fn centre(width: usize, height: usize) -> Point {
    Point {
        x: (width as f64 / 2. * S as f64) as i64,
        y: (height as f64 / 2. * S as f64) as i64,
    }
}

fn is_passable(map: &GridMap, p: Point) -> bool {
    passable_at(map, p)
}

#[test]
fn can_render() {
    let mut buf = vec![Pixel::default(); 200 * 320];
    let mut screen = Screen::new(&mut buf, 320, 200);
    let cells = closed_room();
    let map = GridMap::new(&cells, 5, 5).unwrap();
    let pixels = vec![Pixel::default(); 19 * 3 * 2 * 64 * 64];
    let textures = Textures::new(&pixels).unwrap();

    let pos = centre(map.width(), map.height());
    assert!(is_passable(&map, pos));
    for ang in 0..10 {
        let rad = ang as f64 * std::f64::consts::TAU / 10.;
        let dir = unit_dir(rad);
        render(&map, &mut screen, &textures, pos, dir);
    }
}

#[test]
fn can_render_holes() {
    let mut buf = vec![Pixel::default(); 200 * 320];
    let mut screen = Screen::new(&mut buf, 320, 200);
    let cells = room_with_holes();
    let map = GridMap::new(&cells, 5, 5).unwrap();
    let pixels = vec![Pixel::default(); 19 * 3 * 2 * 64 * 64];
    let textures = Textures::new(&pixels).unwrap();

    let pos = centre(map.width(), map.height());
    assert!(is_passable(&map, pos));
    for ang in 0..10 {
        let rad = ang as f64 * std::f64::consts::TAU / 10.;
        let dir = unit_dir(rad);
        render(&map, &mut screen, &textures, pos, dir);
    }
}

#[test]
fn wall_at_is_three_valued() {
    let cells = vec![0, 1, 7, 0, 255, 0];
    let map = GridMap::new(&cells, 3, 2).unwrap();
    assert_eq!(map.width(), 3);
    assert_eq!(map.height(), 2);
    assert_eq!(map.wall_at(0, 0), Cell::Empty);
    assert_eq!(map.wall_at(1, 0), Cell::Wall(0));
    assert_eq!(map.wall_at(2, 0), Cell::Wall(6));
    assert_eq!(map.wall_at(0, 1), Cell::Empty);
    assert_eq!(map.wall_at(1, 1), Cell::Wall(254));
    assert_eq!(map.wall_at(2, 1), Cell::Empty);
    assert_eq!(map.wall_at(3, 0), Cell::OutOfBounds);
    assert_eq!(map.wall_at(0, 2), Cell::OutOfBounds);
    assert_eq!(map.wall_at(-1, 0), Cell::OutOfBounds);
    assert_eq!(map.wall_at(0, -1), Cell::OutOfBounds);
    assert_eq!(map.wall_at(i64::MAX, i64::MIN), Cell::OutOfBounds);
}

#[test]
fn grid_needs_exactly_its_cells() {
    let cells = vec![0u8; 6];
    assert!(GridMap::new(&cells, 3, 2).is_some());
    assert!(GridMap::new(&cells, 2, 3).is_some());
    assert!(GridMap::new(&cells, 6, 1).is_some());
    assert!(GridMap::new(&cells, 3, 3).is_none());
    assert!(GridMap::new(&cells, 2, 2).is_none());
    assert!(GridMap::new(&cells, 0, 0).is_none());
    let none: Vec<u8> = Vec::new();
    assert!(GridMap::new(&none, 0, 0).is_some());
    assert!(GridMap::new(&none, 0, MAX_CELLS).is_some());
    assert!(GridMap::new(&none, 0, MAX_CELLS + 1).is_none());
    assert!(GridMap::new(&none, MAX_CELLS + 1, 0).is_none());
}

#[test]
fn grid_transforms_move_the_cells() {
    let cells = vec![1, 2, 3, 4, 5, 6];
    let map = GridMap::new(&cells, 3, 2).unwrap();

    let mx = map.mirrored_x();
    assert_eq!((mx.width(), mx.height()), (3, 2));
    assert_eq!(mx.wall_at(0, 0), Cell::Wall(2));
    assert_eq!(mx.wall_at(2, 0), Cell::Wall(0));
    assert_eq!(mx.wall_at(0, 1), Cell::Wall(5));

    let my = map.mirrored_y();
    assert_eq!((my.width(), my.height()), (3, 2));
    assert_eq!(my.wall_at(0, 0), Cell::Wall(3));
    assert_eq!(my.wall_at(2, 1), Cell::Wall(2));

    let t = map.transposed();
    assert_eq!((t.width(), t.height()), (2, 3));
    assert_eq!(t.wall_at(0, 0), Cell::Wall(0));
    assert_eq!(t.wall_at(1, 0), Cell::Wall(3));
    assert_eq!(t.wall_at(0, 2), Cell::Wall(2));
    assert_eq!(t.wall_at(1, 2), Cell::Wall(5));
    assert_eq!(t.wall_at(2, 0), Cell::OutOfBounds);

    let back = map.mirrored_x().mirrored_x();
    for y in 0..2 {
        for x in 0..3 {
            assert_eq!(back.wall_at(x, y), map.wall_at(x, y));
        }
    }
}

#[test]
fn sides_flip() {
    assert_eq!(Side::NorthSouth.flipped(), Side::WestEast);
    assert_eq!(Side::WestEast.flipped(), Side::NorthSouth);
    assert_eq!(Side::NorthSouth.flipped().flipped(), Side::NorthSouth);
    assert_eq!(Side::NorthSouth.index(), 0);
    assert_eq!(Side::WestEast.index(), 1);
    let t = TextureSpec { tx: 9, side: Side::WestEast };
    assert_eq!(t.flipped(), TextureSpec { tx: 9, side: Side::NorthSouth });
    assert_eq!(t.flipped().flipped(), t);
}

#[test]
fn worked_example_east() {
    let cells = closed_room();
    let map = GridMap::new(&cells, 5, 5).unwrap();
    let pos = Point { x: 5 * S / 2, y: 5 * S / 2 };
    assert!(is_passable(&map, pos));
    let hit = cast_ray(&map, pos, Point { x: 1, y: 0 }).unwrap();
    assert_eq!(
        hit,
        Hit {
            x: 4 * S as i128,
            y: 5 * S as i128 / 2,
            u: S as i128 / 2,
            den: 1,
            texture: TextureSpec { tx: 0, side: Side::WestEast },
        }
    );
}

#[test]
fn casts_along_the_four_axes() {
    let cells = closed_room();
    let map = GridMap::new(&cells, 5, 5).unwrap();
    let s = S as i128;
    let pos = Point { x: 5 * S / 2 + 100, y: 5 * S / 2 - 300 };

    let east = cast_ray(&map, pos, Point { x: 7, y: 0 }).unwrap();
    assert_eq!(east.texture.side, Side::WestEast);
    assert_eq!(east.x, 4 * s * east.den);
    assert_eq!(east.y, pos.y as i128 * east.den);
    assert_eq!(east.u, (s / 2 - 300) * east.den);

    let west = cast_ray(&map, pos, Point { x: -7, y: 0 }).unwrap();
    assert_eq!(west.texture.side, Side::WestEast);
    assert_eq!(west.x, s * west.den);
    assert_eq!(west.y, pos.y as i128 * west.den);
    assert_eq!(west.u, (s / 2 + 300) * west.den);

    let south = cast_ray(&map, pos, Point { x: 0, y: 3 }).unwrap();
    assert_eq!(south.texture.side, Side::NorthSouth);
    assert_eq!(south.y, 4 * s * south.den);
    assert_eq!(south.x, pos.x as i128 * south.den);
    assert_eq!(south.u, (s / 2 - 100) * south.den);

    let north = cast_ray(&map, pos, Point { x: 0, y: -3 }).unwrap();
    assert_eq!(north.texture.side, Side::NorthSouth);
    assert_eq!(north.y, s * north.den);
    assert_eq!(north.x, pos.x as i128 * north.den);
    assert_eq!(north.u, (s / 2 + 100) * north.den);
}

#[test]
fn strikes_lie_on_grid_lines() {
    let cells = closed_room();
    let map = GridMap::new(&cells, 5, 5).unwrap();
    let pos = Point { x: 2 * S + 12345, y: 3 * S - 777 };
    for ang in 0..360 {
        let dir = unit_dir((ang as f64).to_radians());
        let hit = cast_ray(&map, pos, dir).unwrap();
        let line = S as i128 * hit.den;
        match hit.texture.side {
            Side::WestEast => assert_eq!(hit.x % line, 0),
            Side::NorthSouth => assert_eq!(hit.y % line, 0),
        }
        assert!(hit.den > 0);
        assert!(0 <= hit.u && hit.u < line);
        assert!(0 <= hit.x && hit.x <= 5 * line);
        assert!(0 <= hit.y && hit.y <= 5 * line);
    }
}

#[test]
fn mirrored_casts_give_mirrored_strikes() {
    let cells = cells_of(
        b"\
            xxxxxx\
            x  x x\
            x    x\
            x x  x\
            xxxxxx",
    );
    let map = GridMap::new(&cells, 6, 5).unwrap();
    let mirrored = map.mirrored_x();
    let extent = 6 * S;
    let pos = Point { x: S + 40000, y: 2 * S + 1000 };
    let mirrored_pos = Point { x: extent - pos.x, y: pos.y };
    assert!(is_passable(&map, pos));
    assert!(is_passable(&mirrored, mirrored_pos));
    for ang in 0..360 {
        let dir = unit_dir((ang as f64 + 0.5).to_radians());
        assert!(dir.x != 0);
        let hit = cast_ray(&map, pos, dir).unwrap();
        let twin = cast_ray(&mirrored, mirrored_pos, Point { x: -dir.x, y: dir.y }).unwrap();
        assert_eq!(twin.den, hit.den);
        assert_eq!(twin.x, extent as i128 * hit.den - hit.x);
        assert_eq!(twin.y, hit.y);
        let turned = if hit.u == 0 { 0 } else { S as i128 * hit.den - hit.u };
        assert_eq!(twin.u, turned);
        assert_eq!(twin.texture, hit.texture);
    }
}

#[test]
fn corner_ray_meets_the_north_face() {
    let cells = closed_room();
    let map = GridMap::new(&cells, 5, 5).unwrap();
    let pos = Point { x: 5 * S / 2, y: 5 * S / 2 };
    let first = cast_ray(&map, pos, Point { x: 1, y: 1 });
    let expected = Hit {
        x: 4 * S as i128,
        y: 4 * S as i128,
        u: 0,
        den: 1,
        texture: TextureSpec { tx: 0, side: Side::NorthSouth },
    };
    assert_eq!(first, Some(expected));
    for _ in 0..20 {
        assert_eq!(cast_ray(&map, pos, Point { x: 1, y: 1 }), first);
    }
}

#[test]
fn rays_leave_through_holes() {
    let cells = room_with_holes();
    let map = GridMap::new(&cells, 5, 5).unwrap();
    let pos = Point { x: 5 * S / 2, y: 5 * S / 2 };
    assert_eq!(cast_ray(&map, pos, Point { x: 1, y: 0 }), None);
    assert_eq!(cast_ray(&map, pos, Point { x: 0, y: 1 }), None);
    assert_eq!(cast_ray(&map, pos, Point { x: 0, y: -1 }), None);
    let west = cast_ray(&map, pos, Point { x: -1, y: 0 }).unwrap();
    assert_eq!(west.x, S as i128);
    assert_eq!(west.texture, TextureSpec { tx: 0, side: Side::WestEast });
}

#[test]
fn closed_room_is_hit_from_every_angle() {
    let cells = closed_room();
    let map = GridMap::new(&cells, 5, 5).unwrap();
    let pos = Point { x: S + 1, y: 4 * S - 1 };
    assert!(is_passable(&map, pos));
    for ang in 0..720 {
        let dir = unit_dir((ang as f64 / 2.).to_radians());
        assert!(cast_ray(&map, pos, dir).is_some());
    }
}

#[test]
fn origin_cell_must_be_passable() {
    let cells = closed_room();
    let map = GridMap::new(&cells, 5, 5).unwrap();
    assert!(is_passable(&map, Point { x: S, y: S }));
    assert!(is_passable(&map, Point { x: 4 * S - 1, y: 4 * S - 1 }));
    assert!(!is_passable(&map, Point { x: S - 1, y: S }));
    assert!(!is_passable(&map, Point { x: 4 * S, y: 2 * S }));
    assert!(!is_passable(&map, Point { x: 5 * S, y: 2 * S }));
    assert!(!is_passable(&map, Point { x: -1, y: 2 * S }));
    // From the passable cell beside a wall the ray strikes that wall's face
    // and nothing of the origin's own cell.
    let hit = cast_ray(&map, Point { x: 4 * S - 1, y: 2 * S }, Point { x: 1, y: 0 }).unwrap();
    assert_eq!(hit.x, 4 * S as i128);
    assert_eq!(hit.den, 1);
}

#[test]
fn texture_id_follows_the_cell() {
    let mut cells = closed_room();
    cells[2 * 5 + 4] = 12;
    cells[4 * 5 + 2] = 57;
    let map = GridMap::new(&cells, 5, 5).unwrap();
    let pos = Point { x: 5 * S / 2, y: 5 * S / 2 };
    let east = cast_ray(&map, pos, Point { x: 1, y: 0 }).unwrap();
    assert_eq!(east.texture, TextureSpec { tx: 11, side: Side::WestEast });
    let south = cast_ray(&map, pos, Point { x: 0, y: 1 }).unwrap();
    assert_eq!(south.texture, TextureSpec { tx: 56, side: Side::NorthSouth });
}

#[test]
fn hit_transforms_are_involutions() {
    let hit = Hit {
        x: 3 * 65536 * 5,
        y: 1234 * 5,
        u: 1234 * 5,
        den: 5,
        texture: TextureSpec { tx: 3, side: Side::WestEast },
    };
    let m = hit.mirrored_x(4 * S);
    assert_eq!(m.x, 65536 * 5);
    assert_eq!(m.u, (65536 - 1234) * 5);
    assert_eq!(m.y, hit.y);
    assert_eq!(m.mirrored_x(4 * S), hit);
    let n = hit.mirrored_y(4 * S);
    assert_eq!(n.y, (4 * 65536 - 1234) * 5);
    assert_eq!(n.mirrored_y(4 * S), hit);
    let t = hit.transposed();
    assert_eq!((t.x, t.y), (hit.y, hit.x));
    assert_eq!(t.texture.side, Side::NorthSouth);
    assert_eq!(t.transposed(), hit);
    // An offset of 0 stays 0: an offset lies below the length of an edge.
    let end = Hit { u: 0, ..hit };
    assert_eq!(end.mirrored_x(4 * S).u, 0);
    assert_eq!(end.mirrored_y(4 * S).u, 0);
    assert_eq!(end.transposed().u, 0);
}

#[test]
fn atlas_needs_exactly_its_pixels() {
    let pixels = vec![Pixel::default(); ATLAS_LEN];
    assert!(Textures::new(&pixels).is_some());
    assert!(Textures::new(&pixels[1..]).is_none());
    let more = vec![Pixel::default(); ATLAS_LEN + 1];
    assert!(Textures::new(&more).is_none());
    assert_eq!(ATLAS_LEN, 19 * 3 * 2 * 64 * 64);
}

#[test]
fn atlas_finds_the_tile() {
    let pixels = marked_atlas();
    let textures = Textures::new(&pixels).unwrap();
    for tx in [0u8, 1, 2, 3, 20, 56] {
        for side in [Side::NorthSouth, Side::WestEast] {
            let tile = textures.tx(TextureSpec { tx, side });
            let expected = (tx as usize * 2 + side.index()) as u8;
            assert_eq!(tile.texel(0, 0), Pixel { r: expected, g: 0, b: 0, a: 255 });
            assert_eq!(tile.texel(5, 9), Pixel { r: expected, g: 5, b: 9, a: 255 });
            assert_eq!(tile.texel(63, 63), Pixel { r: expected, g: 63, b: 63, a: 255 });
        }
    }
}

#[test]
fn screen_writes_one_pixel() {
    let mut buf = vec![Pixel::default(); 6];
    let red = Pixel { r: 9, g: 0, b: 0, a: 1 };
    {
        let mut screen = Screen::new(&mut buf, 3, 2);
        assert_eq!(screen.width(), 3);
        assert_eq!(screen.height(), 2);
        assert_eq!(*screen.px(2, 1), Pixel::default());
        *screen.px(2, 1) = red;
        assert_eq!(*screen.px(2, 1), red);
        put(&mut screen, 0, 1, red);
    }
    let blank = Pixel::default();
    assert_eq!(buf, vec![blank, blank, blank, red, blank, red]);
}

#[test]
fn floor_div_rounds_down() {
    assert_eq!(floor_div(7, 2), 3);
    assert_eq!(floor_div(-7, 2), -4);
    assert_eq!(floor_div(-8, 2), -4);
    assert_eq!(floor_div(-1, 5), -1);
    assert_eq!(floor_div(0, 5), 0);
    assert_eq!(floor_div(-5, 5), -1);
    assert_eq!(floor_div(4, 5), 0);
}

#[test]
fn column_rays_fan_out() {
    let dir = Point { x: DIR_ONE, y: 0 };
    let left = column_direction(dir, 320, 0);
    assert_eq!(left.x, 2 * 320 * 283779 * 16384);
    assert_eq!(left.y, 327680 * (1 - 320) * 16384);
    let right = column_direction(dir, 320, 319);
    assert_eq!(right.x, left.x);
    assert_eq!(right.y, -left.y);
    let south = column_direction(Point { x: 0, y: DIR_ONE }, 320, 0);
    assert_eq!(south.x, -left.y);
    assert_eq!(south.y, left.x);
}

#[test]
fn column_shows_ceiling_wall_and_floor() {
    let pixels = marked_atlas();
    let textures = Textures::new(&pixels).unwrap();
    let mut buf = vec![Pixel::default(); 4 * 200];
    let mut screen = Screen::new(&mut buf, 4, 200);
    let pos = Point { x: 5 * S / 2, y: 5 * S / 2 };
    let dir = Point { x: DIR_ONE, y: 0 };
    // A west face 96 world units ahead: the wall is 64 * 277.128 / 96 =
    // 184.75 rows tall, from row 7 to row 192 of 200.
    let hit = Hit {
        x: 4 * S as i128,
        y: 5 * S as i128 / 2 + 3000,
        u: S as i128 / 2 + 3000,
        den: 1,
        texture: TextureSpec { tx: 4, side: Side::WestEast },
    };
    draw_column(&mut screen, &textures, 2, Some(hit), pos, dir);
    for y in 0..7 {
        assert_eq!(*screen.px(2, y), ceil_colour());
    }
    for y in 7..192 {
        let v = ((y - 7) as f64 * 64. / (64. * 283779. / 1024. / 96.)).floor() as u8;
        assert_eq!(*screen.px(2, y), Pixel { r: 9, g: v.min(63), b: 34, a: 255 });
    }
    assert_eq!(screen.px(2, 7).g, 0);
    assert_eq!(screen.px(2, 191).g, 63);
    for y in 192..200 {
        assert_eq!(*screen.px(2, y), floor_colour());
    }
    for y in 0..200 {
        for x in [0, 1, 3] {
            assert_eq!(*screen.px(x, y), Pixel::default());
        }
    }
}

#[test]
fn near_wall_is_clipped_to_the_screen() {
    let pixels = marked_atlas();
    let textures = Textures::new(&pixels).unwrap();
    let mut buf = vec![Pixel::default(); 100];
    let mut screen = Screen::new(&mut buf, 1, 100);
    let pos = Point { x: 5 * S / 2, y: 5 * S / 2 };
    let dir = Point { x: DIR_ONE, y: 0 };
    // Sixteen world units ahead the wall is 1108.5 rows tall: its top lies
    // 505 rows above the screen, and the screen shows tile rows 29 to 34.
    let hit = Hit {
        x: (5 * S as i128 / 2 + 16 * 1024) * 3,
        y: 5 * S as i128 / 2 * 3,
        u: 65536 * 3 - 1,
        den: 3,
        texture: TextureSpec { tx: 0, side: Side::NorthSouth },
    };
    draw_column(&mut screen, &textures, 0, Some(hit), pos, dir);
    let height: f64 = 64. * 283779. / 1024. / 16.;
    let top: f64 = (50. - height / 2.).floor();
    assert_eq!(top, -505.);
    for y in 0..100 {
        let v = ((y as f64 - top) * 64. / height).floor() as u8;
        assert_eq!(*screen.px(0, y), Pixel { r: 0, g: v, b: 63, a: 255 });
    }
    assert_eq!(screen.px(0, 0).g, 29);
    assert_eq!(screen.px(0, 99).g, 34);
}

#[test]
fn miss_meets_at_the_horizon() {
    let pixels = marked_atlas();
    let textures = Textures::new(&pixels).unwrap();
    let mut buf = vec![Pixel::default(); 2 * 9];
    let mut screen = Screen::new(&mut buf, 2, 9);
    let pos = Point { x: S, y: S };
    let dir = Point { x: 0, y: -DIR_ONE };
    draw_column(&mut screen, &textures, 1, None, pos, dir);
    for y in 0..4 {
        assert_eq!(*screen.px(1, y), ceil_colour());
    }
    for y in 4..9 {
        assert_eq!(*screen.px(1, y), floor_colour());
    }
    // A strike behind the camera gives no wall either.
    let behind = Hit {
        x: S as i128,
        y: 2 * S as i128,
        u: 0,
        den: 1,
        texture: TextureSpec { tx: 0, side: Side::NorthSouth },
    };
    draw_column(&mut screen, &textures, 0, Some(behind), pos, dir);
    for y in 0..4 {
        assert_eq!(*screen.px(0, y), ceil_colour());
    }
    for y in 4..9 {
        assert_eq!(*screen.px(0, y), floor_colour());
    }
}

#[test]
fn render_fills_every_column_of_a_closed_room() {
    let pixels = marked_atlas();
    let textures = Textures::new(&pixels).unwrap();
    let cells = closed_room();
    let map = GridMap::new(&cells, 5, 5).unwrap();
    let pos = centre(5, 5);
    let mut buf = vec![Pixel::default(); 200 * 320];
    let mut screen = Screen::new(&mut buf, 320, 200);
    render(&map, &mut screen, &textures, pos, Point { x: DIR_ONE, y: 0 });
    // Looking east from the centre, the middle columns see the east wall
    // 96 world units ahead, from row 7 to row 192.
    for x in [100usize, 160, 220] {
        assert_eq!(*screen.px(x, 6), ceil_colour());
        assert_eq!(screen.px(x, 7).r, 1);
        assert_eq!(screen.px(x, 7).g, 0);
        assert_eq!(screen.px(x, 191).g, 63);
        assert_eq!(*screen.px(x, 192), floor_colour());
    }
    assert_eq!(*screen.px(160, 100), Pixel { r: 1, g: 32, b: 32, a: 255 });
    for ang in 0..36 {
        let dir = unit_dir((ang as f64 * 10.).to_radians());
        render(&map, &mut screen, &textures, pos, dir);
        for x in 0..320 {
            let mid = *screen.px(x, 100);
            assert_eq!(mid.a, 255);
            assert!(mid != ceil_colour() && mid != floor_colour());
        }
    }
}

#[test]
fn mirrored_angles_give_mirrored_wall_heights() {
    let pixels = marked_atlas();
    let textures = Textures::new(&pixels).unwrap();
    let cells = closed_room();
    let map = GridMap::new(&cells, 5, 5).unwrap();
    let pos = centre(5, 5);
    let mut buf_a = vec![Pixel::default(); 200 * 320];
    let mut buf_b = vec![Pixel::default(); 200 * 320];
    let mut a = Screen::new(&mut buf_a, 320, 200);
    let mut b = Screen::new(&mut buf_b, 320, 200);
    for dir in [Point { x: 14189, y: 8192 }, Point { x: 16384, y: 0 }, Point { x: 11585, y: 11585 }] {
        for twin in [Point { x: dir.x, y: -dir.y }, Point { x: -dir.x, y: dir.y }] {
            render(&map, &mut a, &textures, pos, dir);
            render(&map, &mut b, &textures, pos, twin);
            for x in 0..320 {
                for y in 0..200 {
                    let left = *a.px(x, y);
                    let right = *b.px(319 - x, y);
                    let wall_left = left != ceil_colour() && left != floor_colour();
                    let wall_right = right != ceil_colour() && right != floor_colour();
                    assert_eq!(wall_left, wall_right);
                }
            }
        }
    }
}

#[test]
fn map_codes_print_as_glyphs() {
    assert_eq!(wall(0), ' ');
    assert_eq!(wall(1), '0');
    assert_eq!(wall(10), '9');
    assert_eq!(wall(11), 'a');
    assert_eq!(wall(36), 'z');
    assert_eq!(wall(37), 'A');
    assert_eq!(wall(0x38), 'T');
    assert_eq!(wall(0x39), ' ');
    assert_eq!(wall(u16::MAX), ' ');
}

#[test]
fn origin_on_a_wall_face_belongs_to_the_cell_east_of_it() {
    let cells = closed_room();
    let map = GridMap::new(&cells, 5, 5).unwrap();
    // On the east face of the west wall: the origin's cell is the passable
    // one east of the line, and a ray that runs west sets out in the wall.
    let pos = Point { x: S, y: 5 * S / 2 };
    assert!(is_passable(&map, pos));
    assert_eq!(cast_ray(&map, pos, Point { x: -1, y: 0 }), None);
    let east = cast_ray(&map, pos, Point { x: 1, y: 0 }).unwrap();
    assert_eq!(east.x, 4 * S as i128);
}

#[test]
fn ray_along_a_grid_line_walks_the_column_east_of_it() {
    let cells = vec![0, 0, 0, 0, 6, 1];
    let map = GridMap::new(&cells, 2, 3).unwrap();
    let mirrored = map.mirrored_x();
    let pos = Point { x: S, y: S / 2 };
    let south = Point { x: 0, y: 1 };
    let hit = cast_ray(&map, pos, south).unwrap();
    let twin = cast_ray(&mirrored, Point { x: 2 * S - pos.x, y: pos.y }, south).unwrap();
    assert_eq!(hit.texture, TextureSpec { tx: 0, side: Side::NorthSouth });
    assert_eq!(twin.texture, TextureSpec { tx: 5, side: Side::NorthSouth });
    assert_eq!((hit.x, hit.y, hit.den), (S as i128, 2 * S as i128, 1));
}

#[test]
fn cast_looks_up_few_cells() {
    // Every cast returns: on the largest grid, empty but for its far
    // corner, a ray along the diagonal crosses all of it.
    let n = MAX_CELLS;
    let mut cells = vec![0u8; n * n];
    cells[n * n - 1] = 3;
    let map = GridMap::new(&cells, n, n).unwrap();
    let hit = cast_ray(&map, Point { x: 0, y: 1 }, Point { x: 1, y: 1 }).unwrap();
    assert_eq!(hit.texture, TextureSpec { tx: 2, side: Side::WestEast });
    assert_eq!(hit.x, (n as i128 - 1) * S as i128);
    assert_eq!(hit.y, (n as i128 - 1) * S as i128 + 1);
    assert_eq!(hit.u, 1);
    // A north face in the last column is struck as well.
    let last = cast_ray(&map, Point { x: 1, y: 0 }, Point { x: 1, y: 1 }).unwrap();
    assert_eq!(last.texture, TextureSpec { tx: 2, side: Side::NorthSouth });
    assert_eq!(last.y, (n as i128 - 1) * S as i128);
    assert_eq!(last.x, (n as i128 - 1) * S as i128 + 1);
    assert_eq!(last.u, S as i128 - 1);
}

#[test]
fn grid_knows_its_highest_texture() {
    let cells = vec![0, 1, 7, 0, 58, 0];
    let map = GridMap::new(&cells, 3, 2).unwrap();
    assert!(map.textures_below(58));
    assert!(!map.textures_below(57));
    assert!(!map.textures_below(0));
    assert!(map.mirrored_x().textures_below(58));
    assert!(!map.transposed().textures_below(57));
    let empty = vec![0u8; 4];
    assert!(GridMap::new(&empty, 2, 2).unwrap().textures_below(0));
}

#[test]
fn north_face_in_the_last_column_is_struck() {
    let cells = vec![0, 0, 0, 9];
    let map = GridMap::new(&cells, 2, 2).unwrap();
    let hit = cast_ray(&map, Point { x: 1, y: 0 }, Point { x: 1, y: 1 }).unwrap();
    assert_eq!(
        hit,
        Hit {
            x: S as i128 + 1,
            y: S as i128,
            u: S as i128 - 1,
            den: 1,
            texture: TextureSpec { tx: 8, side: Side::NorthSouth },
        }
    );
    // From inside the last column, too, and in every octant.
    let down = cast_ray(&map, Point { x: S + 10, y: 5 }, Point { x: 1, y: 3 }).unwrap();
    assert_eq!(down.texture, TextureSpec { tx: 8, side: Side::NorthSouth });
    assert_eq!(down.y, S as i128 * down.den);
    let flipped = vec![9, 0, 0, 0];
    let map = GridMap::new(&flipped, 2, 2).unwrap();
    let up = cast_ray(&map, Point { x: 2 * S - 1, y: 2 * S - 1 }, Point { x: -1, y: -1 }).unwrap();
    assert_eq!(up.texture.tx, 8);
    let left = cast_ray(&map, Point { x: 2 * S - 1, y: S - 2 }, Point { x: -1, y: 0 }).unwrap();
    assert_eq!(left.texture, TextureSpec { tx: 8, side: Side::WestEast });
    assert_eq!(left.x, S as i128 * left.den);
    // Past the wall's row the ray leaves the grid.
    assert_eq!(cast_ray(&map, Point { x: S + 10, y: S + 5 }, Point { x: 1, y: 1 }), None);
}

#[test]
fn offsets_stay_below_an_edge() {
    let cells = closed_room();
    let map = GridMap::new(&cells, 5, 5).unwrap();
    for pos in [Point { x: 2 * S, y: 2 * S }, Point { x: 3 * S, y: S }, Point { x: S, y: 3 * S }] {
        for dir in [(1, 0), (1, 1), (0, 1), (-1, 1), (-1, 0), (-1, -1), (0, -1), (1, -1), (2, 1)] {
            if let Some(hit) = cast_ray(&map, pos, Point { x: dir.0, y: dir.1 }) {
                assert!(0 <= hit.u && hit.u < S as i128 * hit.den);
            }
        }
    }
}

fn maze() -> Vec<u8> {
    let rows: [&[u8; 7]; 6] =
        [b"x x   x", b"       ", b"  5    ", b"x    3 ", b"      x", b" 2     "];
    let mut cells = Vec::new();
    for row in rows {
        for &c in row {
            cells.push(match c {
                b' ' => 0,
                b'x' => 1,
                digit => digit - b'0' + 1,
            });
        }
    }
    cells
}

/// The cell of the point `(x / den, y / den)`, or `None` on a grid line.
fn cell_inside(map: &GridMap, x: i128, y: i128, den: i128) -> Option<Cell> {
    let m = S as i128 * den;
    if x.rem_euclid(m) == 0 || y.rem_euclid(m) == 0 {
        return None;
    }
    Some(map.wall_at(x.div_euclid(m) as i64, y.div_euclid(m) as i64))
}

#[test]
fn no_wall_lies_before_the_strike() {
    let cells = maze();
    let map = GridMap::new(&cells, 7, 6).unwrap();
    let pos = Point { x: 3 * S + 777, y: S + 31000 };
    assert!(passable_at(&map, pos));
    let mut hits = 0;
    let mut misses = 0;
    for ang in 0..360 {
        let dir = unit_dir((ang as f64 + 0.25).to_radians());
        match cast_ray(&map, pos, dir) {
            Some(hit) => {
                hits += 1;
                // Points at k / 200 of the way from the origin to the strike.
                let den = hit.den * 200;
                for k in 1..200 {
                    let x = pos.x as i128 * den + (hit.x - pos.x as i128 * hit.den) * k;
                    let y = pos.y as i128 * den + (hit.y - pos.y as i128 * hit.den) * k;
                    if let Some(cell) = cell_inside(&map, x, y, den) {
                        assert_eq!(cell, Cell::Empty);
                    }
                }
                // The strike lies on the edge of a wall with its texture.
                let m = S as i128 * hit.den;
                let mut found = false;
                for c in 0..7 {
                    for j in 0..6 {
                        let touches = c * m <= hit.x && hit.x <= (c + 1) * m && j * m <= hit.y
                            && hit.y <= (j + 1) * m;
                        if touches && map.wall_at(c as i64, j as i64) == Cell::Wall(hit.texture.tx) {
                            found = true;
                        }
                    }
                }
                assert!(found);
            }
            None => {
                misses += 1;
                // Points of the ray until far outside the grid.
                for k in 1..2000 {
                    let x = pos.x as i128 * 64 + dir.x as i128 * k;
                    let y = pos.y as i128 * 64 + dir.y as i128 * k;
                    if let Some(cell) = cell_inside(&map, x, y, 64) {
                        assert!(cell == Cell::Empty || cell == Cell::OutOfBounds);
                    }
                }
            }
        }
    }
    assert!(hits > 50 && misses > 50);
}
