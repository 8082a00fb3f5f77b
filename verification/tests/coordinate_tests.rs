use mapack::coordinate::{zigzag_decode, zigzag_encode, EXTENT, MAX_ZOOM};
use mapack::Coordinate;

#[test]
fn coordinate() {
    let data = [
        (12u8, 2621u32, 1614u32, 1205u32, 1179u32),
        (22u8, 2684205u32, 1653465u32, 1201u32, 2842u32),
    ];

    for (zm, tx, ty, sx, sy) in data {
        let fs = Coordinate::from_screen(zm, tx, ty, sx, sy);
        assert_eq!(fs.zoom(), zm);
        assert_eq!(fs.tx(), tx);
        assert_eq!(fs.ty(), ty);
        assert_eq!(fs.sx(), sx);
        assert_eq!(fs.sy(), sy);

        let gs = Coordinate::from_geometry(zm, tx, ty, fs.to_geometry());
        assert_eq!(gs.sy(), fs.sy());
        assert_eq!(gs.sx(), fs.sx());
        assert_eq!(gs, fs);
    }
}

#[test]
fn geometry_words_are_exact() {
    let c = Coordinate::from_screen(12, 2621, 1614, 1205, 1179);
    assert_eq!(c.to_geometry(), [9, 2410, 5834]);
    let back = Coordinate::from_geometry(12, 2621, 1614, [9, 2410, 5834]);
    assert_eq!((back.sx(), back.sy()), (1205, 1179));
    // the command word is not read
    let back = Coordinate::from_geometry(12, 2621, 1614, [0, 2410, 5834]);
    assert_eq!((back.sx(), back.sy()), (1205, 1179));
}

#[test]
fn geometry_boundary() {
    for n in [0i32, 1, 4095, 4096] {
        assert_eq!(zigzag_encode(n), (n as u32) * 2);
        assert_eq!(zigzag_decode(zigzag_encode(n)), n);
    }
    assert_eq!(zigzag_encode(-1), 1);
    assert_eq!(zigzag_encode(-2), 3);
    assert_eq!(zigzag_decode(3), -2);
    assert_eq!(zigzag_encode(i32::MAX), u32::MAX - 1);
    assert_eq!(zigzag_encode(i32::MIN), u32::MAX);
    assert_eq!(zigzag_decode(u32::MAX), i32::MIN);
    assert_eq!(zigzag_decode(u32::MAX - 1), i32::MAX);

    let c = Coordinate::from_screen(12, 2621, 1614, 0, 4095);
    assert_eq!(c.to_geometry(), [9, 0, 2]);
    let c = Coordinate::from_screen(12, 2621, 1614, 4095, 0);
    assert_eq!(c.to_geometry(), [9, 8190, 8192]);
    for (sx, sy) in [(0u32, 0u32), (0, 4095), (4095, 0), (4095, 4095), (4096, 4096)] {
        let c = Coordinate::from_screen(3, 1, 2, sx, sy);
        let back = Coordinate::from_geometry(3, 1, 2, c.to_geometry());
        assert_eq!(back, c);
    }
}

#[test]
fn pixels_outside_the_tile_wrap() {
    // a pixel left of the tile: zigzag code 1 is -1
    let c = Coordinate::from_geometry(5, 1, 1, [9, 1, 0]);
    assert_eq!(c.sx(), u32::MAX);
    assert_eq!(c.sy(), EXTENT);
    assert_eq!(c.to_geometry(), [9, 1, 0]);
    // below the tile: 4096 - (-1) = 4097
    let c = Coordinate::from_geometry(5, 1, 1, [9, 0, 1]);
    assert_eq!(c.sy(), 4097);
    assert_eq!(c.to_geometry(), [9, 0, 1]);
    // the extremes of the 32-bit range make no failure
    for word in [u32::MAX, u32::MAX - 1, 1 << 31, (1 << 31) - 1] {
        let c = Coordinate::from_geometry(5, 1, 1, [9, word, word]);
        assert_eq!(c.to_geometry(), [9, word, word]);
    }
}

#[test]
fn zoom_is_clamped() {
    assert_eq!(MAX_ZOOM, 22);
    assert_eq!(Coordinate::from_screen(23, 0, 0, 0, 0).zoom(), 22);
    assert_eq!(Coordinate::from_screen(255, 0, 0, 0, 0).zoom(), 22);
    assert_eq!(Coordinate::from_screen(0, 0, 0, 0, 0).zoom(), 0);
    assert_eq!(Coordinate::from_geometry(40, 7, 8, [9, 2, 4]).zoom(), 22);
    assert_eq!(Coordinate::from_geometry(40, 7, 8, [9, 2, 4]).tx(), 7);
    assert_eq!(Coordinate::from_geometry(40, 7, 8, [9, 2, 4]).ty(), 8);
}
