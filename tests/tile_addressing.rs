use pmtiles_reader::error::ParseError;
use pmtiles_reader::tile_id::{base_id, find_z, id_from_hilbert, TileCoord, TileId};

#[test]
fn test_tile_xyz_from_id() {
    let tile_coord = TileCoord::try_from(TileId(18007234)).expect("Should be convertible");

    assert_eq!(tile_coord.x, 3702);
    assert_eq!(tile_coord.y, 2509);
    assert_eq!(tile_coord.z, 12);
}

#[test]
fn test_tile_id_from_xyz() {
    let tile_coord = TileCoord {
        x: 3702,
        y: 2509,
        z: 12,
    };

    let tile_id = TileId::try_from(tile_coord).expect("Should be convertible");
    assert_eq!(tile_id.0, 18007234);
}

#[test]
fn zoom_zero_tile_is_id_zero() {
    let id = TileCoord { x: 0, y: 0, z: 0 }.to_id().unwrap();
    assert_eq!(id, TileId(0));
    assert_eq!(TileCoord::from_id(TileId(0)).unwrap(), TileCoord { x: 0, y: 0, z: 0 });
}

#[test]
fn zoom_one_tiles_follow_the_curve() {
    // order-1 Hilbert curve: (0,0), (0,1), (1,1), (1,0)
    let expected = [(0u32, 0u32, 1u64), (0, 1, 2), (1, 1, 3), (1, 0, 4)];
    for (x, y, id) in expected {
        assert_eq!(TileCoord { x, y, z: 1 }.to_id().unwrap(), TileId(id));
        assert_eq!(TileCoord::from_id(TileId(id)).unwrap(), TileCoord { x, y, z: 1 });
    }
}

#[test]
fn to_id_then_from_id_round_trips() {
    for z in 0u8..=31 {
        let side: u64 = 1u64 << z;
        let samples = [0, side / 3, side / 2, side - 1];
        for &x in &samples {
            for &y in &samples {
                let coord = TileCoord { x: x as u32, y: y as u32, z };
                let id = coord.to_id().unwrap();
                assert_eq!(TileCoord::from_id(id).unwrap(), coord);
            }
        }
    }
}

#[test]
fn zoom_32_ids_round_trip_where_they_fit() {
    let coord = TileCoord { x: 0, y: 0, z: 32 };
    let id = coord.to_id().unwrap();
    assert_eq!(id.0, 0x5555_5555_5555_5555);
    assert_eq!(TileCoord::from_id(id).unwrap(), coord);
    let top = TileCoord::from_id(TileId(u64::MAX)).unwrap();
    assert_eq!(top.z, 32);
    assert_eq!(top.to_id().unwrap(), TileId(u64::MAX));
}

#[test]
fn zoom_33_is_too_high() {
    let r = TileCoord { x: 0, y: 0, z: 33 }.to_id();
    assert!(matches!(r, Err(ParseError::TooHighZIndex)));
    let r = TileId::try_from(TileCoord { x: 5, y: 7, z: 200 });
    assert!(matches!(r, Err(ParseError::TooHighZIndex)));
}

#[test]
fn find_z_picks_the_zoom_level() {
    assert_eq!(find_z(1).unwrap(), 1);
    assert_eq!(find_z(4).unwrap(), 1);
    assert_eq!(find_z(5).unwrap(), 2);
    assert_eq!(find_z(20).unwrap(), 2);
    assert_eq!(find_z(21).unwrap(), 3);
    assert_eq!(find_z(18007234).unwrap(), 12);
    assert_eq!(find_z(u64::MAX).unwrap(), 32);
}

#[test]
fn first_ids_of_zoom_levels() {
    assert_eq!(base_id(0), 0);
    assert_eq!(base_id(1), 1);
    assert_eq!(base_id(2), 5);
    assert_eq!(base_id(12), 5592405);
    assert_eq!(base_id(32), 0x5555_5555_5555_5555);
}

#[test]
fn id_from_hilbert_adds_the_level_base() {
    assert_eq!(id_from_hilbert(12, 12414829).unwrap(), TileId(18007234));
    assert_eq!(id_from_hilbert(0, 0).unwrap(), TileId(0));
    assert!(matches!(id_from_hilbert(33, 0), Err(ParseError::TooHighZIndex)));
    assert!(matches!(id_from_hilbert(32, u64::MAX), Err(ParseError::TooHighZIndex)));
    assert_eq!(
        id_from_hilbert(32, u64::MAX - 0x5555_5555_5555_5555).unwrap(),
        TileId(u64::MAX)
    );
}

#[test]
fn decoded_coordinates_lie_on_their_grid() {
    for id in [1u64, 4, 5, 20, 21, 18007234, 1 << 40, u64::MAX] {
        let c = TileCoord::from_id(TileId(id)).unwrap();
        assert!(c.z >= 1 && c.z <= 32);
        assert!((c.x as u64) < (1u64 << c.z) || c.z == 32);
        assert!((c.y as u64) < (1u64 << c.z) || c.z == 32);
        assert!(base_id(c.z) <= id);
    }
}
