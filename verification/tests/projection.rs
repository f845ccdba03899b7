//! Projection and tile-addressing behaviour on concrete values.

use mapcore::disk::tile_path;
use mapcore::tile::decimal_string;
use mapcore::world::{
    lng_micro_to_world_x, parent_tile, tile_span, tile_to_world, tiles_per_axis, world_to_tile,
    world_x_to_lng_micro, TileCoord, WorldPoint, MAX_TILE_ZOOM, WORLD_SIZE, WORLD_Y_NORTH,
    WORLD_Y_SOUTH,
};

/// Mercator world-y of a latitude in degrees, as the embedding
/// application computes it.
fn lat_to_world_y(lat: f64) -> u64 {
    let lr = lat.to_radians();
    let m = (1.0 - lr.tan().asinh() / std::f64::consts::PI) / 2.0;
    (m * WORLD_SIZE as f64).floor() as u64
}

#[test]
fn world_constants_match_mercator_band() {
    assert_eq!(WORLD_SIZE, 1u64 << 32);
    assert_eq!(lat_to_world_y(85.0), WORLD_Y_NORTH);
    assert_eq!(WORLD_Y_SOUTH, WORLD_SIZE - WORLD_Y_NORTH);
}

#[test]
fn tiles_per_axis_and_span() {
    assert_eq!(tiles_per_axis(0), 1);
    assert_eq!(tiles_per_axis(5), 32);
    assert_eq!(tiles_per_axis(MAX_TILE_ZOOM), 524288);
    assert_eq!(tile_span(0), WORLD_SIZE);
    assert_eq!(tile_span(19), 8192);
    assert_eq!(tile_span(32), 1);
}

#[test]
fn tile_round_trip_stays_within_one_span() {
    // San Francisco at several zoom levels.
    let w = WorldPoint {
        x: 686963316,
        y: lat_to_world_y(37.7749),
    };
    for z in [0u8, 1, 5, 12, 19] {
        let t = world_to_tile(w, z);
        assert_eq!(t.z, z);
        let corner = tile_to_world(t);
        let span = tile_span(z);
        assert!(corner.x <= w.x && w.x < corner.x + span);
        assert!(corner.y <= w.y && w.y < corner.y + span);
    }
}

#[test]
fn known_tile_at_zoom_twelve() {
    // (lng -122.4194, lat 37.7749) should land in the well-known
    // OpenStreetMap tile 655/1583 at zoom 12.
    let x = lng_micro_to_world_x(-122_419_400);
    let w = WorldPoint {
        x,
        y: lat_to_world_y(37.7749),
    };
    let t = world_to_tile(w, 12);
    assert_eq!((t.x, t.y, t.z), (655, 1583, 12));
}

#[test]
fn longitude_round_trip() {
    assert_eq!(lng_micro_to_world_x(-122_419_400), 686963316);
    assert_eq!(world_x_to_lng_micro(686963316), -122_419_401);
    // The antimeridian wraps to the west edge.
    assert_eq!(lng_micro_to_world_x(180_000_000), 0);
    assert_eq!(lng_micro_to_world_x(0), WORLD_SIZE / 2);
    assert_eq!(world_x_to_lng_micro(0), -180_000_000);
    assert_eq!(world_x_to_lng_micro(WORLD_SIZE / 2), 0);
}

#[test]
fn parent_tile_halves_the_address() {
    let t = TileCoord { x: 10, y: 12, z: 5 };
    let p = parent_tile(t);
    assert_eq!((p.x, p.y, p.z), (5, 6, 4));
    let pp = parent_tile(p);
    assert_eq!((pp.x, pp.y, pp.z), (2, 3, 3));
}

#[test]
fn decimal_rendering() {
    assert_eq!(decimal_string(0), "0");
    assert_eq!(decimal_string(7), "7");
    assert_eq!(decimal_string(19), "19");
    assert_eq!(decimal_string(100), "100");
    assert_eq!(decimal_string(u32::MAX), "4294967295");
}

#[test]
fn tile_url_substitutes_placeholders() {
    let t = TileCoord { x: 1, y: 2, z: 3 };
    assert_eq!(
        t.tile_url("https://a.example/{z}/{x}/{y}@2x.png"),
        "https://a.example/3/1/2@2x.png"
    );
    assert_eq!(t.tile_url("no placeholders"), "no placeholders");
    assert_eq!(t.tile_url("{y}{x}{z}"), "213");
    // An unknown placeholder is left alone.
    assert_eq!(t.tile_url("{w}/{x}"), "{w}/1");
}

#[test]
fn osm_url_formats_the_address() {
    let t = TileCoord { x: 655, y: 1583, z: 12 };
    assert_eq!(
        t.osm_url(),
        "https://tile.openstreetmap.org/12/655/1583.png"
    );
}

#[test]
fn tile_path_matches_disk_layout() {
    let t = TileCoord { x: 10, y: 12, z: 5 };
    assert_eq!(tile_path(&t), "tiles/5/10/12.png");
}

#[test]
fn tile_key_is_injective_on_neighbours() {
    let a = TileCoord { x: 10, y: 12, z: 5 };
    let b = TileCoord { x: 12, y: 10, z: 5 };
    let c = TileCoord { x: 10, y: 12, z: 6 };
    assert_ne!(a.key(), b.key());
    assert_ne!(a.key(), c.key());
    assert_eq!(a.key(), TileCoord { x: 10, y: 12, z: 5 }.key());
}
