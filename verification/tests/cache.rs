//! Tile-cache behaviour: deduplication, disk fast path, terminal error
//! states, the pyramid fallback, and the visible-tile enumeration.

use mapcore::cache::{get_visible_tiles, RequestOutcome, TileCache};
use mapcore::world::{TileCoord, WorldPoint};

fn coord(x: u32, y: u32, z: u8) -> TileCoord {
    TileCoord { x, y, z }
}

#[test]
fn request_tile_is_idempotent() {
    // Two requests before the first resolves: one fetch, and the second
    // call is a guaranteed no-op.
    let mut cache: TileCache<u32> = TileCache::new();
    let c = coord(3, 4, 5);
    let first = cache.request_tile(c, None);
    assert_eq!(first, RequestOutcome::Fetch(1));
    let second = cache.request_tile(c, None);
    assert_eq!(second, RequestOutcome::AlreadyPresent);
    assert!(cache.get_tile(&c).is_none());
}

#[test]
fn disk_hit_avoids_network() {
    // A decodable disk copy is installed synchronously; no fetch is
    // ordered then or later.
    let mut cache: TileCache<u32> = TileCache::new();
    let c = coord(10, 12, 5);
    let outcome = cache.request_tile(c, Some(77));
    assert_eq!(outcome, RequestOutcome::LoadedFromDisk);
    assert_eq!(cache.get_tile(&c), Some(&77));
    assert_eq!(cache.request_tile(c, None), RequestOutcome::AlreadyPresent);
}

#[test]
fn response_success_loads_and_saves() {
    let mut cache: TileCache<u32> = TileCache::new();
    let c = coord(1, 2, 3);
    let id = match cache.request_tile(c, None) {
        RequestOutcome::Fetch(id) => id,
        _ => panic!("expected a fetch"),
    };
    let body = vec![1u8, 2, 3, 4];
    let r = cache.handle_response(id, 200, Some(body.clone()), Some(9));
    assert!(r.changed);
    assert!(!r.evict);
    let save = r.save.expect("validated bytes must be persisted");
    assert_eq!(save.coord, c);
    assert_eq!(save.bytes, body);
    assert_eq!(cache.get_tile(&c), Some(&9));
}

#[test]
fn decode_failure_never_persists() {
    // A 200 response whose body does not decode marks the tile as an
    // error and orders no disk write.
    let mut cache: TileCache<u32> = TileCache::new();
    let c = coord(1, 2, 3);
    let id = match cache.request_tile(c, None) {
        RequestOutcome::Fetch(id) => id,
        _ => panic!("expected a fetch"),
    };
    let garbage = vec![0u8, 0, 0];
    let r = cache.handle_response(id, 200, Some(garbage), None);
    assert!(!r.changed);
    assert!(r.save.is_none());
    assert!(cache.get_tile(&c).is_none());
    // The failure is terminal: no silent retry.
    assert_eq!(cache.request_tile(c, None), RequestOutcome::AlreadyPresent);
}

#[test]
fn empty_body_is_an_error() {
    let mut cache: TileCache<u32> = TileCache::new();
    let c = coord(0, 0, 0);
    let id = match cache.request_tile(c, None) {
        RequestOutcome::Fetch(id) => id,
        _ => panic!("expected a fetch"),
    };
    let r = cache.handle_response(id, 200, None, None);
    assert!(!r.changed);
    assert!(r.save.is_none());
    assert!(cache.get_tile(&c).is_none());
}

#[test]
fn non_200_status_is_an_error() {
    let mut cache: TileCache<u32> = TileCache::new();
    let c = coord(0, 1, 1);
    let id = match cache.request_tile(c, None) {
        RequestOutcome::Fetch(id) => id,
        _ => panic!("expected a fetch"),
    };
    let r = cache.handle_response(id, 404, Some(vec![1]), None);
    assert!(!r.changed && r.save.is_none());
    assert!(cache.get_tile(&c).is_none());
}

#[test]
fn unknown_request_id_is_a_no_op() {
    let mut cache: TileCache<u32> = TileCache::new();
    let r = cache.handle_response(99, 200, Some(vec![1]), Some(5));
    assert!(!r.changed && r.save.is_none() && !r.evict);
}

#[test]
fn transport_error_is_terminal() {
    let mut cache: TileCache<u32> = TileCache::new();
    let c = coord(2, 2, 2);
    let id = match cache.request_tile(c, None) {
        RequestOutcome::Fetch(id) => id,
        _ => panic!("expected a fetch"),
    };
    cache.handle_error(id, String::from("connection reset"));
    assert!(cache.get_tile(&c).is_none());
    assert_eq!(cache.request_tile(c, None), RequestOutcome::AlreadyPresent);
}

#[test]
fn clear_forgets_tiles_but_not_ids() {
    let mut cache: TileCache<u32> = TileCache::new();
    let c = coord(3, 3, 3);
    assert_eq!(cache.request_tile(c, None), RequestOutcome::Fetch(1));
    cache.clear();
    // The tile may be requested again, under a fresh id: ids are never
    // reused within the lifetime of the cache.
    assert_eq!(cache.request_tile(c, None), RequestOutcome::Fetch(2));
}

#[test]
fn eviction_sweep_triggers_on_the_hundredth_save() {
    let mut cache: TileCache<u32> = TileCache::new();
    // Issue many fetches up front: the number of requests in flight has
    // no bearing on the sweep.
    for i in 0..120u32 {
        let c = coord(i, 0, 10);
        assert_eq!(cache.request_tile(c, None), RequestOutcome::Fetch(i as u64 + 1));
    }
    // A failed decode is not a save and does not advance the cycle.
    let r = cache.handle_response(120, 200, Some(vec![0]), None);
    assert!(!r.changed && !r.evict);
    // Exactly the hundredth successful save orders the sweep.
    for id in 1..=119u64 {
        let r = cache.handle_response(id, 200, Some(vec![1]), Some(1));
        assert!(r.changed);
        assert_eq!(r.evict, id == 100, "save number {id}");
    }
}

#[test]
fn fallback_finds_nearest_loaded_ancestor() {
    let mut cache: TileCache<u32> = TileCache::new();
    let c = coord(10, 12, 5);
    // Load the great-grandparent (zoom 3) only.
    let anc = coord(2, 3, 3);
    assert_eq!(cache.request_tile(anc, Some(8)), RequestOutcome::LoadedFromDisk);
    let f = cache.find_fallback(&c, 4).expect("ancestor within reach");
    assert_eq!(f.ancestor, anc);
    assert_eq!(f.depth, 2);
    assert_eq!((f.off_x, f.off_y), (10 % 4, 12 % 4));
    // A nearer loaded parent wins.
    let parent = coord(5, 6, 4);
    assert_eq!(cache.request_tile(parent, Some(9)), RequestOutcome::LoadedFromDisk);
    let f = cache.find_fallback(&c, 4).expect("parent is loaded");
    assert_eq!(f.ancestor, parent);
    assert_eq!(f.depth, 1);
    assert_eq!((f.off_x, f.off_y), (0, 0));
}

#[test]
fn fallback_respects_the_search_depth() {
    let mut cache: TileCache<u32> = TileCache::new();
    let c = coord(16, 16, 5);
    // Only the root is loaded, five levels up: out of reach for 4.
    assert_eq!(
        cache.request_tile(coord(0, 0, 0), Some(1)),
        RequestOutcome::LoadedFromDisk
    );
    assert!(cache.find_fallback(&c, 4).is_none());
    assert!(cache.find_fallback(&c, 5).is_some());
}

#[test]
fn visible_tiles_cover_the_viewport() {
    let center = WorldPoint {
        x: 1u64 << 31,
        y: 1u64 << 31,
    };
    let tiles = get_visible_tiles(center, 2, 512, 512);
    // ceil(512 / 256) + 2 = 4 tiles per axis, so offsets -2..=2; rows
    // clamp to the 4-row pyramid, columns wrap.
    assert_eq!(tiles.len(), 20);
    for t in &tiles {
        assert_eq!(t.z, 2);
        assert!(t.x < 4 && t.y < 4);
    }
    assert!(tiles.contains(&coord(0, 0, 2)));
    assert!(tiles.contains(&coord(3, 3, 2)));
}

#[test]
fn server_template_is_swappable() {
    let mut cache: TileCache<u32> = TileCache::new();
    let c = coord(1, 2, 3);
    assert_eq!(
        cache.url_for(&c),
        "https://a.basemaps.cartocdn.com/rastertiles/voyager/3/1/2@2x.png"
    );
    cache.set_tile_server("https://b.example/{z}/{x}/{y}.png");
    assert_eq!(cache.url_for(&c), "https://b.example/3/1/2.png");
}

#[test]
fn visible_tiles_come_in_row_major_order() {
    // A 1x1 px viewport at zoom 1 on the northwest corner tile: one
    // column margin each side, the northern row off the pyramid.  The
    // two-tile world makes the wrapped columns repeat, as the original
    // enumeration does.
    let tiles = get_visible_tiles(WorldPoint { x: 0, y: 0 }, 1, 1, 1);
    let expected = vec![
        coord(1, 0, 1),
        coord(0, 0, 1),
        coord(1, 0, 1),
        coord(1, 1, 1),
        coord(0, 1, 1),
        coord(1, 1, 1),
    ];
    assert_eq!(tiles, expected);
}

#[test]
fn root_tile_has_no_fallback() {
    let cache: TileCache<u32> = TileCache::new();
    assert!(cache.find_fallback(&coord(0, 0, 0), 4).is_none());
}
