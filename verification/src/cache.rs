//! In-memory tile cache: deduplicated fetches, terminal state
//! transitions, and the tile-pyramid fallback lookup.
//!
//! The cache is a decision core.  It owns the per-tile states and the
//! pending-request table, and tells its caller what to do next: probe the
//! disk store, fetch from the network under a fresh request id, persist
//! freshly decoded bytes, or run an eviction sweep.  Decoding and all I/O
//! happen outside; their outcomes are handed in as plain values, and every
//! decision here is verified for every such outcome.

use vstd::prelude::*;
use vstd::arithmetic::power2::pow2;
use vstd::hash_map::HashMapWithView;

use crate::tile::{lemma_tile_key_injective, lemma_valid_tile_fields_small, spec_tile_key};
use crate::world::{spec_world_to_tile, world_to_tile, tiles_per_axis, TileCoord, WorldPoint};

verus! {

use vstd::string::StringExecFns;

/// Why a tile failed to load.  A tile in error state is never retried for
/// the lifetime of the cache instance (unless the cache is cleared).
#[derive(Clone, Debug)]
pub enum TileError {
    /// The response body was not a decodable image.
    Decode,
    /// HTTP 200 arrived without a body.
    EmptyBody,
    /// The server answered with a status other than 200.
    HttpStatus(u16),
    /// The transport failed; the message describes how.
    Transport(String),
}

/// Lifecycle of one tile in the cache.  A tile enters as `Loading` and
/// transitions at most once, terminally, to `Loaded` or `Error`.
#[derive(Clone, Debug)]
pub enum TileState<H> {
    Loading,
    Loaded(H),
    Error(TileError),
}

/// The packed `u64` map key of a tile address.
pub open spec fn spec_key64(t: TileCoord) -> u64 {
    spec_tile_key(t) as u64
}

/// The key of a valid tile address is below 2^45, so the packing into
/// `u64` is still injective.
pub proof fn lemma_key64_injective(a: TileCoord, b: TileCoord)
    requires
        a.valid(),
        b.valid(),
        spec_key64(a) == spec_key64(b),
    ensures
        a == b,
{
    lemma_valid_tile_fields_small(a);
    lemma_valid_tile_fields_small(b);
    lemma_tile_key_injective(a, b);
}

/// Ghost view of the whole cache: tile states keyed by packed address,
/// pending network requests keyed by request id, the id counter, and
/// the position in the 100-save eviction cycle.
#[verifier::reject_recursive_types(H)]
pub struct CacheState<H> {
    pub tiles: Map<u64, TileState<H>>,
    pub pending: Map<u64, TileCoord>,
    pub counter: u64,
    pub save_cycle: u8,
}

/// Well-formedness of the cache: every pending request points at a valid
/// address whose in-memory state is `Loading`, carries an id the counter
/// has already produced, no two pending requests share an address, and
/// the save cycle stays below its period.
pub open spec fn cache_state_wf<H>(s: CacheState<H>) -> bool {
    &&& s.save_cycle < 100
    &&& forall|id: u64|
        #[trigger] s.pending.dom().contains(id) ==> s.pending[id].valid() && 1 <= id <= s.counter
            && s.tiles.dom().contains(spec_key64(s.pending[id])) && s.tiles[spec_key64(
            s.pending[id],
        )] is Loading
    &&& forall|id1: u64, id2: u64|
        s.pending.dom().contains(id1) && s.pending.dom().contains(id2) && id1 != id2
            ==> #[trigger] s.pending[id1] != #[trigger] s.pending[id2]
}

/// The in-memory state of one tile address, if any.
pub open spec fn spec_state_of<H>(s: CacheState<H>, t: TileCoord) -> Option<TileState<H>> {
    if s.tiles.dom().contains(spec_key64(t)) {
        Some(s.tiles[spec_key64(t)])
    } else {
        None
    }
}

/// The decoded image of one tile address, if its state is `Loaded`.
pub open spec fn spec_loaded_of<H>(s: CacheState<H>, t: TileCoord) -> Option<H> {
    match spec_state_of(s, t) {
        Some(TileState::Loaded(h)) => Some(h),
        _ => None,
    }
}

/// What `request_tile` told its caller to do.
#[derive(Clone, Copy, Debug, PartialEq, Eq, Structural)]
pub enum RequestOutcome {
    /// The address already has a state; nothing was done.
    AlreadyPresent,
    /// The disk store had a decodable copy; it is now `Loaded`.
    LoadedFromDisk,
    /// A network fetch must be issued under this fresh request id.
    Fetch(u64),
}

/// Transition of `request_tile`: a no-op when the address has any state;
/// otherwise the disk-store probe decides between installing the decoded
/// copy and fetching over the network under a fresh id.
pub open spec fn spec_request_tile<H>(s: CacheState<H>, t: TileCoord, disk: Option<H>) -> (
    CacheState<H>,
    RequestOutcome,
) {
    let k = spec_key64(t);
    if s.tiles.dom().contains(k) {
        (s, RequestOutcome::AlreadyPresent)
    } else {
        match disk {
            Some(h) => (
                CacheState { tiles: s.tiles.insert(k, TileState::Loaded(h)), ..s },
                RequestOutcome::LoadedFromDisk,
            ),
            None => (
                CacheState {
                    tiles: s.tiles.insert(k, TileState::Loading),
                    pending: s.pending.insert((s.counter + 1) as u64, t),
                    counter: (s.counter + 1) as u64,
                    ..s
                },
                RequestOutcome::Fetch((s.counter + 1) as u64),
            ),
        }
    }
}

/// What `handle_response` decided, at the ghost level.
#[verifier::reject_recursive_types(H)]
pub struct ResponseEffect<H> {
    pub state: CacheState<H>,
    /// A redraw-worthy change happened: the tile decoded and is `Loaded`.
    pub changed: bool,
    /// The (validated) body must be persisted to the disk store.
    pub save: bool,
    /// This save is the Nth (N = 100): run an eviction sweep.
    pub evict: bool,
}

/// Transition of `handle_response`.  An unknown id is a no-op; otherwise
/// the pending entry is removed exactly once and the tile settles into
/// `Loaded` (decoded 200 body, to be persisted) or an `Error`.  Every
/// successful save advances the save cycle; the hundredth one orders an
/// eviction sweep.
pub open spec fn spec_handle_response<H>(
    s: CacheState<H>,
    id: u64,
    status: u16,
    has_body: bool,
    decoded: Option<H>,
) -> ResponseEffect<H> {
    if !s.pending.dom().contains(id) {
        ResponseEffect { state: s, changed: false, save: false, evict: false }
    } else {
        let k = spec_key64(s.pending[id]);
        let p = s.pending.remove(id);
        if status == 200 && has_body {
            match decoded {
                Some(h) => ResponseEffect {
                    state: CacheState {
                        tiles: s.tiles.insert(k, TileState::Loaded(h)),
                        pending: p,
                        save_cycle: ((s.save_cycle + 1) % 100) as u8,
                        ..s
                    },
                    changed: true,
                    save: true,
                    evict: (s.save_cycle + 1) % 100 == 0,
                },
                None => ResponseEffect {
                    state: CacheState {
                        tiles: s.tiles.insert(k, TileState::Error(TileError::Decode)),
                        pending: p,
                        ..s
                    },
                    changed: false,
                    save: false,
                    evict: false,
                },
            }
        } else if status == 200 {
            ResponseEffect {
                state: CacheState {
                    tiles: s.tiles.insert(k, TileState::Error(TileError::EmptyBody)),
                    pending: p,
                    ..s
                },
                changed: false,
                save: false,
                evict: false,
            }
        } else {
            ResponseEffect {
                state: CacheState {
                    tiles: s.tiles.insert(k, TileState::Error(TileError::HttpStatus(status))),
                    pending: p,
                    ..s
                },
                changed: false,
                save: false,
                evict: false,
            }
        }
    }
}

/// Bytes that must be written through to the disk store for a tile whose
/// body decoded successfully.
pub struct SaveDirective {
    pub coord: TileCoord,
    pub bytes: Vec<u8>,
}

/// What `handle_response` told its caller to do.
pub struct ResponseOutcome {
    /// A redraw-worthy change happened (successful decode).
    pub changed: bool,
    /// Persist these validated bytes for this address.
    pub save: Option<SaveDirective>,
    /// Run a disk eviction sweep after saving.
    pub evict: bool,
}

/// The in-memory tile cache with deduplicated fetch bookkeeping.
#[verifier::reject_recursive_types(H)]
pub struct TileCache<H> {
    tiles: HashMapWithView<u64, TileState<H>>,
    pending: HashMapWithView<u64, TileCoord>,
    request_counter: u64,
    save_cycle: u8,
    tile_server: String,
}

impl<H> TileCache<H> {
    /// Ghost view of the cache.
    pub closed spec fn st(self) -> CacheState<H> {
        CacheState {
            tiles: self.tiles@,
            pending: self.pending@,
            counter: self.request_counter,
            save_cycle: self.save_cycle,
        }
    }

    /// The tile-server URL template in use.
    pub closed spec fn spec_server(self) -> Seq<char> {
        self.tile_server@
    }

    /// The cache is well-formed.
    pub open spec fn wf(self) -> bool {
        cache_state_wf(self.st())
    }

    /// An empty cache pointed at the default tile server.
    pub fn new() -> (r: Self)
        ensures
            r.wf(),
            r.st().tiles == Map::<u64, TileState<H>>::empty(),
            r.st().pending == Map::<u64, TileCoord>::empty(),
            r.st().counter == 0,
            r.st().save_cycle == 0,
            r.spec_server() == "https://a.basemaps.cartocdn.com/rastertiles/voyager/{z}/{x}/{y}@2x.png"@,
    {
        broadcast use vstd::std_specs::hash::axiom_u64_obeys_hash_table_key_model;

        TileCache {
            tiles: HashMapWithView::new(),
            pending: HashMapWithView::new(),
            request_counter: 0,
            save_cycle: 0,
            tile_server: default_tile_server().to_owned(),
        }
    }

    /// Points the cache at another tile-server URL template.
    pub fn set_tile_server(&mut self, server: &str)
        ensures
            final(self).st() == old(self).st(),
            final(self).spec_server() == server@,
    {
        self.tile_server = server.to_owned();
    }

    /// URL of a tile under the current server template.
    pub fn url_for(&self, coord: &TileCoord) -> (r: String)
        ensures
            r@ == crate::tile::spec_subst_template(self.spec_server(), *coord),
    {
        coord.tile_url(self.tile_server.as_str())
    }

    /// Requests a tile: a no-op when the address already has any state
    /// (deduplication); otherwise `disk` - the decoded result of the
    /// caller's disk-store probe - either becomes the `Loaded` state
    /// (never touching the network) or, when absent, the tile becomes
    /// `Loading` and a fetch under a fresh request id is ordered.
    pub fn request_tile(&mut self, coord: TileCoord, disk: Option<H>) -> (r: RequestOutcome)
        requires
            old(self).wf(),
            coord.valid(),
            old(self).st().counter < u64::MAX,
        ensures
            final(self).wf(),
            final(self).st() == spec_request_tile(old(self).st(), coord, disk).0,
            r == spec_request_tile(old(self).st(), coord, disk).1,
            final(self).spec_server() == old(self).spec_server(),
    {
        let key = coord.key();
        if self.tiles.contains_key(&key) {
            return RequestOutcome::AlreadyPresent;
        }
        match disk {
            Some(h) => {
                self.tiles.insert(key, TileState::Loaded(h));
                proof {
                    lemma_request_preserves_wf_insert(old(self).st(), final(self).st(), coord);
                }
                RequestOutcome::LoadedFromDisk
            },
            None => {
                self.request_counter = self.request_counter + 1;
                let id = self.request_counter;
                self.tiles.insert(key, TileState::Loading);
                self.pending.insert(id, coord);
                proof {
                    lemma_request_preserves_wf_fetch(old(self).st(), final(self).st(), coord);
                }
                RequestOutcome::Fetch(id)
            },
        }
    }

    /// The decoded image for an address, only if its state is `Loaded`.
    /// Never blocks; an absent, loading or failed tile yields `None`.
    pub fn get_tile(&self, coord: &TileCoord) -> (r: Option<&H>)
        requires
            coord.valid(),
        ensures
            match r {
                Some(h) => spec_loaded_of(self.st(), *coord) == Some(*h),
                None => spec_loaded_of(self.st(), *coord) is None,
            },
    {
        let key = coord.key();
        match self.tiles.get(&key) {
            Some(st) => match st {
                TileState::Loaded(h) => Some(h),
                _ => None,
            },
            None => None,
        }
    }

    /// Whether the address is `Loaded`.
    pub fn is_loaded(&self, coord: &TileCoord) -> (r: bool)
        requires
            coord.valid(),
        ensures
            r == (spec_loaded_of(self.st(), *coord) is Some),
    {
        self.get_tile(coord).is_some()
    }

    /// Delivers a network response for a pending request id.  The pending
    /// entry is removed exactly once; the tile settles terminally into
    /// `Loaded` or an `Error`.  Bytes are handed back for persisting
    /// (`save`) only when the caller's decode succeeded - an undecodable
    /// body is never persisted.  `decoded` must be the outcome of decoding
    /// `body`; the cache is correct for every such outcome.
    pub fn handle_response(
        &mut self,
        request_id: u64,
        status: u16,
        body: Option<Vec<u8>>,
        decoded: Option<H>,
    ) -> (r: ResponseOutcome)
        requires
            old(self).wf(),
            decoded is Some ==> body is Some,
        ensures
            final(self).wf(),
            ({
                let eff = spec_handle_response(
                    old(self).st(),
                    request_id,
                    status,
                    body is Some,
                    decoded,
                );
                &&& final(self).st() == eff.state
                &&& r.changed == eff.changed
                &&& r.evict == eff.evict
                &&& (match r.save {
                    Some(d) => eff.save && d.coord == old(self).st().pending[request_id]
                        && d.bytes@ == body.unwrap()@,
                    None => !eff.save,
                })
            }),
            final(self).spec_server() == old(self).spec_server(),
    {
        let coord = match self.pending.remove(&request_id) {
            Some(c) => c,
            None => {
                return ResponseOutcome { changed: false, save: None, evict: false };
            },
        };
        let key = coord.key();
        if status == 200 {
            match body {
                Some(bytes) => match decoded {
                    Some(h) => {
                        self.tiles.insert(key, TileState::Loaded(h));
                        self.save_cycle = if self.save_cycle >= 99 {
                            0
                        } else {
                            self.save_cycle + 1
                        };
                        proof {
                            lemma_response_preserves_wf(
                                old(self).st(),
                                coord,
                                request_id,
                                self.st(),
                            );
                        }
                        let evict = self.save_cycle == 0;
                        ResponseOutcome {
                            changed: true,
                            save: Some(SaveDirective { coord, bytes }),
                            evict,
                        }
                    },
                    None => {
                        self.tiles.insert(key, TileState::Error(TileError::Decode));
                        proof {
                            lemma_response_preserves_wf(
                                old(self).st(),
                                coord,
                                request_id,
                                self.st(),
                            );
                        }
                        ResponseOutcome { changed: false, save: None, evict: false }
                    },
                },
                None => {
                    self.tiles.insert(key, TileState::Error(TileError::EmptyBody));
                    proof {
                        lemma_response_preserves_wf(old(self).st(), coord, request_id, self.st());
                    }
                    ResponseOutcome { changed: false, save: None, evict: false }
                },
            }
        } else {
            self.tiles.insert(key, TileState::Error(TileError::HttpStatus(status)));
            proof {
                lemma_response_preserves_wf(old(self).st(), coord, request_id, self.st());
            }
            ResponseOutcome { changed: false, save: None, evict: false }
        }
    }

    /// Delivers a transport-level failure for a pending request id: the
    /// pending entry is removed exactly once and the tile settles into
    /// `Error(Transport)` carrying the message.
    pub fn handle_error(&mut self, request_id: u64, message: String)
        requires
            old(self).wf(),
        ensures
            final(self).wf(),
            !old(self).st().pending.dom().contains(request_id) ==> final(self).st() == old(
                self,
            ).st(),
            old(self).st().pending.dom().contains(request_id) ==> final(self).st() == (CacheState {
                tiles: old(self).st().tiles.insert(
                    spec_key64(old(self).st().pending[request_id]),
                    TileState::Error(TileError::Transport(message)),
                ),
                pending: old(self).st().pending.remove(request_id),
                ..old(self).st()
            }),
            final(self).spec_server() == old(self).spec_server(),
    {
        let coord = match self.pending.remove(&request_id) {
            Some(c) => c,
            None => {
                return ;
            },
        };
        let key = coord.key();
        self.tiles.insert(key, TileState::Error(TileError::Transport(message)));
        proof {
            lemma_response_preserves_wf(old(self).st(), coord, request_id, self.st());
        }
    }

    /// Drops every in-memory state and pending request.  The id counter
    /// keeps running: request ids are never reused within the lifetime of
    /// a cache instance.  The caller must purge the disk store alongside.
    pub fn clear(&mut self)
        requires
            old(self).wf(),
        ensures
            final(self).wf(),
            final(self).st().tiles == Map::<u64, TileState<H>>::empty(),
            final(self).st().pending == Map::<u64, TileCoord>::empty(),
            final(self).st().counter == old(self).st().counter,
            final(self).st().save_cycle == old(self).st().save_cycle,
            final(self).spec_server() == old(self).spec_server(),
    {
        self.tiles.clear();
        self.pending.clear();
    }
}

impl<H> Default for TileCache<H> {
    /// An empty cache pointed at the default tile server.
    fn default() -> (r: Self)
        ensures
            r.wf(),
            r.st().tiles == Map::<u64, TileState<H>>::empty(),
            r.st().pending == Map::<u64, TileCoord>::empty(),
            r.st().counter == 0,
            r.st().save_cycle == 0,
    {
        TileCache::new()
    }
}

/// Default tile-server URL template.
pub fn default_tile_server() -> (r: &'static str)
    ensures
        r@ == "https://a.basemaps.cartocdn.com/rastertiles/voyager/{z}/{x}/{y}@2x.png"@,
{
    "https://a.basemaps.cartocdn.com/rastertiles/voyager/{z}/{x}/{y}@2x.png"
}

/// Installing a state at an address no pending request points to keeps
/// the cache well-formed.
proof fn lemma_request_preserves_wf_insert<H>(s0: CacheState<H>, s1: CacheState<H>, t: TileCoord)
    requires
        cache_state_wf(s0),
        t.valid(),
        !s0.tiles.dom().contains(spec_key64(t)),
        s1.pending == s0.pending,
        s1.counter == s0.counter,
        s1.save_cycle == s0.save_cycle,
        exists|st: TileState<H>| s1.tiles == s0.tiles.insert(spec_key64(t), st),
    ensures
        cache_state_wf(s1),
{
    assert forall|id: u64| #[trigger] s1.pending.dom().contains(id) implies s1.pending[id].valid()
        && 1 <= id <= s1.counter && s1.tiles.dom().contains(spec_key64(s1.pending[id]))
        && s1.tiles[spec_key64(s1.pending[id])] is Loading by {
        assert(s0.pending.dom().contains(id));
        assert(s0.tiles.dom().contains(spec_key64(s0.pending[id])));
        assert(spec_key64(s0.pending[id]) != spec_key64(t));
    }
}

/// Starting a fetch for an address that has no state keeps the cache
/// well-formed: the new id is fresh and the new entry points at the new
/// `Loading` state.
proof fn lemma_request_preserves_wf_fetch<H>(s0: CacheState<H>, s1: CacheState<H>, t: TileCoord)
    requires
        cache_state_wf(s0),
        t.valid(),
        s0.counter < u64::MAX,
        !s0.tiles.dom().contains(spec_key64(t)),
        s1.tiles == s0.tiles.insert(spec_key64(t), TileState::<H>::Loading),
        s1.pending == s0.pending.insert((s0.counter + 1) as u64, t),
        s1.counter == s0.counter + 1,
        s1.save_cycle == s0.save_cycle,
    ensures
        cache_state_wf(s1),
{
    let fresh = (s0.counter + 1) as u64;
    assert forall|id: u64| #[trigger] s1.pending.dom().contains(id) implies s1.pending[id].valid()
        && 1 <= id <= s1.counter && s1.tiles.dom().contains(spec_key64(s1.pending[id]))
        && s1.tiles[spec_key64(s1.pending[id])] is Loading by {
        if id == fresh {
        } else {
            assert(s0.pending.dom().contains(id));
            assert(s0.tiles.dom().contains(spec_key64(s0.pending[id])));
            assert(spec_key64(s0.pending[id]) != spec_key64(t));
        }
    }
    assert forall|id1: u64, id2: u64|
        s1.pending.dom().contains(id1) && s1.pending.dom().contains(id2) && id1
            != id2 implies #[trigger] s1.pending[id1] != #[trigger] s1.pending[id2] by {
        if id1 == fresh || id2 == fresh {
            let other = if id1 == fresh {
                id2
            } else {
                id1
            };
            assert(s0.pending.dom().contains(other));
            assert(s0.tiles.dom().contains(spec_key64(s0.pending[other])));
            assert(spec_key64(s0.pending[other]) != spec_key64(t));
        }
    }
}

/// Settling the tile of one pending request and removing that request
/// keeps the cache well-formed: no other pending request shares the
/// address, so every other entry still points at a `Loading` state.
proof fn lemma_response_preserves_wf<H>(s0: CacheState<H>, t: TileCoord, rid: u64, s1: CacheState<
    H,
>)
    requires
        cache_state_wf(s0),
        s0.pending.dom().contains(rid),
        s0.pending[rid] == t,
        s1.pending == s0.pending.remove(rid),
        s1.counter == s0.counter,
        s1.save_cycle < 100,
        exists|st: TileState<H>| s1.tiles == s0.tiles.insert(spec_key64(t), st),
    ensures
        cache_state_wf(s1),
{
    assert forall|id: u64| #[trigger] s1.pending.dom().contains(id) implies s1.pending[id].valid()
        && 1 <= id <= s1.counter && s1.tiles.dom().contains(spec_key64(s1.pending[id]))
        && s1.tiles[spec_key64(s1.pending[id])] is Loading by {
        assert(s0.pending.dom().contains(id) && id != rid);
        assert(s0.pending[id] != t);
        lemma_key64_distinct(s0.pending[id], t);
    }
}

/// Distinct valid tile addresses have distinct packed keys.
proof fn lemma_key64_distinct(a: TileCoord, b: TileCoord)
    requires
        a.valid(),
        b.valid(),
        a != b,
    ensures
        spec_key64(a) != spec_key64(b),
{
    if spec_key64(a) == spec_key64(b) {
        lemma_key64_injective(a, b);
    }
}

/// Requesting the same absent address twice issues exactly one fetch:
/// the first call orders a fetch under the fresh id, the second call is
/// a guaranteed no-op, and exactly one pending request for the address
/// exists afterwards.
pub proof fn lemma_request_tile_idempotent<H>(
    s: CacheState<H>,
    t: TileCoord,
    d2: Option<H>,
)
    requires
        cache_state_wf(s),
        t.valid(),
        !s.tiles.dom().contains(spec_key64(t)),
        s.counter < u64::MAX,
    ensures
        ({
            let (s1, r1) = spec_request_tile(s, t, Option::<H>::None);
            let (s2, r2) = spec_request_tile(s1, t, d2);
            &&& r1 == RequestOutcome::Fetch((s.counter + 1) as u64)
            &&& s2 == s1
            &&& r2 == RequestOutcome::AlreadyPresent
            &&& forall|id: u64|
                s1.pending.dom().contains(id) && #[trigger] s1.pending[id] == t <==> id == (
                s.counter + 1) as u64
        }),
{
    let fresh = (s.counter + 1) as u64;
    let (s1, r1) = spec_request_tile(s, t, Option::<H>::None);
    assert forall|id: u64|
        s1.pending.dom().contains(id) && #[trigger] s1.pending[id] == t implies id == fresh by {
        if id != fresh {
            assert(s.pending.dom().contains(id));
            assert(s.tiles.dom().contains(spec_key64(s.pending[id])));
        }
    }
    assert(s1.pending.dom().contains(fresh) && s1.pending[fresh] == t);
}

/// The ancestor of a tile `k` zoom levels up the pyramid, together with
/// the position of the tile inside that ancestor's quadrant grid.
pub open spec fn spec_ancestor(t: TileCoord, k: nat) -> TileCoord
    recommends
        t.valid(),
        k <= t.z,
{
    TileCoord {
        x: (t.x as int / pow2(k) as int) as u32,
        y: (t.y as int / pow2(k) as int) as u32,
        z: (t.z - k) as u8,
    }
}

/// The ancestor of a valid tile is valid.
pub proof fn lemma_ancestor_valid(t: TileCoord, k: nat)
    requires
        t.valid(),
        k <= t.z,
    ensures
        spec_ancestor(t, k).valid(),
        0 <= t.x as int / pow2(k) as int <= t.x,
        0 <= t.y as int / pow2(k) as int <= t.y,
{
    let p = pow2(k) as int;
    let nz = pow2((t.z - k) as nat) as int;
    vstd::arithmetic::power2::lemma_pow2_pos(k);
    vstd::arithmetic::power2::lemma_pow2_pos((t.z - k) as nat);
    assert(pow2((t.z - k) as nat) * pow2(k) == pow2(t.z as nat)) by {
        vstd::arithmetic::power2::lemma_pow2_adds((t.z - k) as nat, k);
    }
    assert(p * nz == nz * p) by {
        vstd::arithmetic::mul::lemma_mul_is_commutative(p, nz);
    }
    vstd::arithmetic::div_mod::lemma_multiply_divide_lt(t.x as int, p, nz);
    vstd::arithmetic::div_mod::lemma_multiply_divide_lt(t.y as int, p, nz);
    vstd::arithmetic::div_mod::lemma_div_pos_is_pos(t.x as int, p);
    vstd::arithmetic::div_mod::lemma_div_pos_is_pos(t.y as int, p);
    vstd::arithmetic::div_mod::lemma_div_is_ordered_by_denominator(t.x as int, 1, p);
    vstd::arithmetic::div_mod::lemma_div_is_ordered_by_denominator(t.y as int, 1, p);
    vstd::arithmetic::div_mod::lemma_div_basics(t.x as int);
    vstd::arithmetic::div_mod::lemma_div_basics(t.y as int);
}

/// What the fallback lookup found: the nearest loaded ancestor `depth`
/// zoom levels up, and the sub-rectangle of it that covers the requested
/// tile - uv offset `(off_x, off_y) / 2^depth`, uv scale `1 / 2^depth`.
#[derive(Clone, Copy, Debug, PartialEq, Eq, Structural)]
pub struct FallbackInfo {
    pub ancestor: TileCoord,
    pub depth: u8,
    pub off_x: u32,
    pub off_y: u32,
}

impl<H> TileCache<H> {
    /// Walks up to `max_levels` zoom levels toward the pyramid root and
    /// returns the first (nearest) ancestor whose state is `Loaded`,
    /// with the sub-rectangle of it that covers `coord`; `None` when no
    /// ancestor within reach is loaded.
    pub fn find_fallback(&self, coord: &TileCoord, max_levels: u8) -> (r: Option<FallbackInfo>)
        requires
            coord.valid(),
        ensures
            match r {
                Some(f) => {
                    &&& 1 <= f.depth <= max_levels
                    &&& f.depth <= coord.z
                    &&& f.ancestor == spec_ancestor(*coord, f.depth as nat)
                    &&& f.ancestor.valid()
                    &&& spec_loaded_of(self.st(), f.ancestor) is Some
                    &&& forall|j: nat|
                        1 <= j < f.depth ==> spec_loaded_of(
                            self.st(),
                            #[trigger] spec_ancestor(*coord, j),
                        ) is None
                    &&& f.off_x == coord.x as int % pow2(f.depth as nat) as int
                    &&& f.off_y == coord.y as int % pow2(f.depth as nat) as int
                },
                None => forall|j: nat|
                    1 <= j <= max_levels && j <= coord.z ==> spec_loaded_of(
                        self.st(),
                        #[trigger] spec_ancestor(*coord, j),
                    ) is None,
            },
    {
        let mut k: u8 = 1;
        let mut p: u32 = 2;
        proof {
            vstd::arithmetic::power2::lemma2_to64();
        }
        while k <= max_levels && k <= coord.z
            invariant
                coord.valid(),
                1 <= k,
                k <= 20,
                p == pow2(k as nat),
                forall|j: nat|
                    1 <= j < k ==> spec_loaded_of(self.st(), #[trigger] spec_ancestor(*coord, j))
                        is None,
            decreases 20 - k,
        {
            proof {
                lemma_ancestor_valid(*coord, k as nat);
                vstd::arithmetic::power2::lemma_pow2_pos(k as nat);
            }
            let anc = TileCoord { x: coord.x / p, y: coord.y / p, z: coord.z - k };
            if self.is_loaded(&anc) {
                proof {
                    vstd::arithmetic::div_mod::lemma_mod_bound(coord.x as int, p as int);
                    vstd::arithmetic::div_mod::lemma_mod_bound(coord.y as int, p as int);
                }
                let off_x = coord.x % p;
                let off_y = coord.y % p;
                return Some(FallbackInfo { ancestor: anc, depth: k, off_x, off_y });
            }
            proof {
                assert(pow2((k + 1) as nat) == 2 * pow2(k as nat)) by {
                    vstd::arithmetic::power2::lemma_pow2_unfold((k + 1) as nat);
                }
                lemma_pow2_20_fits(k as nat);
            }
            k = k + 1;
            p = p * 2;
        }
        None
    }
}

/// `pow2` of an exponent below 20 stays below 2^19.
proof fn lemma_pow2_20_fits(e: nat)
    requires
        e <= 19,
    ensures
        pow2(e) <= 0x80000,
{
    vstd::arithmetic::power2::lemma2_to64();
    if e < 19 {
        vstd::arithmetic::power2::lemma_pow2_strictly_increases(e, 19);
    }
}

/// Half-extent, in tiles, of a viewport axis: enough 256-pixel tiles to
/// cover the pixels, plus a margin of two, halved around the center.
pub open spec fn spec_half_tiles(px: u32) -> int {
    ((px + 255) / 256 + 2) / 2
}

/// The visible tile at viewport offset `(dx, dy)` tiles from the center
/// tile: the column wraps around the antimeridian.
pub open spec fn spec_visible_tile(center: WorldPoint, zoom: u8, dx: int, dy: int) -> TileCoord
    recommends
        center.wf(),
        zoom <= crate::world::MAX_TILE_ZOOM,
{
    let ct = spec_world_to_tile(center, zoom);
    let n = pow2(zoom as nat) as int;
    TileCoord { x: ((ct.x + dx) % n) as u32, y: (ct.y + dy) as u32, z: zoom }
}

/// The element arose from some viewport offset within the half extents.
pub open spec fn spec_from_offset(
    t: TileCoord,
    center: WorldPoint,
    zoom: u8,
    hx: int,
    hy: int,
) -> bool {
    exists|dx: int, dy: int|
        -hx <= dx <= hx && -hy <= dy <= hy && t == #[trigger] spec_visible_tile(
            center,
            zoom,
            dx,
            dy,
        )
}

/// The first `k` tiles of the visible row at offset `dy`: columns from
/// `-hx` eastward, in order.
pub open spec fn spec_visible_row(
    center: WorldPoint,
    zoom: u8,
    hx: int,
    dy: int,
    k: nat,
) -> Seq<TileCoord>
    decreases k,
{
    if k == 0 {
        Seq::empty()
    } else {
        spec_visible_row(center, zoom, hx, dy, (k - 1) as nat).push(
            spec_visible_tile(center, zoom, -hx + (k - 1), dy),
        )
    }
}

/// The visible tiles of the first `k` row offsets (from `-hy`
/// southward), row-major; a row outside the pyramid contributes
/// nothing.
pub open spec fn spec_visible_rows(
    center: WorldPoint,
    zoom: u8,
    hx: int,
    hy: int,
    k: nat,
) -> Seq<TileCoord>
    decreases k,
{
    if k == 0 {
        Seq::empty()
    } else {
        let dy = -hy + (k - 1);
        let prev = spec_visible_rows(center, zoom, hx, hy, (k - 1) as nat);
        let ct = spec_world_to_tile(center, zoom);
        let n = pow2(zoom as nat) as int;
        if 0 <= ct.y + dy < n {
            prev + spec_visible_row(center, zoom, hx, dy, (2 * hx + 1) as nat)
        } else {
            prev
        }
    }
}

/// The tiles needed to cover a viewport of the given pixel size centered
/// on `center` at integer zoom `zoom`: exactly the offsets within the
/// half extents whose row lies inside the pyramid, in row-major order
/// with wrapping columns (a narrow world may repeat a column, as the
/// wrap dictates).
pub fn get_visible_tiles(center: WorldPoint, zoom: u8, viewport_w: u32, viewport_h: u32) -> (r:
    Vec<TileCoord>)
    requires
        center.wf(),
        zoom <= crate::world::MAX_TILE_ZOOM,
    ensures
        r@ == spec_visible_rows(
            center,
            zoom,
            spec_half_tiles(viewport_w),
            spec_half_tiles(viewport_h),
            (2 * spec_half_tiles(viewport_h) + 1) as nat,
        ),
        forall|i: int| 0 <= i < r@.len() ==> (#[trigger] r@[i]).valid() && r@[i].z == zoom,
        forall|dx: int, dy: int|
            ({
                let ct = spec_world_to_tile(center, zoom);
                let n = pow2(zoom as nat) as int;
                (-spec_half_tiles(viewport_w) <= dx <= spec_half_tiles(viewport_w)
                    && -spec_half_tiles(viewport_h) <= dy <= spec_half_tiles(viewport_h) && 0 <= ct.y
                    + dy < n) ==> r@.contains(#[trigger] spec_visible_tile(center, zoom, dx, dy))
            }),
        forall|i: int|
            0 <= i < r@.len() ==> spec_from_offset(
                #[trigger] r@[i],
                center,
                zoom,
                spec_half_tiles(viewport_w),
                spec_half_tiles(viewport_h),
            ),
{
    let ct = world_to_tile(center, zoom);
    let n = tiles_per_axis(zoom);
    let hx: i64 = (((viewport_w as u64 + 255) / 256 + 2) / 2) as i64;
    let hy: i64 = (((viewport_h as u64 + 255) / 256 + 2) / 2) as i64;
    let ghost g_ct = spec_world_to_tile(center, zoom);
    let ghost g_n = pow2(zoom as nat) as int;
    proof {
        lemma_pow2_20_fits(zoom as nat);
    }
    let mut out: Vec<TileCoord> = Vec::new();
    let mut dy: i64 = -hy;
    while dy <= hy
        invariant
            center.wf(),
            zoom <= crate::world::MAX_TILE_ZOOM,
            g_ct == spec_world_to_tile(center, zoom),
            g_n == pow2(zoom as nat),
            ct == g_ct,
            n == g_n,
            1 <= n <= 0x80000,
            ct.x < n,
            ct.y < n,
            hx == spec_half_tiles(viewport_w),
            hy == spec_half_tiles(viewport_h),
            0 <= hx < 0x1_00_0000,
            0 <= hy < 0x1_00_0000,
            -hy <= dy <= hy + 1,
            out@ == spec_visible_rows(center, zoom, hx as int, hy as int, (dy + hy) as nat),
            forall|i: int| 0 <= i < out@.len() ==> (#[trigger] out@[i]).valid() && out@[i].z
                == zoom,
            forall|dx2: int, dy2: int|
                (-hx <= dx2 <= hx && -hy <= dy2 < dy && 0 <= g_ct.y + dy2 < g_n) ==> out@.contains(
                    #[trigger] spec_visible_tile(center, zoom, dx2, dy2),
                ),
            forall|i: int|
                0 <= i < out@.len() ==> spec_from_offset(
                    #[trigger] out@[i],
                    center,
                    zoom,
                    hx as int,
                    hy as int,
                ),
        decreases hy + 1 - dy,
    {
        let y = ct.y as i64 + dy;
        if y >= 0 && y < n as i64 {
            let mut dx: i64 = -hx;
            proof {
                assert(out@ + spec_visible_row(center, zoom, hx as int, dy as int, 0) =~= out@);
            }
            while dx <= hx
                invariant
                    center.wf(),
                    zoom <= crate::world::MAX_TILE_ZOOM,
                    g_ct == spec_world_to_tile(center, zoom),
                    g_n == pow2(zoom as nat),
                    ct == g_ct,
                    n == g_n,
                    1 <= n <= 0x80000,
                    ct.x < n,
                    ct.y < n,
                    hx == spec_half_tiles(viewport_w),
                    hy == spec_half_tiles(viewport_h),
                    0 <= hx < 0x1_00_0000,
                    0 <= hy < 0x1_00_0000,
                    -hy <= dy <= hy,
                    y == ct.y + dy,
                    0 <= y < n,
                    -hx <= dx <= hx + 1,
                    out@ == spec_visible_rows(center, zoom, hx as int, hy as int, (dy + hy) as nat)
                        + spec_visible_row(center, zoom, hx as int, dy as int, (dx + hx) as nat),
                    forall|i: int| 0 <= i < out@.len() ==> (#[trigger] out@[i]).valid()
                        && out@[i].z == zoom,
                    forall|dx2: int, dy2: int|
                        (-hx <= dx2 <= hx && -hy <= dy2 < dy && 0 <= g_ct.y + dy2 < g_n)
                            ==> out@.contains(#[trigger] spec_visible_tile(center, zoom, dx2, dy2)),
                    forall|dx2: int|
                        (-hx <= dx2 < dx) ==> out@.contains(
                            #[trigger] spec_visible_tile(center, zoom, dx2, dy as int),
                        ),
                    forall|i: int|
                        0 <= i < out@.len() ==> spec_from_offset(
                            #[trigger] out@[i],
                            center,
                            zoom,
                            hx as int,
                            hy as int,
                        ),
                decreases hx + 1 - dx,
            {
                let wrapped = crate::fixed::wrap_mod_i128((ct.x as i64 + dx) as i128, n as u64);
                let t = TileCoord { x: wrapped as u32, y: y as u32, z: zoom };
                proof {
                    vstd::arithmetic::div_mod::lemma_mod_bound(g_ct.x + dx, g_n);
                    assert((ct.x as i64 + dx) as i128 as int == g_ct.x + dx);
                    assert(t == spec_visible_tile(center, zoom, dx as int, dy as int));
                }
                let ghost prev = out@;
                out.push(t);
                proof {
                    assert(out@ == prev.push(t));
                    assert(out@[out@.len() - 1] == t);
                    // Row-major shape: appending the tile extends the row.
                    assert(spec_visible_row(center, zoom, hx as int, dy as int, (dx + hx + 1) as nat)
                        =~= spec_visible_row(center, zoom, hx as int, dy as int, (dx + hx) as nat)
                        .push(spec_visible_tile(center, zoom, dx as int, dy as int)));
                    assert(out@ =~= spec_visible_rows(
                        center,
                        zoom,
                        hx as int,
                        hy as int,
                        (dy + hy) as nat,
                    ) + spec_visible_row(center, zoom, hx as int, dy as int, (dx + hx + 1) as nat));
                    assert forall|i: int| 0 <= i < out@.len() implies (#[trigger] out@[i]).valid()
                        && out@[i].z == zoom by {
                        if i < prev.len() {
                            assert(out@[i] == prev[i]);
                        } else {
                            assert(out@[i] == t);
                        }
                    }
                    assert forall|dx2: int, dy2: int|
                        (-hx <= dx2 <= hx && -hy <= dy2 < dy && 0 <= g_ct.y + dy2 < g_n)
                            implies out@.contains(
                        #[trigger] spec_visible_tile(center, zoom, dx2, dy2),
                    ) by {
                        let e = spec_visible_tile(center, zoom, dx2, dy2);
                        assert(prev.contains(e));
                        let w = choose|w: int| 0 <= w < prev.len() && prev[w] == e;
                        assert(out@[w] == e);
                    }
                    assert forall|dx2: int| (-hx <= dx2 < dx + 1) implies out@.contains(
                        #[trigger] spec_visible_tile(center, zoom, dx2, dy as int),
                    ) by {
                        let e = spec_visible_tile(center, zoom, dx2, dy as int);
                        if dx2 == dx {
                            assert(out@[out@.len() - 1] == e);
                        } else {
                            assert(prev.contains(e));
                            let w = choose|w: int| 0 <= w < prev.len() && prev[w] == e;
                            assert(out@[w] == e);
                        }
                    }
                    assert forall|i: int| 0 <= i < out@.len() implies spec_from_offset(
                        #[trigger] out@[i],
                        center,
                        zoom,
                        hx as int,
                        hy as int,
                    ) by {
                        if i < prev.len() {
                            assert(out@[i] == prev[i]);
                            assert(spec_from_offset(prev[i], center, zoom, hx as int, hy as int));
                        } else {
                            assert(out@[i] == spec_visible_tile(
                                center,
                                zoom,
                                dx as int,
                                dy as int,
                            ));
                        }
                    }
                }
                dx = dx + 1;
            }
            proof {
                // The finished row is the in-range branch of the next
                // row-count unfolding.
                assert(spec_visible_rows(center, zoom, hx as int, hy as int, (dy + hy + 1) as nat)
                    =~= spec_visible_rows(center, zoom, hx as int, hy as int, (dy + hy) as nat)
                    + spec_visible_row(
                    center,
                    zoom,
                    hx as int,
                    dy as int,
                    (2 * hx + 1) as nat,
                ));
            }
        } else {
            proof {
                // A row outside the pyramid contributes nothing.
                assert(spec_visible_rows(center, zoom, hx as int, hy as int, (dy + hy + 1) as nat)
                    =~= spec_visible_rows(center, zoom, hx as int, hy as int, (dy + hy) as nat));
            }
        }
        dy = dy + 1;
    }
    out
}

/// A settled tile never changes again: once an address is `Loaded` or
/// `Error`, requesting it again leaves its state exactly as it was
/// (re-requests are suppressed, errors are never silently retried).
pub proof fn lemma_settled_state_survives_request<H>(
    s: CacheState<H>,
    c: TileCoord,
    disk: Option<H>,
    t: TileCoord,
)
    requires
        cache_state_wf(s),
        c.valid(),
        t.valid(),
        match spec_state_of(s, t) {
            Some(st) => !(st is Loading),
            None => false,
        },
    ensures
        spec_state_of(spec_request_tile(s, c, disk).0, t) == spec_state_of(s, t),
{
    if !s.tiles.dom().contains(spec_key64(c)) {
        if t != c {
            lemma_key64_distinct(t, c);
        }
    }
}

/// A settled tile survives the settling of any pending request: the
/// tile a response or error writes to was `Loading`, so a `Loaded` or
/// `Error` state is never overwritten.
pub proof fn lemma_settled_state_survives_delivery<H>(
    s: CacheState<H>,
    id: u64,
    st_new: TileState<H>,
    t: TileCoord,
)
    requires
        cache_state_wf(s),
        s.pending.dom().contains(id),
        t.valid(),
        match spec_state_of(s, t) {
            Some(st) => !(st is Loading),
            None => false,
        },
    ensures
        ({
            let k = spec_key64(s.pending[id]);
            spec_state_of(
                CacheState { tiles: s.tiles.insert(k, st_new), pending: s.pending.remove(id), ..s },
                t,
            ) == spec_state_of(s, t)
        }),
{
    let target = s.pending[id];
    if t != target {
        lemma_key64_distinct(t, target);
    }
}

} // verus!
