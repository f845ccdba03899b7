//! Tile bookkeeping: a packed map key for tile addresses, decimal
//! rendering, and URL / relative-path construction for the tile servers
//! and the on-disk store.

use vstd::prelude::*;
use vstd::arithmetic::power2::{lemma2_to64, lemma_pow2_strictly_increases, pow2};

use crate::world::{TileCoord, MAX_TILE_ZOOM};

verus! {

use vstd::string::StringExecFns;

/// A valid tile address packs injectively into a `u64`: zoom in the high
/// bits, then column, then row, each field wide enough for zoom 19.
pub open spec fn spec_tile_key(t: TileCoord) -> int {
    (t.z as u64) * 0x100_0000_0000 + (t.x as u64) * 0x10_0000 + (t.y as u64)
}

/// The column and row of a valid tile address fit in 20 bits.
pub proof fn lemma_valid_tile_fields_small(t: TileCoord)
    requires
        t.valid(),
    ensures
        t.x < 0x10_0000,
        t.y < 0x10_0000,
{
    lemma2_to64();
    if t.z < 19 {
        lemma_pow2_strictly_increases(t.z as nat, 19);
    }
}

/// Packing a valid tile address into a key loses nothing.
pub proof fn lemma_tile_key_injective(a: TileCoord, b: TileCoord)
    requires
        a.valid(),
        b.valid(),
        spec_tile_key(a) == spec_tile_key(b),
    ensures
        a == b,
{
    lemma_valid_tile_fields_small(a);
    lemma_valid_tile_fields_small(b);
}

impl TileCoord {
    /// The packed map key of this tile address.
    pub fn key(&self) -> (r: u64)
        requires
            self.valid(),
        ensures
            r == spec_tile_key(*self),
    {
        proof {
            lemma_valid_tile_fields_small(*self);
        }
        (self.z as u64) * 0x100_0000_0000 + (self.x as u64) * 0x10_0000 + (self.y as u64)
    }
}

/// The character for one decimal digit.
pub open spec fn spec_digit_char(d: int) -> char {
    if d == 0 {
        '0'
    } else if d == 1 {
        '1'
    } else if d == 2 {
        '2'
    } else if d == 3 {
        '3'
    } else if d == 4 {
        '4'
    } else if d == 5 {
        '5'
    } else if d == 6 {
        '6'
    } else if d == 7 {
        '7'
    } else if d == 8 {
        '8'
    } else {
        '9'
    }
}

/// Decimal rendering of a natural number, most significant digit first.
pub open spec fn spec_decimal(n: nat) -> Seq<char>
    decreases n,
{
    if n < 10 {
        seq![spec_digit_char(n as int)]
    } else {
        spec_decimal(n / 10) + seq![spec_digit_char((n % 10) as int)]
    }
}

/// The one-character string for a decimal digit.
fn digit_str(d: u32) -> (r: &'static str)
    requires
        d < 10,
    ensures
        r@ == seq![spec_digit_char(d as int)],
{
    proof {
        reveal_strlit("0");
        reveal_strlit("1");
        reveal_strlit("2");
        reveal_strlit("3");
        reveal_strlit("4");
        reveal_strlit("5");
        reveal_strlit("6");
        reveal_strlit("7");
        reveal_strlit("8");
        reveal_strlit("9");
    }
    let r = match d {
        0 => "0",
        1 => "1",
        2 => "2",
        3 => "3",
        4 => "4",
        5 => "5",
        6 => "6",
        7 => "7",
        8 => "8",
        _ => "9",
    };
    proof {
        assert(r@ =~= seq![spec_digit_char(d as int)]);
    }
    r
}

/// Decimal rendering of `n`, most significant digit first.
pub fn decimal_string(n: u32) -> (r: String)
    ensures
        r@ == spec_decimal(n as nat),
    decreases n,
{
    if n < 10 {
        let r = digit_str(n).to_owned();
        r
    } else {
        let mut s = decimal_string(n / 10);
        s.append(digit_str(n % 10));
        s
    }
}

/// The decimal field that replaces the placeholder character `c`.
pub open spec fn spec_placeholder_value(c: char, t: TileCoord) -> Seq<char> {
    if c == 'z' {
        spec_decimal(t.z as nat)
    } else if c == 'x' {
        spec_decimal(t.x as nat)
    } else {
        spec_decimal(t.y as nat)
    }
}

/// Left-to-right substitution of the literal placeholders `{z}`, `{x}` and
/// `{y}` in a server template by the decimal fields of a tile address.
pub open spec fn spec_subst_template(s: Seq<char>, t: TileCoord) -> Seq<char>
    decreases s.len(),
{
    if s.len() == 0 {
        Seq::empty()
    } else if s.len() >= 3 && s[0] == '{' && s[2] == '}' && (s[1] == 'z' || s[1] == 'x' || s[1]
        == 'y') {
        spec_placeholder_value(s[1], t) + spec_subst_template(s.skip(3), t)
    } else {
        seq![s[0]] + spec_subst_template(s.skip(1), t)
    }
}

/// URL of a tile on the public OpenStreetMap raster server.
pub open spec fn spec_osm_url(t: TileCoord) -> Seq<char> {
    "https://tile.openstreetmap.org/"@ + spec_decimal(t.z as nat) + "/"@ + spec_decimal(
        t.x as nat,
    ) + "/"@ + spec_decimal(t.y as nat) + ".png"@
}

impl TileCoord {
    /// URL of this tile under a server template that contains the literal
    /// placeholders `{z}`, `{x}` and `{y}`.
    pub fn tile_url(&self, server: &str) -> (r: String)
        ensures
            r@ == spec_subst_template(server@, *self),
    {
        let len = server.unicode_len();
        let mut out = String::new();
        let mut i: usize = 0;
        proof {
            assert(server@.skip(0) =~= server@);
            assert(out@ + spec_subst_template(server@, *self) =~= spec_subst_template(
                server@,
                *self,
            ));
        }
        while i < len
            invariant
                i <= len,
                len == server@.len(),
                spec_subst_template(server@, *self) == out@ + spec_subst_template(
                    server@.skip(i as int),
                    *self,
                ),
            decreases len - i,
        {
            let ghost rest = server@.skip(i as int);
            let c0 = server.get_char(i);
            let mut matched = false;
            if c0 == '{' && len - i > 2 {
                let c1 = server.get_char(i + 1);
                let c2 = server.get_char(i + 2);
                if c2 == '}' && (c1 == 'z' || c1 == 'x' || c1 == 'y') {
                    let v = if c1 == 'z' {
                        decimal_string(self.z as u32)
                    } else if c1 == 'x' {
                        decimal_string(self.x)
                    } else {
                        decimal_string(self.y)
                    };
                    proof {
                        assert(rest.skip(3) =~= server@.skip(i + 3));
                        assert(out@ + (spec_placeholder_value(rest[1], *self)
                            + spec_subst_template(rest.skip(3), *self)) =~= (out@ + v@)
                            + spec_subst_template(server@.skip(i + 3), *self));
                    }
                    out.append(v.as_str());
                    i = i + 3;
                    matched = true;
                }
            }
            if !matched {
                let piece = server.substring_char(i, i + 1);
                proof {
                    assert(piece@ =~= seq![rest[0]]);
                    assert(rest.skip(1) =~= server@.skip(i + 1));
                    assert(out@ + (seq![rest[0]] + spec_subst_template(rest.skip(1), *self)) =~= (
                    out@ + piece@) + spec_subst_template(server@.skip(i + 1), *self));
                }
                out.append(piece);
                i = i + 1;
            }
        }
        proof {
            assert(server@.skip(len as int) =~= Seq::<char>::empty());
            assert(out@ + Seq::<char>::empty() =~= out@);
        }
        out
    }

    /// URL of this tile on the public OpenStreetMap raster server.
    pub fn osm_url(&self) -> (r: String)
        ensures
            r@ == spec_osm_url(*self),
    {
        let mut out = "https://tile.openstreetmap.org/".to_owned();
        out.append(decimal_string(self.z as u32).as_str());
        out.append("/");
        out.append(decimal_string(self.x).as_str());
        out.append("/");
        out.append(decimal_string(self.y).as_str());
        out.append(".png");
        proof {
            assert(out@ =~= spec_osm_url(*self));
        }
        out
    }
}

} // verus!
