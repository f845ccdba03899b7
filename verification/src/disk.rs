//! Disk-store accounting: total cache size, the budgeted eviction plan,
//! and the on-disk layout of tile files.
//!
//! The store itself lives on a file system the crate never touches.  The
//! embedding application enumerates the tile files (an opaque id, the
//! modification time, the size) and executes the plan computed here:
//! `evict_if_needed` says exactly which files to unlink, oldest first,
//! until the remaining bytes fit the budget.

use vstd::prelude::*;
use vstd::multiset::Multiset;
use vstd::seq_lib::lemma_multiset_commutative;

use crate::tile::spec_decimal;
use crate::world::TileCoord;

verus! {

use vstd::string::StringExecFns;

/// One file of the disk store: an opaque identifier chosen by the caller,
/// its last-modification time, and its size in bytes.
#[derive(Clone, Copy, Debug, PartialEq, Eq, Structural)]
pub struct FileEntry {
    pub id: u64,
    pub mtime: u64,
    pub size: u64,
}

/// Total size in bytes of a list of files.
pub open spec fn spec_total_size(s: Seq<FileEntry>) -> int
    decreases s.len(),
{
    if s.len() == 0 {
        0
    } else {
        s[0].size + spec_total_size(s.drop_first())
    }
}

/// A total size is never negative.
pub proof fn lemma_total_size_nonneg(s: Seq<FileEntry>)
    ensures
        spec_total_size(s) >= 0,
    decreases s.len(),
{
    if s.len() > 0 {
        lemma_total_size_nonneg(s.drop_first());
    }
}

/// Total size distributes over concatenation.
pub proof fn lemma_total_size_concat(a: Seq<FileEntry>, b: Seq<FileEntry>)
    ensures
        spec_total_size(a + b) == spec_total_size(a) + spec_total_size(b),
    decreases a.len(),
{
    if a.len() == 0 {
        assert(a + b =~= b);
    } else {
        assert((a + b).drop_first() =~= a.drop_first() + b);
        lemma_total_size_concat(a.drop_first(), b);
    }
}

/// Total size of a single file.
proof fn lemma_total_size_singleton(e: FileEntry)
    ensures
        spec_total_size(seq![e]) == e.size,
{
    assert(seq![e].drop_first() =~= Seq::<FileEntry>::empty());
    assert(spec_total_size(Seq::<FileEntry>::empty()) == 0);
    assert(seq![e][0] == e);
}

/// The files are ordered by modification time, oldest first.
pub open spec fn sorted_by_mtime(s: Seq<FileEntry>) -> bool {
    forall|i: int, j: int| 0 <= i < j < s.len() ==> s[i].mtime <= s[j].mtime
}

/// Total size in bytes of the listed files, saturating at `u64::MAX`.
pub fn cache_size(files: &Vec<FileEntry>) -> (r: u64)
    ensures
        spec_total_size(files@) <= u64::MAX ==> r == spec_total_size(files@),
        spec_total_size(files@) > u64::MAX ==> r == u64::MAX,
{
    let mut acc: u64 = 0;
    let mut i: usize = 0;
    proof {
        assert(files@.take(0) =~= Seq::<FileEntry>::empty());
    }
    while i < files.len()
        invariant
            i <= files@.len(),
            spec_total_size(files@.take(i as int)) <= u64::MAX ==> acc == spec_total_size(
                files@.take(i as int),
            ),
            spec_total_size(files@.take(i as int)) > u64::MAX ==> acc == u64::MAX,
        decreases files@.len() - i,
    {
        proof {
            assert(files@.take(i + 1) =~= files@.take(i as int) + seq![files@[i as int]]);
            lemma_total_size_concat(files@.take(i as int), seq![files@[i as int]]);
            lemma_total_size_singleton(files@[i as int]);
            lemma_total_size_nonneg(files@.take(i as int));
        }
        acc = match acc.checked_add(files[i].size) {
            Some(v) => v,
            None => u64::MAX,
        };
        i = i + 1;
    }
    proof {
        assert(files@.take(files@.len() as int) =~= files@);
    }
    acc
}

/// Multiset view of inserting one element into a sequence.
proof fn lemma_insert_to_multiset(s: Seq<FileEntry>, i: int, a: FileEntry)
    requires
        0 <= i <= s.len(),
    ensures
        s.insert(i, a).to_multiset() == s.to_multiset().insert(a),
{
    broadcast use vstd::seq_lib::group_to_multiset_ensures;

    let lo = s.subrange(0, i);
    let hi = s.subrange(i, s.len() as int);
    lemma_multiset_commutative(lo.push(a), hi);
    lemma_multiset_commutative(lo, hi);
    assert(s =~= lo + hi);
    assert(s.insert(i, a).to_multiset() =~= s.to_multiset().insert(a));
}

/// Total size is unchanged by removing one element and paying its size.
proof fn lemma_total_size_remove(s: Seq<FileEntry>, i: int)
    requires
        0 <= i < s.len(),
    ensures
        spec_total_size(s.remove(i)) == spec_total_size(s) - s[i].size,
{
    let lo = s.subrange(0, i);
    let hi = s.subrange(i + 1, s.len() as int);
    assert(s =~= lo + (seq![s[i]] + hi));
    lemma_total_size_concat(lo, seq![s[i]] + hi);
    lemma_total_size_concat(seq![s[i]], hi);
    lemma_total_size_concat(lo, hi);
    lemma_total_size_singleton(s[i]);
    assert(s.remove(i) =~= lo + hi);
}

/// Total size grows by the size of an inserted element.
proof fn lemma_total_size_insert(s: Seq<FileEntry>, i: int, a: FileEntry)
    requires
        0 <= i <= s.len(),
    ensures
        spec_total_size(s.insert(i, a)) == spec_total_size(s) + a.size,
{
    let lo = s.subrange(0, i);
    let hi = s.subrange(i, s.len() as int);
    assert(s =~= lo + hi);
    assert(lo.push(a) =~= lo + seq![a]);
    lemma_total_size_concat(lo, hi);
    lemma_total_size_concat(lo.push(a), hi);
    lemma_total_size_concat(lo, seq![a]);
    lemma_total_size_singleton(a);
}

/// Sorts the files by modification time, oldest first, preserving the
/// collection of files.
pub fn sort_by_mtime(files: &mut Vec<FileEntry>)
    ensures
        sorted_by_mtime(final(files)@),
        final(files)@.to_multiset() == old(files)@.to_multiset(),
        final(files)@.len() == old(files)@.len(),
        spec_total_size(final(files)@) == spec_total_size(old(files)@),
{
    broadcast use vstd::seq_lib::group_to_multiset_ensures;
    broadcast use vstd::multiset::group_multiset_axioms;

    if files.len() < 2 {
        return ;
    }
    let mut i: usize = 1;
    while i < files.len()
        invariant
            1 <= i <= files@.len(),
            files@.len() == old(files)@.len(),
            files@.to_multiset() == old(files)@.to_multiset(),
            spec_total_size(files@) == spec_total_size(old(files)@),
            sorted_by_mtime(files@.take(i as int)),
        decreases files@.len() - i,
    {
        let ghost before = files@;
        let x = files.remove(i);
        let ghost mid = files@;
        let mut j: usize = i;
        while j > 0 && files[j - 1].mtime > x.mtime
            invariant
                j <= i,
                i < before.len(),
                files@ == mid,
                mid == before.remove(i as int),
                forall|k: int| j <= k < i ==> mid[k].mtime > x.mtime,
            decreases j,
        {
            j = j - 1;
        }
        files.insert(j, x);
        proof {
            vstd::seq_lib::to_multiset_remove(before, i as int);
            lemma_insert_to_multiset(mid, j as int, x);
            before.to_multiset_ensures();
            assert(before.contains(before[i as int]));
            assert(before.to_multiset().count(before[i as int]) > 0);
            assert(files@.to_multiset() =~= before.to_multiset());
            lemma_total_size_remove(before, i as int);
            lemma_total_size_insert(mid, j as int, x);
            before.remove_ensures(i as int);
            mid.insert_ensures(j as int, x);
            assert forall|a: int, b: int| 0 <= a < b < i + 1 implies files@[a].mtime
                <= files@[b].mtime by {
                assert(forall|k: int| 0 <= k < i ==> mid[k] == before[k]);
                assert(forall|k: int| 0 <= k < j ==> files@[k] == mid[k]);
                assert(forall|k: int| j <= k < mid.len() ==> files@[k + 1] == mid[k]);
                assert(files@[j as int] == x);
                if b < j {
                    assert(files@[a].mtime <= files@[b].mtime);
                } else if b == j {
                    if a < j {
                        assert(files@[a] == before[a]);
                        assert(mid[j - 1].mtime <= x.mtime);
                        assert(before[a].mtime <= before[j - 1].mtime);
                    }
                } else {
                    assert(files@[b] == mid[b - 1]);
                    assert(mid[b - 1] == before[b - 1]);
                    if a < j {
                        assert(files@[a] == before[a]);
                        assert(before[a].mtime <= before[b - 1].mtime);
                    } else if a == j {
                        assert(mid[b - 1].mtime > x.mtime);
                    } else {
                        assert(files@[a] == mid[a - 1]);
                        assert(mid[a - 1] == before[a - 1]);
                        assert(before[a - 1].mtime <= before[b - 1].mtime);
                    }
                }
            }
        }
        i = i + 1;
    }
    proof {
        assert(files@.take(files@.len() as int) =~= files@);
    }
}

/// Evicts the oldest files until the remaining total size fits the
/// budget.
///
/// The files are reordered oldest-first; the returned list holds the
/// files to unlink, oldest first.  On return either the remaining total
/// is within the budget or no file is left.  Nothing is evicted when the
/// total already fits.
pub fn evict_if_needed(files: &mut Vec<FileEntry>, budget: u64) -> (deleted: Vec<FileEntry>)
    requires
        spec_total_size(old(files)@) <= u64::MAX,
    ensures
        spec_total_size(final(files)@) <= budget || final(files)@.len() == 0,
        final(files)@.to_multiset().add(deleted@.to_multiset()) == old(files)@.to_multiset(),
        forall|i: int, j: int|
            0 <= i < deleted@.len() && 0 <= j < final(files)@.len() ==> deleted@[i].mtime
                <= final(files)@[j].mtime,
        sorted_by_mtime(deleted@),
        deleted@.len() > 0 ==> spec_total_size(final(files)@) + deleted@.last().size > budget,
        spec_total_size(old(files)@) <= budget ==> final(files)@ == old(files)@ && deleted@.len()
            == 0,
{
    broadcast use vstd::seq_lib::group_to_multiset_ensures;

    proof {
        lemma_total_size_nonneg(files@);
    }
    let total = cache_size(files);
    if total <= budget {
        let deleted: Vec<FileEntry> = Vec::new();
        proof {
            assert(deleted@.to_multiset() =~= Multiset::<FileEntry>::empty());
            assert(files@.to_multiset().add(deleted@.to_multiset()) =~= files@.to_multiset());
        }
        return deleted;
    }
    sort_by_mtime(files);
    let ghost sorted0 = files@;
    let mut deleted: Vec<FileEntry> = Vec::new();
    let mut remaining: u64 = total;
    proof {
        assert(deleted@ + files@ =~= sorted0);
    }
    while remaining > budget && files.len() > 0
        invariant
            remaining == spec_total_size(files@),
            deleted@ + files@ == sorted0,
            sorted_by_mtime(sorted0),
            sorted0.to_multiset() == old(files)@.to_multiset(),
            deleted@.len() > 0 ==> spec_total_size(files@) + deleted@.last().size > budget,
        decreases files@.len(),
    {
        let ghost fs = files@;
        proof {
            lemma_total_size_nonneg(fs.drop_first());
        }
        let f = files.remove(0);
        proof {
            assert(files@ =~= fs.drop_first());
        }
        remaining = remaining - f.size;
        deleted.push(f);
        proof {
            assert(deleted@ + files@ =~= sorted0);
        }
    }
    proof {
        lemma_multiset_commutative(deleted@, files@);
        assert(files@.to_multiset().add(deleted@.to_multiset()) =~= sorted0.to_multiset());
        assert forall|i: int, j: int|
            0 <= i < deleted@.len() && 0 <= j < files@.len() implies deleted@[i].mtime
            <= files@[j].mtime by {
            assert(sorted0[i] == deleted@[i]);
            assert(sorted0[deleted@.len() + j] == files@[j]);
        }
        assert forall|i: int, j: int| 0 <= i < j < deleted@.len() implies deleted@[i].mtime
            <= deleted@[j].mtime by {
            assert(sorted0[i] == deleted@[i]);
            assert(sorted0[j] == deleted@[j]);
        }
    }
    deleted
}

/// Relative path of a tile file inside the disk store:
/// `tiles/{z}/{x}/{y}.png`.
pub open spec fn spec_tile_path(t: TileCoord) -> Seq<char> {
    "tiles/"@ + spec_decimal(t.z as nat) + "/"@ + spec_decimal(t.x as nat) + "/"@ + spec_decimal(
        t.y as nat,
    ) + ".png"@
}

/// Relative path of a tile file inside the disk store.
pub fn tile_path(t: &TileCoord) -> (r: String)
    ensures
        r@ == spec_tile_path(*t),
{
    let mut out = "tiles/".to_owned();
    out.append(crate::tile::decimal_string(t.z as u32).as_str());
    out.append("/");
    out.append(crate::tile::decimal_string(t.x).as_str());
    out.append("/");
    out.append(crate::tile::decimal_string(t.y).as_str());
    out.append(".png");
    proof {
        assert(out@ =~= spec_tile_path(*t));
    }
    out
}

} // verus!
