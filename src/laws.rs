use vstd::prelude::*;

use crate::bytes::{
    be_bytes_u32, be_u32_at, le_bytes_u16, le_bytes_u32, le_u16_at, le_u32_at, lemma_be_bytes_u32,
    lemma_le_bytes_u32, lemma_le_u32_bytes, lemma_le_u32_low_half,
};
use crate::constants::{BLOCK_COUNT, CHECKSUM_AT, FILE_SIZE, MARKER_AT};
use crate::enums::SaveType;
use crate::libs::{
    block_end, block_size, blocks_fit, checksum_of, classify, located, prefix_offset, Block,
};
use crate::savefile::{
    data_region, steam_marker, steam_to_retail, retail_to_steam, stored_checksum, with_checksum,
};

verus! {

/// The block table of a buffer whose blocks fit has 23 entries, and every
/// block starts and ends inside the buffer.
pub proof fn lemma_blocks_inside(b: Seq<Block>, s: Seq<u8>)
    requires
        located(b, s),
        blocks_fit(s),
    ensures
        b.len() == BLOCK_COUNT,
        forall|i: int|
            0 <= i < BLOCK_COUNT ==> 4 <= #[trigger] b[i].index <= b[i].end && b[i].end <= s.len(),
{
    assert forall|i: int| 0 <= i < BLOCK_COUNT implies 4 <= #[trigger] b[i].index <= b[i].end
        && b[i].end <= s.len() by {
        assert(crate::libs::block_end(s, i as nat) <= s.len());
        lemma_prefix_offset_nonneg(s, i as nat);
    }
}

proof fn lemma_prefix_offset_nonneg(s: Seq<u8>, i: nat)
    ensures
        crate::libs::prefix_offset(s, i) >= 0,
    decreases i,
{
    if i > 0 {
        lemma_prefix_offset_nonneg(s, (i - 1) as nat);
    }
}

/// Checking data against its own checksum always succeeds.
pub proof fn lemma_checksum_round_trip(data: Seq<u8>)
    ensures
        crate::libs::checksum_matches(data, checksum_of(data)),
{
}

/// A buffer of the fixed length, once its checksum is written, passes the
/// checksum test of loading.
pub proof fn lemma_with_checksum_is_valid(s: Seq<u8>)
    requires
        s.len() == FILE_SIZE,
    ensures
        with_checksum(s).len() == FILE_SIZE,
        stored_checksum(with_checksum(s)) == checksum_of(data_region(with_checksum(s))),
{
    let c = checksum_of(data_region(s));
    let t = with_checksum(s);
    assert(data_region(t) =~= data_region(s));
    lemma_be_bytes_u32(c);
    assert(be_u32_at(t, CHECKSUM_AT as int) == be_u32_at(be_bytes_u32(c), 0));
}

/// What loading `f` and converting it produces: block 0's size and the end of
/// the last block are read from `f` itself.
pub open spec fn converted_file(f: Seq<u8>, t: SaveType) -> Seq<u8> {
    if t is Retail {
        with_checksum(retail_to_steam(f, block_size(f, 0) as u32, block_end(f, 22)))
    } else {
        with_checksum(steam_to_retail(f, block_size(f, 0) as u32, block_end(f, 22)))
    }
}

/// A Retail save whose conversion to Steam and back keeps its block chain
/// intact: block 0 holds the marker offset and its 16-bit size has room for
/// four more bytes, and the word after the last block lies before the checksum
/// with four bytes to spare.
pub open spec fn round_trip_ready(f: Seq<u8>) -> bool {
    &&& f.len() == FILE_SIZE
    &&& blocks_fit(f)
    &&& classify(block_size(f, 1) as u32, f[MARKER_AT as int]) == SaveType::Retail
    &&& le_u16_at(f, 0) + 4 < 65536
    &&& block_end(f, 0) > MARKER_AT
    &&& block_end(f, 22) + 12 <= FILE_SIZE
}

proof fn lemma_prefix_grows(s: Seq<u8>, a: nat, b: nat)
    requires
        a <= b,
    ensures
        prefix_offset(s, a) <= prefix_offset(s, b),
    decreases b,
{
    if a < b {
        lemma_prefix_grows(s, a, (b - 1) as nat);
    }
}

/// Where the bytes of a Retail save land when the marker goes in, before the
/// checksum is written.
proof fn lemma_grown_bytes(f: Seq<u8>, size0: u32, e: int)
    requires
        f.len() == FILE_SIZE,
        MARKER_AT <= e,
        e + 12 <= FILE_SIZE,
    ensures
        ({
            let g = retail_to_steam(f, size0, e);
            let v = (((size0 % 65536) + 4) % 65536) as u16;
            let anchor = ((le_u32_at(f, e) - 4) % 0x1_0000_0000) as u32;
            &&& g.len() == FILE_SIZE
            &&& forall|j: int| 2 <= j < MARKER_AT ==> #[trigger] g[j] == f[j]
            &&& forall|j: int|
                MARKER_AT + 4 <= j < FILE_SIZE && !(e + 4 <= j < e + 8) ==> #[trigger] g[j] == f[j
                    - 4]
            &&& g[MARKER_AT as int] == 0xFD
            &&& g[0] == le_bytes_u16(v)[0]
            &&& g[1] == le_bytes_u16(v)[1]
            &&& g.subrange(e + 4, e + 8) == le_bytes_u32(anchor)
        }),
{
    let grown = f.take(MARKER_AT as int) + steam_marker() + f.skip(MARKER_AT as int);
    let v = (((size0 % 65536) + 4) % 65536) as u16;
    let sized = crate::bytes::overwritten(grown, 0, le_bytes_u16(v));
    let anchor = ((le_u32_at(sized, e + 4) - 4) % 0x1_0000_0000) as u32;
    let g = retail_to_steam(f, size0, e);
    assert(sized[e + 4] == f[e] && sized[e + 5] == f[e + 1] && sized[e + 6] == f[e + 2]
        && sized[e + 7] == f[e + 3]);
    assert(le_u32_at(sized, e + 4) == le_u32_at(f, e));
    assert(g.subrange(e + 4, e + 8) =~= le_bytes_u32(anchor));
}

/// Where the bytes of a Retail save land in its Steam form.
proof fn lemma_steam_bytes(f: Seq<u8>)
    requires
        round_trip_ready(f),
    ensures
        ({
            let s = converted_file(f, SaveType::Retail);
            let e = block_end(f, 22);
            &&& s.len() == FILE_SIZE
            &&& forall|j: int| 2 <= j < MARKER_AT ==> #[trigger] s[j] == f[j]
            &&& forall|j: int|
                MARKER_AT + 4 <= j < CHECKSUM_AT && !(e + 4 <= j < e + 8) ==> #[trigger] s[j]
                    == f[j - 4]
            &&& s[MARKER_AT as int] == 0xFD
            &&& le_u32_at(s, 0) == le_u32_at(f, 0) + 4
            &&& le_u32_at(s, e + 4) == (le_u32_at(f, e) - 4) % 0x1_0000_0000
        }),
{
    let e = block_end(f, 22);
    let size0 = block_size(f, 0) as u32;
    let v = (((size0 % 65536) + 4) % 65536) as u16;
    let anchor = ((le_u32_at(f, e) - 4) % 0x1_0000_0000) as u32;
    let g = retail_to_steam(f, size0, e);
    let s = converted_file(f, SaveType::Retail);
    assert(prefix_offset(f, 0) == 0);
    lemma_prefix_grows(f, 1, 23);
    assert(block_end(f, 0) == prefix_offset(f, 1));
    assert(block_end(f, 22) == prefix_offset(f, 23));
    lemma_grown_bytes(f, size0, e);
    lemma_le_u32_low_half(f);
    assert(size0 as int == le_u32_at(f, 0));
    assert(v == le_u16_at(f, 0) + 4);
    assert(s == with_checksum(g));
    assert forall|j: int| 0 <= j < CHECKSUM_AT implies #[trigger] s[j] == g[j] by {}
    lemma_le_bytes_u32(anchor);
    assert(s[e + 4] == g[e + 4] && s[e + 5] == g[e + 5] && s[e + 6] == g[e + 6] && s[e + 7] == g[e + 7]);
    assert(g[e + 4] == le_bytes_u32(anchor)[0] && g[e + 5] == le_bytes_u32(anchor)[1] && g[e + 6] == le_bytes_u32(anchor)[2] && g[e + 7] == le_bytes_u32(anchor)[3]);
    assert(s[0] == le_bytes_u16(v)[0] && s[1] == le_bytes_u16(v)[1]);
    assert(s[2] == f[2] && s[3] == f[3]);
}

/// In the Steam form every block prefix after block 0's stands four bytes
/// later and holds the same length.
proof fn lemma_steam_chain(f: Seq<u8>, k: nat)
    requires
        round_trip_ready(f),
        1 <= k <= BLOCK_COUNT,
    ensures
        prefix_offset(converted_file(f, SaveType::Retail), k) == prefix_offset(f, k) + 4,
    decreases k,
{
    let s = converted_file(f, SaveType::Retail);
    let e = block_end(f, 22);
    lemma_steam_bytes(f);
    assert(prefix_offset(f, 0) == 0);
    assert(prefix_offset(s, 0) == 0);
    if k > 1 {
        let i = (k - 1) as nat;
        lemma_steam_chain(f, i);
        let p = prefix_offset(f, i);
        lemma_prefix_grows(f, 1, i);
        lemma_prefix_grows(f, k, 23);
        assert(block_end(f, 0) == prefix_offset(f, 1));
        assert(block_end(f, 22) == prefix_offset(f, 23));
        assert(s[p + 4] == f[p]);
        assert(s[p + 5] == f[p + 1]);
        assert(s[p + 6] == f[p + 2]);
        assert(s[p + 7] == f[p + 3]);
    }
}

/// Where the bytes of a Steam save land when the marker comes out, before the
/// checksum is written.
proof fn lemma_shrunk_bytes(s: Seq<u8>, size0: u32, e: int)
    requires
        s.len() == FILE_SIZE,
        MARKER_AT + 4 <= e,
        e + 4 <= FILE_SIZE,
    ensures
        ({
            let h = steam_to_retail(s, size0, e);
            let w = (((size0 % 65536) + 65532) % 65536) as u16;
            let anchor = ((le_u32_at(s, e) + 4) % 0x1_0000_0000) as u32;
            &&& h.len() == FILE_SIZE
            &&& forall|j: int| 2 <= j < MARKER_AT ==> #[trigger] h[j] == s[j]
            &&& forall|j: int|
                MARKER_AT <= j < FILE_SIZE - 4 && !(e - 4 <= j < e) ==> #[trigger] h[j] == s[j
                    + 4]
            &&& h[0] == le_bytes_u16(w)[0]
            &&& h[1] == le_bytes_u16(w)[1]
            &&& h.subrange(e - 4, e) == le_bytes_u32(anchor)
        }),
{
    let shrunk = s.take(MARKER_AT as int) + s.skip(MARKER_AT + 4);
    let w = (((size0 % 65536) + 65532) % 65536) as u16;
    let sized = crate::bytes::overwritten(shrunk, 0, le_bytes_u16(w));
    let anchor = ((le_u32_at(sized, e - 4) + 4) % 0x1_0000_0000) as u32;
    let h = steam_to_retail(s, size0, e);
    assert(sized[e - 4] == s[e] && sized[e - 3] == s[e + 1] && sized[e - 2] == s[e + 2]
        && sized[e - 1] == s[e + 3]);
    assert(le_u32_at(sized, e - 4) == le_u32_at(s, e));
    assert(h.subrange(e - 4, e) =~= le_bytes_u32(anchor));
}

/// The Steam form of a save ready for the round trip: its blocks fit, the last
/// one ends four bytes later, and it classifies as Steam.
proof fn lemma_steam_form(f: Seq<u8>)
    requires
        round_trip_ready(f),
    ensures
        ({
            let s = converted_file(f, SaveType::Retail);
            &&& s.len() == FILE_SIZE
            &&& blocks_fit(s)
            &&& block_end(s, 22) == block_end(f, 22) + 4
            &&& block_size(s, 0) == le_u32_at(s, 0)
            &&& stored_checksum(s) == checksum_of(data_region(s))
            &&& classify(block_size(s, 1) as u32, s[MARKER_AT as int]) == SaveType::Steam
        }),
{
    let s = converted_file(f, SaveType::Retail);
    let e = block_end(f, 22);
    lemma_steam_bytes(f);
    assert(prefix_offset(f, 0) == 0);
    assert(prefix_offset(s, 0) == 0);
    assert forall|k: nat| k < BLOCK_COUNT implies #[trigger] block_end(s, k) <= s.len() by {
        lemma_steam_chain(f, k + 1);
        lemma_prefix_grows(f, k + 1, 23);
        assert(block_end(s, k) == prefix_offset(s, k + 1));
        assert(block_end(f, k) == prefix_offset(f, k + 1));
        assert(block_end(f, 22) == prefix_offset(f, 23));
    }
    lemma_steam_chain(f, 23);
    assert(block_end(s, 22) == prefix_offset(s, 23));
    lemma_steam_chain(f, 1);
    lemma_prefix_grows(f, 2, 23);
    assert(block_end(f, 0) == prefix_offset(f, 1));
    assert(block_end(f, 1) == prefix_offset(f, 2));
    assert(block_end(f, 22) == prefix_offset(f, 23));
    let p1 = prefix_offset(f, 1);
    assert(s[p1 + 4] == f[p1] && s[p1 + 5] == f[p1 + 1] && s[p1 + 6] == f[p1 + 2] && s[p1 + 7]
        == f[p1 + 3]);
    assert(block_size(s, 1) == block_size(f, 1));
    lemma_with_checksum_is_valid(retail_to_steam(f, block_size(f, 0) as u32, e));
}

/// Taking the marker out of a buffer laid out as the Steam form of `f` gives
/// back the bytes of `f` before the last eight.
#[verifier::rlimit(100)]
proof fn lemma_back_bytes(f: Seq<u8>, s: Seq<u8>, e: int)
    requires
        f.len() == FILE_SIZE,
        s.len() == FILE_SIZE,
        MARKER_AT <= e,
        e + 12 <= FILE_SIZE,
        forall|j: int| 2 <= j < MARKER_AT ==> #[trigger] s[j] == f[j],
        forall|j: int|
            MARKER_AT + 4 <= j < CHECKSUM_AT && !(e + 4 <= j < e + 8) ==> #[trigger] s[j] == f[j
                - 4],
        le_u32_at(s, 0) == le_u32_at(f, 0) + 4,
        le_u16_at(f, 0) + 4 < 65536,
        le_u32_at(s, e + 4) == (le_u32_at(f, e) - 4) % 0x1_0000_0000,
    ensures
        forall|i: int|
            0 <= i < FILE_SIZE - 8 ==> #[trigger] with_checksum(
                steam_to_retail(s, le_u32_at(s, 0) as u32, e + 4),
            )[i] == f[i],
{
    let size0 = le_u32_at(s, 0) as u32;
    let h = steam_to_retail(s, size0, e + 4);
    lemma_shrunk_bytes(s, size0, e + 4);
    lemma_with_checksum_keeps(h);
    lemma_le_u32_bytes(s, 0);
    assert(size0 % 65536 == le_u16_at(f, 0) + 4) by {
        lemma_le_u32_low_half(s);
        assert(s[2] == f[2] && s[3] == f[3]);
        lemma_le_u32_low_half(f);
    }
    let w = (((size0 % 65536) + 65532) % 65536) as u16;
    assert(w == le_u16_at(f, 0));
    assert(h[0] == f[0] && h[1] == f[1]);
    lemma_le_u32_bytes(f, e);
    let x = le_u32_at(f, e);
    assert(((le_u32_at(s, e + 4) + 4) % 0x1_0000_0000) == x);
    assert forall|i: int| e <= i < e + 4 implies #[trigger] h[i] == f[i] by {
        assert(h[i] == h.subrange(e, e + 4)[i - e]);
        assert(f[i] == f.subrange(e, e + 4)[i - e]);
    }
    assert forall|i: int| 0 <= i < FILE_SIZE - 8 implies #[trigger] h[i] == f[i] by {
        if 2 <= i < e || e + 4 <= i {
            if i >= MARKER_AT {
                assert(h[i] == s[i + 4]);
            }
        }
    }
    assert forall|i: int| 0 <= i < FILE_SIZE - 8 implies #[trigger] with_checksum(h)[i] == f[i] by {
        assert(h[i] == f[i]);
    }
}

/// Writing the checksum leaves the length and the bytes before the checksum
/// field as they were.
proof fn lemma_with_checksum_keeps(t: Seq<u8>)
    ensures
        with_checksum(t).len() == t.len(),
        forall|j: int| 0 <= j < CHECKSUM_AT && j < t.len() ==> #[trigger] with_checksum(t)[j] == t[j],
{
}

/// Converting a Retail save to Steam and the result back to Retail gives back
/// every byte before the last eight. The four bytes before the checksum field
/// come back holding the Steam file's checksum, since that is where the old
/// checksum was dropped, and the checksum field holds the new checksum. The
/// Steam file in between loads as a Steam save with a valid checksum, and both
/// files keep the fixed length.
pub proof fn lemma_round_trip(f: Seq<u8>)
    requires
        round_trip_ready(f),
    ensures
        ({
            let s = converted_file(f, SaveType::Retail);
            let r = converted_file(s, SaveType::Steam);
            &&& s.len() == FILE_SIZE
            &&& blocks_fit(s)
            &&& stored_checksum(s) == checksum_of(data_region(s))
            &&& classify(block_size(s, 1) as u32, s[MARKER_AT as int]) == SaveType::Steam
            &&& r.len() == FILE_SIZE
            &&& stored_checksum(r) == checksum_of(data_region(r))
            &&& forall|i: int| 0 <= i < FILE_SIZE - 8 ==> #[trigger] r[i] == f[i]
        }),
{
    let s = converted_file(f, SaveType::Retail);
    let e = block_end(f, 22);
    lemma_steam_bytes(f);
    lemma_steam_form(f);
    assert(prefix_offset(f, 0) == 0);
    lemma_prefix_grows(f, 1, 23);
    assert(block_end(f, 0) == prefix_offset(f, 1));
    assert(block_end(f, 22) == prefix_offset(f, 23));
    let h = steam_to_retail(s, block_size(s, 0) as u32, block_end(s, 22));
    assert(h == steam_to_retail(s, le_u32_at(s, 0) as u32, e + 4));
    lemma_shrunk_bytes(s, block_size(s, 0) as u32, e + 4);
    lemma_with_checksum_is_valid(h);
    lemma_back_bytes(f, s, e);
}

} // verus!
