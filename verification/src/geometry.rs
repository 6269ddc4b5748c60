//! Decoding coordinate-list payloads into vertex lists and bounding boxes.
//!
//! A coordinate-list payload is a run of coordinate pairs, each pair two
//! four byte big-endian signed integers.  If at least two pairs are present
//! and the last exactly repeats the first, that closing duplicate is
//! dropped; the remaining pairs are the element's geometry.

use vstd::prelude::*;
use crate::bbox::{
    BBox, bbox_contains_pt, bbox_empty, bbox_include_pt, bbox_valid,
};

verus! {

/// The signed big-endian (two's complement) value of four bytes.
pub open spec fn spec_be32_signed(b0: u8, b1: u8, b2: u8, b3: u8) -> int {
    let u = b0 * 0x100_0000 + b1 * 0x1_0000 + b2 * 0x100 + b3;
    if u >= 0x8000_0000 {
        u - 0x1_0000_0000
    } else {
        u
    }
}

/// The signed value of four bytes always fits in an `i32`.
pub proof fn lemma_be32_range(b0: u8, b1: u8, b2: u8, b3: u8)
    ensures
        -0x8000_0000 <= spec_be32_signed(b0, b1, b2, b3) < 0x8000_0000,
{
}

/// Decode four big-endian bytes as a signed 32-bit integer.
pub fn be32_signed(b0: u8, b1: u8, b2: u8, b3: u8) -> (r: i32)
    ensures
        r == spec_be32_signed(b0, b1, b2, b3),
{
    let u: u64 = (b0 as u64) * 0x100_0000 + (b1 as u64) * 0x1_0000 + (b2 as u64) * 0x100 + (
    b3 as u64);
    if u >= 0x8000_0000 {
        ((u as i64) - 0x1_0000_0000) as i32
    } else {
        u as i32
    }
}

/// The coordinate pair at index `i` of a coordinate-list payload.
pub open spec fn point_at(p: Seq<u8>, i: int) -> (i32, i32) {
    (
        spec_be32_signed(p[8 * i], p[8 * i + 1], p[8 * i + 2], p[8 * i + 3]) as i32,
        spec_be32_signed(p[8 * i + 4], p[8 * i + 5], p[8 * i + 6], p[8 * i + 7]) as i32,
    )
}

/// Every coordinate pair of the payload, in stream order.
pub open spec fn xy_points(p: Seq<u8>) -> Seq<(i32, i32)> {
    Seq::new((p.len() / 8) as nat, |i: int| point_at(p, i))
}

/// The pairs kept for geometry: the closing duplicate, if any, is dropped.
pub open spec fn kept_points(p: Seq<u8>) -> Seq<(i32, i32)> {
    let pts = xy_points(p);
    if pts.len() >= 2 && pts.last() == pts[0] {
        pts.drop_last()
    } else {
        pts
    }
}

/// Decode a coordinate-list payload, dropping the closing duplicate.
pub fn parse_xy_points(payload: &[u8]) -> (r: Vec<(i32, i32)>)
    requires
        payload@.len() % 8 == 0,
    ensures
        r@ == kept_points(payload@),
{
    let n = payload.len() / 8;
    proof {
        assert(8 * (n as int) == payload@.len());
    }
    let mut out: Vec<(i32, i32)> = Vec::new();
    if n == 0 {
        proof {
            assert(out@ =~= kept_points(payload@));
        }
        return out;
    }
    let x0 = be32_signed(payload[0], payload[1], payload[2], payload[3]);
    let y0 = be32_signed(payload[4], payload[5], payload[6], payload[7]);
    proof {
        lemma_be32_range(payload@[0], payload@[1], payload@[2], payload@[3]);
        lemma_be32_range(payload@[4], payload@[5], payload@[6], payload@[7]);
        assert((x0, y0) == point_at(payload@, 0));
    }
    let mut m = n;
    if n >= 2 {
        let xl = be32_signed(
            payload[8 * (n - 1)],
            payload[8 * (n - 1) + 1],
            payload[8 * (n - 1) + 2],
            payload[8 * (n - 1) + 3],
        );
        let yl = be32_signed(
            payload[8 * (n - 1) + 4],
            payload[8 * (n - 1) + 5],
            payload[8 * (n - 1) + 6],
            payload[8 * (n - 1) + 7],
        );
        proof {
            lemma_be32_range(
                payload@[8 * (n - 1)],
                payload@[8 * (n - 1) + 1],
                payload@[8 * (n - 1) + 2],
                payload@[8 * (n - 1) + 3],
            );
            lemma_be32_range(
                payload@[8 * (n - 1) + 4],
                payload@[8 * (n - 1) + 5],
                payload@[8 * (n - 1) + 6],
                payload@[8 * (n - 1) + 7],
            );
            assert((xl, yl) == point_at(payload@, n - 1));
            assert((xl, yl) == xy_points(payload@).last());
        }
        if xl == x0 && yl == y0 {
            m = n - 1;
        }
    }
    let mut i: usize = 0;
    while i < m
        invariant
            i <= m <= n,
            n == payload@.len() / 8,
            8 * (n as int) == payload@.len(),
            payload@.len() <= usize::MAX,
            payload@.len() % 8 == 0,
            out@ =~= xy_points(payload@).take(i as int),
        decreases m - i,
    {
        proof {
            assert(8 * (i as int) + 8 <= payload@.len());
        }
        let x = be32_signed(
            payload[8 * i],
            payload[8 * i + 1],
            payload[8 * i + 2],
            payload[8 * i + 3],
        );
        let y = be32_signed(
            payload[8 * i + 4],
            payload[8 * i + 5],
            payload[8 * i + 6],
            payload[8 * i + 7],
        );
        proof {
            lemma_be32_range(
                payload@[8 * i],
                payload@[8 * i + 1],
                payload@[8 * i + 2],
                payload@[8 * i + 3],
            );
            lemma_be32_range(
                payload@[8 * i + 4],
                payload@[8 * i + 5],
                payload@[8 * i + 6],
                payload@[8 * i + 7],
            );
            assert((x, y) == point_at(payload@, i as int));
            assert(xy_points(payload@).take(i + 1) =~= xy_points(payload@).take(i as int).push(
                point_at(payload@, i as int),
            ));
        }
        out.push((x, y));
        i = i + 1;
    }
    proof {
        if m == n {
            assert(out@ =~= xy_points(payload@));
        } else {
            assert(out@ =~= xy_points(payload@).drop_last());
        }
    }
    out
}

/// The box accumulated by merging each pair of `pts`, in order, into `b`.
pub open spec fn bbox_fold(b: BBox, pts: Seq<(i32, i32)>) -> BBox
    decreases pts.len(),
{
    if pts.len() == 0 {
        b
    } else {
        bbox_fold(bbox_include_pt(b, pts[0].0, pts[0].1), pts.drop_first())
    }
}

/// Merging one more pair on the right applies one more merge.
pub proof fn lemma_bbox_fold_push(b: BBox, pts: Seq<(i32, i32)>, p: (i32, i32))
    ensures
        bbox_fold(b, pts.push(p)) == bbox_include_pt(bbox_fold(b, pts), p.0, p.1),
    decreases pts.len(),
{
    if pts.len() == 0 {
        assert(pts.push(p)[0] == p);
        assert(pts.push(p).drop_first() =~= Seq::<(i32, i32)>::empty());
        assert(bbox_fold(bbox_include_pt(b, p.0, p.1), Seq::<(i32, i32)>::empty())
            == bbox_include_pt(b, p.0, p.1));
    } else {
        assert(pts.push(p)[0] == pts[0]);
        assert(pts.push(p).drop_first() =~= pts.drop_first().push(p));
        lemma_bbox_fold_push(bbox_include_pt(b, pts[0].0, pts[0].1), pts.drop_first(), p);
        assert(bbox_fold(b, pts.push(p)) == bbox_fold(
            bbox_include_pt(b, pts[0].0, pts[0].1),
            pts.drop_first().push(p),
        ));
    }
}

/// The empty box from which an element bounding box is accumulated.
pub open spec fn bbox_sentinel() -> BBox {
    BBox { xmin: i32::MAX, ymin: i32::MAX, xmax: i32::MIN, ymax: i32::MIN }
}

/// The element bounding box described by a coordinate-list payload.
pub open spec fn xy_bbox(p: Seq<u8>) -> BBox {
    bbox_fold(bbox_sentinel(), kept_points(p))
}

/// Accumulate a bounding box over a vertex list.
pub fn bbox_of_points(pts: &Vec<(i32, i32)>) -> (r: BBox)
    ensures
        r == bbox_fold(bbox_sentinel(), pts@),
{
    let mut bb = BBox { xmin: i32::MAX, ymin: i32::MAX, xmax: i32::MIN, ymax: i32::MIN };
    let mut i: usize = 0;
    while i < pts.len()
        invariant
            i <= pts@.len(),
            bb == bbox_fold(bbox_sentinel(), pts@.take(i as int)),
        decreases pts@.len() - i,
    {
        let p = pts[i];
        proof {
            assert(pts@.take(i + 1) =~= pts@.take(i as int).push(pts@[i as int]));
            lemma_bbox_fold_push(bbox_sentinel(), pts@.take(i as int), pts@[i as int]);
        }
        bb.include_pt(p.0, p.1);
        i = i + 1;
    }
    proof {
        assert(pts@.take(pts@.len() as int) =~= pts@);
    }
    bb
}

/// Merging pairs preserves validity and containment of a point.
pub proof fn lemma_bbox_fold_contains(b: BBox, pts: Seq<(i32, i32)>, x: i32, y: i32)
    requires
        bbox_valid(b),
        bbox_contains_pt(b, x, y),
    ensures
        bbox_valid(bbox_fold(b, pts)),
        bbox_contains_pt(bbox_fold(b, pts), x, y),
    decreases pts.len(),
{
    if pts.len() > 0 {
        lemma_bbox_fold_contains(bbox_include_pt(b, pts[0].0, pts[0].1), pts.drop_first(), x, y);
    }
}

/// A nonempty vertex run folds to a valid box that contains its first pair.
pub proof fn lemma_bbox_fold_first(pts: Seq<(i32, i32)>)
    requires
        pts.len() >= 1,
    ensures
        bbox_valid(bbox_fold(bbox_sentinel(), pts)),
        bbox_contains_pt(bbox_fold(bbox_sentinel(), pts), pts[0].0, pts[0].1),
{
    assert(bbox_empty(bbox_sentinel()));
    let first = bbox_include_pt(bbox_sentinel(), pts[0].0, pts[0].1);
    lemma_bbox_fold_contains(first, pts.drop_first(), pts[0].0, pts[0].1);
}

/// Dropping an explicit closing duplicate does not change the vertex list,
/// provided the shortened list does not itself end on a copy of its first
/// pair.
pub proof fn lemma_closing_dup_points(p: Seq<u8>)
    requires
        p.len() % 8 == 0,
        p.len() >= 16,
        xy_points(p).last() == xy_points(p)[0],
        !(xy_points(p).len() >= 3 && xy_points(p)[xy_points(p).len() - 2] == xy_points(p)[0]),
    ensures
        kept_points(p) == kept_points(p.subrange(0, p.len() - 8)),
{
    let q = p.subrange(0, p.len() - 8);
    assert(xy_points(q) =~= xy_points(p).drop_last());
    assert(kept_points(p) =~= kept_points(q));
}

/// Dropping an explicit closing duplicate never changes the bounding box.
pub proof fn lemma_closing_dup_bbox(p: Seq<u8>)
    requires
        p.len() % 8 == 0,
        p.len() >= 16,
        xy_points(p).last() == xy_points(p)[0],
    ensures
        xy_bbox(p) == xy_bbox(p.subrange(0, p.len() - 8)),
{
    let q = p.subrange(0, p.len() - 8);
    let pts = xy_points(p);
    let n = pts.len() as int;
    assert(xy_points(q) =~= pts.drop_last());
    assert(kept_points(p) =~= pts.drop_last());
    if n >= 3 && pts[n - 2] == pts[0] {
        // The shortened list deduplicates again; the extra pair it drops is
        // a copy of the first pair, which the box already contains.
        assert(kept_points(q) =~= pts.drop_last().drop_last());
        let base = pts.drop_last().drop_last();
        assert(pts.drop_last() =~= base.push(pts[n - 2]));
        lemma_bbox_fold_push(bbox_sentinel(), base, pts[n - 2]);
        lemma_bbox_fold_first(base);
        assert(base[0] == pts[0]);
        assert(bbox_include_pt(bbox_fold(bbox_sentinel(), base), pts[n - 2].0, pts[n - 2].1)
            == bbox_fold(bbox_sentinel(), base));
    } else {
        assert(kept_points(q) =~= pts.drop_last());
    }
}

} // verus!
