//! The on-disk node codec: one point is a 15-byte record, the three
//! coordinate words little-endian first, then the three color bytes; a node
//! blob is the plain concatenation of records, with no header or framing.

use vstd::prelude::*;
use vstd::arithmetic::div_mod::lemma_div_denominator;
use vstd::arithmetic::div_mod::lemma_fundamental_div_mod;
use crate::point::{Point, Position};
use crate::point::{spec_code_of_word, spec_word_of_code};
use crate::point::{code_of_word, word_of_code};

verus! {

/// Bytes of one point record.
pub const POINT_RECORD_BYTES: usize = 15;

/// Little-endian bytes of a 32-bit word.
pub open spec fn spec_le_bytes(w: u32) -> Seq<u8> {
    seq![
        (w as int % 256) as u8,
        (w as int / 256 % 256) as u8,
        (w as int / 65536 % 256) as u8,
        (w as int / 16777216) as u8,
    ]
}

/// The 32-bit word read from four little-endian bytes.
pub open spec fn spec_word_of_bytes(b0: u8, b1: u8, b2: u8, b3: u8) -> u32 {
    (b0 + b1 * 256 + b2 * 65536 + b3 * 16777216) as u32
}

/// The 15-byte record of one point.
pub open spec fn spec_encode_point(p: Point) -> Seq<u8> {
    spec_le_bytes(spec_word_of_code(p.position.x)) + spec_le_bytes(spec_word_of_code(p.position.y))
        + spec_le_bytes(spec_word_of_code(p.position.z)) + seq![p.r, p.g, p.b]
}

/// The point read back from a 15-byte record.
pub open spec fn spec_decode_point(s: Seq<u8>) -> Point {
    Point {
        position: Position {
            x: spec_code_of_word(spec_word_of_bytes(s[0], s[1], s[2], s[3])),
            y: spec_code_of_word(spec_word_of_bytes(s[4], s[5], s[6], s[7])),
            z: spec_code_of_word(spec_word_of_bytes(s[8], s[9], s[10], s[11])),
        },
        r: s[12],
        g: s[13],
        b: s[14],
    }
}

fn push_word_le(out: &mut Vec<u8>, w: u32)
    ensures
        final (out)@ == old(out)@ + spec_le_bytes(w),
{
    out.push((w % 256) as u8);
    out.push((w / 256 % 256) as u8);
    out.push((w / 65536 % 256) as u8);
    out.push((w / 16777216) as u8);
    proof {
        assert(out@ =~= old(out)@ + spec_le_bytes(w));
    }
}

fn read_word_le(bytes: &Vec<u8>, offset: usize) -> (w: u32)
    requires
        offset + 4 <= bytes@.len(),
    ensures
        w == spec_word_of_bytes(
            bytes@[offset as int],
            bytes@[offset as int + 1],
            bytes@[offset as int + 2],
            bytes@[offset as int + 3],
        ),
{
    let _blen = bytes.len();
    let b0 = bytes[offset] as u32;
    let b1 = bytes[offset + 1] as u32;
    let b2 = bytes[offset + 2] as u32;
    let b3 = bytes[offset + 3] as u32;
    b0 + b1 * 256 + b2 * 65536 + b3 * 16777216
}

/// Appends the 15-byte record of `p` to `out`.
pub fn encode_point(p: &Point, out: &mut Vec<u8>)
    ensures
        final (out)@ == old(out)@ + spec_encode_point(*p),
{
    push_word_le(out, word_of_code(p.position.x));
    push_word_le(out, word_of_code(p.position.y));
    push_word_le(out, word_of_code(p.position.z));
    out.push(p.r);
    out.push(p.g);
    out.push(p.b);
    proof {
        assert(out@ =~= old(out)@ + spec_encode_point(*p));
    }
}

/// Reads the point whose record starts at `offset`.
pub fn decode_point(bytes: &Vec<u8>, offset: usize) -> (r: Point)
    requires
        offset + POINT_RECORD_BYTES <= bytes@.len(),
    ensures
        r == spec_decode_point(bytes@.subrange(offset as int, offset as int + 15)),
{
    let _blen = bytes.len();
    let x = code_of_word(read_word_le(bytes, offset));
    let y = code_of_word(read_word_le(bytes, offset + 4));
    let z = code_of_word(read_word_le(bytes, offset + 8));
    let r = bytes[offset + 12];
    let g = bytes[offset + 13];
    let b = bytes[offset + 14];
    Point { position: Position { x, y, z }, r, g, b }
}

/// Law: four little-endian bytes read back as the word they encode.
pub proof fn lemma_word_le_round_trip(w: u32)
    ensures
        spec_word_of_bytes(
            spec_le_bytes(w)[0],
            spec_le_bytes(w)[1],
            spec_le_bytes(w)[2],
            spec_le_bytes(w)[3],
        ) == w,
{
    let a = w as int;
    lemma_fundamental_div_mod(a, 256);
    lemma_fundamental_div_mod(a / 256, 256);
    lemma_fundamental_div_mod(a / 65536, 256);
    lemma_div_denominator(a, 256, 256);
    lemma_div_denominator(a, 65536, 256);
}

/// Law: one record decodes back to the point it encoded.
pub proof fn lemma_point_record_round_trip(p: Point)
    ensures
        spec_encode_point(p).len() == 15,
        spec_decode_point(spec_encode_point(p)) == p,
{
    let s = spec_encode_point(p);
    let wx = spec_word_of_code(p.position.x);
    let wy = spec_word_of_code(p.position.y);
    let wz = spec_word_of_code(p.position.z);
    assert(s.subrange(0, 4) =~= spec_le_bytes(wx));
    assert(s.subrange(4, 8) =~= spec_le_bytes(wy));
    assert(s.subrange(8, 12) =~= spec_le_bytes(wz));
    lemma_word_le_round_trip(wx);
    lemma_word_le_round_trip(wy);
    lemma_word_le_round_trip(wz);
    crate::point::lemma_code_word_round_trip(0, p.position.x);
    crate::point::lemma_code_word_round_trip(0, p.position.y);
    crate::point::lemma_code_word_round_trip(0, p.position.z);
    assert(spec_word_of_bytes(s[0], s[1], s[2], s[3]) == wx);
    assert(spec_word_of_bytes(s[4], s[5], s[6], s[7]) == wy);
    assert(spec_word_of_bytes(s[8], s[9], s[10], s[11]) == wz);
}

/// The blob of a point sequence: its records, concatenated in order.
pub open spec fn spec_encode_blob(pts: Seq<Point>) -> Seq<u8>
    decreases pts.len(),
{
    if pts.len() == 0 {
        Seq::empty()
    } else {
        spec_encode_blob(pts.drop_last()) + spec_encode_point(pts.last())
    }
}

/// The points read back from a blob whose length is a multiple of 15.
pub open spec fn spec_decode_blob(s: Seq<u8>) -> Seq<Point> {
    Seq::new((s.len() / 15) as nat, |i: int| spec_decode_point(s.subrange(15 * i, 15 * i + 15)))
}

pub proof fn lemma_encode_blob_len(pts: Seq<Point>)
    ensures
        spec_encode_blob(pts).len() == 15 * pts.len(),
    decreases pts.len(),
{
    if pts.len() > 0 {
        lemma_encode_blob_len(pts.drop_last());
        lemma_point_record_round_trip(pts.last());
    }
}

/// Encodes a whole node: the blob of all points in order.
pub fn encode_blob(points: &Vec<Point>) -> (r: Vec<u8>)
    ensures
        r@ == spec_encode_blob(points@),
        r@.len() == 15 * points@.len(),
{
    let mut out: Vec<u8> = Vec::new();
    let mut i: usize = 0;
    proof {
        assert(points@.subrange(0, 0) =~= Seq::<Point>::empty());
        lemma_encode_blob_len(points@);
    }
    while i < points.len()
        invariant
            i <= points@.len(),
            out@ == spec_encode_blob(points@.subrange(0, i as int)),
            out@.len() == 15 * i,
        decreases points@.len() - i,
    {
        proof {
            lemma_encode_blob_len(points@.subrange(0, i as int));
        }
        encode_point(&points[i], &mut out);
        proof {
            let pre = points@.subrange(0, i as int);
            let post = points@.subrange(0, i as int + 1);
            assert(post.drop_last() =~= pre);
            assert(post.last() == points@[i as int]);
            lemma_encode_blob_len(post);
        }
        i = i + 1;
    }
    proof {
        assert(points@.subrange(0, points@.len() as int) =~= points@);
    }
    out
}

/// Decodes a whole node blob; a length that is not a whole number of
/// records is malformed and refused.
pub fn decode_blob(bytes: &Vec<u8>) -> (r: Option<Vec<Point>>)
    ensures
        bytes@.len() % 15 == 0 <==> r is Some,
        r is Some ==> r->0@ == spec_decode_blob(bytes@) && 15 * r->0@.len() == bytes@.len(),
{
    if bytes.len() % 15 != 0 {
        return None;
    }
    let n = bytes.len() / 15;
    let mut out: Vec<Point> = Vec::new();
    let mut i: usize = 0;
    while i < n
        invariant
            i <= n,
            n == bytes@.len() / 15,
            bytes@.len() % 15 == 0,
            15 * n <= bytes@.len() <= usize::MAX,
            out@ == spec_decode_blob(bytes@).subrange(0, i as int),
        decreases n - i,
    {
        let p = decode_point(bytes, 15 * i);
        out.push(p);
        proof {
            assert(out@ =~= spec_decode_blob(bytes@).subrange(0, i as int + 1));
        }
        i = i + 1;
    }
    proof {
        assert(out@ =~= spec_decode_blob(bytes@));
    }
    Some(out)
}

/// Law: a node blob decodes back to the exact point sequence that was
/// encoded into it.
pub proof fn lemma_blob_round_trip(pts: Seq<Point>)
    ensures
        spec_encode_blob(pts).len() % 15 == 0,
        spec_decode_blob(spec_encode_blob(pts)) == pts,
    decreases pts.len(),
{
    lemma_encode_blob_len(pts);
    if pts.len() == 0 {
        assert(spec_decode_blob(spec_encode_blob(pts)) =~= pts);
    } else {
        let dl = pts.drop_last();
        lemma_blob_round_trip(dl);
        lemma_encode_blob_len(dl);
        lemma_point_record_round_trip(pts.last());
        let whole = spec_encode_blob(pts);
        let head = spec_encode_blob(dl);
        let n = pts.len() as int;
        assert forall|i: int| 0 <= i < n implies spec_decode_blob(whole)[i] == pts[i] by {
            if i < n - 1 {
                assert(whole.subrange(15 * i, 15 * i + 15) =~= head.subrange(
                    15 * i,
                    15 * i + 15,
                ));
                assert(spec_decode_blob(head)[i] == dl[i]);
            } else {
                assert(whole.subrange(15 * i, 15 * i + 15) =~= spec_encode_point(pts.last()));
            }
        }
        assert(spec_decode_blob(whole) =~= pts);
    }
}

} // verus!
