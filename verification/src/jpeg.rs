//! Removing the EXIF block (the APP1 segments) from a JPEG byte stream, and
//! preparing the bytes of an original image for upload.
//!
//! The JPEG stream is walked segment by segment after the start-of-image
//! marker `FF D8`: every segment starts with `FF` and a marker byte, and all
//! but the end-of-image (`D9`) and start-of-scan (`DA`) markers are followed
//! by a big-endian two-byte length that counts itself but not the marker.
//! APP1 segments (`FF E1`) are dropped, the other segments are kept, and
//! everything from the start of scan (or end of image) on is kept as it is.
//! The EXIF orientation is all of EXIF that stripping keeps: an image that is
//! not stored upright gets a fresh APP1 segment with nothing but its
//! orientation, right after the start-of-image marker.
use vstd::prelude::*;

use crate::imaging;

verus! {

/// A big-endian two-byte number.
pub open spec fn be16(hi: u8, lo: u8) -> nat {
    hi as nat * 256 + lo as nat
}

/// What remains of `pos` up to the end of `b`, as a termination measure.
pub open spec fn remaining(b: Seq<u8>, pos: int) -> nat {
    if 0 <= pos < b.len() {
        (b.len() - pos) as nat
    } else {
        0
    }
}

/// The bytes that the segment walk keeps from position `pos` on. A segment
/// whose declared length reaches past the end of `b` is kept with all that
/// follows it, as it is.
pub open spec fn walk_segments(b: Seq<u8>, pos: int) -> Seq<u8>
    decreases remaining(b, pos),
{
    if pos < 0 || pos + 1 >= b.len() {
        Seq::empty()
    } else if b[pos] != 0xFF {
        Seq::empty()
    } else if b[pos + 1] == 0xD9 || b[pos + 1] == 0xDA {
        b.skip(pos)
    } else if b[pos + 1] == 0xE1 {
        if pos + 3 < b.len() {
            walk_segments(b, pos + 2 + be16(b[pos + 2], b[pos + 3]))
        } else {
            walk_segments(b, pos + 2)
        }
    } else if pos + 3 < b.len() {
        let end = pos + 2 + be16(b[pos + 2], b[pos + 3]);
        if end > b.len() {
            b.skip(pos)
        } else {
            b.subrange(pos, end) + walk_segments(b, end)
        }
    } else {
        b.skip(pos)
    }
}

/// Whether `b` starts like a JPEG stream that the walk takes apart.
pub open spec fn is_jpeg_stream(b: Seq<u8>) -> bool {
    b.len() >= 4 && b[0] == 0xFF && b[1] == 0xD8
}

/// The bytes of `b` without its APP1 segments. Anything that does not
/// start with `FF D8`, or is shorter than four bytes, is kept whole.
pub open spec fn exif_stripped(b: Seq<u8>) -> Seq<u8> {
    if !is_jpeg_stream(b) {
        b
    } else {
        b.take(2) + walk_segments(b, 2)
    }
}

proof fn lemma_walk_past_end(b: Seq<u8>, pos: int)
    requires
        pos + 1 >= b.len(),
    ensures
        walk_segments(b, pos) == Seq::<u8>::empty(),
{
}

/// Appends `b[from..to]` to `out`.
fn push_range(out: &mut Vec<u8>, b: &[u8], from: usize, to: usize)
    requires
        from <= to <= b@.len(),
    ensures
        final(out)@ == old(out)@ + b@.subrange(from as int, to as int),
{
    let mut i = from;
    while i < to
        invariant
            from <= i <= to <= b@.len(),
            out@ == old(out)@ + b@.subrange(from as int, i as int),
        decreases to - i,
    {
        assert(b@.subrange(from as int, i + 1) =~= b@.subrange(from as int, i as int).push(
            b@[i as int],
        ));
        out.push(b[i]);
        i = i + 1;
    }
}

/// Strips EXIF data from a JPEG byte stream by removing its APP1 segments.
/// Keeps the start-of-image marker and all other segments; anything that is
/// not a JPEG stream comes back unchanged, and a segment whose declared
/// length reaches past the end of the data is kept with the rest as it is.
pub fn strip_exif_from_jpeg(jpeg_bytes: &[u8]) -> (r: Vec<u8>)
    ensures
        r@ == exif_stripped(jpeg_bytes@),
{
    let ghost b = jpeg_bytes@;
    let len = jpeg_bytes.len();
    let mut out: Vec<u8> = Vec::new();
    if len < 4 || jpeg_bytes[0] != 0xFF || jpeg_bytes[1] != 0xD8 {
        push_range(&mut out, jpeg_bytes, 0, len);
        assert(out@ =~= b);
        return out;
    }
    push_range(&mut out, jpeg_bytes, 0, 2);
    let mut pos: usize = 2;
    while len - pos > 1
        invariant
            len == b.len(),
            b == jpeg_bytes@,
            is_jpeg_stream(b),
            2 <= pos <= len,
            out@.len() >= 2,
            out@.take(2) == b.take(2),
            walk_segments(b, 2) == out@.skip(2) + walk_segments(b, pos as int),
        decreases len - pos,
    {
        if jpeg_bytes[pos] != 0xFF {
            assert(out@ =~= b.take(2) + out@.skip(2));
            return out;
        }
        let marker = jpeg_bytes[pos + 1];
        if marker == 0xD9 || marker == 0xDA {
            let ghost before = out@;
            push_range(&mut out, jpeg_bytes, pos, len);
            assert(out@.skip(2) =~= before.skip(2) + b.skip(pos as int));
            assert(out@.take(2) =~= before.take(2));
            assert(b.subrange(pos as int, len as int) =~= b.skip(pos as int));
            assert(out@ =~= b.take(2) + out@.skip(2));
            return out;
        }
        if marker == 0xE1 {
            if len - pos > 3 {
                let seg_len = (jpeg_bytes[pos + 2] as usize) * 256 + (jpeg_bytes[pos + 3] as usize);
                if seg_len >= len - pos - 2 {
                    proof {
                        lemma_walk_past_end(b, pos + 2 + seg_len);
                        lemma_walk_past_end(b, len as int);
                    }
                    pos = len;
                } else {
                    pos = pos + 2 + seg_len;
                }
            } else {
                pos = pos + 2;
            }
            continue;
        }
        if len - pos > 3 {
            let seg_len = (jpeg_bytes[pos + 2] as usize) * 256 + (jpeg_bytes[pos + 3] as usize);
            if seg_len > len - pos - 2 {
                let ghost before = out@;
                push_range(&mut out, jpeg_bytes, pos, len);
                assert(out@.skip(2) =~= before.skip(2) + b.skip(pos as int));
                assert(out@.take(2) =~= before.take(2));
                assert(b.subrange(pos as int, len as int) =~= b.skip(pos as int));
                assert(out@ =~= b.take(2) + out@.skip(2));
                return out;
            }
            let end = pos + 2 + seg_len;
            let ghost before = out@;
            push_range(&mut out, jpeg_bytes, pos, end);
            assert(out@.skip(2) =~= before.skip(2) + b.subrange(pos as int, end as int));
            assert(out@.take(2) =~= before.take(2));
            pos = end;
        } else {
            let ghost before = out@;
            push_range(&mut out, jpeg_bytes, pos, len);
            assert(out@.skip(2) =~= before.skip(2) + b.skip(pos as int));
            assert(out@.take(2) =~= before.take(2));
            assert(b.subrange(pos as int, len as int) =~= b.skip(pos as int));
            assert(out@ =~= b.take(2) + out@.skip(2));
            return out;
        }
    }
    assert(out@ =~= b.take(2) + out@.skip(2));
    out
}

/// The APP1 segment that holds an EXIF block with nothing but the
/// orientation `o`: the marker, the length 34, `Exif` and two zero bytes,
/// a big-endian TIFF header whose first directory starts at offset 8, and
/// that directory: one entry (tag `0112`, type SHORT, count 1, value `o`)
/// and no next directory.
pub open spec fn orientation_segment(o: u8) -> Seq<u8> {
    seq![
        0xFFu8, 0xE1u8, 0x00u8, 0x22u8,
        0x45u8, 0x78u8, 0x69u8, 0x66u8, 0x00u8, 0x00u8,
        0x4Du8, 0x4Du8, 0x00u8, 0x2Au8, 0x00u8, 0x00u8, 0x00u8, 0x08u8,
        0x00u8, 0x01u8,
        0x01u8, 0x12u8, 0x00u8, 0x03u8, 0x00u8, 0x00u8, 0x00u8, 0x01u8, 0x00u8, o, 0x00u8, 0x00u8,
        0x00u8, 0x00u8, 0x00u8, 0x00u8,
    ]
}

/// Whether `b` is a JPEG stream whose first segment is an orientation
/// segment (as [`orientation_segment`] builds it); its orientation is then
/// the byte at position 31.
pub open spec fn has_orientation_segment(b: Seq<u8>) -> bool {
    &&& b.len() >= 38
    &&& b[0] == 0xFF
    &&& b[1] == 0xD8
    &&& b.subrange(2, 38) == orientation_segment(b[31])
}

/// Whether stripping keeps the orientation `o` of the stream `b`: `b` is a
/// JPEG stream and `o` is one of the orientations 2 to 8 (1, upright, is
/// what a reader assumes without EXIF).
pub open spec fn keeps_orientation(b: Seq<u8>, o: u16) -> bool {
    is_jpeg_stream(b) && 2 <= o <= 8
}

/// The bytes of `b` stripped of EXIF except the orientation `o`: the APP1
/// segments removed, and for a JPEG stream not stored upright the
/// orientation segment put right after the start-of-image marker.
pub open spec fn stripped_keeping(b: Seq<u8>, o: u16) -> Seq<u8> {
    let s = exif_stripped(b);
    if keeps_orientation(b, o) {
        s.take(2) + orientation_segment(o as u8) + s.skip(2)
    } else {
        s
    }
}

/// The bytes of the APP1 segment that holds only the orientation `o`.
fn orientation_segment_bytes(o: u8) -> (r: Vec<u8>)
    ensures
        r@ == orientation_segment(o),
{
    let r = vec![
        0xFFu8, 0xE1u8, 0x00u8, 0x22u8,
        0x45u8, 0x78u8, 0x69u8, 0x66u8, 0x00u8, 0x00u8,
        0x4Du8, 0x4Du8, 0x00u8, 0x2Au8, 0x00u8, 0x00u8, 0x00u8, 0x08u8,
        0x00u8, 0x01u8,
        0x01u8, 0x12u8, 0x00u8, 0x03u8, 0x00u8, 0x00u8, 0x00u8, 0x01u8, 0x00u8, o, 0x00u8, 0x00u8,
        0x00u8, 0x00u8, 0x00u8, 0x00u8,
    ];
    assert(r@ =~= orientation_segment(o));
    r
}

/// Strips the EXIF data of `jpeg_bytes` except the orientation
/// `orientation`: removes the APP1 segments and, when the stream is not
/// stored upright, puts back a segment with nothing but that orientation.
pub fn strip_exif_keeping(jpeg_bytes: &[u8], orientation: u16) -> (r: Vec<u8>)
    ensures
        r@ == stripped_keeping(jpeg_bytes@, orientation),
{
    let stripped = strip_exif_from_jpeg(jpeg_bytes);
    let len = jpeg_bytes.len();
    if len >= 4 && jpeg_bytes[0] == 0xFF && jpeg_bytes[1] == 0xD8 && 2 <= orientation
        && orientation <= 8 {
        proof {
            law_strip_keeps_soi_and_never_grows(jpeg_bytes@);
        }
        let s = stripped.as_slice();
        let mut out: Vec<u8> = Vec::new();
        push_range(&mut out, s, 0, 2);
        let segment = orientation_segment_bytes(orientation as u8);
        push_range(&mut out, segment.as_slice(), 0, segment.len());
        push_range(&mut out, s, 2, s.len());
        assert(out@ =~= stripped@.take(2) + orientation_segment(orientation as u8)
            + stripped@.skip(2));
        out
    } else {
        stripped
    }
}

// ---------------------------------------------------------------------------
// Laws
// ---------------------------------------------------------------------------

proof fn lemma_walk_len(b: Seq<u8>, pos: int)
    requires
        pos >= 0,
    ensures
        walk_segments(b, pos).len() <= remaining(b, pos),
    decreases remaining(b, pos),
{
    if pos < 0 || pos + 1 >= b.len() {
    } else if b[pos] != 0xFF {
    } else if b[pos + 1] == 0xD9 || b[pos + 1] == 0xDA {
    } else if b[pos + 1] == 0xE1 {
        if pos + 3 < b.len() {
            lemma_walk_len(b, pos + 2 + be16(b[pos + 2], b[pos + 3]));
        } else {
            lemma_walk_len(b, pos + 2);
        }
    } else if pos + 3 < b.len() {
        let end = pos + 2 + be16(b[pos + 2], b[pos + 3]);
        if end <= b.len() {
            lemma_walk_len(b, end);
        }
    }
}

/// What the walk keeps from `pos` on is kept whole when it is walked again,
/// after any prefix.
proof fn lemma_walk_keeps_its_output(b: Seq<u8>, pos: int, p: Seq<u8>)
    requires
        pos >= 0,
    ensures
        walk_segments(p + walk_segments(b, pos), p.len() as int) == walk_segments(b, pos),
    decreases remaining(b, pos),
{
    let w = walk_segments(b, pos);
    let x = p + w;
    let q = p.len() as int;
    if pos + 1 >= b.len() || b[pos] != 0xFF {
        assert(w.len() == 0);
        assert(x.len() == q);
    } else if b[pos + 1] == 0xD9 || b[pos + 1] == 0xDA {
        assert(w == b.skip(pos));
        assert(x[q] == b[pos]);
        assert(x[q + 1] == b[pos + 1]);
        assert(x.skip(q) =~= w);
    } else if b[pos + 1] == 0xE1 {
        if pos + 3 < b.len() {
            lemma_walk_keeps_its_output(b, pos + 2 + be16(b[pos + 2], b[pos + 3]), p);
        } else {
            lemma_walk_keeps_its_output(b, pos + 2, p);
        }
    } else if pos + 3 < b.len() {
        let len = be16(b[pos + 2], b[pos + 3]);
        let end = pos + 2 + len;
        assert(x[q] == b[pos]);
        assert(x[q + 1] == b[pos + 1]);
        if end > b.len() {
            assert(w == b.skip(pos));
            assert(x[q + 2] == b[pos + 2]);
            assert(x[q + 3] == b[pos + 3]);
            assert(x.len() == q + b.len() - pos);
            assert(x.skip(q) =~= w);
        } else {
            let w2 = walk_segments(b, end);
            assert(w == b.subrange(pos, end) + w2);
            if len < 2 {
                // The next segment would start inside the length field, on a
                // byte that cannot be 0xFF, so nothing follows the segment.
                assert(b[end] != 0xFF);
                assert(w2.len() == 0);
                assert(x.len() == q + 2 + len);
                assert(x.skip(q) =~= w);
            } else {
                assert(x[q + 2] == b[pos + 2]);
                assert(x[q + 3] == b[pos + 3]);
                let p2 = p + b.subrange(pos, end);
                assert(x =~= p2 + w2);
                assert(x.subrange(q, q + 2 + len) =~= b.subrange(pos, end));
                lemma_walk_keeps_its_output(b, end, p2);
            }
        }
    } else {
        assert(w == b.skip(pos));
        assert(x[q] == b[pos]);
        assert(x[q + 1] == b[pos + 1]);
        assert(x.skip(q) =~= w);
    }
}

/// Whether `idx` picks `s` out of `b`: increasing positions of `b` that
/// hold the bytes of `s`, each at least `from`.
pub open spec fn picks(idx: Seq<int>, s: Seq<u8>, b: Seq<u8>, from: int) -> bool {
    &&& idx.len() == s.len()
    &&& forall|i: int, j: int| 0 <= i < j < idx.len() ==> idx[i] < idx[j]
    &&& forall|i: int| 0 <= i < idx.len() ==> from <= #[trigger] idx[i] < b.len() && s[i] == b[idx[i]]
}

/// Whether `s` is `b` with some bytes left out, the rest in their order.
pub open spec fn is_subsequence(s: Seq<u8>, b: Seq<u8>) -> bool {
    exists|idx: Seq<int>| picks(idx, s, b, 0)
}

/// The positions `from..to` in order.
pub open spec fn positions(from: int, to: int) -> Seq<int> {
    Seq::new((to - from) as nat, |i: int| from + i)
}

proof fn lemma_picks_concat(
    i1: Seq<int>,
    s1: Seq<u8>,
    i2: Seq<int>,
    s2: Seq<u8>,
    b: Seq<u8>,
    from: int,
    mid: int,
)
    requires
        picks(i1, s1, b, from),
        picks(i2, s2, b, mid),
        from <= mid,
        forall|i: int| 0 <= i < i1.len() ==> #[trigger] i1[i] < mid,
    ensures
        picks(i1 + i2, s1 + s2, b, from),
{
    let idx = i1 + i2;
    let s = s1 + s2;
    assert forall|i: int, j: int| 0 <= i < j < idx.len() implies idx[i] < idx[j] by {
        if j < i1.len() {
        } else if i < i1.len() {
            assert(idx[i] == i1[i]);
            assert(idx[j] == i2[j - i1.len()]);
        } else {
            assert(idx[i] == i2[i - i1.len()]);
            assert(idx[j] == i2[j - i1.len()]);
        }
    }
    assert forall|i: int| 0 <= i < idx.len() implies from <= #[trigger] idx[i] < b.len() && s[i]
        == b[idx[i]] by {
        if i < i1.len() {
            assert(idx[i] == i1[i]);
            assert(s[i] == s1[i]);
        } else {
            let k = i - i1.len();
            assert(idx[i] == i2[k]);
            assert(s[i] == s2[k]);
            assert(mid <= i2[k] < b.len() && s2[k] == b[i2[k]]);
        }
    }
}

proof fn lemma_positions(b: Seq<u8>, from: int, to: int)
    requires
        0 <= from <= to <= b.len(),
    ensures
        picks(positions(from, to), b.subrange(from, to), b, from),
        forall|i: int| 0 <= i < positions(from, to).len() ==> #[trigger] positions(from, to)[i] < to,
{
}

/// The walk keeps bytes of `b` from `pos` on, in their order.
proof fn lemma_walk_picks(b: Seq<u8>, pos: int) -> (idx: Seq<int>)
    requires
        pos >= 0,
    ensures
        picks(idx, walk_segments(b, pos), b, pos),
    decreases remaining(b, pos),
{
    if pos + 1 >= b.len() || b[pos] != 0xFF {
        Seq::empty()
    } else if b[pos + 1] == 0xD9 || b[pos + 1] == 0xDA {
        lemma_positions(b, pos, b.len() as int);
        assert(b.subrange(pos, b.len() as int) =~= b.skip(pos));
        positions(pos, b.len() as int)
    } else if b[pos + 1] == 0xE1 {
        if pos + 3 < b.len() {
            lemma_walk_picks(b, pos + 2 + be16(b[pos + 2], b[pos + 3]))
        } else {
            lemma_walk_picks(b, pos + 2)
        }
    } else if pos + 3 < b.len() {
        let end = pos + 2 + be16(b[pos + 2], b[pos + 3]);
        if end > b.len() {
            lemma_positions(b, pos, b.len() as int);
            assert(b.subrange(pos, b.len() as int) =~= b.skip(pos));
            positions(pos, b.len() as int)
        } else {
            let rest = lemma_walk_picks(b, end);
            lemma_positions(b, pos, end);
            lemma_picks_concat(
                positions(pos, end),
                b.subrange(pos, end),
                rest,
                walk_segments(b, end),
                b,
                pos,
                end,
            );
            positions(pos, end) + rest
        }
    } else {
        lemma_positions(b, pos, b.len() as int);
        assert(b.subrange(pos, b.len() as int) =~= b.skip(pos));
        positions(pos, b.len() as int)
    }
}

/// Stripping only leaves bytes out: what remains are bytes of the input in
/// their order.
pub proof fn law_strip_leaves_bytes_out(b: Seq<u8>)
    ensures
        is_subsequence(exif_stripped(b), b),
{
    if is_jpeg_stream(b) {
        let rest = lemma_walk_picks(b, 2);
        lemma_positions(b, 0, 2);
        assert(b.subrange(0, 2) =~= b.take(2));
        lemma_picks_concat(positions(0, 2), b.take(2), rest, walk_segments(b, 2), b, 0, 2);
        assert(picks(positions(0, 2) + rest, exif_stripped(b), b, 0));
    } else {
        lemma_positions(b, 0, b.len() as int);
        assert(b.subrange(0, b.len() as int) =~= b);
        assert(picks(positions(0, b.len() as int), exif_stripped(b), b, 0));
    }
}

/// The walk depends only on what follows its position.
proof fn lemma_walk_shift(b: Seq<u8>, pos: int, c: Seq<u8>, q: int)
    requires
        0 <= pos <= b.len(),
        0 <= q <= c.len(),
        b.skip(pos) == c.skip(q),
    ensures
        walk_segments(b, pos) == walk_segments(c, q),
    decreases remaining(b, pos),
{
    let t = b.skip(pos);
    assert(t.len() == b.len() - pos);
    assert(c.skip(q).len() == c.len() - q);
    let n = t.len() as int;
    if n >= 1 {
        assert(b[pos] == t[0] && c[q] == t[0]);
    }
    if n >= 2 {
        assert(b[pos + 1] == t[1] && c[q + 1] == t[1]);
    }
    if n >= 4 {
        assert(b[pos + 2] == t[2] && c[q + 2] == t[2]);
        assert(b[pos + 3] == t[3] && c[q + 3] == t[3]);
    }
    if pos + 1 >= b.len() || b[pos] != 0xFF {
    } else if b[pos + 1] == 0xD9 || b[pos + 1] == 0xDA {
    } else if b[pos + 1] == 0xE1 {
        let d: int = if pos + 3 < b.len() {
            2 + be16(b[pos + 2], b[pos + 3]) as int
        } else {
            2
        };
        if d <= n {
            assert(b.skip(pos + d) =~= t.skip(d));
            assert(c.skip(q + d) =~= c.skip(q).skip(d));
            lemma_walk_shift(b, pos + d, c, q + d);
        } else {
            lemma_walk_past_end(b, pos + d);
            lemma_walk_past_end(c, q + d);
        }
    } else if pos + 3 < b.len() {
        let d: int = 2 + be16(b[pos + 2], b[pos + 3]) as int;
        if d <= n {
            assert(b.subrange(pos, pos + d) =~= t.take(d));
            assert(c.subrange(q, q + d) =~= c.skip(q).take(d));
            assert(b.skip(pos + d) =~= t.skip(d));
            assert(c.skip(q + d) =~= c.skip(q).skip(d));
            lemma_walk_shift(b, pos + d, c, q + d);
        }
    }
}

/// The start-of-image marker.
pub open spec fn soi() -> Seq<u8> {
    seq![0xFFu8, 0xD8u8]
}

/// The marker segment `FF m` with `payload`, its two-byte length counting
/// itself and the payload.
pub open spec fn segment(m: u8, payload: Seq<u8>) -> Seq<u8> {
    seq![0xFFu8, m, ((payload.len() + 2) / 256) as u8, ((payload.len() + 2) % 256) as u8]
        + payload
}

proof fn lemma_segment_head(m: u8, payload: Seq<u8>, rest: Seq<u8>)
    requires
        payload.len() + 2 < 65536,
    ensures
        ({
            let b = soi() + segment(m, payload) + rest;
            &&& b.len() == 6 + payload.len() as int + rest.len()
            &&& b[2] == 0xFF
            &&& b[3] == m
            &&& be16(b[4], b[5]) == payload.len() + 2
            &&& b.subrange(2, 6 + payload.len() as int) == segment(m, payload)
            &&& b.skip(6 + payload.len() as int) == rest
            &&& b.take(2) == soi()
        }),
{
    let b = soi() + segment(m, payload) + rest;
    let n = payload.len() + 2;
    assert(n / 256 < 256) by (nonlinear_arith)
        requires
            n < 65536,
    ;
    assert((n / 256) * 256 + n % 256 == n) by (nonlinear_arith);
    assert(b[4] == (n / 256) as u8);
    assert(b[5] == (n % 256) as u8);
    assert(b.subrange(2, 6 + payload.len() as int) =~= segment(m, payload));
    assert(b.skip(6 + payload.len() as int) =~= rest);
    assert(b.take(2) =~= soi());
}

/// Stripping removes an EXIF (APP1) segment and nothing else: a JPEG
/// stream whose first segment is APP1 strips to the stream without it.
pub proof fn law_exif_segment_is_dropped(payload: Seq<u8>, rest: Seq<u8>)
    requires
        payload.len() + 2 < 65536,
        rest.len() >= 2,
    ensures
        exif_stripped(soi() + segment(0xE1, payload) + rest) == exif_stripped(soi() + rest),
{
    let b = soi() + segment(0xE1, payload) + rest;
    let c = soi() + rest;
    lemma_segment_head(0xE1, payload, rest);
    assert(c.skip(2) =~= rest);
    assert(c.take(2) =~= soi());
    lemma_walk_shift(b, 6 + payload.len() as int, c, 2);
}

/// Every other segment before the scan is kept byte for byte: a JPEG
/// stream whose first segment has a marker other than APP1 (and is neither
/// the start of scan nor the end of image) strips to the start-of-image
/// marker, that segment unchanged, and then what the rest strips to.
pub proof fn law_other_segments_are_kept(m: u8, payload: Seq<u8>, rest: Seq<u8>)
    requires
        m != 0xE1,
        m != 0xD9,
        m != 0xDA,
        payload.len() + 2 < 65536,
        rest.len() >= 2,
    ensures
        exif_stripped(soi() + segment(m, payload) + rest) == soi() + segment(m, payload)
            + exif_stripped(soi() + rest).skip(2),
{
    let b = soi() + segment(m, payload) + rest;
    let c = soi() + rest;
    lemma_segment_head(m, payload, rest);
    assert(c.skip(2) =~= rest);
    assert(c.take(2) =~= soi());
    lemma_walk_shift(b, 6 + payload.len() as int, c, 2);
    assert((c.take(2) + walk_segments(c, 2)).skip(2) =~= walk_segments(c, 2));
    assert(b.take(2) + (b.subrange(2, 6 + payload.len() as int) + walk_segments(b, 6 + payload.len() as int))
        =~= soi() + segment(m, payload) + walk_segments(c, 2));
}

/// A stream that does not start with the start-of-image marker (or is too
/// short to hold a segment) is left as it is, whatever its orientation.
pub proof fn law_strip_keeps_non_jpeg(b: Seq<u8>, o: u16)
    requires
        !is_jpeg_stream(b),
    ensures
        exif_stripped(b) == b,
        stripped_keeping(b, o) == b,
{
}

/// Removing the APP1 segments never makes the data longer, and keeps the
/// start-of-image marker of a JPEG stream in front.
pub proof fn law_strip_keeps_soi_and_never_grows(b: Seq<u8>)
    ensures
        exif_stripped(b).len() <= b.len(),
        is_jpeg_stream(b) ==> exif_stripped(b).len() >= 2 && exif_stripped(b).take(2) == b.take(
            2,
        ),
{
    if is_jpeg_stream(b) {
        lemma_walk_len(b, 2);
        assert((b.take(2) + walk_segments(b, 2)).take(2) =~= b.take(2));
    }
}

/// Stripping is idempotent: what it returns has nothing left to strip.
pub proof fn law_strip_idempotent(b: Seq<u8>)
    ensures
        exif_stripped(exif_stripped(b)) == exif_stripped(b),
{
    if is_jpeg_stream(b) {
        let s = exif_stripped(b);
        let head = b.take(2);
        lemma_walk_keeps_its_output(b, 2, head);
        law_strip_keeps_soi_and_never_grows(b);
        if is_jpeg_stream(s) {
            assert(s.take(2) =~= head);
        }
    }
}

/// Stripping with an orientation keeps that orientation and nothing else of
/// EXIF: the result starts with the start-of-image marker of a JPEG
/// stream, then holds the orientation segment when the image is not stored
/// upright, and is at most that segment longer than the input.
pub proof fn law_strip_keeps_orientation(b: Seq<u8>, o: u16)
    ensures
        is_jpeg_stream(b) ==> stripped_keeping(b, o).take(2) == b.take(2),
        keeps_orientation(b, o) ==> stripped_keeping(b, o).subrange(2, 38) == orientation_segment(
            o as u8,
        ),
        stripped_keeping(b, o).len() <= b.len() + (if keeps_orientation(b, o) {
            36int
        } else {
            0int
        }),
{
    law_strip_keeps_soi_and_never_grows(b);
    let s = exif_stripped(b);
    if keeps_orientation(b, o) {
        let t = s.take(2) + orientation_segment(o as u8) + s.skip(2);
        assert(t.take(2) =~= s.take(2));
        assert(t.subrange(2, 38) =~= orientation_segment(o as u8));
    }
}

/// A stream stripped with an orientation to keep starts with the orientation
/// segment that holds it, which an EXIF reader finds first.
pub proof fn law_kept_orientation_is_first(b: Seq<u8>, o: u16)
    requires
        keeps_orientation(b, o),
    ensures
        has_orientation_segment(stripped_keeping(b, o)),
        stripped_keeping(b, o)[31] == o,
{
    law_strip_keeps_soi_and_never_grows(b);
    let s = exif_stripped(b);
    let t = stripped_keeping(b, o);
    assert(t =~= s.take(2) + orientation_segment(o as u8) + s.skip(2));
    assert(t[0] == b[0] && t[1] == b[1]);
    assert(t[31] == orientation_segment(o as u8)[29]);
    assert(t.subrange(2, 38) =~= orientation_segment(o as u8));
}

/// Stripping with an orientation is stable: what it returns, stripped again
/// with the same orientation, stays as it is.
pub proof fn law_strip_keeping_is_stable(b: Seq<u8>, o: u16)
    ensures
        stripped_keeping(stripped_keeping(b, o), o) == stripped_keeping(b, o),
{
    law_strip_idempotent(b);
    if is_jpeg_stream(b) {
        let s = exif_stripped(b);
        let head = b.take(2);
        let w = walk_segments(b, 2);
        law_strip_keeps_soi_and_never_grows(b);
        if keeps_orientation(b, o) {
            let seg = orientation_segment(o as u8);
            let t = s.take(2) + seg + s.skip(2);
            assert(s =~= head + w);
            assert(t =~= (head + seg) + w);
            lemma_walk_keeps_its_output(b, 2, head + seg);
            assert(t[2] == 0xFF && t[3] == 0xE1 && t[4] == 0 && t[5] == 0x22);
            assert(be16(t[4], t[5]) == 34);
            assert(walk_segments(t, 2) == walk_segments(t, 38));
            assert(t.take(2) =~= head);
            assert(exif_stripped(t) == s);
        } else if is_jpeg_stream(s) {
            assert(s.take(2) =~= head);
        }
    }
}

} // verus!
