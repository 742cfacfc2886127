//! Length-prefixed frame codec for the byte stream shared with the host.
//!
//! All multi-byte integers on the wire are big-endian. Outbound (guest to
//! host) traffic multiplexes two frame kinds by a leading tag byte: a
//! result-or-event frame carrying a JSON body plus extra raw segments, and a
//! data-event frame carrying a JSON body alone. Inbound (host to guest)
//! traffic is either an RPC command carrying a JSON body or a provide-data
//! reply carrying a request id and raw segments.

use vstd::prelude::*;
use vstd::slice::{slice_subrange, slice_to_vec};

verus! {

/// The four bytes of `x` in big-endian order.
pub open spec fn u32_be_bytes(x: u32) -> Seq<u8> {
    seq![
        ((x >> 24) & 0xff) as u8,
        ((x >> 16) & 0xff) as u8,
        ((x >> 8) & 0xff) as u8,
        (x & 0xff) as u8,
    ]
}

/// The eight bytes of `x` in big-endian order.
pub open spec fn u64_be_bytes(x: u64) -> Seq<u8> {
    seq![
        ((x >> 56) & 0xff) as u8,
        ((x >> 48) & 0xff) as u8,
        ((x >> 40) & 0xff) as u8,
        ((x >> 32) & 0xff) as u8,
        ((x >> 24) & 0xff) as u8,
        ((x >> 16) & 0xff) as u8,
        ((x >> 8) & 0xff) as u8,
        (x & 0xff) as u8,
    ]
}

/// The value read from four big-endian bytes.
pub open spec fn u32_from_be(b0: u8, b1: u8, b2: u8, b3: u8) -> u32 {
    ((b0 as u32) << 24) | ((b1 as u32) << 16) | ((b2 as u32) << 8) | (b3 as u32)
}

/// The value read from eight big-endian bytes.
pub open spec fn u64_from_be(
    b0: u8,
    b1: u8,
    b2: u8,
    b3: u8,
    b4: u8,
    b5: u8,
    b6: u8,
    b7: u8,
) -> u64 {
    ((b0 as u64) << 56) | ((b1 as u64) << 48) | ((b2 as u64) << 40) | ((b3 as u64) << 32) | ((b4
        as u64) << 24) | ((b5 as u64) << 16) | ((b6 as u64) << 8) | (b7 as u64)
}

/// Reading back the four big-endian bytes of `x` yields `x` again.
pub proof fn lemma_u32_be_round_trip(x: u32)
    ensures
        u32_from_be(
            u32_be_bytes(x)[0],
            u32_be_bytes(x)[1],
            u32_be_bytes(x)[2],
            u32_be_bytes(x)[3],
        ) == x,
{
    assert(((((x >> 24) & 0xff) as u8) as u32) << 24 | ((((x >> 16) & 0xff) as u8) as u32) << 16
        | ((((x >> 8) & 0xff) as u8) as u32) << 8 | (((x & 0xff) as u8) as u32) == x)
        by (bit_vector);
}

/// Reading back the eight big-endian bytes of `x` yields `x` again.
pub proof fn lemma_u64_be_round_trip(x: u64)
    ensures
        u64_from_be(
            u64_be_bytes(x)[0],
            u64_be_bytes(x)[1],
            u64_be_bytes(x)[2],
            u64_be_bytes(x)[3],
            u64_be_bytes(x)[4],
            u64_be_bytes(x)[5],
            u64_be_bytes(x)[6],
            u64_be_bytes(x)[7],
        ) == x,
{
    assert(((((x >> 56) & 0xff) as u8) as u64) << 56 | ((((x >> 48) & 0xff) as u8) as u64) << 48
        | ((((x >> 40) & 0xff) as u8) as u64) << 40 | ((((x >> 32) & 0xff) as u8) as u64) << 32
        | ((((x >> 24) & 0xff) as u8) as u64) << 24 | ((((x >> 16) & 0xff) as u8) as u64) << 16
        | ((((x >> 8) & 0xff) as u8) as u64) << 8 | (((x & 0xff) as u8) as u64) == x)
        by (bit_vector);
}

/// Appends the four big-endian bytes of `x` to `out`.
pub fn push_u32_be(out: &mut Vec<u8>, x: u32)
    ensures
        final(out)@ == old(out)@ + u32_be_bytes(x),
{
    out.push(((x >> 24) & 0xff) as u8);
    out.push(((x >> 16) & 0xff) as u8);
    out.push(((x >> 8) & 0xff) as u8);
    out.push((x & 0xff) as u8);
    assert(out@ =~= old(out)@ + u32_be_bytes(x));
}

/// Appends the eight big-endian bytes of `x` to `out`.
pub fn push_u64_be(out: &mut Vec<u8>, x: u64)
    ensures
        final(out)@ == old(out)@ + u64_be_bytes(x),
{
    out.push(((x >> 56) & 0xff) as u8);
    out.push(((x >> 48) & 0xff) as u8);
    out.push(((x >> 40) & 0xff) as u8);
    out.push(((x >> 32) & 0xff) as u8);
    out.push(((x >> 24) & 0xff) as u8);
    out.push(((x >> 16) & 0xff) as u8);
    out.push(((x >> 8) & 0xff) as u8);
    out.push((x & 0xff) as u8);
    assert(out@ =~= old(out)@ + u64_be_bytes(x));
}

/// Reads a big-endian `u32` from `bytes` at `pos`.
pub fn read_u32_be(bytes: &[u8], pos: usize) -> (r: u32)
    requires
        pos + 4 <= bytes@.len(),
    ensures
        r == u32_from_be(bytes@[pos as int], bytes@[pos + 1], bytes@[pos + 2], bytes@[pos + 3]),
{
    ((bytes[pos] as u32) << 24) | ((bytes[pos + 1] as u32) << 16) | ((bytes[pos + 2] as u32) << 8)
        | (bytes[pos + 3] as u32)
}

/// Reads a big-endian `u64` from `bytes` at `pos`.
pub fn read_u64_be(bytes: &[u8], pos: usize) -> (r: u64)
    requires
        pos + 8 <= bytes@.len(),
    ensures
        r == u64_from_be(
            bytes@[pos as int],
            bytes@[pos + 1],
            bytes@[pos + 2],
            bytes@[pos + 3],
            bytes@[pos + 4],
            bytes@[pos + 5],
            bytes@[pos + 6],
            bytes@[pos + 7],
        ),
{
    ((bytes[pos] as u64) << 56) | ((bytes[pos + 1] as u64) << 48) | ((bytes[pos + 2] as u64) << 40)
        | ((bytes[pos + 3] as u64) << 32) | ((bytes[pos + 4] as u64) << 24) | ((bytes[pos + 5]
        as u64) << 16) | ((bytes[pos + 6] as u64) << 8) | (bytes[pos + 7] as u64)
}

/// A segment as it stands on the wire: an eight-byte big-endian length,
/// then the segment's bytes.
pub open spec fn seg_with_len(seg: Seq<u8>) -> Seq<u8> {
    u64_be_bytes(seg.len() as u64) + seg
}

/// A run of length-prefixed segments, in order.
pub open spec fn segs_with_len(segs: Seq<Seq<u8>>) -> Seq<u8>
    decreases segs.len(),
{
    if segs.len() == 0 {
        Seq::empty()
    } else {
        seg_with_len(segs[0]) + segs_with_len(segs.drop_first())
    }
}

/// All segments of `segs` fit a 64-bit length prefix.
pub open spec fn segs_fit(segs: Seq<Seq<u8>>) -> bool {
    forall|i: int| 0 <= i < segs.len() ==> #[trigger] segs[i].len() <= u64::MAX
}

/// The result-or-event frame (guest to host): tag 0, the segment count, the
/// length-prefixed JSON body, each extra segment length-prefixed, and a
/// trailer byte of 1.
pub open spec fn result_or_event_frame(body: Seq<u8>, extras: Seq<Seq<u8>>) -> Seq<u8> {
    seq![0u8] + u32_be_bytes(extras.len() as u32) + u64_be_bytes(body.len() as u64) + body
        + segs_with_len(extras) + seq![1u8]
}

/// The data-event frame (guest to host): tag 1, then the length-prefixed
/// JSON body.
pub open spec fn data_event_frame(body: Seq<u8>) -> Seq<u8> {
    seq![1u8] + u64_be_bytes(body.len() as u64) + body
}

/// The RPC command frame (host to guest): tag 0, then the length-prefixed
/// JSON body.
pub open spec fn command_frame(body: Seq<u8>) -> Seq<u8> {
    seq![0u8] + u64_be_bytes(body.len() as u64) + body
}

/// The provide-data frame (host to guest): a nonzero tag, the request id,
/// the segment count, and each segment length-prefixed.
pub open spec fn provide_data_frame(tag: u8, request_id: u32, segs: Seq<Seq<u8>>) -> Seq<u8> {
    seq![tag] + u32_be_bytes(request_id) + u32_be_bytes(segs.len() as u32) + segs_with_len(segs)
}

/// Appends one length-prefixed segment to `out`.
fn push_segment(out: &mut Vec<u8>, seg: &Vec<u8>)
    ensures
        final(out)@ == old(out)@ + seg_with_len(seg@),
{
    push_u64_be(out, seg.len() as u64);
    let ghost mid = out@;
    let mut i: usize = 0;
    while i < seg.len()
        invariant
            i <= seg@.len(),
            out@ == mid + seg@.take(i as int),
        decreases seg@.len() - i,
    {
        out.push(seg[i]);
        i = i + 1;
        assert(out@ =~= mid + seg@.take(i as int));
    }
    assert(out@ =~= old(out)@ + seg_with_len(seg@));
}

/// Appends every segment of `segs`, each length-prefixed, to `out`.
fn push_segments(out: &mut Vec<u8>, segs: &Vec<Vec<u8>>)
    ensures
        final(out)@ == old(out)@ + segs_with_len(segs.deep_view()),
{
    let mut i: usize = 0;
    while i < segs.len()
        invariant
            i <= segs@.len(),
            out@ == old(out)@ + segs_with_len(segs.deep_view().take(i as int)),
        decreases segs@.len() - i,
    {
        proof {
            lemma_segs_with_len_snoc(segs.deep_view(), i as int);
        }
        push_segment(out, &segs[i]);
        i = i + 1;
    }
    assert(segs.deep_view().take(segs@.len() as int) =~= segs.deep_view());
}

/// Appending one more segment extends the encoded run by that segment.
proof fn lemma_segs_with_len_snoc(segs: Seq<Seq<u8>>, i: int)
    requires
        0 <= i < segs.len(),
    ensures
        segs_with_len(segs.take(i + 1)) == segs_with_len(segs.take(i)) + seg_with_len(segs[i]),
    decreases i,
{
    if i == 0 {
        assert(segs.take(1) =~= seq![segs[0]]);
        assert(segs.take(1)[0] == segs[0]);
        assert(segs.take(1).drop_first() =~= Seq::<Seq<u8>>::empty());
        assert(seg_with_len(segs[0]) + Seq::<u8>::empty() =~= seg_with_len(segs[0]));
        assert(segs_with_len(Seq::<Seq<u8>>::empty()) == Seq::<u8>::empty());
        assert(segs_with_len(segs.take(1)) == seg_with_len(segs.take(1)[0]) + segs_with_len(
            segs.take(1).drop_first(),
        ));
        assert(segs_with_len(segs.take(i)) =~= Seq::<u8>::empty());
        assert(segs_with_len(segs.take(1)) =~= seg_with_len(segs[0]));
    } else {
        lemma_segs_with_len_snoc(segs.drop_first(), i - 1);
        assert(segs.take(i + 1).drop_first() =~= segs.drop_first().take(i));
        assert(segs.take(i).drop_first() =~= segs.drop_first().take(i - 1));
        assert(segs.take(i + 1)[0] == segs[0]);
        assert(segs.take(i)[0] == segs[0]);
        assert(segs.drop_first()[i - 1] == segs[i]);
        assert(segs_with_len(segs.take(i + 1)) == seg_with_len(segs[0]) + segs_with_len(
            segs.drop_first().take(i),
        ));
        assert(seg_with_len(segs[0]) + (segs_with_len(segs.drop_first().take(i - 1)) + seg_with_len(
            segs[i],
        )) =~= (seg_with_len(segs[0]) + segs_with_len(segs.drop_first().take(i - 1)))
            + seg_with_len(segs[i]));
    }
}

/// Encodes a result-or-event frame.
pub fn encode_result_or_event(body: &Vec<u8>, extras: &Vec<Vec<u8>>) -> (r: Vec<u8>)
    requires
        extras@.len() <= u32::MAX,
    ensures
        r@ == result_or_event_frame(body@, extras.deep_view()),
{
    let mut out: Vec<u8> = Vec::new();
    out.push(0u8);
    push_u32_be(&mut out, extras.len() as u32);
    push_u64_be(&mut out, body.len() as u64);
    let ghost before_body = out@;
    let mut i: usize = 0;
    while i < body.len()
        invariant
            i <= body@.len(),
            out@ == before_body + body@.take(i as int),
        decreases body@.len() - i,
    {
        out.push(body[i]);
        i = i + 1;
        assert(out@ =~= before_body + body@.take(i as int));
    }
    assert(body@.take(body@.len() as int) =~= body@);
    push_segments(&mut out, extras);
    out.push(1u8);
    assert(out@ =~= result_or_event_frame(body@, extras.deep_view()));
    out
}

/// Encodes a data-event frame.
pub fn encode_data_event(body: &Vec<u8>) -> (r: Vec<u8>)
    ensures
        r@ == data_event_frame(body@),
{
    let mut out: Vec<u8> = Vec::new();
    out.push(1u8);
    push_u64_be(&mut out, body.len() as u64);
    let ghost before_body = out@;
    let mut i: usize = 0;
    while i < body.len()
        invariant
            i <= body@.len(),
            out@ == before_body + body@.take(i as int),
        decreases body@.len() - i,
    {
        out.push(body[i]);
        i = i + 1;
        assert(out@ =~= before_body + body@.take(i as int));
    }
    assert(body@.take(body@.len() as int) =~= body@);
    assert(out@ =~= data_event_frame(body@));
    out
}

/// Takes a big-endian `u32` off the front of `s`.
pub open spec fn dec_u32(s: Seq<u8>) -> Option<(u32, Seq<u8>)> {
    if s.len() >= 4 {
        Some((u32_from_be(s[0], s[1], s[2], s[3]), s.skip(4)))
    } else {
        None
    }
}

/// Takes a big-endian `u64` off the front of `s`.
pub open spec fn dec_u64(s: Seq<u8>) -> Option<(u64, Seq<u8>)> {
    if s.len() >= 8 {
        Some((u64_from_be(s[0], s[1], s[2], s[3], s[4], s[5], s[6], s[7]), s.skip(8)))
    } else {
        None
    }
}

/// Takes `n` raw bytes off the front of `s`.
pub open spec fn dec_bytes(s: Seq<u8>, n: int) -> Option<(Seq<u8>, Seq<u8>)> {
    if 0 <= n <= s.len() {
        Some((s.take(n), s.skip(n)))
    } else {
        None
    }
}

/// Takes one length-prefixed segment off the front of `s`.
pub open spec fn dec_segment(s: Seq<u8>) -> Option<(Seq<u8>, Seq<u8>)> {
    match dec_u64(s) {
        None => None,
        Some((len, rest)) => dec_bytes(rest, len as int),
    }
}

/// Takes `n` length-prefixed segments off the front of `s`.
pub open spec fn dec_segments(s: Seq<u8>, n: int) -> Option<(Seq<Seq<u8>>, Seq<u8>)>
    decreases n,
{
    if n <= 0 {
        Some((Seq::empty(), s))
    } else {
        match dec_segment(s) {
            None => None,
            Some((seg, rest)) => match dec_segments(rest, n - 1) {
                None => None,
                Some((segs, rest2)) => Some((seq![seg] + segs, rest2)),
            },
        }
    }
}

/// Parses a result-or-event frame off the front of `s`: the JSON body, the
/// extra segments, and what follows the frame.
pub open spec fn dec_result_or_event(s: Seq<u8>) -> Option<((Seq<u8>, Seq<Seq<u8>>), Seq<u8>)> {
    if s.len() < 1 || s[0] != 0 {
        None
    } else {
        match dec_u32(s.drop_first()) {
            None => None,
            Some((n, r1)) => match dec_u64(r1) {
                None => None,
                Some((blen, r2)) => match dec_bytes(r2, blen as int) {
                    None => None,
                    Some((body, r3)) => match dec_segments(r3, n as int) {
                        None => None,
                        Some((extras, r4)) => if r4.len() >= 1 && r4[0] == 1 {
                            Some(((body, extras), r4.drop_first()))
                        } else {
                            None
                        },
                    },
                },
            },
        }
    }
}

/// Parses a data-event frame off the front of `s`: the JSON body and what
/// follows the frame.
pub open spec fn dec_data_event(s: Seq<u8>) -> Option<(Seq<u8>, Seq<u8>)> {
    if s.len() < 1 || s[0] != 1 {
        None
    } else {
        match dec_u64(s.drop_first()) {
            None => None,
            Some((blen, r1)) => dec_bytes(r1, blen as int),
        }
    }
}

/// Reading a big-endian `u32` off an encoding of `x` followed by `rest`
/// yields `x` and `rest`.
proof fn lemma_dec_u32_of_enc(x: u32, rest: Seq<u8>)
    ensures
        dec_u32(u32_be_bytes(x) + rest) == Some((x, rest)),
{
    let s = u32_be_bytes(x) + rest;
    lemma_u32_be_round_trip(x);
    assert(s[0] == u32_be_bytes(x)[0]);
    assert(s[1] == u32_be_bytes(x)[1]);
    assert(s[2] == u32_be_bytes(x)[2]);
    assert(s[3] == u32_be_bytes(x)[3]);
    assert(s.skip(4) =~= rest);
}

/// Reading a big-endian `u64` off an encoding of `x` followed by `rest`
/// yields `x` and `rest`.
proof fn lemma_dec_u64_of_enc(x: u64, rest: Seq<u8>)
    ensures
        dec_u64(u64_be_bytes(x) + rest) == Some((x, rest)),
{
    let s = u64_be_bytes(x) + rest;
    lemma_u64_be_round_trip(x);
    assert(s[0] == u64_be_bytes(x)[0]);
    assert(s[1] == u64_be_bytes(x)[1]);
    assert(s[2] == u64_be_bytes(x)[2]);
    assert(s[3] == u64_be_bytes(x)[3]);
    assert(s[4] == u64_be_bytes(x)[4]);
    assert(s[5] == u64_be_bytes(x)[5]);
    assert(s[6] == u64_be_bytes(x)[6]);
    assert(s[7] == u64_be_bytes(x)[7]);
    assert(s.skip(8) =~= rest);
}

/// Parsing one segment off its own encoding followed by `rest` yields the
/// segment and `rest`.
proof fn lemma_dec_segment_of_enc(seg: Seq<u8>, rest: Seq<u8>)
    requires
        seg.len() <= u64::MAX,
    ensures
        dec_segment(seg_with_len(seg) + rest) == Some((seg, rest)),
{
    assert(seg_with_len(seg) + rest =~= u64_be_bytes(seg.len() as u64) + (seg + rest));
    lemma_dec_u64_of_enc(seg.len() as u64, seg + rest);
    assert((seg + rest).take(seg.len() as int) =~= seg);
    assert((seg + rest).skip(seg.len() as int) =~= rest);
}

/// Parsing `segs.len()` segments off their encoding followed by `rest`
/// yields `segs` and `rest`.
proof fn lemma_dec_segments_of_enc(segs: Seq<Seq<u8>>, rest: Seq<u8>)
    requires
        segs_fit(segs),
    ensures
        dec_segments(segs_with_len(segs) + rest, segs.len() as int) == Some((segs, rest)),
    decreases segs.len(),
{
    if segs.len() == 0 {
        assert(segs_with_len(segs) + rest =~= rest);
        assert(Seq::<Seq<u8>>::empty() =~= segs);
    } else {
        let tail = segs.drop_first();
        assert(segs_with_len(segs) + rest =~= seg_with_len(segs[0]) + (segs_with_len(tail)
            + rest));
        lemma_dec_segment_of_enc(segs[0], segs_with_len(tail) + rest);
        assert(segs_fit(tail)) by {
            assert(forall|i: int|
                0 <= i < tail.len() ==> #[trigger] tail[i].len() == segs[i + 1].len());
        }
        lemma_dec_segments_of_enc(tail, rest);
        assert(seq![segs[0]] + tail =~= segs);
    }
}

/// Framing round-trip, result-or-event side: parsing an encoded frame
/// followed by any `rest` yields that same body, those same extra
/// segments, and `rest`.
pub proof fn lemma_result_or_event_round_trip(body: Seq<u8>, extras: Seq<Seq<u8>>, rest: Seq<u8>)
    requires
        body.len() <= u64::MAX,
        extras.len() <= u32::MAX,
        segs_fit(extras),
    ensures
        dec_result_or_event(result_or_event_frame(body, extras) + rest) == Some(
            ((body, extras), rest),
        ),
{
    let s = result_or_event_frame(body, extras) + rest;
    let tail4 = seq![1u8] + rest;
    let tail3 = segs_with_len(extras) + tail4;
    let tail2 = body + tail3;
    let tail1 = u64_be_bytes(body.len() as u64) + tail2;
    let n = extras.len() as u32;
    let blen = body.len() as u64;
    assert(s.len() >= 1 && s[0] == 0);
    assert(s.drop_first() =~= u32_be_bytes(n) + tail1);
    assert(dec_u32(s.drop_first()) == Some((n, tail1))) by {
        lemma_dec_u32_of_enc(n, tail1);
    }
    assert(dec_u64(tail1) == Some((blen, tail2))) by {
        lemma_dec_u64_of_enc(blen, tail2);
    }
    assert(dec_bytes(tail2, blen as int) == Some((body, tail3))) by {
        assert(tail2.take(blen as int) =~= body);
        assert(tail2.skip(blen as int) =~= tail3);
    }
    assert(dec_segments(tail3, n as int) == Some((extras, tail4))) by {
        lemma_dec_segments_of_enc(extras, tail4);
    }
    assert(tail4.len() >= 1 && tail4[0] == 1);
    assert(tail4.drop_first() =~= rest);
    assert(dec_result_or_event(s) == Some(((body, extras), rest)));
}

/// Framing round-trip, data-event side.
pub proof fn lemma_data_event_round_trip(body: Seq<u8>, rest: Seq<u8>)
    requires
        body.len() <= u64::MAX,
    ensures
        dec_data_event(data_event_frame(body) + rest) == Some((body, rest)),
{
    let s = data_event_frame(body) + rest;
    assert(s[0] == 1);
    assert(s.drop_first() =~= u64_be_bytes(body.len() as u64) + (body + rest));
    lemma_dec_u64_of_enc(body.len() as u64, body + rest);
    assert((body + rest).take(body.len() as int) =~= body);
    assert((body + rest).skip(body.len() as int) =~= rest);
}

/// Parsing `i + j` segments is parsing `i`, then `j` from what remains.
proof fn lemma_dec_segments_split(s: Seq<u8>, i: int, j: int)
    requires
        0 <= i,
        0 <= j,
    ensures
        dec_segments(s, i + j) == match dec_segments(s, i) {
            None => None::<(Seq<Seq<u8>>, Seq<u8>)>,
            Some((a, r)) => match dec_segments(r, j) {
                None => None,
                Some((b, r2)) => Some((a + b, r2)),
            },
        },
    decreases i,
{
    if i == 0 {
        assert(dec_segments(s, 0) == Some((Seq::<Seq<u8>>::empty(), s)));
        if dec_segments(s, j) is Some {
            let (b, r2) = dec_segments(s, j)->Some_0;
            assert(Seq::<Seq<u8>>::empty() + b =~= b);
        }
    } else {
        match dec_segment(s) {
            None => {},
            Some((seg, rest)) => {
                lemma_dec_segments_split(rest, i - 1, j);
                match dec_segments(rest, i - 1) {
                    None => {},
                    Some((a, r)) => {
                        match dec_segments(r, j) {
                            None => {},
                            Some((b, r2)) => {
                                assert(seq![seg] + (a + b) =~= (seq![seg] + a) + b);
                            },
                        }
                    },
                }
            },
        }
    }
}

/// Reads one length-prefixed segment from `bytes` at `pos`.
fn read_segment(bytes: &[u8], pos: usize) -> (r: Option<(Vec<u8>, usize)>)
    requires
        pos <= bytes@.len(),
    ensures
        match r {
            Some((seg, end)) => {
                &&& pos <= end <= bytes@.len()
                &&& dec_segment(bytes@.skip(pos as int)) == Some((seg@, bytes@.skip(end as int)))
            },
            None => dec_segment(bytes@.skip(pos as int)) is None,
        },
{
    let ghost s = bytes@.skip(pos as int);
    if bytes.len() - pos < 8 {
        return None;
    }
    let len = read_u64_be(bytes, pos);
    proof {
        assert(s[0] == bytes@[pos as int]);
        assert(s[1] == bytes@[pos + 1]);
        assert(s[2] == bytes@[pos + 2]);
        assert(s[3] == bytes@[pos + 3]);
        assert(s[4] == bytes@[pos + 4]);
        assert(s[5] == bytes@[pos + 5]);
        assert(s[6] == bytes@[pos + 6]);
        assert(s[7] == bytes@[pos + 7]);
        assert(s.skip(8) =~= bytes@.skip(pos + 8));
    }
    if len > (bytes.len() - (pos + 8)) as u64 {
        return None;
    }
    let l = len as usize;
    let seg = slice_to_vec(slice_subrange(bytes, pos + 8, pos + 8 + l));
    proof {
        assert(bytes@.skip(pos + 8).take(len as int) =~= bytes@.subrange(
            pos + 8,
            pos + 8 + len as int,
        ));
        assert(bytes@.skip(pos + 8).skip(len as int) =~= bytes@.skip(pos + 8 + len as int));
    }
    Some((seg, pos + 8 + l))
}

/// Reads `n` length-prefixed segments from `bytes` at `pos`.
fn read_segments(bytes: &[u8], pos: usize, n: u32) -> (r: Option<(Vec<Vec<u8>>, usize)>)
    requires
        pos <= bytes@.len(),
    ensures
        match r {
            Some((segs, end)) => {
                &&& pos <= end <= bytes@.len()
                &&& dec_segments(bytes@.skip(pos as int), n as int) == Some(
                    (segs.deep_view(), bytes@.skip(end as int)),
                )
            },
            None => dec_segments(bytes@.skip(pos as int), n as int) is None,
        },
{
    let mut segs: Vec<Vec<u8>> = Vec::new();
    let mut cur = pos;
    let mut i: u32 = 0;
    while i < n
        invariant
            pos <= cur <= bytes@.len(),
            i <= n,
            segs.deep_view().len() == i,
            dec_segments(bytes@.skip(pos as int), i as int) == Some(
                (segs.deep_view(), bytes@.skip(cur as int)),
            ),
        decreases n - i,
    {
        let ghost segs_before = segs.deep_view();
        let ghost cur_before = cur as int;
        match read_segment(bytes, cur) {
            None => {
                proof {
                    lemma_dec_segments_split(bytes@.skip(pos as int), i as int, n - i);
                    assert(dec_segments(bytes@.skip(cur_before), n - i) is None);
                }
                return None;
            },
            Some((seg, end)) => {
                let ghost gseg = seg@;
                segs.push(seg);
                cur = end;
                i = i + 1;
                proof {
                    assert(segs@[i - 1].deep_view() =~= gseg);
                    assert(segs.deep_view() =~= segs_before + seq![gseg]);
                    lemma_dec_segments_split(bytes@.skip(pos as int), i - 1, 1);
                    assert(dec_segments(bytes@.skip(cur as int), 0) == Some(
                        (Seq::<Seq<u8>>::empty(), bytes@.skip(cur as int)),
                    ));
                    assert(seq![gseg] + Seq::<Seq<u8>>::empty() =~= seq![gseg]);
                    assert(dec_segments(bytes@.skip(cur_before), 1) == Some(
                        (seq![gseg], bytes@.skip(cur as int)),
                    ));
                }
            },
        }
    }
    Some((segs, cur))
}

/// Parses a result-or-event frame from the front of `bytes`, yielding the
/// JSON body, the extra segments and the frame's length.
pub fn decode_result_or_event(bytes: &[u8]) -> (r: Option<(Vec<u8>, Vec<Vec<u8>>, usize)>)
    ensures
        match r {
            Some((body, extras, used)) => {
                &&& used <= bytes@.len()
                &&& dec_result_or_event(bytes@) == Some(
                    ((body@, extras.deep_view()), bytes@.skip(used as int)),
                )
            },
            None => dec_result_or_event(bytes@) is None,
        },
{
    if bytes.len() < 1 || bytes[0] != 0 {
        return None;
    }
    let ghost t = bytes@.drop_first();
    if bytes.len() - 1 < 4 {
        return None;
    }
    let n = read_u32_be(bytes, 1);
    proof {
        assert(t[0] == bytes@[1] && t[1] == bytes@[2] && t[2] == bytes@[3] && t[3] == bytes@[4]);
        assert(t.skip(4) =~= bytes@.skip(5));
    }
    let ghost r1 = bytes@.skip(5);
    if bytes.len() - 5 < 8 {
        return None;
    }
    let blen = read_u64_be(bytes, 5);
    proof {
        assert(r1[0] == bytes@[5] && r1[1] == bytes@[6] && r1[2] == bytes@[7] && r1[3] == bytes@[8]
            && r1[4] == bytes@[9] && r1[5] == bytes@[10] && r1[6] == bytes@[11] && r1[7]
            == bytes@[12]);
        assert(r1.skip(8) =~= bytes@.skip(13));
    }
    let ghost r2 = bytes@.skip(13);
    if blen > (bytes.len() - 13) as u64 {
        return None;
    }
    let bl = blen as usize;
    let body = slice_to_vec(slice_subrange(bytes, 13, 13 + bl));
    proof {
        assert(r2.take(blen as int) =~= bytes@.subrange(13, 13 + blen as int));
        assert(r2.skip(blen as int) =~= bytes@.skip(13 + blen as int));
    }
    match read_segments(bytes, 13 + bl, n) {
        None => None,
        Some((extras, end)) => {
            let ghost r4 = bytes@.skip(end as int);
            if bytes.len() - end < 1 {
                return None;
            }
            if bytes[end] != 1 {
                return None;
            }
            proof {
                assert(r4[0] == bytes@[end as int]);
                assert(r4.drop_first() =~= bytes@.skip(end + 1));
            }
            Some((body, extras, end + 1))
        },
    }
}

/// Parses a data-event frame from the front of `bytes`, yielding the JSON
/// body and the frame's length.
pub fn decode_data_event(bytes: &[u8]) -> (r: Option<(Vec<u8>, usize)>)
    ensures
        match r {
            Some((body, used)) => {
                &&& used <= bytes@.len()
                &&& dec_data_event(bytes@) == Some((body@, bytes@.skip(used as int)))
            },
            None => dec_data_event(bytes@) is None,
        },
{
    if bytes.len() < 1 || bytes[0] != 1 {
        return None;
    }
    let ghost t = bytes@.drop_first();
    if bytes.len() - 1 < 8 {
        return None;
    }
    let blen = read_u64_be(bytes, 1);
    proof {
        assert(t[0] == bytes@[1] && t[1] == bytes@[2] && t[2] == bytes@[3] && t[3] == bytes@[4]
            && t[4] == bytes@[5] && t[5] == bytes@[6] && t[6] == bytes@[7] && t[7] == bytes@[8]);
        assert(t.skip(8) =~= bytes@.skip(9));
    }
    let ghost r1 = bytes@.skip(9);
    if blen > (bytes.len() - 9) as u64 {
        return None;
    }
    let bl = blen as usize;
    let body = slice_to_vec(slice_subrange(bytes, 9, 9 + bl));
    proof {
        assert(r1.take(blen as int) =~= bytes@.subrange(9, 9 + blen as int));
        assert(r1.skip(blen as int) =~= bytes@.skip(9 + blen as int));
    }
    Some((body, 9 + bl))
}

/// Parses an RPC command frame off the front of `s`: the JSON body and what
/// follows the frame.
pub open spec fn dec_command(s: Seq<u8>) -> Option<(Seq<u8>, Seq<u8>)> {
    if s.len() < 1 || s[0] != 0 {
        None
    } else {
        match dec_u64(s.drop_first()) {
            None => None,
            Some((blen, r1)) => dec_bytes(r1, blen as int),
        }
    }
}

/// Parses a provide-data frame off the front of `s`: the request id, the
/// segments, and what follows the frame.
pub open spec fn dec_provide_data(s: Seq<u8>) -> Option<((u32, Seq<Seq<u8>>), Seq<u8>)> {
    if s.len() < 1 || s[0] == 0 {
        None
    } else {
        match dec_u32(s.drop_first()) {
            None => None,
            Some((request_id, r1)) => match dec_u32(r1) {
                None => None,
                Some((n, r2)) => match dec_segments(r2, n as int) {
                    None => None,
                    Some((segs, r3)) => Some(((request_id, segs), r3)),
                },
            },
        }
    }
}

/// One unit of inbound traffic: an RPC command carrying its raw JSON body,
/// or a provide-data reply carrying a request id and raw segments.
pub enum MessageFromHost {
    Command { body: Vec<u8> },
    ProvideData { request_id: u32, segments: Vec<Vec<u8>> },
}

/// Parses one inbound frame from the front of `bytes`, yielding the message
/// and the frame's length.
pub fn decode_message_from_host(bytes: &[u8]) -> (r: Option<(MessageFromHost, usize)>)
    ensures
        match r {
            Some((msg, used)) => {
                &&& used <= bytes@.len()
                &&& match msg {
                    MessageFromHost::Command { body } => dec_command(bytes@) == Some(
                        (body@, bytes@.skip(used as int)),
                    ),
                    MessageFromHost::ProvideData { request_id, segments } => dec_provide_data(
                        bytes@,
                    ) == Some(((request_id, segments.deep_view()), bytes@.skip(used as int))),
                }
            },
            None => dec_command(bytes@) is None && dec_provide_data(bytes@) is None,
        },
{
    if bytes.len() < 1 {
        return None;
    }
    if bytes[0] == 0 {
        let ghost t = bytes@.drop_first();
        if bytes.len() - 1 < 8 {
            return None;
        }
        let blen = read_u64_be(bytes, 1);
        proof {
            assert(t[0] == bytes@[1] && t[1] == bytes@[2] && t[2] == bytes@[3] && t[3] == bytes@[4]
                && t[4] == bytes@[5] && t[5] == bytes@[6] && t[6] == bytes@[7] && t[7]
                == bytes@[8]);
            assert(t.skip(8) =~= bytes@.skip(9));
        }
        let ghost r1 = bytes@.skip(9);
        if blen > (bytes.len() - 9) as u64 {
            return None;
        }
        let bl = blen as usize;
        let body = slice_to_vec(slice_subrange(bytes, 9, 9 + bl));
        proof {
            assert(r1.take(blen as int) =~= bytes@.subrange(9, 9 + blen as int));
            assert(r1.skip(blen as int) =~= bytes@.skip(9 + blen as int));
        }
        Some((MessageFromHost::Command { body }, 9 + bl))
    } else {
        let ghost t = bytes@.drop_first();
        if bytes.len() - 1 < 4 {
            return None;
        }
        let request_id = read_u32_be(bytes, 1);
        proof {
            assert(t[0] == bytes@[1] && t[1] == bytes@[2] && t[2] == bytes@[3] && t[3]
                == bytes@[4]);
            assert(t.skip(4) =~= bytes@.skip(5));
        }
        let ghost r1 = bytes@.skip(5);
        if bytes.len() - 5 < 4 {
            return None;
        }
        let n = read_u32_be(bytes, 5);
        proof {
            assert(r1[0] == bytes@[5] && r1[1] == bytes@[6] && r1[2] == bytes@[7] && r1[3]
                == bytes@[8]);
            assert(r1.skip(4) =~= bytes@.skip(9));
        }
        match read_segments(bytes, 9, n) {
            None => None,
            Some((segments, end)) => Some(
                (MessageFromHost::ProvideData { request_id, segments }, end),
            ),
        }
    }
}

/// Encodes an RPC command frame.
pub fn encode_command(body: &Vec<u8>) -> (r: Vec<u8>)
    ensures
        r@ == command_frame(body@),
{
    let mut out: Vec<u8> = Vec::new();
    out.push(0u8);
    push_u64_be(&mut out, body.len() as u64);
    let ghost before_body = out@;
    let mut i: usize = 0;
    while i < body.len()
        invariant
            i <= body@.len(),
            out@ == before_body + body@.take(i as int),
        decreases body@.len() - i,
    {
        out.push(body[i]);
        i = i + 1;
        assert(out@ =~= before_body + body@.take(i as int));
    }
    assert(body@.take(body@.len() as int) =~= body@);
    assert(out@ =~= command_frame(body@));
    out
}

/// Encodes a provide-data frame under the given nonzero tag.
pub fn encode_provide_data(tag: u8, request_id: u32, segments: &Vec<Vec<u8>>) -> (r: Vec<u8>)
    requires
        tag != 0,
        segments@.len() <= u32::MAX,
    ensures
        r@ == provide_data_frame(tag, request_id, segments.deep_view()),
{
    let mut out: Vec<u8> = Vec::new();
    out.push(tag);
    push_u32_be(&mut out, request_id);
    push_u32_be(&mut out, segments.len() as u32);
    push_segments(&mut out, segments);
    assert(out@ =~= provide_data_frame(tag, request_id, segments.deep_view()));
    out
}

/// Framing round-trip, command side.
pub proof fn lemma_command_round_trip(body: Seq<u8>, rest: Seq<u8>)
    requires
        body.len() <= u64::MAX,
    ensures
        dec_command(command_frame(body) + rest) == Some((body, rest)),
{
    let s = command_frame(body) + rest;
    assert(s[0] == 0);
    assert(s.drop_first() =~= u64_be_bytes(body.len() as u64) + (body + rest));
    lemma_dec_u64_of_enc(body.len() as u64, body + rest);
    assert((body + rest).take(body.len() as int) =~= body);
    assert((body + rest).skip(body.len() as int) =~= rest);
}

/// Framing round-trip, provide-data side.
pub proof fn lemma_provide_data_round_trip(
    tag: u8,
    request_id: u32,
    segs: Seq<Seq<u8>>,
    rest: Seq<u8>,
)
    requires
        tag != 0,
        segs.len() <= u32::MAX,
        segs_fit(segs),
    ensures
        dec_provide_data(provide_data_frame(tag, request_id, segs) + rest) == Some(
            ((request_id, segs), rest),
        ),
{
    let s = provide_data_frame(tag, request_id, segs) + rest;
    assert(s[0] == tag);
    assert(s.drop_first() =~= u32_be_bytes(request_id) + (u32_be_bytes(segs.len() as u32)
        + (segs_with_len(segs) + rest)));
    lemma_dec_u32_of_enc(
        request_id,
        u32_be_bytes(segs.len() as u32) + (segs_with_len(segs) + rest),
    );
    lemma_dec_u32_of_enc(segs.len() as u32, segs_with_len(segs) + rest);
    lemma_dec_segments_of_enc(segs, rest);
}

} // verus!
