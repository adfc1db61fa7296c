//! Frame codec: deterministic encode/decode between a list of packets and
//! a flat byte stream.
//!
//! A frame is a 2-byte little-endian length prefix followed by that many
//! payload bytes.  Frames are concatenated greedily into MTU-bounded
//! batches on the way out; on the way in, a stream of raw chunks is
//! reassembled into complete packets, carrying the unconsumed tail of one
//! chunk over into the next.

use vstd::prelude::*;

use vstd::arithmetic::div_mod::lemma_fundamental_div_mod;

verus! {

broadcast use {vstd::std_specs::vec::group_vec_axioms, vstd::seq::group_seq_axioms};

/// The largest payload length a 2-byte frame prefix can declare.
pub const MAX_FRAME_PAYLOAD: usize = 0xFFFF;

/// The byte views of a sequence of packet vectors.
pub open spec fn views_of(ps: Seq<Vec<u8>>) -> Seq<Seq<u8>> {
    ps.map_values(|p: Vec<u8>| p@)
}

/// The frame encoding of one packet: little-endian length, then payload.
pub open spec fn frame_spec(p: Seq<u8>) -> Seq<u8> {
    seq![(p.len() % 256) as u8, ((p.len() / 256) % 256) as u8] + p
}

/// The payload length a frame prefix declares.
pub open spec fn prefix_len(b0: u8, b1: u8) -> nat {
    (b0 + 256 * b1) as nat
}

/// The byte stream carrying the given packets as consecutive frames.
pub open spec fn frames_concat(ps: Seq<Seq<u8>>) -> Seq<u8>
    decreases ps.len(),
{
    if ps.len() == 0 {
        Seq::empty()
    } else {
        frame_spec(ps[0]) + frames_concat(ps.drop_first())
    }
}

/// What decoding a byte stream yields: every complete packet in order,
/// and the unconsumed tail (an incomplete trailing frame, if any).
pub open spec fn decode_spec(s: Seq<u8>) -> (Seq<Seq<u8>>, Seq<u8>)
    decreases s.len(),
{
    if s.len() < 2 {
        (Seq::empty(), s)
    } else {
        let l = prefix_len(s[0], s[1]);
        if s.len() < l + 2 {
            (Seq::empty(), s)
        } else {
            let rest = decode_spec(s.subrange(l + 2 as int, s.len() as int));
            (seq![s.subrange(2, l + 2 as int)] + rest.0, rest.1)
        }
    }
}

/// A stream holds no complete frame: decoding it yields no packet.
pub open spec fn incomplete(s: Seq<u8>) -> bool {
    decode_spec(s).0.len() == 0
}

proof fn lemma_prefix_round_trip(n: nat)
    requires
        n <= 0xFFFF,
    ensures
        prefix_len((n % 256) as u8, ((n / 256) % 256) as u8) == n,
{
    lemma_fundamental_div_mod(n as int, 256);
}

proof fn lemma_frames_concat_snoc(ps: Seq<Seq<u8>>, p: Seq<u8>)
    ensures
        frames_concat(ps.push(p)) == frames_concat(ps) + frame_spec(p),
    decreases ps.len(),
{
    if ps.len() == 0 {
        assert(ps.push(p)[0] == p);
        assert(ps.push(p).drop_first() =~= Seq::<Seq<u8>>::empty());
        assert(frames_concat(Seq::<Seq<u8>>::empty()) == Seq::<u8>::empty());
        assert(frames_concat(ps.push(p)) =~= frames_concat(ps) + frame_spec(p));
    } else {
        assert(ps.push(p)[0] == ps[0]);
        assert(ps.push(p).drop_first() =~= ps.drop_first().push(p));
        lemma_frames_concat_snoc(ps.drop_first(), p);
        assert(frames_concat(ps.push(p)) =~= frames_concat(ps) + frame_spec(p));
    }
}

/// Appends the frame encoding of `p` to `buf`.
fn push_frame(buf: &mut Vec<u8>, p: &Vec<u8>)
    requires
        p@.len() <= 0xFFFF,
        old(buf)@.len() + 2 + p@.len() <= usize::MAX,
    ensures
        final(buf)@ == old(buf)@ + frame_spec(p@),
{
    let ghost prefix: Seq<u8> = seq![
        (p@.len() % 256) as u8,
        ((p@.len() / 256) % 256) as u8,
    ];
    let l = p.len();
    buf.push((l % 256) as u8);
    buf.push(((l / 256) % 256) as u8);
    let mut j: usize = 0;
    while j < p.len()
        invariant
            j <= p@.len(),
            buf@ == old(buf)@ + prefix + p@.subrange(0, j as int),
        decreases p@.len() - j,
    {
        buf.push(p[j]);
        assert(p@.subrange(0, j + 1 as int) =~= p@.subrange(0, j as int).push(p@[j as int]));
        j = j + 1;
    }
    assert(p@.subrange(0, p@.len() as int) =~= p@);
    assert(buf@ =~= old(buf)@ + frame_spec(p@));
}

/// Encodes packets `start..` as consecutive frames, greedily, stopping
/// before a packet that would push the batch over `mtu` bytes; returns
/// the batch and the index of the first packet not included.
///
/// The first packet is always included: one that cannot fit even alone
/// is rejected by the caller before reaching the codec.
pub fn encode_batch(packets: &Vec<Vec<u8>>, start: usize, mtu: usize) -> (r: (Vec<u8>, usize))
    requires
        start < packets@.len(),
        mtu <= MAX_FRAME_PAYLOAD + 2,
        forall|i: int|
            start <= i < packets@.len() ==> #[trigger] packets@[i]@.len() + 2 <= mtu,
    ensures
        start < r.1 <= packets@.len(),
        r.0@ == frames_concat(views_of(packets@.subrange(start as int, r.1 as int))),
        r.0@.len() <= mtu,
        r.1 < packets@.len() ==> r.0@.len() + 2 + packets@[r.1 as int]@.len() > mtu,
{
    let mut buf: Vec<u8> = Vec::new();
    let mut idx: usize = start;
    assert(packets@[start as int]@.len() + 2 <= mtu);
    push_frame(&mut buf, &packets[idx]);
    proof {
        let sub = views_of(packets@.subrange(start as int, start + 1 as int));
        assert(sub =~= Seq::<Seq<u8>>::empty().push(packets@[start as int]@));
        lemma_frames_concat_snoc(Seq::<Seq<u8>>::empty(), packets@[start as int]@);
        assert(buf@ =~= frames_concat(sub));
        assert(packets.len() <= usize::MAX);
    }
    idx = idx + 1;
    while idx < packets.len()
        invariant
            start < idx <= packets@.len(),
            mtu <= MAX_FRAME_PAYLOAD + 2,
            forall|i: int|
                start <= i < packets@.len() ==> #[trigger] packets@[i]@.len() + 2 <= mtu,
            buf@ == frames_concat(views_of(packets@.subrange(start as int, idx as int))),
            buf@.len() <= mtu,
        ensures
            start < idx <= packets@.len(),
            buf@ == frames_concat(views_of(packets@.subrange(start as int, idx as int))),
            buf@.len() <= mtu,
            idx < packets@.len() ==> buf@.len() + 2 + packets@[idx as int]@.len() > mtu,
        decreases packets@.len() - idx,
    {
        if buf.len() + 2 + packets[idx].len() > mtu {
            break ;
        }
        push_frame(&mut buf, &packets[idx]);
        proof {
            let before = views_of(packets@.subrange(start as int, idx as int));
            let after = views_of(packets@.subrange(start as int, idx + 1 as int));
            assert(after =~= before.push(packets@[idx as int]@));
            lemma_frames_concat_snoc(before, packets@[idx as int]@);
        }
        idx = idx + 1;
    }
    (buf, idx)
}

/// Copies `src[from..to]` into a fresh vector.
fn copy_range(src: &Vec<u8>, from: usize, to: usize) -> (r: Vec<u8>)
    requires
        from <= to <= src@.len(),
    ensures
        r@ == src@.subrange(from as int, to as int),
{
    let mut out: Vec<u8> = Vec::new();
    let mut j: usize = from;
    while j < to
        invariant
            from <= j <= to <= src@.len(),
            out@ == src@.subrange(from as int, j as int),
        decreases to - j,
    {
        out.push(src[j]);
        assert(src@.subrange(from as int, j + 1 as int) =~= src@.subrange(
            from as int,
            j as int,
        ).push(src@[j as int]));
        j = j + 1;
    }
    out
}

/// Reassembles packets from the carry-over of the previous chunk plus a
/// freshly arrived chunk: returns every complete packet, in order, and
/// the new carry-over, which never holds a complete frame.
pub fn decode_stream(carry: &Vec<u8>, new_bytes: &Vec<u8>) -> (r: (Vec<Vec<u8>>, Vec<u8>))
    ensures
        views_of(r.0@) == decode_spec(carry@ + new_bytes@).0,
        r.1@ == decode_spec(carry@ + new_bytes@).1,
        incomplete(r.1@),
{
    let mut data: Vec<u8> = Vec::new();
    let mut j: usize = 0;
    while j < carry.len()
        invariant
            j <= carry@.len(),
            data@ == carry@.subrange(0, j as int),
        decreases carry@.len() - j,
    {
        data.push(carry[j]);
        assert(carry@.subrange(0, j + 1 as int) =~= carry@.subrange(0, j as int).push(
            carry@[j as int],
        ));
        j = j + 1;
    }
    assert(carry@.subrange(0, carry@.len() as int) =~= carry@);
    let mut k: usize = 0;
    while k < new_bytes.len()
        invariant
            k <= new_bytes@.len(),
            data@ == carry@ + new_bytes@.subrange(0, k as int),
        decreases new_bytes@.len() - k,
    {
        data.push(new_bytes[k]);
        assert(new_bytes@.subrange(0, k + 1 as int) =~= new_bytes@.subrange(
            0,
            k as int,
        ).push(new_bytes@[k as int]));
        k = k + 1;
    }
    assert(new_bytes@.subrange(0, new_bytes@.len() as int) =~= new_bytes@);
    assert(data@ =~= carry@ + new_bytes@);

    let mut out: Vec<Vec<u8>> = Vec::new();
    let mut pos: usize = 0;
    proof {
        assert(data@.subrange(0, data@.len() as int) =~= data@);
        assert(views_of(out@) =~= Seq::<Seq<u8>>::empty());
        assert(Seq::<Seq<u8>>::empty() + decode_spec(data@).0 =~= decode_spec(data@).0);
    }
    loop
        invariant
            pos <= data@.len(),
            decode_spec(data@).0 == views_of(out@) + decode_spec(
                data@.subrange(pos as int, data@.len() as int),
            ).0,
            decode_spec(data@).1 == decode_spec(
                data@.subrange(pos as int, data@.len() as int),
            ).1,
        ensures
            pos <= data@.len(),
            decode_spec(data@).0 == views_of(out@) + decode_spec(
                data@.subrange(pos as int, data@.len() as int),
            ).0,
            decode_spec(data@).1 == decode_spec(
                data@.subrange(pos as int, data@.len() as int),
            ).1,
            incomplete(data@.subrange(pos as int, data@.len() as int)),
        decreases data@.len() - pos,
    {
        if data.len() - pos < 2 {
            proof {
                assert(data@.subrange(pos as int, data@.len() as int).len() < 2);
            }
            break ;
        }
        let l = data[pos] as usize + 256 * (data[pos + 1] as usize);
        if data.len() - pos < l + 2 {
            proof {
                let tail = data@.subrange(pos as int, data@.len() as int);
                assert(tail[0] == data@[pos as int]);
                assert(tail[1] == data@[pos + 1 as int]);
                assert(prefix_len(tail[0], tail[1]) == l);
                assert(tail.len() < l + 2);
            }
            break ;
        }
        let packet = copy_range(&data, pos + 2, pos + 2 + l);
        let ghost tail = data@.subrange(pos as int, data@.len() as int);
        proof {
            assert(tail.len() >= 2);
            assert(tail[0] == data@[pos as int]);
            assert(tail[1] == data@[pos + 1 as int]);
            assert(prefix_len(tail[0], tail[1]) == l);
            assert(tail.subrange(2, l + 2 as int) =~= data@.subrange(
                pos + 2 as int,
                pos + 2 + l as int,
            ));
            assert(tail.subrange(l + 2 as int, tail.len() as int) =~= data@.subrange(
                pos + 2 + l as int,
                data@.len() as int,
            ));
            let before = views_of(out@);
            let after = views_of(out@.push(packet));
            assert(after =~= before.push(packet@));
            assert(seq![tail.subrange(2, l + 2 as int)] + decode_spec(
                tail.subrange(l + 2 as int, tail.len() as int),
            ).0 =~= Seq::<Seq<u8>>::empty().push(packet@) + decode_spec(
                data@.subrange(pos + 2 + l as int, data@.len() as int),
            ).0);
            assert(before + (Seq::<Seq<u8>>::empty().push(packet@) + decode_spec(
                data@.subrange(pos + 2 + l as int, data@.len() as int),
            ).0) =~= after + decode_spec(
                data@.subrange(pos + 2 + l as int, data@.len() as int),
            ).0);
        }
        out.push(packet);
        pos = pos + 2 + l;
    }
    let tail_vec = copy_range(&data, pos, data.len());
    proof {
        let tail = data@.subrange(pos as int, data@.len() as int);
        assert(decode_spec(tail).0 =~= Seq::<Seq<u8>>::empty());
        assert(decode_spec(tail).1 =~= tail);
        assert(views_of(out@) + Seq::<Seq<u8>>::empty() =~= views_of(out@));
    }
    (out, tail_vec)
}

/// The flat byte stream carried by a list of chunks, in order.
pub open spec fn concat_chunks(chunks: Seq<Seq<u8>>) -> Seq<u8>
    decreases chunks.len(),
{
    if chunks.len() == 0 {
        Seq::empty()
    } else {
        chunks[0] + concat_chunks(chunks.drop_first())
    }
}

/// What a decoder that is fed the chunks one at a time produces: the
/// packets of every step, in order, and the final carry-over.
pub open spec fn run_decoder(carry: Seq<u8>, chunks: Seq<Seq<u8>>) -> (Seq<Seq<u8>>, Seq<u8>)
    decreases chunks.len(),
{
    if chunks.len() == 0 {
        (Seq::empty(), carry)
    } else {
        let step = decode_spec(carry + chunks[0]);
        let rest = run_decoder(step.1, chunks.drop_first());
        (step.0 + rest.0, rest.1)
    }
}

/// The carry-over a decoding step leaves never holds a complete frame.
pub proof fn lemma_carry_incomplete(s: Seq<u8>)
    ensures
        incomplete(decode_spec(s).1),
    decreases s.len(),
{
    if s.len() < 2 {
    } else {
        let l = prefix_len(s[0], s[1]);
        if s.len() < l + 2 {
        } else {
            lemma_carry_incomplete(s.subrange(l + 2 as int, s.len() as int));
        }
    }
}

/// Partial-frame carry-over, one boundary at a time: feeding a stream's
/// first part and then, with the carry-over prepended, its second part
/// yields exactly what decoding the unsplit stream yields.
pub proof fn lemma_decode_append(a: Seq<u8>, b: Seq<u8>)
    ensures
        decode_spec(a + b).0 == decode_spec(a).0 + decode_spec(decode_spec(a).1 + b).0,
        decode_spec(a + b).1 == decode_spec(decode_spec(a).1 + b).1,
    decreases a.len(),
{
    if a.len() < 2 {
        assert(decode_spec(a).0 =~= Seq::<Seq<u8>>::empty());
        assert(decode_spec(a).1 == a);
        assert(Seq::<Seq<u8>>::empty() + decode_spec(a + b).0 =~= decode_spec(a + b).0);
    } else {
        let l = prefix_len(a[0], a[1]);
        if a.len() < l + 2 {
            assert(decode_spec(a).0 =~= Seq::<Seq<u8>>::empty());
            assert(decode_spec(a).1 == a);
            assert(Seq::<Seq<u8>>::empty() + decode_spec(a + b).0 =~= decode_spec(a + b).0);
        } else {
            let ab = a + b;
            assert(ab[0] == a[0]);
            assert(ab[1] == a[1]);
            assert(prefix_len(ab[0], ab[1]) == l);
            assert(ab.len() == a.len() + b.len());
            let rest = a.subrange(l + 2 as int, a.len() as int);
            assert(ab.subrange(2, l + 2 as int) =~= a.subrange(2, l + 2 as int));
            assert(ab.subrange(l + 2 as int, ab.len() as int) =~= rest + b);
            lemma_decode_append(rest, b);
            assert(decode_spec(a).1 == decode_spec(rest).1);
            assert(decode_spec(ab).0 =~= decode_spec(a).0 + decode_spec(
                decode_spec(a).1 + b,
            ).0);
        }
    }
}

/// Partial-frame carry-over: a byte stream split at any byte offset —
/// including inside a length prefix — decodes, step by step, to the same
/// packet list and the same final carry-over as the unsplit stream.
pub proof fn lemma_split_decode(stream: Seq<u8>, cut: int)
    requires
        0 <= cut <= stream.len(),
    ensures
        ({
            let first = decode_spec(stream.subrange(0, cut));
            let second = decode_spec(first.1 + stream.subrange(cut, stream.len() as int));
            &&& first.0 + second.0 == decode_spec(stream).0
            &&& second.1 == decode_spec(stream).1
        }),
{
    let a = stream.subrange(0, cut);
    let b = stream.subrange(cut, stream.len() as int);
    assert(a + b =~= stream);
    lemma_decode_append(a, b);
}

/// Decoding the frame encoding of a packet list recovers exactly that
/// list, with nothing left over.
pub proof fn lemma_decode_of_frames(ps: Seq<Seq<u8>>)
    requires
        forall|i: int| 0 <= i < ps.len() ==> #[trigger] ps[i].len() <= 0xFFFF,
    ensures
        decode_spec(frames_concat(ps)).0 == ps,
        decode_spec(frames_concat(ps)).1 == Seq::<u8>::empty(),
    decreases ps.len(),
{
    if ps.len() == 0 {
        assert(decode_spec(frames_concat(ps)).0 =~= ps);
    } else {
        let s = frames_concat(ps);
        let p0 = ps[0];
        let n = p0.len();
        let tail = frames_concat(ps.drop_first());
        lemma_prefix_round_trip(n);
        assert(frame_spec(p0)[0] == (n % 256) as u8);
        assert(frame_spec(p0)[1] == ((n / 256) % 256) as u8);
        assert(s[0] == (n % 256) as u8);
        assert(s[1] == ((n / 256) % 256) as u8);
        assert(prefix_len(s[0], s[1]) == n);
        assert(s.len() == 2 + n + tail.len());
        assert(s.subrange(2, n + 2 as int) =~= p0);
        assert(s.subrange(n + 2 as int, s.len() as int) =~= tail);
        assert(forall|i: int|
            0 <= i < ps.drop_first().len() ==> #[trigger] ps.drop_first()[i].len() <= 0xFFFF);
        lemma_decode_of_frames(ps.drop_first());
        assert(decode_spec(s).0 =~= ps);
    }
}

/// Frame round-trip: for any packet list whose frames fit the 2-byte
/// prefix, cutting the encoded stream into chunks in any way whatever —
/// including one byte at a time — and feeding them to the decoder in
/// order yields exactly the original list, in order, with an empty final
/// carry-over.
pub proof fn lemma_frame_round_trip(ps: Seq<Seq<u8>>, chunks: Seq<Seq<u8>>)
    requires
        forall|i: int| 0 <= i < ps.len() ==> #[trigger] ps[i].len() <= 0xFFFF,
        concat_chunks(chunks) == frames_concat(ps),
    ensures
        run_decoder(Seq::empty(), chunks).0 == ps,
        run_decoder(Seq::empty(), chunks).1 == Seq::<u8>::empty(),
{
    lemma_run_decoder(Seq::empty(), chunks);
    assert(Seq::<u8>::empty() + concat_chunks(chunks) =~= concat_chunks(chunks));
    lemma_decode_of_frames(ps);
}

/// Feeding chunks one at a time, starting from an incomplete carry-over,
/// decodes exactly the concatenation of that carry-over and the chunks.
pub proof fn lemma_run_decoder(carry: Seq<u8>, chunks: Seq<Seq<u8>>)
    requires
        incomplete(carry),
    ensures
        run_decoder(carry, chunks).0 == decode_spec(carry + concat_chunks(chunks)).0,
        run_decoder(carry, chunks).1 == decode_spec(carry + concat_chunks(chunks)).1,
    decreases chunks.len(),
{
    if chunks.len() == 0 {
        assert(carry + concat_chunks(chunks) =~= carry);
        assert(decode_spec(carry).0.len() == 0);
        assert(decode_spec(carry).0 =~= Seq::<Seq<u8>>::empty());
        assert(decode_spec(carry).1 == carry);
    } else {
        let a = carry + chunks[0];
        let b = concat_chunks(chunks.drop_first());
        lemma_carry_incomplete(a);
        lemma_run_decoder(decode_spec(a).1, chunks.drop_first());
        lemma_decode_append(a, b);
        assert(carry + concat_chunks(chunks) =~= a + b);
        assert(run_decoder(carry, chunks).0 =~= decode_spec(a + b).0);
    }
}

/// Snoc form of `concat_chunks`.
proof fn lemma_concat_chunks_snoc(chunks: Seq<Seq<u8>>, c: Seq<u8>)
    ensures
        concat_chunks(chunks.push(c)) == concat_chunks(chunks) + c,
    decreases chunks.len(),
{
    if chunks.len() == 0 {
        assert(chunks.push(c)[0] == c);
        assert(chunks.push(c).drop_first() =~= Seq::<Seq<u8>>::empty());
        assert(concat_chunks(Seq::<Seq<u8>>::empty()) == Seq::<u8>::empty());
        assert(concat_chunks(chunks.push(c)) =~= concat_chunks(chunks) + c);
    } else {
        assert(chunks.push(c)[0] == chunks[0]);
        assert(chunks.push(c).drop_first() =~= chunks.drop_first().push(c));
        lemma_concat_chunks_snoc(chunks.drop_first(), c);
        assert(concat_chunks(chunks.push(c)) =~= concat_chunks(chunks) + c);
    }
}

/// Splitting a packet list splits its frame stream at the same point.
proof fn lemma_frames_concat_split(ps: Seq<Seq<u8>>, mid: int)
    requires
        0 <= mid <= ps.len(),
    ensures
        frames_concat(ps) == frames_concat(ps.subrange(0, mid)) + frames_concat(
            ps.subrange(mid, ps.len() as int),
        ),
    decreases mid,
{
    if mid == 0 {
        assert(ps.subrange(0, 0) =~= Seq::<Seq<u8>>::empty());
        assert(ps.subrange(0, ps.len() as int) =~= ps);
        assert(frames_concat(ps.subrange(0, 0)) == Seq::<u8>::empty());
        assert(frames_concat(ps) =~= frames_concat(ps.subrange(0, 0)) + frames_concat(
            ps.subrange(0, ps.len() as int),
        ));
    } else {
        lemma_frames_concat_split(ps.drop_first(), mid - 1);
        assert(ps.subrange(0, mid)[0] == ps[0]);
        assert(ps.subrange(0, mid).drop_first() =~= ps.drop_first().subrange(0, mid - 1));
        assert(ps.subrange(mid, ps.len() as int) =~= ps.drop_first().subrange(
            mid - 1,
            ps.drop_first().len() as int,
        ));
        assert(frames_concat(ps) =~= frames_concat(ps.subrange(0, mid)) + frames_concat(
            ps.subrange(mid, ps.len() as int),
        ));
    }
}

/// Encodes a whole packet list as consecutive MTU-bounded batches, one
/// physical write each: together the batches carry exactly the packets'
/// frame stream, in order, and no batch exceeds the MTU.
pub fn encode_all(packets: &Vec<Vec<u8>>, mtu: usize) -> (r: Vec<Vec<u8>>)
    requires
        mtu <= MAX_FRAME_PAYLOAD + 2,
        forall|i: int| 0 <= i < packets@.len() ==> #[trigger] packets@[i]@.len() + 2 <= mtu,
    ensures
        concat_chunks(views_of(r@)) == frames_concat(views_of(packets@)),
        forall|i: int| 0 <= i < r@.len() ==> #[trigger] r@[i]@.len() <= mtu,
{
    let mut batches: Vec<Vec<u8>> = Vec::new();
    let mut start: usize = 0;
    proof {
        assert(views_of(packets@.subrange(0, 0)) =~= Seq::<Seq<u8>>::empty());
        assert(concat_chunks(views_of(batches@)) =~= Seq::<u8>::empty());
        assert(frames_concat(views_of(packets@.subrange(0, 0))) == Seq::<u8>::empty());
    }
    while start < packets.len()
        invariant
            start <= packets@.len(),
            mtu <= MAX_FRAME_PAYLOAD + 2,
            forall|i: int|
                0 <= i < packets@.len() ==> #[trigger] packets@[i]@.len() + 2 <= mtu,
            concat_chunks(views_of(batches@)) == frames_concat(
                views_of(packets@.subrange(0, start as int)),
            ),
            forall|i: int| 0 <= i < batches@.len() ==> #[trigger] batches@[i]@.len() <= mtu,
        decreases packets@.len() - start,
    {
        let (batch, next) = encode_batch(packets, start, mtu);
        proof {
            lemma_concat_chunks_snoc(views_of(batches@), batch@);
            assert(views_of(batches@.push(batch)) =~= views_of(batches@).push(batch@));
            lemma_frames_concat_split(
                views_of(packets@.subrange(0, next as int)),
                start as int,
            );
            assert(views_of(packets@.subrange(0, next as int)).subrange(0, start as int)
                =~= views_of(packets@.subrange(0, start as int)));
            assert(views_of(packets@.subrange(0, next as int)).subrange(
                start as int,
                next as int,
            ) =~= views_of(packets@.subrange(start as int, next as int)));
        }
        batches.push(batch);
        start = next;
    }
    proof {
        assert(packets@.subrange(0, packets@.len() as int) =~= packets@);
    }
    batches
}

} // verus!
