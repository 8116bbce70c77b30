//! The framing codec: the length-prefixed binary protocol carried on each
//! connection's byte stream.
//!
//! A frame is a 3-byte ASCII tag (`PUB`, `ENC` or `PRV`) followed by one or
//! more segments; each segment is a 4-byte unsigned big-endian length prefix
//! and exactly that many payload bytes. `PUB` carries one segment, `ENC` and
//! `PRV` carry two.

use vstd::prelude::*;

verus! {

/// The tag of a protocol frame.
#[derive(Clone, Copy, PartialEq, Eq, Structural, Debug)]
pub enum Tag {
    /// Client to server, first frame: the client's public key.
    Pub,
    /// Client to server, after handshake: wrapped key and ciphertext.
    Enc,
    /// Server to client, handshake reply: wrapped credential and wrapped identity.
    Prv,
}

/// The three bytes that encode a tag on the wire.
pub open spec fn tag_bytes(t: Tag) -> Seq<u8> {
    match t {
        Tag::Pub => seq![80u8, 85u8, 66u8],
        Tag::Enc => seq![69u8, 78u8, 67u8],
        Tag::Prv => seq![80u8, 82u8, 86u8],
    }
}

/// How many length-prefixed segments a frame of the given tag carries.
pub open spec fn seg_count(t: Tag) -> nat {
    match t {
        Tag::Pub => 1,
        Tag::Enc => 2,
        Tag::Prv => 2,
    }
}

/// The 4-byte unsigned big-endian encoding of a 32-bit length.
pub open spec fn be32_bytes(n: u32) -> Seq<u8> {
    seq![(n >> 24) as u8, (n >> 16) as u8, (n >> 8) as u8, n as u8]
}

/// The 32-bit value read back from 4 big-endian bytes.
pub open spec fn spec_be32_val(b: Seq<u8>) -> u32 {
    ((b[0] as u32) << 24) | ((b[1] as u32) << 16) | ((b[2] as u32) << 8) | (b[3] as u32)
}

proof fn lemma_be32_round_trip(n: u32)
    ensures
        spec_be32_val(be32_bytes(n)) == n,
{
    let b = be32_bytes(n);
    assert(b[0] == (n >> 24) as u8);
    assert(b[1] == (n >> 16) as u8);
    assert(b[2] == (n >> 8) as u8);
    assert(b[3] == n as u8);
    assert(((((n >> 24) as u8) as u32) << 24) | ((((n >> 16) as u8) as u32) << 16) | ((((n
        >> 8) as u8) as u32) << 8) | ((n as u8) as u32) == n) by (bit_vector);
}

/// The wire bytes of a sequence of segments: for each segment its big-endian
/// length prefix, then its payload.
pub open spec fn seg_bytes(segs: Seq<Seq<u8>>) -> Seq<u8>
    decreases segs.len(),
{
    if segs.len() == 0 {
        Seq::empty()
    } else {
        be32_bytes(segs[0].len() as u32) + segs[0] + seg_bytes(segs.skip(1))
    }
}

/// The complete wire bytes of a frame: tag, then segments.
pub open spec fn frame_bytes(t: Tag, segs: Seq<Seq<u8>>) -> Seq<u8> {
    tag_bytes(t) + seg_bytes(segs)
}

/// One protocol frame, as parsed from or encoded to the wire.
pub struct Frame {
    pub tag: Tag,
    pub segments: Vec<Vec<u8>>,
}

impl Frame {
    /// The segments as mathematical byte sequences.
    pub open spec fn segs(&self) -> Seq<Seq<u8>> {
        self.segments.deep_view()
    }

    /// Well-formed: the segment count matches the tag and every segment's
    /// length fits in a 32-bit prefix.
    pub open spec fn wf(&self) -> bool {
        &&& self.segs().len() == seg_count(self.tag)
        &&& forall|i: int| 0 <= i < self.segs().len() ==> #[trigger] self.segs()[i].len() <= u32::MAX
    }

    /// The frame's complete wire encoding.
    pub open spec fn bytes(&self) -> Seq<u8> {
        frame_bytes(self.tag, self.segs())
    }
}

/// The tag named by 3 wire bytes, if any.
pub open spec fn spec_parse_tag(b: Seq<u8>) -> Option<Tag> {
    if b == tag_bytes(Tag::Pub) {
        Some(Tag::Pub)
    } else if b == tag_bytes(Tag::Enc) {
        Some(Tag::Enc)
    } else if b == tag_bytes(Tag::Prv) {
        Some(Tag::Prv)
    } else {
        None
    }
}

fn parse_tag(b: &Vec<u8>) -> (r: Option<Tag>)
    requires
        b@.len() == 3,
    ensures
        r == spec_parse_tag(b@),
{
    let b0 = b[0];
    let b1 = b[1];
    let b2 = b[2];
    proof {
        assert(b@ =~= seq![b@[0], b@[1], b@[2]]);
    }
    if b0 == 80 && b1 == 85 && b2 == 66 {
        Some(Tag::Pub)
    } else if b0 == 69 && b1 == 78 && b2 == 67 {
        Some(Tag::Enc)
    } else if b0 == 80 && b1 == 82 && b2 == 86 {
        Some(Tag::Prv)
    } else {
        None
    }
}

/// Appends the 3 tag bytes to `out`.
fn push_tag_bytes(t: Tag, out: &mut Vec<u8>)
    ensures
        final(out)@ == old(out)@ + tag_bytes(t),
{
    match t {
        Tag::Pub => {
            out.push(80u8);
            out.push(85u8);
            out.push(66u8);
        },
        Tag::Enc => {
            out.push(69u8);
            out.push(78u8);
            out.push(67u8);
        },
        Tag::Prv => {
            out.push(80u8);
            out.push(82u8);
            out.push(86u8);
        },
    }
    proof {
        assert(out@ =~= old(out)@ + tag_bytes(t));
    }
}

/// Appends the 4-byte big-endian encoding of `n` to `out`.
pub fn encode_u32_be(n: u32, out: &mut Vec<u8>)
    ensures
        final(out)@ == old(out)@ + be32_bytes(n),
{
    out.push((n >> 24) as u8);
    out.push((n >> 16) as u8);
    out.push((n >> 8) as u8);
    out.push(n as u8);
    proof {
        assert(out@ =~= old(out)@ + be32_bytes(n));
    }
}

/// Reads a 32-bit value from 4 big-endian bytes.
pub fn decode_u32_be(b: &Vec<u8>) -> (r: u32)
    requires
        b@.len() == 4,
    ensures
        r == spec_be32_val(b@),
{
    ((b[0] as u32) << 24) | ((b[1] as u32) << 16) | ((b[2] as u32) << 8) | (b[3] as u32)
}

proof fn lemma_seg_bytes_snoc(segs: Seq<Seq<u8>>, x: Seq<u8>)
    ensures
        seg_bytes(segs.push(x)) == seg_bytes(segs) + be32_bytes(x.len() as u32) + x,
    decreases segs.len(),
{
    if segs.len() == 0 {
        assert(segs =~= Seq::<Seq<u8>>::empty());
        assert(segs.push(x).skip(1) =~= segs);
        assert(segs.push(x)[0] == x);
        assert(seg_bytes(segs.push(x)) =~= seg_bytes(segs) + be32_bytes(x.len() as u32) + x);
    } else {
        lemma_seg_bytes_snoc(segs.skip(1), x);
        assert(segs.push(x).skip(1) =~= segs.skip(1).push(x));
        assert(segs.push(x)[0] == segs[0]);
        assert(seg_bytes(segs.push(x)) =~= seg_bytes(segs) + be32_bytes(x.len() as u32) + x);
    }
}

/// Encodes a well-formed frame to its wire bytes.
pub fn encode_frame(f: &Frame) -> (r: Vec<u8>)
    requires
        f.wf(),
    ensures
        r@ == f.bytes(),
{
    let mut out: Vec<u8> = Vec::new();
    push_tag_bytes(f.tag, &mut out);
    let mut i: usize = 0;
    while i < f.segments.len()
        invariant
            i <= f.segments.len(),
            f.wf(),
            out@ == tag_bytes(f.tag) + seg_bytes(f.segs().take(i as int)),
        decreases f.segments.len() - i,
    {
        let seg: &Vec<u8> = &f.segments[i];
        let ghost prefix = out@;
        encode_u32_be(seg.len() as u32, &mut out);
        let mut j: usize = 0;
        while j < seg.len()
            invariant
                j <= seg.len(),
                seg@ == f.segs()[i as int],
                seg@.len() <= u32::MAX,
                out@ == prefix + be32_bytes(seg@.len() as u32) + seg@.take(j as int),
            decreases seg.len() - j,
        {
            out.push(seg[j]);
            j += 1;
            proof {
                assert(seg@.take(j as int) =~= seg@.take(j - 1 as int).push(seg@[j - 1]));
                assert(out@ =~= prefix + be32_bytes(seg@.len() as u32) + seg@.take(j as int));
            }
        }
        proof {
            assert(seg@.take(j as int) =~= seg@);
            lemma_seg_bytes_snoc(f.segs().take(i as int), seg@);
            assert(f.segs().take(i + 1 as int) =~= f.segs().take(i as int).push(f.segs()[i as int]));
            assert(out@ =~= tag_bytes(f.tag) + seg_bytes(f.segs().take(i + 1 as int)));
        }
        i += 1;
    }
    proof {
        assert(f.segs().take(f.segments.len() as int) =~= f.segs());
    }
    out
}

/// How many segments a frame of the given tag carries.
pub fn required_segments(t: Tag) -> (n: usize)
    ensures
        n == seg_count(t),
{
    match t {
        Tag::Pub => 1,
        Tag::Enc => 2,
        Tag::Prv => 2,
    }
}

/// Parses a prefix of a byte stream as segments: `n` of them, consuming the
/// whole of `b` exactly.
pub open spec fn spec_parse_segs(b: Seq<u8>, n: nat) -> Option<Seq<Seq<u8>>>
    decreases n,
{
    if n == 0 {
        if b.len() == 0 {
            Some(Seq::empty())
        } else {
            None
        }
    } else if b.len() < 4 {
        None
    } else {
        let l = spec_be32_val(b.take(4)) as int;
        if b.len() - 4 < l {
            None
        } else {
            let seg = b.subrange(4, 4 + l);
            match spec_parse_segs(b.skip(4 + l), (n - 1) as nat) {
                Some(rest) => Some(seq![seg] + rest),
                None => None,
            }
        }
    }
}

/// Parses a complete frame from its wire bytes.
pub open spec fn spec_decode(b: Seq<u8>) -> Option<(Tag, Seq<Seq<u8>>)> {
    if b.len() < 3 {
        None
    } else {
        match spec_parse_tag(b.take(3)) {
            Some(t) => match spec_parse_segs(b.skip(3), seg_count(t)) {
                Some(segs) => Some((t, segs)),
                None => None,
            },
            None => None,
        }
    }
}

#[verifier::rlimit(100)]
proof fn lemma_parse_seg_bytes(segs: Seq<Seq<u8>>)
    requires
        forall|i: int| 0 <= i < segs.len() ==> #[trigger] segs[i].len() <= u32::MAX,
    ensures
        spec_parse_segs(seg_bytes(segs), segs.len()) == Some(segs),
    decreases segs.len(),
{
    if segs.len() == 0 {
        assert(seg_bytes(segs) =~= Seq::<u8>::empty());
        assert(segs =~= Seq::<Seq<u8>>::empty());
    } else {
        let s0 = segs[0];
        let tail = segs.skip(1);
        let l = s0.len() as int;
        let b = seg_bytes(segs);
        let hd = be32_bytes(s0.len() as u32);
        let bt = seg_bytes(tail);
        assert(b == hd + s0 + bt);
        assert(b.len() == 4 + l + bt.len());
        assert(b.take(4) =~= hd) by {
            assert(forall|i: int| 0 <= i < 4 ==> (hd + s0 + bt)[i] == hd[i]);
        }
        lemma_be32_round_trip(s0.len() as u32);
        assert(spec_be32_val(b.take(4)) as int == l);
        assert(b.subrange(4, 4 + l) =~= s0) by {
            assert(forall|i: int| 0 <= i < l ==> (hd + s0 + bt)[4 + i] == s0[i]);
        }
        assert(b.skip(4 + l) =~= bt) by {
            assert(forall|i: int| 0 <= i < bt.len() ==> (hd + s0 + bt)[4 + l + i] == bt[i]);
        }
        assert(forall|i: int| 0 <= i < tail.len() ==> #[trigger] tail[i].len() <= u32::MAX);
        lemma_parse_seg_bytes(tail);
        assert(spec_parse_segs(bt, tail.len()) == Some(tail));
        assert(spec_parse_segs(b, segs.len()) == Some(seq![s0] + tail));
        assert(seq![s0] + tail =~= segs);
    }
}

/// The round-trip law: decoding the encoding of any well-formed frame gives
/// back exactly the original tag and segments.
pub proof fn lemma_frame_round_trip(t: Tag, segs: Seq<Seq<u8>>)
    requires
        segs.len() == seg_count(t),
        forall|i: int| 0 <= i < segs.len() ==> #[trigger] segs[i].len() <= u32::MAX,
    ensures
        spec_decode(frame_bytes(t, segs)) == Some((t, segs)),
{
    let b = frame_bytes(t, segs);
    assert(tag_bytes(Tag::Pub)[0] == 80 && tag_bytes(Tag::Enc)[0] == 69 && tag_bytes(
        Tag::Prv,
    )[1] == 82 && tag_bytes(Tag::Pub)[1] == 85);
    assert(b.take(3) =~= tag_bytes(t));
    assert(spec_parse_tag(tag_bytes(t)) == Some(t));
    assert(b.skip(3) =~= seg_bytes(segs));
    lemma_parse_seg_bytes(segs);
}

/// Two well-formed frames with the same wire bytes are the same frame.
pub proof fn lemma_frame_bytes_injective(t1: Tag, s1: Seq<Seq<u8>>, t2: Tag, s2: Seq<Seq<u8>>)
    requires
        s1.len() == seg_count(t1),
        forall|i: int| 0 <= i < s1.len() ==> #[trigger] s1[i].len() <= u32::MAX,
        s2.len() == seg_count(t2),
        forall|i: int| 0 <= i < s2.len() ==> #[trigger] s2[i].len() <= u32::MAX,
        frame_bytes(t1, s1) == frame_bytes(t2, s2),
    ensures
        t1 == t2,
        s1 == s2,
{
    lemma_frame_round_trip(t1, s1);
    lemma_frame_round_trip(t2, s2);
}

/// What the incremental decoder is waiting for next.
pub enum DecodeStep {
    /// The 3 tag bytes of the next frame.
    WantTag,
    /// The 4-byte length prefix of the next segment.
    WantLen { tag: Tag, done: Vec<Vec<u8>> },
    /// The payload bytes of the current segment.
    WantPayload { tag: Tag, done: Vec<Vec<u8>>, want: u32 },
}

/// The outcome of feeding one chunk of bytes to the decoder.
pub enum Decoded {
    /// The frame is not complete yet; read `needed()` more bytes.
    NeedMore,
    /// A full frame has been decoded.
    Complete(Frame),
    /// The 3 bytes read are not a known tag; they are dropped.
    UnknownTag,
}

/// An incremental frame decoder: the caller reads exactly `needed()` bytes
/// from its stream and hands them to `feed`, until a frame is complete.
pub struct Decoder {
    pub step: DecodeStep,
}

impl Decoder {
    /// The decoder's well-formedness: never more segments than the tag asks
    /// for, and every stored segment's length fits its prefix.
    pub open spec fn wf(&self) -> bool {
        match self.step {
            DecodeStep::WantTag => true,
            DecodeStep::WantLen { tag, done } => done.deep_view().len() < seg_count(tag)
                && forall|i: int|
                0 <= i < done.deep_view().len() ==> #[trigger] done.deep_view()[i].len()
                    <= u32::MAX,
            DecodeStep::WantPayload { tag, done, want } => done.deep_view().len() < seg_count(tag)
                && forall|i: int|
                0 <= i < done.deep_view().len() ==> #[trigger] done.deep_view()[i].len()
                    <= u32::MAX,
        }
    }

    /// The bytes consumed so far toward the current frame.
    pub open spec fn consumed(&self) -> Seq<u8> {
        match self.step {
            DecodeStep::WantTag => Seq::empty(),
            DecodeStep::WantLen { tag, done } => tag_bytes(tag) + seg_bytes(done.deep_view()),
            DecodeStep::WantPayload { tag, done, want } => tag_bytes(tag) + seg_bytes(
                done.deep_view(),
            ) + be32_bytes(want),
        }
    }

    pub open spec fn needed_spec(&self) -> int {
        match self.step {
            DecodeStep::WantTag => 3,
            DecodeStep::WantLen { .. } => 4,
            DecodeStep::WantPayload { tag, done, want } => want as int,
        }
    }

    /// A fresh decoder, at the start of a frame.
    pub fn new() -> (r: Decoder)
        ensures
            r.wf(),
            r.step is WantTag,
            r.consumed() == Seq::<u8>::empty(),
    {
        Decoder { step: DecodeStep::WantTag }
    }

    /// Whether the decoder stands between frames. A peer that closes the
    /// stream here ended it cleanly; a close anywhere else cuts a frame
    /// short, which is a protocol error for that connection.
    pub fn at_frame_boundary(&self) -> (r: bool)
        ensures
            r == (self.consumed() == Seq::<u8>::empty()),
    {
        match &self.step {
            DecodeStep::WantTag => true,
            DecodeStep::WantLen { tag, done } => {
                proof {
                    assert(tag_bytes(*tag).len() == 3);
                    assert(self.consumed().len() >= 3);
                }
                false
            },
            DecodeStep::WantPayload { tag, done, want } => {
                proof {
                    assert(tag_bytes(*tag).len() == 3);
                    assert(self.consumed().len() >= 3);
                }
                false
            },
        }
    }

    /// How many bytes the caller must read and feed next.
    pub fn needed(&self) -> (n: usize)
        ensures
            n == self.needed_spec(),
    {
        match &self.step {
            DecodeStep::WantTag => 3,
            DecodeStep::WantLen { .. } => 4,
            DecodeStep::WantPayload { tag, done, want } => *want as usize,
        }
    }

    /// Consumes exactly the requested bytes and advances the decoder by one
    /// step of the framing grammar.
    pub fn feed(&mut self, bytes: Vec<u8>) -> (r: Decoded)
        requires
            old(self).wf(),
            bytes@.len() == old(self).needed_spec(),
        ensures
            final(self).wf(),
            r is NeedMore ==> final(self).consumed() == old(self).consumed() + bytes@,
            old(self).step is WantTag && spec_parse_tag(bytes@) is Some ==> r is NeedMore && (
            final(self).step matches DecodeStep::WantLen { tag, done } && spec_parse_tag(bytes@)
                == Some(tag) && done@.len() == 0),
            old(self).step is WantTag && spec_parse_tag(bytes@) is None ==> r is UnknownTag
                && final(self).step is WantTag,
            old(self).step matches DecodeStep::WantLen { tag, done } ==> r is NeedMore && (final(self).step matches DecodeStep::WantPayload { tag: t2, done: d2, want } && t2 == tag
                && d2.deep_view() == done.deep_view() && want == spec_be32_val(bytes@)),
            old(self).step matches DecodeStep::WantPayload { tag, done, want } ==> ({
                let d2 = done.deep_view().push(bytes@);
                if d2.len() == seg_count(tag) {
                    (r matches Decoded::Complete(f) && f.tag == tag && f.segs() == d2 && f.wf()
                        && f.bytes() == old(self).consumed() + bytes@) && final(self).step is WantTag
                } else {
                    r is NeedMore && (final(self).step matches DecodeStep::WantLen { tag: t2, done: dd } && t2 == tag
                        && dd.deep_view() == d2)
                }
            }),
    {
        let mut step = DecodeStep::WantTag;
        core::mem::swap(&mut step, &mut self.step);
        match step {
            DecodeStep::WantTag => {
                match parse_tag(&bytes) {
                    Some(t) => {
                        let empty_done: Vec<Vec<u8>> = Vec::new();
                        let ghost edv = empty_done.deep_view();
                        self.step = DecodeStep::WantLen { tag: t, done: empty_done };
                        proof {
                            assert(edv =~= Seq::<Seq<u8>>::empty());
                            assert(self.consumed() =~= tag_bytes(t));
                            assert(tag_bytes(t) =~= bytes@);
                        }
                        Decoded::NeedMore
                    },
                    None => Decoded::UnknownTag,
                }
            },
            DecodeStep::WantLen { tag, done } => {
                let want = decode_u32_be(&bytes);
                proof {
                    lemma_be32_round_trip(want);
                    assert(be32_bytes(spec_be32_val(bytes@)) =~= bytes@) by {
                        assert(bytes@ =~= seq![bytes@[0], bytes@[1], bytes@[2], bytes@[3]]);
                        assert(spec_be32_val(be32_bytes(want)) == want);
                        lemma_be32_injective(want, bytes@);
                    }
                }
                self.step = DecodeStep::WantPayload { tag, done, want };
                Decoded::NeedMore
            },
            DecodeStep::WantPayload { tag, mut done, want } => {
                let ghost old_dv = done.deep_view();
                let ghost fed = bytes@;
                done.push(bytes);
                proof {
                    assert(done.deep_view() =~~= old_dv.push(fed));
                    lemma_seg_bytes_snoc(old_dv, fed);
                    assert(fed.len() as u32 == want);
                }
                let n = done.len();
                let sc = required_segments(tag);
                if n == sc {
                    let f = Frame { tag, segments: done };
                    proof {
                        assert(f.wf());
                        assert(f.bytes() =~= old(self).consumed() + fed);
                    }
                    Decoded::Complete(f)
                } else {
                    self.step = DecodeStep::WantLen { tag, done };
                    proof {
                        assert(self.consumed() =~= old(self).consumed() + fed);
                    }
                    Decoded::NeedMore
                }
            },
        }
    }
}

/// Big-endian length prefixes are one-to-one with their values.
proof fn lemma_be32_injective(n: u32, b: Seq<u8>)
    requires
        b.len() == 4,
        spec_be32_val(b) == n,
    ensures
        be32_bytes(n) == b,
{
    let b0 = b[0];
    let b1 = b[1];
    let b2 = b[2];
    let b3 = b[3];
    assert(((((b0 as u32) << 24) | ((b1 as u32) << 16) | ((b2 as u32) << 8) | (b3 as u32)) >> 24)
        as u8 == b0) by (bit_vector);
    assert(((((b0 as u32) << 24) | ((b1 as u32) << 16) | ((b2 as u32) << 8) | (b3 as u32)) >> 16)
        as u8 == b1) by (bit_vector);
    assert(((((b0 as u32) << 24) | ((b1 as u32) << 16) | ((b2 as u32) << 8) | (b3 as u32)) >> 8)
        as u8 == b2) by (bit_vector);
    assert((((b0 as u32) << 24) | ((b1 as u32) << 16) | ((b2 as u32) << 8) | (b3 as u32)) as u8
        == b3) by (bit_vector);
    assert(be32_bytes(n) =~= b);
}

} // verus!
