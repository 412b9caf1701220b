//! Frame decoders: splitting a transport byte stream into record payloads.
//!
//! Both the serial (reverse-COBS) and the RTT (COBS) streams delimit
//! frames with `0x00`; the de-framing state is the bytes accumulated since
//! the last delimiter.  A persisted log file instead prefixes each record
//! with its `u32` little-endian length.

use vstd::prelude::*;
use crate::decode::{record_outcome, Decoder, Log};
use crate::errors::Error;
use crate::metadata::ElfMetadata;
use crate::scan::{le_unsigned, lemma_le_unsigned_bound, lemma_pow256_le_u64, pow256,
    read_le_unsigned};

verus! {

/// What `rcobs::decode` yields for one delimiter-free frame: a function of
/// the frame bytes alone, `None` exactly on malformed reverse-COBS data.
pub uninterp spec fn rcobs_decoded(frame: Seq<u8>) -> Option<Seq<u8>>;

/// Relies on `rcobs::decode`: decodes one reverse-COBS frame (without its
/// `0x00` separator).
#[verifier::external_body]
fn rcobs_decode_frame(frame: &[u8]) -> (r: Option<Vec<u8>>)
    ensures
        match r {
            Some(v) => rcobs_decoded(frame@) == Some(v@),
            None => rcobs_decoded(frame@) is None,
        },
{
    rcobs::decode(frame).ok()
}

/// What `cobs::decode_vec` yields for one frame: a function of the frame
/// bytes alone, `None` exactly on malformed COBS data.
pub uninterp spec fn cobs_decoded(frame: Seq<u8>) -> Option<Seq<u8>>;

/// Relies on `cobs::decode_vec`: decodes one COBS frame (without its
/// `0x00` sentinel).
#[verifier::external_body]
fn cobs_decode_frame(frame: &[u8]) -> (r: Option<Vec<u8>>)
    ensures
        match r {
            Some(v) => cobs_decoded(frame@) == Some(v@),
            None => cobs_decoded(frame@) is None,
        },
{
    cobs::decode_vec(frame).ok()
}

/// Splits `input` into the `0x00`-delimited frames it completes, starting
/// from the already-accumulated bytes `buf`; yields the complete frames
/// and the bytes left in the accumulator.
pub open spec fn split_frames(buf: Seq<u8>, input: Seq<u8>) -> (Seq<Seq<u8>>, Seq<u8>)
    decreases input.len(),
{
    if input.len() == 0 {
        (Seq::empty(), buf)
    } else if input[0] == 0 {
        let r = split_frames(Seq::empty(), input.drop_first());
        (seq![buf] + r.0, r.1)
    } else {
        split_frames(buf.push(input[0]), input.drop_first())
    }
}

/// De-framing is insensitive to chunk boundaries: feeding `a + b` at once
/// yields the same frames, in the same order, as feeding `a` and then `b`.
pub proof fn lemma_split_frames_chunked(buf: Seq<u8>, a: Seq<u8>, b: Seq<u8>)
    ensures
        split_frames(buf, a + b).0 =~~= split_frames(buf, a).0 + split_frames(
            split_frames(buf, a).1,
            b,
        ).0,
        split_frames(buf, a + b).1 == split_frames(split_frames(buf, a).1, b).1,
    decreases a.len(),
{
    if a.len() == 0 {
        assert(a + b =~= b);
    } else {
        assert((a + b).drop_first() =~= a.drop_first() + b);
        assert((a + b)[0] == a[0]);
        if a[0] == 0 {
            lemma_split_frames_chunked(Seq::empty(), a.drop_first(), b);
        } else {
            lemma_split_frames_chunked(buf.push(a[0]), a.drop_first(), b);
        }
    }
}

/// The byte stream that carries the given frames: each frame followed by
/// its `0x00` delimiter, in order.
pub open spec fn frame_stream(frames: Seq<Seq<u8>>) -> Seq<u8>
    decreases frames.len(),
{
    if frames.len() == 0 {
        Seq::empty()
    } else {
        frames[0] + seq![0u8] + frame_stream(frames.drop_first())
    }
}

proof fn lemma_split_one_terminated_frame(buf: Seq<u8>, f: Seq<u8>)
    requires
        forall|i: int| 0 <= i < f.len() ==> f[i] != 0,
    ensures
        split_frames(buf, f + seq![0u8]).0 =~~= seq![buf + f],
        split_frames(buf, f + seq![0u8]).1 =~= Seq::<u8>::empty(),
    decreases f.len(),
{
    let input = f + seq![0u8];
    if f.len() == 0 {
        assert(input[0] == 0);
        assert(input.drop_first() =~= Seq::<u8>::empty());
        assert(split_frames(Seq::<u8>::empty(), Seq::<u8>::empty()) == (
            Seq::<Seq<u8>>::empty(),
            Seq::<u8>::empty(),
        ));
        assert(split_frames(buf, input).0 =~~= seq![buf]);
        assert(buf + f =~= buf);
    } else {
        assert(input[0] == f[0]);
        assert(f[0] != 0);
        assert(input.drop_first() =~= f.drop_first() + seq![0u8]);
        assert(split_frames(buf, input) == split_frames(buf.push(f[0]), input.drop_first()));
        assert forall|i: int| 0 <= i < f.drop_first().len() implies f.drop_first()[i] != 0 by {
            assert(f.drop_first()[i] == f[i + 1]);
        }
        lemma_split_one_terminated_frame(buf.push(f[0]), f.drop_first());
        assert(buf.push(f[0]) + f.drop_first() =~= buf + f);
    }
}

/// Round trip of the de-framer: a stream of `k` delimiter-terminated,
/// delimiter-free frames is split back into exactly those `k` frames, in
/// order, leaving an empty accumulator.
pub proof fn lemma_split_frames_round_trip(frames: Seq<Seq<u8>>)
    requires
        forall|i: int, j: int|
            0 <= i < frames.len() && 0 <= j < frames[i].len() ==> #[trigger] frames[i][j] != 0,
    ensures
        split_frames(Seq::empty(), frame_stream(frames)).0 =~~= frames,
        split_frames(Seq::empty(), frame_stream(frames)).1 =~= Seq::<u8>::empty(),
    decreases frames.len(),
{
    if frames.len() > 0 {
        let head = frames[0] + seq![0u8];
        let rest = frame_stream(frames.drop_first());
        assert(frame_stream(frames) =~= head + rest);
        lemma_split_frames_chunked(Seq::empty(), head, rest);
        lemma_split_one_terminated_frame(Seq::empty(), frames[0]);
        assert(Seq::empty() + frames[0] =~= frames[0]);
        assert forall|i: int, j: int|
            0 <= i < frames.drop_first().len() && 0 <= j < frames.drop_first()[i].len() implies
            #[trigger] frames.drop_first()[i][j] != 0 by {
            assert(frames.drop_first()[i] == frames[i + 1]);
        }
        lemma_split_frames_round_trip(frames.drop_first());
        assert(split_frames(Seq::empty(), frame_stream(frames)).0 =~~= seq![frames[0]]
            + frames.drop_first());
        assert(seq![frames[0]] + frames.drop_first() =~~= frames);
    }
}

/// Which byte-stuffing scheme a stream uses.
#[derive(Copy, Clone, Debug, PartialEq, Eq, Structural)]
pub enum FrameCodec {
    Rcobs,
    Cobs,
}

pub open spec fn frame_decoded(fc: FrameCodec, frame: Seq<u8>) -> Option<Seq<u8>> {
    match fc {
        FrameCodec::Rcobs => rcobs_decoded(frame),
        FrameCodec::Cobs => cobs_decoded(frame),
    }
}

/// Outcome owed for one complete frame: an undecodable frame reports
/// `InvalidLogMessage`; a decoded payload is handed to the record decoder,
/// whose own contract then applies.
pub open spec fn frame_outcome(
    fc: FrameCodec,
    meta: &ElfMetadata,
    frame: Seq<u8>,
    out: Result<Log, Error>,
) -> bool {
    match frame_decoded(fc, frame) {
        Option::None => out == Err::<Log, Error>(Error::InvalidLogMessage),
        Option::Some(m) => record_outcome(
            meta.spec_codec(),
            meta.spec_strings(),
            meta.spec_sections(),
            meta.spec_freq(),
            m,
            out,
        ),
    }
}

fn decode_one(fc: FrameCodec, meta: &ElfMetadata, frame: &[u8]) -> (r: Result<Log, Error>)
    requires
        meta.wf(),
    ensures
        frame_outcome(fc, meta, frame@, r),
{
    let decoded = match fc {
        FrameCodec::Rcobs => rcobs_decode_frame(frame),
        FrameCodec::Cobs => cobs_decode_frame(frame),
    };
    match decoded {
        Option::None => Err(Error::InvalidLogMessage),
        Option::Some(m) => meta.parse(m.as_slice()),
    }
}

/// Feeds `data` into a zero-delimited stream accumulator, decoding each
/// completed frame.
fn feed_stream(fc: FrameCodec, meta: &ElfMetadata, buffer: &mut Vec<u8>, data: &[u8]) -> (out: Vec<
    Result<Log, Error>,
>)
    requires
        meta.wf(),
    ensures
        final(buffer)@ == split_frames(old(buffer)@, data@).1,
        out@.len() == split_frames(old(buffer)@, data@).0.len(),
        forall|i: int|
            0 <= i < out@.len() ==> frame_outcome(
                fc,
                meta,
                split_frames(old(buffer)@, data@).0[i],
                #[trigger] out@[i],
            ),
{
    let mut out: Vec<Result<Log, Error>> = Vec::new();
    let n = data.len();
    let mut i: usize = 0;
    proof {
        assert(data@.take(0) =~= Seq::<u8>::empty());
    }
    while i < n
        invariant
            meta.wf(),
            n == data@.len(),
            0 <= i <= n,
            buffer@ == split_frames(old(buffer)@, data@.take(i as int)).1,
            out@.len() == split_frames(old(buffer)@, data@.take(i as int)).0.len(),
            forall|j: int|
                0 <= j < out@.len() ==> frame_outcome(
                    fc,
                    meta,
                    split_frames(old(buffer)@, data@.take(i as int)).0[j],
                    #[trigger] out@[j],
                ),
        decreases n - i,
    {
        let b = data[i];
        let ghost rb = buffer@;
        proof {
            assert(data@.take(i + 1) =~= data@.take(i as int) + seq![data@[i as int]]);
            lemma_split_frames_chunked(old(buffer)@, data@.take(i as int), seq![data@[i as int]]);
            let step = seq![data@[i as int]];
            assert(step.drop_first() =~= Seq::<u8>::empty());
            assert(step[0] == b);
            if b == 0 {
                assert(split_frames(Seq::<u8>::empty(), step.drop_first()) == (
                    Seq::<Seq<u8>>::empty(),
                    Seq::<u8>::empty(),
                ));
                assert(split_frames(rb, step).1 =~= Seq::<u8>::empty());
                assert(split_frames(rb, step).0 =~~= seq![rb]);
            } else {
                assert(split_frames(rb.push(b), step.drop_first()) == (
                    Seq::<Seq<u8>>::empty(),
                    rb.push(b),
                ));
                assert(split_frames(rb, step).1 =~= rb.push(b));
                assert(split_frames(rb, step).0 =~~= Seq::<Seq<u8>>::empty());
            }
        }
        if b == 0 {
            let r = decode_one(fc, meta, buffer.as_slice());
            out.push(r);
            buffer.clear();
        } else {
            buffer.push(b);
        }
        i = i + 1;
    }
    proof {
        assert(data@.take(n as int) =~= data@);
    }
    out
}

/// Decoder for logs sent through a serial stream: reverse-COBS frames
/// separated by `0x00` bytes.
pub struct SerialDecoder<'a> {
    rcobs_msg_buffer: Vec<u8>,
    decoder: Decoder<'a>,
}

impl<'a> SerialDecoder<'a> {
    pub closed spec fn spec_buffer(&self) -> Seq<u8> {
        self.rcobs_msg_buffer@
    }

    pub closed spec fn spec_meta(&self) -> &'a ElfMetadata {
        self.decoder.spec_meta()
    }

    pub open spec fn wf(&self) -> bool {
        self.spec_meta().wf()
    }

    /// Creates a new decoder with an empty accumulator.
    pub fn new(elf_metadata: &'a ElfMetadata) -> (r: SerialDecoder<'a>)
        ensures
            r.spec_meta() == elf_metadata,
            r.spec_buffer() == Seq::<u8>::empty(),
    {
        SerialDecoder { rcobs_msg_buffer: Vec::new(), decoder: Decoder::new(elf_metadata) }
    }

    /// Feeds raw serial bytes to the decoder; every frame completed by a
    /// `0x00` in `data` yields one decode outcome, in arrival order.
    /// Malformed frames are reported and do not stop the stream.
    pub fn feed(&mut self, data: &[u8]) -> (out: Vec<Result<Log, Error>>)
        requires
            old(self).wf(),
        ensures
            final(self).spec_meta() == old(self).spec_meta(),
            final(self).spec_buffer() == split_frames(old(self).spec_buffer(), data@).1,
            out@.len() == split_frames(old(self).spec_buffer(), data@).0.len(),
            forall|i: int|
                0 <= i < out@.len() ==> frame_outcome(
                    FrameCodec::Rcobs,
                    old(self).spec_meta(),
                    split_frames(old(self).spec_buffer(), data@).0[i],
                    #[trigger] out@[i],
                ),
    {
        let meta = self.decoder.metadata();
        feed_stream(FrameCodec::Rcobs, meta, &mut self.rcobs_msg_buffer, data)
    }
}

/// Decoder for logs read from an RTT channel: COBS frames separated by
/// `0x00` sentinels.
pub struct CobsStreamDecoder<'a> {
    msg_buffer: Vec<u8>,
    decoder: Decoder<'a>,
}

impl<'a> CobsStreamDecoder<'a> {
    pub closed spec fn spec_buffer(&self) -> Seq<u8> {
        self.msg_buffer@
    }

    pub closed spec fn spec_meta(&self) -> &'a ElfMetadata {
        self.decoder.spec_meta()
    }

    pub open spec fn wf(&self) -> bool {
        self.spec_meta().wf()
    }

    /// Creates a new decoder with an empty accumulator.
    pub fn new(elf_metadata: &'a ElfMetadata) -> (r: CobsStreamDecoder<'a>)
        ensures
            r.spec_meta() == elf_metadata,
            r.spec_buffer() == Seq::<u8>::empty(),
    {
        CobsStreamDecoder { msg_buffer: Vec::new(), decoder: Decoder::new(elf_metadata) }
    }

    /// Feeds raw RTT bytes to the decoder; every frame completed by a
    /// `0x00` sentinel in `data` yields one decode outcome, in arrival
    /// order.  Malformed frames are reported and do not stop the stream.
    pub fn feed(&mut self, data: &[u8]) -> (out: Vec<Result<Log, Error>>)
        requires
            old(self).wf(),
        ensures
            final(self).spec_meta() == old(self).spec_meta(),
            final(self).spec_buffer() == split_frames(old(self).spec_buffer(), data@).1,
            out@.len() == split_frames(old(self).spec_buffer(), data@).0.len(),
            forall|i: int|
                0 <= i < out@.len() ==> frame_outcome(
                    FrameCodec::Cobs,
                    old(self).spec_meta(),
                    split_frames(old(self).spec_buffer(), data@).0[i],
                    #[trigger] out@[i],
                ),
    {
        let meta = self.decoder.metadata();
        feed_stream(FrameCodec::Cobs, meta, &mut self.msg_buffer, data)
    }
}

/// Records of a persisted log file: each entry is `Some(payload)` for a
/// complete `(u32 LE length, payload)` record; a truncated header or a
/// length running past the end contributes one `None` and ends the file.
pub open spec fn persist_frames(data: Seq<u8>) -> Seq<Option<Seq<u8>>>
    decreases data.len(),
{
    if data.len() == 0 {
        Seq::empty()
    } else if data.len() < 4 {
        seq![Option::None]
    } else {
        let n = le_unsigned(data.subrange(0, 4)) as int;
        if 4 + n > data.len() {
            seq![Option::None]
        } else {
            seq![Option::Some(data.subrange(4, 4 + n))] + persist_frames(data.skip(4 + n))
        }
    }
}

/// Outcome owed for one persisted record.
pub open spec fn persist_outcome(
    meta: &ElfMetadata,
    f: Option<Seq<u8>>,
    out: Result<Log, Error>,
) -> bool {
    match f {
        Option::None => out == Err::<Log, Error>(Error::InvalidLogMessage),
        Option::Some(m) => record_outcome(
            meta.spec_codec(),
            meta.spec_strings(),
            meta.spec_sections(),
            meta.spec_freq(),
            m,
            out,
        ),
    }
}

/// Decodes a whole persisted log file: a sequence of records each
/// prefixed by its `u32` little-endian length.  A record whose header or
/// body runs past the end of the file reports `InvalidLogMessage` and
/// ends decoding.
pub fn decode_persisted(meta: &ElfMetadata, data: &[u8]) -> (out: Vec<Result<Log, Error>>)
    requires
        meta.wf(),
    ensures
        out@.len() == persist_frames(data@).len(),
        forall|i: int|
            0 <= i < out@.len() ==> persist_outcome(
                meta,
                persist_frames(data@)[i],
                #[trigger] out@[i],
            ),
{
    let mut out: Vec<Result<Log, Error>> = Vec::new();
    let n = data.len();
    let mut pos: usize = 0;
    let ghost mut done: Seq<Option<Seq<u8>>> = Seq::empty();
    proof {
        assert(data@.skip(0) =~= data@);
    }
    while pos < n
        invariant
            meta.wf(),
            n == data@.len(),
            0 <= pos <= n,
            persist_frames(data@) =~~= done + persist_frames(data@.skip(pos as int)),
            out@.len() == done.len(),
            forall|j: int|
                0 <= j < out@.len() ==> persist_outcome(meta, done[j], #[trigger] out@[j]),
        decreases n - pos,
    {
        let ghost rem = data@.skip(pos as int);
        if n - pos < 4 {
            out.push(Err(Error::InvalidLogMessage));
            proof {
                done = done + seq![Option::<Seq<u8>>::None];
                assert(persist_frames(rem) =~~= seq![Option::<Seq<u8>>::None]);
                assert(data@.skip(n as int) =~= Seq::<u8>::empty());
            }
            pos = n;
        } else {
            proof {
                assert(rem.subrange(0, 4) =~= data@.subrange(pos as int, pos + 4));
                lemma_le_unsigned_bound(rem.subrange(0, 4));
                lemma_pow256_le_u64(4);
                assert(pow256(4) == 0x1_0000_0000) by {
                    assert(pow256(0) == 1);
                    assert(pow256(1) == 256);
                    assert(pow256(2) == 0x1_0000);
                    assert(pow256(3) == 0x100_0000);
                    assert(pow256(4) == 0x1_0000_0000);
                }
            }
            let len64 = read_le_unsigned(data, pos, 4);
            if len64 > ((n - pos - 4) as u64) {
                out.push(Err(Error::InvalidLogMessage));
                proof {
                    done = done + seq![Option::<Seq<u8>>::None];
                    assert(persist_frames(rem) =~~= seq![Option::<Seq<u8>>::None]);
                    assert(data@.skip(n as int) =~= Seq::<u8>::empty());
                }
                pos = n;
            } else {
                let len = len64 as usize;
                let payload: &[u8] = &data[pos + 4..pos + 4 + len];
                proof {
                    assert(payload@ =~= rem.subrange(4, 4 + len64 as int));
                    assert(rem.skip(4 + len64 as int) =~= data@.skip(pos + 4 + len64 as int));
                }
                let r = meta.parse(payload);
                out.push(r);
                proof {
                    done = done + seq![Option::Some(payload@)];
                }
                pos = pos + 4 + len;
            }
        }
    }
    proof {
        assert(persist_frames(data@.skip(n as int)) =~~= Seq::<Option<Seq<u8>>>::empty());
    }
    out
}

} // verus!
