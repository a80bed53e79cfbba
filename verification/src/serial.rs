//! Framed serial pipeline: decoder, encoder, and the consumer drain loop.
//!
//! The byte-level frame grammar (lead bytes, start mark, length, checksum,
//! end mark) is owned by the external `eds` codec and is used here through
//! trusted declarations.  Everything around those calls is verified: the
//! pending-byte bookkeeping, the three-state decode cycle
//! (collecting -> ready -> finished), the payload caching that makes
//! `get_payload` read-only, and the drain policy that fully resolves one
//! frame before new input is accepted.  The contracts track the bytes the
//! codec consumes and name its recognition, so no fed byte can be lost and
//! the payloads handed out are exactly the recognized frames; what the
//! recognition yields on concrete byte streams stays the codec's own.

use vstd::prelude::*;
use crate::channel::ByteChannel;

verus! {

/// Longest payload the decode side accepts; longer frames are rejected by
/// the codec's reader, so the encoder refuses them up front.
pub const MAX_PAYLOAD_LEN: usize = 4096;

#[verifier::external_type_specification]
#[verifier::external_body]
pub struct ExReader(eds::Reader);

#[verifier::external_type_specification]
#[verifier::external_body]
pub struct ExWriter(eds::Writer);

/// Whether the codec's reader currently holds one complete frame.
pub uninterp spec fn ready_of(r: eds::Reader) -> bool;

/// The payload the codec's reader would hand out in its ready state.
pub uninterp spec fn load_of(r: eds::Reader) -> Seq<u8>;

/// The bytes the codec's reader has consumed since its construction.
pub uninterp spec fn taken_of(r: eds::Reader) -> Seq<u8>;

/// The lead length the codec's reader was built with.
pub uninterp spec fn reader_lead_of(r: eds::Reader) -> nat;

/// The codec's recognition: the payloads, in order, of the frames a reader
/// built with this lead length recognizes in a consumed byte stream.  The
/// byte grammar behind it stays the codec's own; the contracts only relate
/// the reader's observable state to this name.
pub uninterp spec fn frames_of(lead: nat, stream: Seq<u8>) -> Seq<Seq<u8>>;

/// The lead length the codec's writer was built with.
pub uninterp spec fn lead_of(w: eds::Writer) -> nat;

/// Whether the codec's writer can currently split off its transient
/// payload buffer (its fixed buffer's capacity exceeds the fixed head).
/// This is decided by the writer value alone.
pub uninterp spec fn can_split_of(w: eds::Writer) -> bool;

/// The checksum the codec computes over a payload.
pub uninterp spec fn crc_of(load: Seq<u8>) -> u16;

/// The two big-endian bytes of a 16-bit value.
pub open spec fn be16(n: nat) -> Seq<u8> {
    seq![((n / 256) % 256) as u8, (n % 256) as u8]
}

/// Everything of a frame before its checksum: `lead` lead bytes, a start
/// mark, the big-endian payload length, and the payload.
pub open spec fn frame_head(lead: nat, load: Seq<u8>) -> Seq<u8> {
    Seq::new(lead, |i: int| 0x55u8) + seq![0x54u8] + be16(load.len()) + load
}

/// The wire shape of one frame: the head, the payload's checksum, and an
/// end mark.
pub open spec fn frame_of(lead: nat, load: Seq<u8>) -> Seq<u8> {
    frame_head(lead, load) + be16(crc_of(load) as nat) + seq![0x0Au8]
}

/// Relies on `eds::Reader::new`: a fresh reader waits for lead bytes,
/// holds no frame, has consumed nothing, and so has recognized nothing.
#[verifier::external_body]
fn reader_new(lead_len: u8) -> (r: eds::Reader)
    ensures
        !ready_of(r),
        taken_of(r) == Seq::<u8>::empty(),
        reader_lead_of(r) == lead_len,
        frames_of(reader_lead_of(r), taken_of(r)) == Seq::<Seq<u8>>::empty(),
{
    eds::Reader::new(lead_len)
}

/// Relies on `eds::Reader::recv`: it consumes exactly the first `n` bytes
/// of the input, stops right after at most one complete frame, and returns
/// `n`; stopping early means a frame is now held.  Recognition only grows
/// with the consumed stream, at most one frame per call, and a held frame
/// is always the last one recognized.
#[verifier::external_body]
fn reader_recv(r: &mut eds::Reader, buf: &[u8]) -> (n: usize)
    ensures
        n <= buf@.len(),
        buf@.len() > 0 ==> 1 <= n,
        n < buf@.len() ==> ready_of(*final(r)),
        reader_lead_of(*final(r)) == reader_lead_of(*old(r)),
        taken_of(*final(r)) == taken_of(*old(r)) + buf@.take(n as int),
        frames_of(reader_lead_of(*old(r)), taken_of(*old(r))).is_prefix_of(
            frames_of(reader_lead_of(*old(r)), taken_of(*final(r))),
        ),
        frames_of(reader_lead_of(*old(r)), taken_of(*final(r))).len() == frames_of(
            reader_lead_of(*old(r)),
            taken_of(*old(r)),
        ).len() + (if ready_of(*final(r)) && n >= 1 {
            1int
        } else {
            0
        }),
        ready_of(*final(r)) ==> frames_of(reader_lead_of(*old(r)), taken_of(*final(r))).len() >= 1
            && load_of(*final(r)) == frames_of(
            reader_lead_of(*old(r)),
            taken_of(*final(r)),
        ).last(),
{
    r.recv(buf)
}

/// Relies on `eds::Reader::is_ready`: reports whether a complete frame is
/// held.
#[verifier::external_body]
fn reader_is_ready(r: &eds::Reader) -> (b: bool)
    ensures
        b == ready_of(*r),
{
    r.is_ready()
}

/// Relies on `eds::Reader::get_load`: in the ready state it hands out the
/// held payload and returns the reader to its waiting state, consuming no
/// input bytes; otherwise it reports nothing and leaves the reader
/// untouched.
#[verifier::external_body]
fn reader_take_load(r: &mut eds::Reader) -> (res: Option<Vec<u8>>)
    ensures
        ready_of(*old(r)) ==> (res matches Some(v) && v@ == load_of(*old(r)) && !ready_of(
            *final(r),
        ) && taken_of(*final(r)) == taken_of(*old(r)) && reader_lead_of(*final(r))
            == reader_lead_of(*old(r))),
        !ready_of(*old(r)) ==> res is None && *final(r) == *old(r),
{
    r.get_load().map(|b| b.to_vec())
}

/// Relies on `eds::Writer::new`: builds a framing writer with the given
/// lead length.
#[verifier::external_body]
fn writer_new(lead_len: u8) -> (w: eds::Writer)
    ensures
        lead_of(w) == lead_len,
{
    eds::Writer::new(lead_len)
}

/// Relies on `eds::Writer::get_load` and `eds::Writer::get_data`: together
/// they frame one payload as lead bytes, start mark, big-endian length,
/// payload, checksum and end mark.  `get_load` hands out the transient
/// buffer exactly when the writer's fixed buffer can be split, refusing
/// (and leaving the writer untouched) otherwise; after a produced frame
/// the fixed buffer always exceeds the head again, so framing keeps
/// succeeding.
#[verifier::external_body]
fn writer_encode(w: &mut eds::Writer, payload: &[u8]) -> (r: Option<Vec<u8>>)
    requires
        payload@.len() <= 0xFFFF,
    ensures
        lead_of(*final(w)) == lead_of(*old(w)),
        r is Some <==> can_split_of(*old(w)),
        r is Some ==> can_split_of(*final(w)),
        r is None ==> *final(w) == *old(w),
        r matches Some(v) ==> v@ == frame_head(lead_of(*old(w)), payload@) + be16(
            crc_of(payload@) as nat,
        ) + seq![0x0Au8],
{
    match w.get_load() {
        Some(mut load) => {
            load.extend_from_slice(payload);
            Some(w.get_data(load).to_vec())
        }
        None => None,
    }
}

/// Stateful frame reassembly: keeps partial-frame bytes across calls and
/// exposes one completed payload at a time.
pub struct FrameDecoder {
    reader: eds::Reader,
    pend: Vec<u8>,
    payload: Option<Vec<u8>>,
}

impl FrameDecoder {
    /// Bytes accepted but not yet consumed by the codec.
    pub closed spec fn spec_pending(&self) -> Seq<u8> {
        self.pend@
    }

    /// A completed frame's payload is exposed and has not been superseded
    /// by a later `feed`.
    pub closed spec fn spec_ready(&self) -> bool {
        self.payload is Some
    }

    /// The exposed payload (empty when none is exposed).
    pub closed spec fn spec_payload(&self) -> Seq<u8> {
        match self.payload {
            Some(v) => v@,
            None => Seq::empty(),
        }
    }

    /// No residual bytes are left: the current frame boundary is fully
    /// resolved and the decoder may return to polling.
    pub closed spec fn spec_finished(&self) -> bool {
        self.pend@.len() == 0
    }

    /// The bytes the codec has consumed so far.
    pub closed spec fn spec_taken(&self) -> Seq<u8> {
        taken_of(self.reader)
    }

    /// The lead length this decoder was built with.
    pub closed spec fn spec_lead(&self) -> nat {
        reader_lead_of(self.reader)
    }

    /// The payloads of every frame recognized so far in the consumed
    /// stream, oldest first.
    pub closed spec fn spec_frames(&self) -> Seq<Seq<u8>> {
        frames_of(reader_lead_of(self.reader), taken_of(self.reader))
    }

    /// A fresh decoder: collecting, nothing pending, nothing consumed,
    /// nothing recognized, nothing exposed.
    pub fn new(lead_len: u8) -> (r: FrameDecoder)
        ensures
            !r.spec_ready(),
            r.spec_finished(),
            r.spec_pending() == Seq::<u8>::empty(),
            r.spec_taken() == Seq::<u8>::empty(),
            r.spec_lead() == lead_len,
            r.spec_frames() == Seq::<Seq<u8>>::empty(),
    {
        FrameDecoder { reader: reader_new(lead_len), pend: Vec::new(), payload: None }
    }

    /// Whether a completed payload is currently exposed.
    pub fn is_ready(&self) -> (b: bool)
        ensures
            b == self.spec_ready(),
    {
        match &self.payload {
            Some(_) => true,
            None => false,
        }
    }

    /// Whether all accepted bytes have been consumed by the codec.
    pub fn is_finished(&self) -> (b: bool)
        ensures
            b == self.spec_finished(),
    {
        self.pend.len() == 0
    }

    /// Reads the exposed payload without consuming it: every call while
    /// ready, with no `feed` in between, returns the same bytes.
    pub fn get_payload(&self) -> (r: Vec<u8>)
        requires
            self.spec_ready(),
        ensures
            r@ == self.spec_payload(),
    {
        let mut out: Vec<u8> = Vec::new();
        match &self.payload {
            Some(v) => {
                let mut i: usize = 0;
                while i < v.len()
                    invariant
                        i <= v@.len(),
                        out@ == v@.subrange(0, i as int),
                    decreases v@.len() - i,
                {
                    out.push(v[i]);
                    i = i + 1;
                }
                proof {
                    assert(out@ =~= self.spec_payload());
                }
            },
            None => {},
        }
        out
    }

    /// Accepts new bytes (possibly none: the no-new-data poll) and advances
    /// the decode state by at most one frame.  A previously exposed payload
    /// counts as acknowledged and is dropped.  Afterwards either everything
    /// was consumed (`finished`) or a completed payload is exposed
    /// (`ready`); whenever any input was pending, strictly fewer bytes
    /// remain, so polling with empty input resolves the frame in finitely
    /// many steps.  No byte is lost or invented: consumed plus pending
    /// bytes always equal what was pending plus what was fed.  Recognition
    /// only grows, by one frame exactly when a payload is exposed, and the
    /// exposed payload is the newest recognized frame.
    pub fn feed(&mut self, bytes: &[u8])
        ensures
            final(self).spec_ready() || final(self).spec_finished(),
            (old(self).spec_pending() + bytes@).len() > 0 ==> final(self).spec_pending().len() < (
            old(self).spec_pending() + bytes@).len(),
            exists|n: int|
                0 <= n <= (old(self).spec_pending() + bytes@).len() && final(self).spec_pending()
                    == (old(self).spec_pending() + bytes@).skip(n),
            final(self).spec_lead() == old(self).spec_lead(),
            final(self).spec_taken() + final(self).spec_pending() == old(self).spec_taken() + old(self).spec_pending() + bytes@,
            old(self).spec_frames().is_prefix_of(final(self).spec_frames()),
            (old(self).spec_pending() + bytes@).len() > 0 ==> final(self).spec_frames().len()
                == old(self).spec_frames().len() + (if final(self).spec_ready() {
                1int
            } else {
                0
            }),
            (old(self).spec_pending() + bytes@).len() == 0 ==> final(self).spec_frames() == old(self).spec_frames() && final(self).spec_taken() == old(self).spec_taken(),
            final(self).spec_ready() ==> final(self).spec_frames().len() >= 1 && final(self).spec_payload() == final(self).spec_frames().last(),
    {
        self.payload = None;
        let ghost all: Seq<u8> = self.pend@ + bytes@;
        let mut i: usize = 0;
        while i < bytes.len()
            invariant
                i <= bytes@.len(),
                self.pend@ == old(self).pend@ + bytes@.subrange(0, i as int),
                self.reader == old(self).reader,
                self.payload is None,
            decreases bytes@.len() - i,
        {
            self.pend.push(bytes[i]);
            i = i + 1;
        }
        proof {
            assert(self.pend@ =~= all);
        }
        let used = reader_recv(&mut self.reader, self.pend.as_slice());
        let mut rest: Vec<u8> = Vec::new();
        let mut j: usize = used;
        while j < self.pend.len()
            invariant
                used <= j <= self.pend@.len(),
                self.pend@ == all,
                rest@ == all.subrange(used as int, j as int),
            decreases self.pend@.len() - j,
        {
            rest.push(self.pend[j]);
            j = j + 1;
        }
        proof {
            assert(rest@ =~= all.skip(used as int));
        }
        self.pend = rest;
        if reader_is_ready(&self.reader) {
            self.payload = reader_take_load(&mut self.reader);
        }
        proof {
            assert(self.pend@ == (old(self).spec_pending() + bytes@).skip(used as int));
            assert(all.take(used as int) + all.skip(used as int) =~= all);
            assert(taken_of(self.reader) + self.pend@ =~= old(self).spec_taken() + old(self).spec_pending() + bytes@);
            if all.len() == 0 {
                assert(taken_of(self.reader) =~= old(self).spec_taken());
            }
        }
    }
}

/// Stateless-per-call framing of outbound payloads; the surrounding program
/// serializes concurrent senders around it and writes the bytes out.
pub struct FrameEncoder {
    writer: eds::Writer,
}

impl FrameEncoder {
    /// The fixed lead length every produced frame opens with.
    pub closed spec fn spec_lead(&self) -> nat {
        lead_of(self.writer)
    }

    /// Whether the codec's writer can hand out its transient buffer, which
    /// is exactly when a bounded payload will be framed.  It holds after
    /// every produced frame, so framing keeps succeeding once it has
    /// succeeded.
    pub closed spec fn spec_can_send(&self) -> bool {
        can_split_of(self.writer)
    }

    /// Builds an encoder with the given lead length.
    pub fn new(lead_len: u8) -> (r: FrameEncoder)
        ensures
            r.spec_lead() == lead_len,
    {
        FrameEncoder { writer: writer_new(lead_len) }
    }

    /// Frames one payload for the wire: succeeds exactly when the payload
    /// is within bounds and the codec's writer can hand out its buffer,
    /// and then the produced bytes are exactly the frame shape for this
    /// payload.  After a success, later bounded sends succeed too.  On
    /// refusal nothing changes (best-effort path: the caller drops the
    /// frame).
    pub fn send(&mut self, payload: &[u8]) -> (r: Option<Vec<u8>>)
        ensures
            final(self).spec_lead() == old(self).spec_lead(),
            r is Some <==> (payload@.len() <= MAX_PAYLOAD_LEN && old(self).spec_can_send()),
            r is Some ==> final(self).spec_can_send(),
            r is None ==> *final(self) == *old(self),
            r matches Some(v) ==> v@ == frame_of(old(self).spec_lead(), payload@),
    {
        if payload.len() > MAX_PAYLOAD_LEN {
            return None;
        }
        writer_encode(&mut self.writer, payload)
    }
}

/// Prefixes chain: what is a prefix of a prefix is a prefix of the whole.
proof fn lemma_prefix_trans(a: Seq<Seq<u8>>, b: Seq<Seq<u8>>, c: Seq<Seq<u8>>)
    requires
        a.is_prefix_of(b),
        b.is_prefix_of(c),
    ensures
        a.is_prefix_of(c),
{
    assert(a =~= c.subrange(0, a.len() as int));
}

/// One pass of the consumer task: drain every buffered byte from the
/// channel, feed the decoder, and poll it with empty input until the frame
/// boundary is resolved, collecting every payload that becomes ready.
/// With nothing buffered the decoder is left untouched and the caller
/// should suspend for its polling interval.  No drained byte is lost: it
/// is either consumed by the codec or still pending; and the returned
/// payloads are exactly the frames newly recognized in the consumed
/// stream, oldest first.
pub fn consumer_step(ch: &mut ByteChannel, dec: &mut FrameDecoder) -> (r: (Vec<Vec<u8>>, bool))
    requires
        old(ch).wf(),
    ensures
        final(ch).wf(),
        final(ch).capacity() == old(ch).capacity(),
        final(ch)@ == Seq::<u8>::empty(),
        r.1 == (old(ch)@.len() == 0),
        old(ch)@.len() == 0 ==> *final(dec) == *old(dec) && r.0@ == Seq::<Vec<u8>>::empty(),
        old(ch)@.len() > 0 ==> final(dec).spec_finished(),
        final(dec).spec_lead() == old(dec).spec_lead(),
        final(dec).spec_taken() + final(dec).spec_pending() == old(dec).spec_taken() + old(
            dec,
        ).spec_pending() + old(ch)@,
        old(dec).spec_frames().is_prefix_of(final(dec).spec_frames()),
        r.0@.len() == final(dec).spec_frames().len() - old(dec).spec_frames().len(),
        forall|k: int|
            0 <= k < r.0@.len() ==> r.0@[k]@ == final(dec).spec_frames()[old(
                dec,
            ).spec_frames().len() + k],
{
    let ghost base = old(dec).spec_frames();
    let drained = ch.drain();
    let mut payloads: Vec<Vec<u8>> = Vec::new();
    if drained.len() == 0 {
        proof {
            assert(payloads@ =~= Seq::<Vec<u8>>::empty());
            assert(dec.spec_taken() + dec.spec_pending() + old(ch)@ =~= dec.spec_taken()
                + dec.spec_pending());
            assert(base =~= base.subrange(0, base.len() as int));
        }
        return (payloads, true);
    }
    dec.feed(drained.as_slice());
    if dec.is_ready() {
        let v = dec.get_payload();
        payloads.push(v);
    } else {
        proof {
            assert(dec.spec_frames() =~= base);
        }
    }
    while !dec.is_finished()
        invariant
            dec.spec_ready() || dec.spec_finished(),
            dec.spec_lead() == old(dec).spec_lead(),
            dec.spec_taken() + dec.spec_pending() == old(dec).spec_taken() + old(
                dec,
            ).spec_pending() + old(ch)@,
            base.is_prefix_of(dec.spec_frames()),
            payloads@.len() == dec.spec_frames().len() - base.len(),
            forall|k: int|
                0 <= k < payloads@.len() ==> payloads@[k]@ == dec.spec_frames()[base.len() + k],
        decreases dec.spec_pending().len(),
    {
        let ghost frames_before = dec.spec_frames();
        let ghost taken_before = dec.spec_taken();
        let ghost pend_before = dec.spec_pending();
        dec.feed(&[]);
        proof {
            assert(taken_before + pend_before + Seq::<u8>::empty() =~= taken_before
                + pend_before);
            lemma_prefix_trans(base, frames_before, dec.spec_frames());
        }
        if dec.is_ready() {
            let v = dec.get_payload();
            payloads.push(v);
            proof {
                assert(dec.spec_frames().len() == frames_before.len() + 1);
                assert forall|k: int| 0 <= k < frames_before.len() implies dec.spec_frames()[k]
                    == frames_before[k] by {
                    assert(frames_before[k] == dec.spec_frames().subrange(
                        0,
                        frames_before.len() as int,
                    )[k]);
                }
            }
        } else {
            proof {
                assert(dec.spec_frames() =~= frames_before);
            }
        }
    }
    (payloads, false)
}

/// The receive interrupt's forwarding step: push every newly arrived byte
/// into the channel in arrival order, dropping (only) the bytes that do
/// not fit.  Returns how many were accepted.  No call here ever blocks.
pub fn intake(ch: &mut ByteChannel, bytes: &[u8]) -> (n: usize)
    requires
        old(ch).wf(),
    ensures
        final(ch).wf(),
        final(ch).capacity() == old(ch).capacity(),
        n == if bytes@.len() <= old(ch).capacity() - old(ch)@.len() {
            bytes@.len() as int
        } else {
            old(ch).capacity() - old(ch)@.len()
        },
        final(ch)@ == old(ch)@ + bytes@.subrange(0, n as int),
        final(ch)@ == crate::channel::send_burst(old(ch)@, bytes@, old(ch).capacity()),
{
    proof {
        old(ch).lemma_len_le_capacity();
        assert(old(ch)@ + bytes@.subrange(0, 0) =~= old(ch)@);
    }
    let mut i: usize = 0;
    let mut accepted: usize = 0;
    while i < bytes.len()
        invariant
            old(ch)@.len() <= old(ch).capacity(),
            ch.wf(),
            ch.capacity() == old(ch).capacity(),
            i <= bytes@.len(),
            accepted <= i,
            accepted == if i <= old(ch).capacity() - old(ch)@.len() {
                i as int
            } else {
                old(ch).capacity() - old(ch)@.len()
            },
            ch@ == old(ch)@ + bytes@.subrange(0, accepted as int),
        decreases bytes@.len() - i,
    {
        let ok = ch.try_send(bytes[i]);
        proof {
            if ok {
                assert(ch@ =~= old(ch)@ + bytes@.subrange(0, accepted + 1));
            }
        }
        if ok {
            accepted = accepted + 1;
        }
        i = i + 1;
    }
    proof {
        crate::channel::lemma_channel_overflow(old(ch)@, bytes@, old(ch).capacity());
    }
    accepted
}

/// Where the payload sits on the wire: bytes `lead + 3` up to the checksum
/// of any produced frame are exactly the payload that went in.
pub proof fn lemma_frame_payload_section(lead: nat, load: Seq<u8>)
    ensures
        frame_of(lead, load).subrange((lead + 3) as int, (lead + 3 + load.len()) as int) == load,
{
    assert(frame_of(lead, load).subrange((lead + 3) as int, (lead + 3 + load.len()) as int) =~= load);
}

/// Distinct payloads of one length produce distinct frames: the payload
/// section carries them verbatim, so framed packets for different values
/// never collide on the wire.
pub proof fn lemma_frame_injective(lead: nat, p1: Seq<u8>, p2: Seq<u8>)
    requires
        p1.len() == p2.len(),
        frame_of(lead, p1) == frame_of(lead, p2),
    ensures
        p1 == p2,
{
    lemma_frame_payload_section(lead, p1);
    lemma_frame_payload_section(lead, p2);
}

} // verus!
