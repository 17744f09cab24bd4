//! Framing of the record stream: each record's payload is preceded by its
//! length as four big-endian bytes.
use vstd::prelude::*;

verus! {

/// The largest payload that one frame may carry.
pub const MAX_FRAME_LEN: usize = 8 * 1024 * 1024;

/// The header of a frame: the payload length, most significant byte first.
pub open spec fn be_bytes(n: u32) -> Seq<u8> {
    seq![(n >> 24u32) as u8, (n >> 16u32) as u8, (n >> 8u32) as u8, n as u8]
}

/// The length that a four-byte header holds.
pub open spec fn be_value(b: Seq<u8>) -> u32 {
    ((b[0] as u32) << 24u32) | ((b[1] as u32) << 16u32) | ((b[2] as u32) << 8u32) | (b[3] as u32)
}

/// The frame that carries `p`.
pub open spec fn frame_of(p: Seq<u8>) -> Seq<u8> {
    be_bytes(p.len() as u32) + p
}

/// The frames of the payloads, one after another.
pub open spec fn frames_of(ps: Seq<Seq<u8>>) -> Seq<u8>
    decreases ps.len(),
{
    if ps.len() == 0 {
        Seq::empty()
    } else {
        frame_of(ps[0]) + frames_of(ps.drop_first())
    }
}

/// What the reader makes of the buffered bytes `b`: waits for more (`Ok(None)`),
/// refuses an announced length over the limit, or returns a payload and the
/// bytes after it.
pub open spec fn next_frame_of(b: Seq<u8>) -> Result<Option<(Seq<u8>, Seq<u8>)>, FrameError> {
    if b.len() < 4 {
        Ok(None)
    } else if be_value(b.subrange(0, 4)) > MAX_FRAME_LEN {
        Err(FrameError::TooLong)
    } else if b.len() < 4 + be_value(b.subrange(0, 4)) {
        Ok(None)
    } else {
        let n = be_value(b.subrange(0, 4)) as int;
        Ok(Some((b.subrange(4, 4 + n), b.subrange(4 + n, b.len() as int))))
    }
}

/// The payloads that the reader takes in turn out of the bytes `b`, up to the
/// first incomplete or refused frame.
pub open spec fn payloads_of(b: Seq<u8>) -> Seq<Seq<u8>>
    decreases b.len(),
{
    match next_frame_of(b) {
        Ok(Some((p, rest))) => if rest.len() < b.len() {
            seq![p] + payloads_of(rest)
        } else {
            Seq::empty()
        },
        _ => Seq::empty(),
    }
}

/// The bytes that are left once the reader has taken every complete frame.
pub open spec fn rest_of(b: Seq<u8>) -> Seq<u8>
    decreases b.len(),
{
    match next_frame_of(b) {
        Ok(Some((p, rest))) => if rest.len() < b.len() {
            rest_of(rest)
        } else {
            b
        },
        _ => b,
    }
}

/// Why a frame cannot be made or read.
#[derive(Clone, Copy, PartialEq, Eq, Structural, Debug)]
pub enum FrameError {
    /// The payload is longer than `MAX_FRAME_LEN`.
    TooLong,
}

proof fn lemma_be_round_trip(n: u32)
    ensures
        be_value(be_bytes(n)) == n,
{
    let b = be_bytes(n);
    assert(b[0] == (n >> 24u32) as u8);
    assert(b[1] == (n >> 16u32) as u8);
    assert(b[2] == (n >> 8u32) as u8);
    assert(b[3] == n as u8);
    assert((((n >> 24u32) as u8 as u32) << 24u32) | (((n >> 16u32) as u8 as u32) << 16u32) | (((n
        >> 8u32) as u8 as u32) << 8u32) | (n as u8 as u32) == n) by (bit_vector);
}

/// A frame of a payload within the limit is read back as that payload, and
/// the bytes after it are left as they were.
pub proof fn lemma_frame_read_back(p: Seq<u8>, rest: Seq<u8>)
    requires
        p.len() <= MAX_FRAME_LEN,
    ensures
        next_frame_of(frame_of(p) + rest) == Ok::<Option<(Seq<u8>, Seq<u8>)>, FrameError>(
            Some((p, rest)),
        ),
{
    let b = frame_of(p) + rest;
    lemma_be_round_trip(p.len() as u32);
    assert(b.subrange(0, 4) =~= be_bytes(p.len() as u32));
    assert(b.subrange(4, 4 + p.len() as int) =~= p);
    assert(b.subrange(4 + p.len() as int, b.len() as int) =~= rest);
}

/// Payloads sent one after another on one stream are read back, all of them
/// and in the order in which they were sent. Each is within `MAX_FRAME_LEN`,
/// as `encode_frame` frames no longer payload, so these are all the
/// sequences of frames that a sender can put on the stream. No byte is left
/// over once they are all read.
pub proof fn lemma_frames_in_order(ps: Seq<Seq<u8>>)
    requires
        forall|i: int| 0 <= i < ps.len() ==> (#[trigger] ps[i]).len() <= MAX_FRAME_LEN,
    ensures
        payloads_of(frames_of(ps)) == ps,
        rest_of(frames_of(ps)) == Seq::<u8>::empty(),
    decreases ps.len(),
{
    if ps.len() > 0 {
        let rest = frames_of(ps.drop_first());
        lemma_frame_read_back(ps[0], rest);
        assert(ps.drop_first().len() < ps.len());
        assert forall|i: int| 0 <= i < ps.drop_first().len() implies (#[trigger] ps.drop_first()[i]).len()
            <= MAX_FRAME_LEN by {
            assert(ps.drop_first()[i] == ps[i + 1]);
        }
        lemma_frames_in_order(ps.drop_first());
        assert(seq![ps[0]] + ps.drop_first() =~= ps);
    } else {
        assert(frames_of(ps) =~= Seq::<u8>::empty());
    }
}

/// The frame that carries `payload`, or `TooLong` where it exceeds the limit.
pub fn encode_frame(payload: &Vec<u8>) -> (r: Result<Vec<u8>, FrameError>)
    ensures
        payload@.len() <= MAX_FRAME_LEN ==> (r matches Ok(f) && f@ == frame_of(payload@)),
        payload@.len() > MAX_FRAME_LEN ==> r == Err::<Vec<u8>, FrameError>(FrameError::TooLong),
{
    if payload.len() > MAX_FRAME_LEN {
        return Err(FrameError::TooLong);
    }
    let n = payload.len() as u32;
    let mut out: Vec<u8> = Vec::new();
    out.push((n >> 24u32) as u8);
    out.push((n >> 16u32) as u8);
    out.push((n >> 8u32) as u8);
    out.push(n as u8);
    let mut i: usize = 0;
    while i < payload.len()
        invariant
            i <= payload@.len(),
            n == payload@.len(),
            out@ == be_bytes(n) + payload@.subrange(0, i as int),
        decreases payload@.len() - i,
    {
        out.push(payload[i]);
        i = i + 1;
        assert(out@ =~= be_bytes(n) + payload@.subrange(0, i as int));
    }
    assert(payload@.subrange(0, payload@.len() as int) =~= payload@);
    Ok(out)
}

/// The receiving end of one stream: the bytes that have arrived and have not
/// yet been taken as frames.
pub struct FrameReader {
    buf: Vec<u8>,
    start: usize,
}

impl View for FrameReader {
    type V = Seq<u8>;

    closed spec fn view(&self) -> Seq<u8> {
        self.buf@.subrange(self.start as int, self.buf@.len() as int)
    }
}

impl FrameReader {
    pub closed spec fn wf(&self) -> bool {
        self.start <= self.buf@.len()
    }

    /// A reader that holds no bytes.
    pub fn new() -> (r: FrameReader)
        ensures
            r.wf(),
            r@ == Seq::<u8>::empty(),
    {
        let r = FrameReader { buf: Vec::new(), start: 0 };
        assert(r@ =~= Seq::<u8>::empty());
        r
    }

    /// Appends bytes that arrived on the stream.
    pub fn push_bytes(&mut self, data: &[u8])
        requires
            old(self).wf(),
        ensures
            final(self).wf(),
            final(self)@ == old(self)@ + data@,
    {
        let mut kept: Vec<u8> = Vec::new();
        let mut i: usize = self.start;
        while i < self.buf.len()
            invariant
                self.start <= i <= self.buf@.len(),
                kept@ == self.buf@.subrange(self.start as int, i as int),
            decreases self.buf@.len() - i,
        {
            kept.push(self.buf[i]);
            i = i + 1;
            assert(kept@ =~= self.buf@.subrange(self.start as int, i as int));
        }
        let ghost held = kept@;
        let mut j: usize = 0;
        while j < data.len()
            invariant
                j <= data@.len(),
                kept@ == held + data@.subrange(0, j as int),
            decreases data@.len() - j,
        {
            kept.push(data[j]);
            j = j + 1;
            assert(kept@ =~= held + data@.subrange(0, j as int));
        }
        assert(data@.subrange(0, data@.len() as int) =~= data@);
        self.buf = kept;
        self.start = 0;
        assert(self@ =~= self.buf@);
    }

    /// Takes the next complete frame's payload, if the buffered bytes hold
    /// one; leaves the bytes as they are while a frame is incomplete, and
    /// refuses a header that announces more than `MAX_FRAME_LEN`.
    pub fn next_frame(&mut self) -> (r: Result<Option<Vec<u8>>, FrameError>)
        requires
            old(self).wf(),
        ensures
            final(self).wf(),
            next_frame_of(old(self)@) matches Ok(Some((p, rest))) ==> (r matches Ok(Some(v))
                && v@ == p && final(self)@ == rest),
            next_frame_of(old(self)@) matches Ok(None) ==> (r matches Ok(None) && final(self)@
                == old(self)@),
            next_frame_of(old(self)@) matches Err(e) ==> (r == Err::<Option<Vec<u8>>, FrameError>(e)
                && final(self)@ == old(self)@),
    {
        let ghost b = self@;
        let avail = self.buf.len() - self.start;
        if avail < 4 {
            return Ok(None);
        }
        let s = self.start;
        let n: u32 = ((self.buf[s] as u32) << 24u32) | ((self.buf[s + 1] as u32) << 16u32) | ((
        self.buf[s + 2] as u32) << 8u32) | (self.buf[s + 3] as u32);
        assert(b.subrange(0, 4) =~= seq![self.buf@[s as int], self.buf@[s + 1], self.buf@[s + 2], self.buf@[s + 3]]);
        assert(n == be_value(b.subrange(0, 4)));
        if n as usize > MAX_FRAME_LEN {
            return Err(FrameError::TooLong);
        }
        let len = n as usize;
        if avail < 4 + len {
            return Ok(None);
        }
        let mut payload: Vec<u8> = Vec::new();
        let end: usize = s + 4 + len;
        let mut i: usize = s + 4;
        while i < end
            invariant
                end == s + 4 + len,
                s + 4 <= i <= end,
                end <= self.buf@.len(),
                payload@ == self.buf@.subrange(s + 4, i as int),
            decreases end - i,
        {
            payload.push(self.buf[i]);
            i = i + 1;
            assert(payload@ =~= self.buf@.subrange(s + 4, i as int));
        }
        self.start = s + 4 + len;
        assert(payload@ =~= b.subrange(4, 4 + len as int));
        assert(self@ =~= b.subrange(4 + len as int, b.len() as int));
        Ok(Some(payload))
    }

    /// Takes every complete frame's payload, in the order in which the frames
    /// arrived, and the refusal of the header that stopped it, if one did.
    pub fn drain_frames(&mut self) -> (r: (Vec<Vec<u8>>, Option<FrameError>))
        requires
            old(self).wf(),
        ensures
            final(self).wf(),
            r.0@.map_values(|p: Vec<u8>| p@) == payloads_of(old(self)@),
            final(self)@ == rest_of(old(self)@),
            r.1 is Some <==> next_frame_of(rest_of(old(self)@)) is Err,
            r.1 matches Some(e) ==> next_frame_of(rest_of(old(self)@)) == Err::<
                Option<(Seq<u8>, Seq<u8>)>,
                FrameError,
            >(e),
    {
        let ghost start = self@;
        let mut got: Vec<Vec<u8>> = Vec::new();
        let mut error: Option<FrameError> = None;
        let mut done = false;
        while !done
            invariant
                self.wf(),
                got@.map_values(|p: Vec<u8>| p@) + payloads_of(self@) == payloads_of(start),
                rest_of(self@) == rest_of(start),
                done ==> self@ == rest_of(start),
                done ==> payloads_of(self@) == Seq::<Seq<u8>>::empty(),
                !done ==> error is None,
                done ==> (error is Some <==> next_frame_of(rest_of(start)) is Err),
                done ==> (error matches Some(e) ==> next_frame_of(rest_of(start)) == Err::<
                    Option<(Seq<u8>, Seq<u8>)>,
                    FrameError,
                >(e)),
            decreases self@.len() + (if done { 0int } else { 1int }),
        {
            let ghost before = self@;
            let ghost seen = got@.map_values(|p: Vec<u8>| p@);
            match self.next_frame() {
                Ok(Some(p)) => {
                    assert(before.len() >= 4);
                    assert(rest_of(before) == rest_of(self@));
                    got.push(p);
                    assert(got@.map_values(|p: Vec<u8>| p@) =~= seen.push(p@));
                    assert(seq![p@] + payloads_of(self@) == payloads_of(before));
                    assert(seen.push(p@) + payloads_of(self@) =~= seen + (seq![p@] + payloads_of(
                        self@,
                    )));
                },
                Ok(None) => {
                    assert(rest_of(before) == before);
                    assert(payloads_of(before) =~= Seq::<Seq<u8>>::empty());
                    assert(got@.map_values(|p: Vec<u8>| p@) + payloads_of(self@) =~= got@.map_values(
                        |p: Vec<u8>| p@,
                    ));
                    done = true;
                },
                Err(e) => {
                    assert(rest_of(before) == before);
                    assert(payloads_of(before) =~= Seq::<Seq<u8>>::empty());
                    assert(got@.map_values(|p: Vec<u8>| p@) + payloads_of(self@) =~= got@.map_values(
                        |p: Vec<u8>| p@,
                    ));
                    error = Some(e);
                    done = true;
                },
            }
        }
        assert(got@.map_values(|p: Vec<u8>| p@) + payloads_of(self@) =~= got@.map_values(
            |p: Vec<u8>| p@,
        ));
        (got, error)
    }
}

} // verus!
