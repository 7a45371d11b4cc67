//! Framing of messages inside a byte stream: every frame is its payload
//! followed by the terminator CR LF CR LF.
use vstd::prelude::*;

verus! {

pub const CR: u8 = 13;

pub const LF: u8 = 10;

/// The bytes that close every frame on the wire.
pub open spec fn terminator() -> Seq<u8> {
    seq![CR, LF, CR, LF]
}

/// `s` holds a complete terminator starting at position `i`.
pub open spec fn terminator_at(s: Seq<u8>, i: int) -> bool {
    0 <= i && i + 4 <= s.len() && s[i] == CR && s[i + 1] == LF && s[i + 2] == CR && s[i + 3] == LF
}

/// No terminator occurs anywhere in `s`.
pub open spec fn free_of_terminator(s: Seq<u8>) -> bool {
    forall|i: int| !#[trigger] terminator_at(s, i)
}

/// `s` ends with CR LF.
pub open spec fn ends_with_crlf(s: Seq<u8>) -> bool {
    s.len() >= 2 && s[s.len() - 2] == CR && s[s.len() - 1] == LF
}

/// `p` is the first frame of `s`: exactly the bytes of `s` before its first terminator.
pub open spec fn is_first_frame(s: Seq<u8>, p: Seq<u8>) -> bool {
    &&& terminator_at(s, p.len() as int)
    &&& s.take(p.len() as int) == p
    &&& forall|i: int| 0 <= i < p.len() ==> !#[trigger] terminator_at(s, i)
}

/// What goes on the wire for payload `p`.
pub open spec fn encoded(p: Seq<u8>) -> Seq<u8> {
    p + terminator()
}

/// How many bytes at the end of `s` form the start of a terminator (the longest such tail, below four).
pub open spec fn pending_len(s: Seq<u8>) -> nat {
    let n = s.len() as int;
    if n >= 3 && s[n - 3] == CR && s[n - 2] == LF && s[n - 1] == CR {
        3
    } else if n >= 2 && s[n - 2] == CR && s[n - 1] == LF {
        2
    } else if n >= 1 && s[n - 1] == CR {
        1
    } else {
        0
    }
}

/// Appends the terminator to a payload, giving the bytes to write in one operation.
pub fn encode_frame(payload: &[u8]) -> (r: Vec<u8>)
    ensures
        r@ == encoded(payload@),
{
    let mut r: Vec<u8> = Vec::new();
    let mut i: usize = 0;
    while i < payload.len()
        invariant
            i <= payload@.len(),
            r@ == payload@.take(i as int),
        decreases payload@.len() - i,
    {
        r.push(payload[i]);
        i = i + 1;
        assert(r@ == payload@.take(i as int));
    }
    r.push(CR);
    r.push(LF);
    r.push(CR);
    r.push(LF);
    assert(payload@.take(payload@.len() as int) == payload@);
    assert(r@ == encoded(payload@));
    r
}

/// Byte-at-a-time scanner for frames. Its view is every byte pushed since the
/// last complete frame.
pub struct FrameDecoder {
    matched: u8,
    settled: Vec<u8>,
    seen: Ghost<Seq<u8>>,
}

impl View for FrameDecoder {
    type V = Seq<u8>;

    closed spec fn view(&self) -> Seq<u8> {
        self.seen@
    }
}

impl FrameDecoder {
    /// The bytes seen are the settled bytes followed by the pending start of a
    /// terminator, and no terminator has been seen yet.
    pub closed spec fn wf(&self) -> bool {
        &&& self.matched as nat == pending_len(self.seen@)
        &&& self.settled@ + terminator().take(self.matched as int) == self.seen@
        &&& free_of_terminator(self.seen@)
    }

    /// A decoder that has seen nothing yet.
    pub fn new() -> (r: FrameDecoder)
        ensures
            r.wf(),
            r@ == Seq::<u8>::empty(),
    {
        let r = FrameDecoder { matched: 0, settled: Vec::new(), seen: Ghost(Seq::empty()) };
        assert(r.settled@ + terminator().take(0) == r.seen@);
        r
    }

    /// Feeds one byte. Returns the frame once its terminator is complete; the
    /// decoder then starts afresh.
    pub fn push(&mut self, b: u8) -> (r: Option<Vec<u8>>)
        requires
            old(self).wf(),
        ensures
            final(self).wf(),
            match r {
                Some(p) => {
                    &&& is_first_frame(old(self)@.push(b), p@)
                    &&& old(self)@.push(b) == encoded(p@)
                    &&& final(self)@ == Seq::<u8>::empty()
                },
                None => final(self)@ == old(self)@.push(b) && free_of_terminator(final(self)@),
            },
    {
        let ghost s = self.seen@;
        let ghost t = s.push(b);
        let ghost n = s.len() as int;
        proof {
            assert(self.settled@ + terminator().take(self.matched as int) == s);
            assert(s.len() == self.settled@.len() + self.matched);
            if self.matched >= 1 {
                assert(s[n - 1] == terminator()[self.matched - 1]);
            }
            if self.matched >= 2 {
                assert(s[n - 2] == terminator()[self.matched - 2]);
            }
            if self.matched >= 3 {
                assert(s[n - 3] == terminator()[self.matched - 3]);
            }
            assert forall|i: int| i + 4 <= s.len() implies !terminator_at(t, i) by {
                if terminator_at(t, i) {
                    assert(terminator_at(s, i));
                }
            }
        }
        if self.matched == 3 && b == LF {
            let mut frame: Vec<u8> = Vec::new();
            core::mem::swap(&mut frame, &mut self.settled);
            self.matched = 0;
            self.seen = Ghost(Seq::empty());
            proof {
                let p = frame@;
                assert(terminator().take(3) == seq![CR, LF, CR]);
                assert(p.len() == n - 3);
                assert(terminator_at(t, p.len() as int));
                assert(t.take(p.len() as int) == p);
                assert(t == encoded(p));
                assert forall|i: int| 0 <= i < p.len() implies !#[trigger] terminator_at(t, i) by {
                    if terminator_at(t, i) {
                        assert(terminator_at(s, i));
                    }
                }
                assert(self.settled@ + terminator().take(0) == self.seen@);
            }
            return Some(frame);
        }
        if b == CR {
            if self.matched == 1 {
                self.settled.push(CR);
            } else if self.matched == 3 {
                self.settled.push(CR);
                self.settled.push(LF);
                self.settled.push(CR);
                self.matched = 1;
            } else {
                self.matched = self.matched + 1;
            }
        } else if b == LF && self.matched == 1 {
            self.matched = 2;
        } else {
            if self.matched >= 1 {
                self.settled.push(CR);
            }
            if self.matched >= 2 {
                self.settled.push(LF);
            }
            if self.matched >= 3 {
                self.settled.push(CR);
            }
            self.settled.push(b);
            self.matched = 0;
        }
        self.seen = Ghost(t);
        proof {
            assert(self.settled@ + terminator().take(self.matched as int) =~= t);
            assert forall|i: int| !#[trigger] terminator_at(t, i) by {
                if terminator_at(t, i) && i + 4 > s.len() {
                    assert(i == n - 3);
                }
            }
        }
        None
    }
}

/// What one attempt to read a byte from the stream gave.
pub enum ReadEvent {
    /// One byte arrived.
    Byte(u8),
    /// The read returned no data.
    Empty,
    /// A non-blocking stream has nothing yet.
    WouldBlock,
    /// Any other failure of the stream.
    Failed,
}

/// What the reading loop does next.
pub enum ReadAction {
    /// Read again at once.
    Continue,
    /// Sleep the polling interval, then read again.
    Wait,
    /// A complete frame: hand it on.
    Deliver(Vec<u8>),
    /// Stop reading and report the failure.
    Abort,
}

impl FrameDecoder {
    /// One step of the reading loop: a byte goes to the scanner, no data is
    /// retried, a would-block waits, and any other failure aborts. Only a
    /// byte changes what was seen.
    pub fn on_read(&mut self, ev: ReadEvent) -> (r: ReadAction)
        requires
            old(self).wf(),
        ensures
            final(self).wf(),
            match ev {
                ReadEvent::Byte(b) => match r {
                    ReadAction::Deliver(p) => {
                        &&& is_first_frame(old(self)@.push(b), p@)
                        &&& old(self)@.push(b) == encoded(p@)
                        &&& final(self)@ == Seq::<u8>::empty()
                    },
                    ReadAction::Continue => final(self)@ == old(self)@.push(b) && free_of_terminator(
                        final(self)@,
                    ),
                    _ => false,
                },
                ReadEvent::Empty => r is Continue && final(self)@ == old(self)@,
                ReadEvent::WouldBlock => r is Wait && final(self)@ == old(self)@,
                ReadEvent::Failed => r is Abort && final(self)@ == old(self)@,
            },
    {
        match ev {
            ReadEvent::Byte(b) => match self.push(b) {
                Some(p) => ReadAction::Deliver(p),
                None => ReadAction::Continue,
            },
            ReadEvent::Empty => ReadAction::Continue,
            ReadEvent::WouldBlock => ReadAction::Wait,
            ReadEvent::Failed => ReadAction::Abort,
        }
    }
}

/// Scans `bytes` for its first frame. On success returns the frame and the
/// number of bytes it took on the wire, terminator included.
pub fn decode_frame(bytes: &[u8]) -> (r: Option<(Vec<u8>, usize)>)
    ensures
        match r {
            Some((p, n)) => is_first_frame(bytes@, p@) && n == p@.len() + 4,
            None => free_of_terminator(bytes@),
        },
{
    let mut dec = FrameDecoder::new();
    let mut i: usize = 0;
    while i < bytes.len()
        invariant
            i <= bytes@.len(),
            dec.wf(),
            dec@ == bytes@.take(i as int),
        decreases bytes@.len() - i,
    {
        let ghost before = dec@;
        let got = dec.push(bytes[i]);
        proof {
            assert(before.push(bytes@[i as int]) == bytes@.take(i + 1));
        }
        match got {
            Some(p) => {
                proof {
                    lemma_first_frame_of_prefix(bytes@, (i + 1) as int, p@);
                    assert(bytes@.take(i + 1).len() == p@.len() + 4);
                }
                return Some((p, i + 1));
            },
            None => {},
        }
        i = i + 1;
    }
    assert(bytes@.take(bytes@.len() as int) == bytes@);
    None
}

/// A frame found in a prefix of `s` is the first frame of `s` too.
pub proof fn lemma_first_frame_of_prefix(s: Seq<u8>, k: int, p: Seq<u8>)
    requires
        0 <= k <= s.len(),
        is_first_frame(s.take(k), p),
    ensures
        is_first_frame(s, p),
{
    let u = s.take(k);
    assert(terminator_at(u, p.len() as int));
    assert(s.take(p.len() as int) == u.take(p.len() as int));
    assert forall|i: int| 0 <= i < p.len() implies !#[trigger] terminator_at(s, i) by {
        if terminator_at(s, i) {
            assert(terminator_at(u, i));
        }
    }
}

/// A byte sequence has at most one first frame.
pub proof fn lemma_first_frame_unique(s: Seq<u8>, p: Seq<u8>, q: Seq<u8>)
    requires
        is_first_frame(s, p),
        is_first_frame(s, q),
    ensures
        p == q,
{
    if p.len() < q.len() {
        assert(terminator_at(s, p.len() as int));
    } else if q.len() < p.len() {
        assert(terminator_at(s, q.len() as int));
    }
}

/// Round trip: decoding the encoding of a payload gives back that payload,
/// and nothing else, whenever the payload holds no terminator and does not
/// end in CR LF (the two bytes would then close the frame early).
pub proof fn lemma_decode_encode(p: Seq<u8>)
    requires
        free_of_terminator(p),
        !ends_with_crlf(p),
    ensures
        is_first_frame(encoded(p), p),
        forall|q: Seq<u8>| is_first_frame(encoded(p), q) ==> q == p,
{
    let s = encoded(p);
    let n = p.len() as int;
    assert(s.take(n) == p);
    assert(terminator_at(s, n));
    assert forall|i: int| 0 <= i < n implies !#[trigger] terminator_at(s, i) by {
        if terminator_at(s, i) {
            if i + 4 <= n {
                assert(terminator_at(p, i));
            } else if i == n - 2 {
                assert(ends_with_crlf(p));
            }
        }
    }
    assert forall|q: Seq<u8>| is_first_frame(s, q) implies q == p by {
        lemma_first_frame_unique(s, p, q);
    }
}

/// No byte before the first terminator is dropped: however the input mixes
/// partial terminators with other bytes, the decoded frame is exactly the
/// input up to its first complete terminator.
pub proof fn lemma_no_byte_dropped(a: Seq<u8>, rest: Seq<u8>)
    requires
        free_of_terminator(a),
        !ends_with_crlf(a),
    ensures
        is_first_frame(a + terminator() + rest, a),
{
    lemma_decode_encode(a);
    let s = a + terminator() + rest;
    assert(s.take(a.len() + 4 as int) == encoded(a));
    lemma_first_frame_of_prefix(s, a.len() + 4 as int, a);
}

/// Nothing is lost around a frame: the input is exactly its first frame,
/// the terminator, and the bytes that follow.
pub proof fn lemma_frame_splits_input(s: Seq<u8>, p: Seq<u8>)
    requires
        is_first_frame(s, p),
    ensures
        s == p + terminator() + s.skip(p.len() + 4 as int),
{
    assert(s =~= p + terminator() + s.skip(p.len() + 4 as int));
}

} // verus!
