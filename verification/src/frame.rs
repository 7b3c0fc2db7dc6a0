//! Framing of the incoming byte stream.
//!
//! Every message on the wire starts with a four-byte big-endian length that
//! counts the whole message, the length prefix included.  A connection's read
//! loop asks [`FrameDecoder::want`] how many bytes to read next, hands every
//! read to [`FrameDecoder::on_read`], and gets back either nothing yet, one
//! complete frame, or the reason the connection must be dropped.
use crate::chunks::concat;
use vstd::prelude::*;

verus! {

/// Number of bytes of the big-endian length prefix.
pub const LENGTH_PREFIX_LEN: usize = 4;

/// Largest message length (prefix included) a connection accepts: 10 MiB.
pub const MAX_MESSAGE_LEN: usize = 10485760;

/// Seconds a read of a message body may take before the connection is dropped.
pub const BODY_READ_TIMEOUT_SECS: u64 = 5;

/// Why a connection's read loop ends.
#[derive(Clone, Copy, Debug, PartialEq, Eq, Structural)]
pub enum ReadStop {
    /// The peer closed the connection.
    ConnectionClosed,
    /// The socket reported an error other than a clean close.
    Io,
    /// A message body did not arrive within the body deadline.
    ReadTimeout,
    /// The length prefix announced more than [`MAX_MESSAGE_LEN`] bytes.
    MessageTooLarge(usize),
    /// The length prefix announced fewer bytes than the prefix itself; no
    /// message can be read after it and the read loop ends.
    InvalidLength(usize),
}

/// The value of the big-endian length prefix at the start of `b`.
pub open spec fn declared_len(b: Seq<u8>) -> nat {
    (b[0] as nat) * 16777216 + (b[1] as nat) * 65536 + (b[2] as nat) * 256 + (b[3] as nat)
}

/// How far the bytes of a frame that have arrived so far go.
pub enum FrameStatus {
    /// More bytes are needed.
    Partial,
    /// The prefix's length has been reached.
    Complete,
    /// The prefix announces a message longer than the limit.
    TooLarge(nat),
    /// The prefix announces a message shorter than the prefix.
    TooShort(nat),
}

/// Status of `b`, the bytes received since the current frame began.
pub open spec fn frame_status(b: Seq<u8>) -> FrameStatus {
    if b.len() < LENGTH_PREFIX_LEN {
        FrameStatus::Partial
    } else if declared_len(b) > MAX_MESSAGE_LEN {
        FrameStatus::TooLarge(declared_len(b))
    } else if declared_len(b) < LENGTH_PREFIX_LEN {
        FrameStatus::TooShort(declared_len(b))
    } else if b.len() < declared_len(b) {
        FrameStatus::Partial
    } else {
        FrameStatus::Complete
    }
}

/// How many more bytes the frame begun by `b` needs.
pub open spec fn bytes_wanted(b: Seq<u8>) -> nat {
    if b.len() < LENGTH_PREFIX_LEN {
        (LENGTH_PREFIX_LEN - b.len()) as nat
    } else {
        (declared_len(b) - b.len()) as nat
    }
}

/// What a read contributes, in spec terms.
pub enum FrameOutcome {
    Pending,
    Frame(Seq<u8>),
    Stop(ReadStop),
}

/// The buffered bytes and the outcome after `x` arrives on top of `b`.
pub open spec fn absorb(b: Seq<u8>, x: Seq<u8>) -> (Seq<u8>, FrameOutcome) {
    let n = b + x;
    match frame_status(n) {
        FrameStatus::Partial => (n, FrameOutcome::Pending),
        FrameStatus::Complete => (Seq::empty(), FrameOutcome::Frame(n)),
        FrameStatus::TooLarge(l) => (n, FrameOutcome::Stop(ReadStop::MessageTooLarge(l as usize))),
        FrameStatus::TooShort(l) => (n, FrameOutcome::Stop(ReadStop::InvalidLength(l as usize))),
    }
}

/// What a read loop makes of a whole stream: the frames it delivers, in
/// order, and how it ends.
pub struct StreamDecode {
    pub frames: Seq<Seq<u8>>,
    pub end: StreamEnd,
}

/// How the decoding of a stream ends.
pub enum StreamEnd {
    /// The stream ends inside a frame whose bytes so far are given.
    Partial(Seq<u8>),
    /// The read loop stops for the given reason.
    Stop(ReadStop),
}

/// The frames of a stream, cut by their length prefixes.
pub open spec fn decode_stream(s: Seq<u8>) -> StreamDecode
    decreases s.len(),
{
    match frame_status(s) {
        FrameStatus::Partial => StreamDecode { frames: Seq::empty(), end: StreamEnd::Partial(s) },
        FrameStatus::TooLarge(l) => StreamDecode {
            frames: Seq::empty(),
            end: StreamEnd::Stop(ReadStop::MessageTooLarge(l as usize)),
        },
        FrameStatus::TooShort(l) => StreamDecode {
            frames: Seq::empty(),
            end: StreamEnd::Stop(ReadStop::InvalidLength(l as usize)),
        },
        FrameStatus::Complete => {
            let l = declared_len(s) as int;
            let rest = decode_stream(s.skip(l));
            StreamDecode { frames: seq![s.take(l)] + rest.frames, end: rest.end }
        },
    }
}

/// What a read loop makes of the reads `pieces`, starting with `b` buffered.
pub open spec fn feed_pieces(b: Seq<u8>, pieces: Seq<Seq<u8>>) -> StreamDecode
    decreases pieces.len(),
{
    if pieces.len() == 0 {
        StreamDecode { frames: Seq::empty(), end: StreamEnd::Partial(b) }
    } else {
        let (nb, out) = absorb(b, pieces[0]);
        match out {
            FrameOutcome::Pending => feed_pieces(nb, pieces.drop_first()),
            FrameOutcome::Frame(f) => {
                let rest = feed_pieces(Seq::empty(), pieces.drop_first());
                StreamDecode { frames: seq![f] + rest.frames, end: rest.end }
            },
            FrameOutcome::Stop(s) => StreamDecode { frames: Seq::empty(), end: StreamEnd::Stop(s) },
        }
    }
}

/// Every read in `pieces` is non-empty and no longer than the decoder asked
/// for at that point, as a read loop that reads into a buffer of
/// [`FrameDecoder::want`] bytes guarantees.
pub open spec fn pieces_fit(b: Seq<u8>, pieces: Seq<Seq<u8>>) -> bool
    decreases pieces.len(),
{
    if pieces.len() == 0 {
        true
    } else {
        &&& 1 <= pieces[0].len() <= bytes_wanted(b)
        &&& {
            let (nb, out) = absorb(b, pieces[0]);
            match out {
                FrameOutcome::Pending => pieces_fit(nb, pieces.drop_first()),
                FrameOutcome::Frame(_) => pieces_fit(Seq::empty(), pieces.drop_first()),
                FrameOutcome::Stop(_) => true,
            }
        }
    }
}

/// A complete, acceptable frame: its prefix announces its own length.
pub open spec fn is_frame(f: Seq<u8>) -> bool {
    &&& LENGTH_PREFIX_LEN <= f.len() <= MAX_MESSAGE_LEN
    &&& declared_len(f) == f.len()
}

proof fn lemma_declared_len_prefix(a: Seq<u8>, c: Seq<u8>)
    requires
        a.len() >= LENGTH_PREFIX_LEN,
    ensures
        declared_len(a + c) == declared_len(a),
{
    assert((a + c)[0] == a[0]);
    assert((a + c)[1] == a[1]);
    assert((a + c)[2] == a[2]);
    assert((a + c)[3] == a[3]);
}

/// Fragmentation does not matter: whatever way a stream arrives in reads
/// that each fit what the decoder asked for, the decoder delivers exactly the
/// frames that the stream's length prefixes cut it into, in order, and ends
/// as the stream does.
pub proof fn lemma_fragmentation_independent(b: Seq<u8>, pieces: Seq<Seq<u8>>)
    requires
        frame_status(b) is Partial,
        pieces_fit(b, pieces),
    ensures
        feed_pieces(b, pieces) == decode_stream(b + concat(pieces)),
    decreases pieces.len(),
{
    if pieces.len() == 0 {
        assert(b + concat(pieces) =~= b);
    } else {
        let p = pieces[0];
        let rest = pieces.drop_first();
        let n = b + p;
        let sr = concat(rest);
        assert(b + concat(pieces) =~= n + sr);
        let (nb, out) = absorb(b, p);
        if n.len() >= LENGTH_PREFIX_LEN {
            lemma_declared_len_prefix(n, sr);
            if b.len() >= LENGTH_PREFIX_LEN {
                lemma_declared_len_prefix(b, p);
            }
        }
        match out {
            FrameOutcome::Pending => {
                lemma_fragmentation_independent(n, rest);
            },
            FrameOutcome::Frame(f) => {
                assert(n.len() == declared_len(n));
                let l = declared_len(n) as int;
                assert((n + sr).take(l) =~= n);
                assert((n + sr).skip(l) =~= sr);
                assert(Seq::<u8>::empty() + sr =~= sr);
                lemma_fragmentation_independent(Seq::empty(), rest);
            },
            FrameOutcome::Stop(_) => {},
        }
    }
}

/// Every frame cut out of a stream is well-formed: its prefix announces its
/// own length, which lies within the limits.
pub proof fn lemma_stream_frames_well_formed(s: Seq<u8>)
    ensures
        forall|i: int|
            0 <= i < decode_stream(s).frames.len() ==> is_frame(#[trigger] decode_stream(s).frames[i]),
    decreases s.len(),
{
    if frame_status(s) is Complete {
        let l = declared_len(s) as int;
        lemma_stream_frames_well_formed(s.skip(l));
        let f = s.take(l);
        assert(f[0] == s[0] && f[1] == s[1] && f[2] == s[2] && f[3] == s[3]);
        let d = decode_stream(s);
        let rest = decode_stream(s.skip(l));
        assert forall|i: int| 0 <= i < d.frames.len() implies is_frame(#[trigger] d.frames[i]) by {
            if i > 0 {
                assert(d.frames[i] == rest.frames[i - 1]);
            }
        }
    }
}

/// A well-formed frame at the head of a stream is delivered whole, before
/// whatever follows it.
pub proof fn lemma_frame_delivered_whole(f: Seq<u8>, s: Seq<u8>)
    requires
        is_frame(f),
    ensures
        decode_stream(f + s).frames == seq![f] + decode_stream(s).frames,
        decode_stream(f + s).end == decode_stream(s).end,
{
    lemma_declared_len_prefix(f, s);
    let l = f.len() as int;
    assert((f + s).take(l) =~= f);
    assert((f + s).skip(l) =~= s);
}

/// `b` starts with the four-byte big-endian encoding of `n`.
pub open spec fn starts_with_be(b: Seq<u8>, n: nat) -> bool {
    &&& b.len() >= LENGTH_PREFIX_LEN
    &&& b[0] as nat == n / 16777216
    &&& b[1] as nat == (n / 65536) % 256
    &&& b[2] as nat == (n / 256) % 256
    &&& b[3] as nat == n % 256
}

/// A length prefix announces the full 32-bit big-endian value of its four
/// bytes: whatever `n` below 2^32 is encoded, that is the length read back.
pub proof fn lemma_prefix_reads_back(b: Seq<u8>, n: nat)
    requires
        n < 4294967296,
        starts_with_be(b, n),
    ensures
        declared_len(b) == n,
{
    assert(n == 16777216 * (n / 16777216) + n % 16777216) by (nonlinear_arith);
    assert(n % 16777216 == 65536 * ((n / 65536) % 256) + n % 65536) by (nonlinear_arith);
    assert(n % 65536 == 256 * ((n / 256) % 256) + n % 256) by (nonlinear_arith);
}

/// A message of any acceptable length `n`, sent as the big-endian encoding
/// of `n` followed by `n - 4` bytes, is one well-formed frame: once its
/// prefix is in the decoder asks for exactly the `n - 4` remaining bytes,
/// and the stream delivers the whole message, prefix included, as one frame
/// before whatever follows.
pub proof fn lemma_encoded_length_frames(f: Seq<u8>, n: nat, s: Seq<u8>)
    requires
        LENGTH_PREFIX_LEN <= n <= MAX_MESSAGE_LEN,
        f.len() == n,
        starts_with_be(f, n),
    ensures
        is_frame(f),
        frame_status(f.take(LENGTH_PREFIX_LEN as int)) is Partial || n == LENGTH_PREFIX_LEN,
        bytes_wanted(f.take(LENGTH_PREFIX_LEN as int)) == n - LENGTH_PREFIX_LEN,
        decode_stream(f + s).frames == seq![f] + decode_stream(s).frames,
        decode_stream(f + s).end == decode_stream(s).end,
{
    lemma_prefix_reads_back(f, n);
    let p = f.take(LENGTH_PREFIX_LEN as int);
    assert(p[0] == f[0] && p[1] == f[1] && p[2] == f[2] && p[3] == f[3]);
    assert(declared_len(p) == n);
    lemma_frame_delivered_whole(f, s);
}

/// Every proper, non-empty prefix of a well-formed frame is still pending,
/// and asks for exactly the bytes that complete the frame.
pub proof fn lemma_frame_prefix_pending(f: Seq<u8>, k: int)
    requires
        is_frame(f),
        0 <= k < f.len(),
    ensures
        frame_status(f.take(k)) is Partial,
        k >= LENGTH_PREFIX_LEN ==> bytes_wanted(f.take(k)) == f.len() - k,
{
    if k >= LENGTH_PREFIX_LEN {
        assert(f.take(k)[0] == f[0]);
        assert(f.take(k)[1] == f[1]);
        assert(f.take(k)[2] == f[2]);
        assert(f.take(k)[3] == f[3]);
    }
}

/// A read buffer for one connection: the bytes of the frame being received.
pub struct FrameDecoder {
    buffer: Vec<u8>,
}

impl View for FrameDecoder {
    type V = Seq<u8>;

    closed spec fn view(&self) -> Seq<u8> {
        self.buffer@
    }
}

/// The view of a read's outcome.
pub open spec fn outcome_view(o: ReadOutcome) -> FrameOutcome {
    match o {
        ReadOutcome::Pending => FrameOutcome::Pending,
        ReadOutcome::Frame(f) => FrameOutcome::Frame(f@),
        ReadOutcome::Stop(s) => FrameOutcome::Stop(s),
    }
}

/// What one read contributes.
#[derive(Debug)]
pub enum ReadOutcome {
    /// The frame is not complete yet.
    Pending,
    /// A complete frame, prefix included.
    Frame(Vec<u8>),
    /// The read loop must end.
    Stop(ReadStop),
}

impl FrameDecoder {
    /// The decoder holds the bytes of a frame still being received.
    pub open spec fn wf(&self) -> bool {
        frame_status(self@) is Partial
    }

    /// A decoder at the start of a frame.
    pub fn new() -> (d: Self)
        ensures
            d@ == Seq::<u8>::empty(),
            d.wf(),
    {
        FrameDecoder { buffer: Vec::new() }
    }

    fn prefix_len(&self) -> (l: u64)
        requires
            self@.len() >= LENGTH_PREFIX_LEN,
        ensures
            l == declared_len(self@),
    {
        (self.buffer[0] as u64) * 16777216 + (self.buffer[1] as u64) * 65536 + (self.buffer[2] as u64)
            * 256 + (self.buffer[3] as u64)
    }

    /// How many bytes the next read may bring: the rest of the length prefix,
    /// or the rest of the message body.
    pub fn want(&self) -> (n: usize)
        requires
            self.wf(),
        ensures
            n == bytes_wanted(self@),
            n >= 1,
    {
        let len = self.buffer.len();
        if len < LENGTH_PREFIX_LEN {
            LENGTH_PREFIX_LEN - len
        } else {
            let l = self.prefix_len();
            (l as usize) - len
        }
    }

    /// Whether the prefix is complete, so that the next read belongs to the
    /// message body and runs under the [`BODY_READ_TIMEOUT_SECS`] deadline.
    pub fn reading_body(&self) -> (b: bool)
        ensures
            b == (self@.len() >= LENGTH_PREFIX_LEN),
    {
        self.buffer.len() >= LENGTH_PREFIX_LEN
    }

    /// Takes the bytes of one read.  An empty read means the peer closed the
    /// connection.  A completed frame is handed out and the decoder starts
    /// over; a prefix out of bounds stops the loop.
    pub fn on_read(&mut self, bytes: &[u8]) -> (out: ReadOutcome)
        requires
            old(self).wf(),
            bytes@.len() <= bytes_wanted(old(self)@),
        ensures
            bytes@.len() == 0 ==> out == ReadOutcome::Stop(ReadStop::ConnectionClosed) && final(self)@
                == old(self)@,
            bytes@.len() > 0 ==> (final(self)@, outcome_view(out)) == absorb(old(self)@, bytes@),
            out is Pending || out is Frame ==> final(self).wf(),
            out matches ReadOutcome::Frame(f) ==> is_frame(f@),
    {
        if bytes.len() == 0 {
            return ReadOutcome::Stop(ReadStop::ConnectionClosed);
        }
        let ghost b0 = self@;
        let mut i: usize = 0;
        while i < bytes.len()
            invariant
                i <= bytes@.len(),
                self@ == b0 + bytes@.take(i as int),
            decreases bytes@.len() - i,
        {
            self.buffer.push(bytes[i]);
            i = i + 1;
            assert(self@ =~= b0 + bytes@.take(i as int));
        }
        assert(bytes@.take(i as int) =~= bytes@);
        proof {
            if b0.len() >= LENGTH_PREFIX_LEN {
                lemma_declared_len_prefix(b0, bytes@);
            }
        }
        if self.buffer.len() < LENGTH_PREFIX_LEN {
            return ReadOutcome::Pending;
        }
        let l = self.prefix_len();
        if l > MAX_MESSAGE_LEN as u64 {
            return ReadOutcome::Stop(ReadStop::MessageTooLarge(l as usize));
        }
        if l < LENGTH_PREFIX_LEN as u64 {
            return ReadOutcome::Stop(ReadStop::InvalidLength(l as usize));
        }
        if (self.buffer.len() as u64) < l {
            return ReadOutcome::Pending;
        }
        let mut frame: Vec<u8> = Vec::new();
        std::mem::swap(&mut frame, &mut self.buffer);
        ReadOutcome::Frame(frame)
    }

    /// The reason to end the loop when a read fails.  While the prefix is
    /// being read an unexpected end of file counts as a closed connection;
    /// any other failure, and any failure while reading a body, is an I/O
    /// error.
    pub fn on_read_error(&self, unexpected_eof: bool) -> (s: ReadStop)
        ensures
            s == (if self@.len() < LENGTH_PREFIX_LEN && unexpected_eof {
                ReadStop::ConnectionClosed
            } else {
                ReadStop::Io
            }),
    {
        if self.buffer.len() < LENGTH_PREFIX_LEN && unexpected_eof {
            ReadStop::ConnectionClosed
        } else {
            ReadStop::Io
        }
    }
}

} // verus!
