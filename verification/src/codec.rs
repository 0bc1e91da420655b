//! The session between client and server: what is negotiated, the decisions of
//! the handshake, the contract of a content source, and frame pacing.
//!
//! Nothing here touches a connection. The caller sends and reads; this module
//! decides what to send, what a reply means, and how long to wait.

use vstd::prelude::*;
use crate::pixelcollector::{compress_request, CompressionKind};
use crate::window::Window;

verus! {

/// The longest reply to the size request that is read.
pub const SIZE_REPLY_LIMIT: usize = 128;

/// The length of the buffer that the compression acknowledgement is read into.
pub const ACK_REPLY_LIMIT: usize = 12;

/// The pause, in microseconds, that a source with no rhythm of its own asks for
/// between frames.
pub const MINIMAL_INTERVAL: u64 = 1000;

/// What the user asked for: a compression codec, if any, and the record form.
#[derive(Clone, Copy, Debug)]
pub struct CodecOptions {
    pub compression_kind: Option<CompressionKind>,
    pub binary_px: bool,
}

/// The negotiated state of a session: canvas dimensions and protocol options.
/// It is a plain value, copied into whatever needs it.
#[derive(Clone, Copy, Debug)]
pub struct CodecData {
    pub window: Window,
    pub options: CodecOptions,
}

/// Why a session could not be set up.
#[derive(Debug)]
pub enum SetupError {
    /// The connection failed.
    IoError(std::io::Error),
    /// The reply to the size request was malformed.
    SizeParseError(String),
    /// The server did not acknowledge compression.
    EnableCompressionError,
    /// The content source could not prepare its frames.
    DataProducerError(String),
}

impl From<std::io::Error> for SetupError {
    fn from(err: std::io::Error) -> (e: SetupError) {
        SetupError::IoError(err)
    }
}

impl vstd::std_specs::convert::FromSpecImpl<std::io::Error> for SetupError {
    open spec fn obeys_from_spec() -> bool {
        true
    }

    open spec fn from_spec(err: std::io::Error) -> SetupError {
        SetupError::IoError(err)
    }
}

/// Why streaming ended early.
#[derive(Debug)]
pub enum RunError {
    /// The content source has nothing further.
    ClientDataFinished,
    /// The connection, or the compressor, failed.
    Io(std::io::Error),
}

impl From<std::io::Error> for RunError {
    fn from(err: std::io::Error) -> (e: RunError) {
        RunError::Io(err)
    }
}

impl vstd::std_specs::convert::FromSpecImpl<std::io::Error> for RunError {
    open spec fn obeys_from_spec() -> bool {
        true
    }

    open spec fn from_spec(err: std::io::Error) -> RunError {
        RunError::Io(err)
    }
}

/// A producer of frames.
///
/// `do_setup` prepares the source for a session. `get_next_data` hands out the
/// next frame, together with the interval in microseconds to pace it to;
/// no interval means that this frame is the last.
pub trait DataProducer {
    /// Whether a source in the state `self`, asked for its next frame, may
    /// give `answer` and be in the state `after` then. Each source says here
    /// what its `get_next_data` does; a source that says nothing admits every
    /// answer.
    open spec fn hands_out(
        &self,
        after: &Self,
        answer: Result<(Vec<u8>, Option<u64>), RunError>,
    ) -> bool {
        true
    }

    /// Whether a source in the state `self`, set up for the session `codec`,
    /// may give `answer` and be in the state `after` then. Each source says
    /// here what its `do_setup` does; a source that says nothing admits every
    /// answer.
    open spec fn sets_up(&self, after: &Self, codec: CodecData, answer: Result<(), String>) -> bool {
        true
    }

    fn do_setup(&mut self, codec: &CodecData) -> (res: Result<(), String>)
        ensures
            old(self).sets_up(final(self), *codec, res),
    ;

    fn get_next_data(&mut self) -> (res: Result<(Vec<u8>, Option<u64>), RunError>)
        ensures
            old(self).hands_out(final(self), res),
    ;
}

/// What is wrong with a reply to the size request.
#[derive(Clone, Copy, Debug, PartialEq, Eq, Structural)]
pub enum SizeFault {
    /// The reply is not text.
    Undecodable,
    /// The reply has fewer than three parts.
    TooFewParts,
    /// The second or third part is no unsigned number.
    BadNumber,
}

/// The bytes of `SIZE` followed by a line feed.
pub open spec fn size_request() -> Seq<u8> {
    seq![0x53u8, 0x49u8, 0x5Au8, 0x45u8, 0x0Au8]
}

/// `s` without one trailing line feed and then one trailing carriage return,
/// where it has them.
pub open spec fn stripped(s: Seq<u8>) -> Seq<u8> {
    let a = if s.len() > 0 && s.last() == 0x0Au8 {
        s.drop_last()
    } else {
        s
    };
    if a.len() > 0 && a.last() == 0x0Du8 {
        a.drop_last()
    } else {
        a
    }
}

/// The index of the first space in `line` at or after `from`, or the length
/// of `line` where there is none.
pub open spec fn token_end(line: Seq<u8>, from: int) -> int
    decreases line.len() - from,
{
    if from >= line.len() {
        line.len() as int
    } else if line[from] == 0x20u8 {
        from
    } else {
        token_end(line, from + 1)
    }
}

/// The second and third of the parts that single spaces divide `line` into,
/// where it has at least three parts.
pub open spec fn size_fields(line: Seq<u8>) -> Option<(Seq<u8>, Seq<u8>)> {
    let e0 = token_end(line, 0);
    if e0 >= line.len() {
        None
    } else {
        let e1 = token_end(line, e0 + 1);
        if e1 >= line.len() {
            None
        } else {
            let e2 = token_end(line, e1 + 1);
            Some((line.subrange(e0 + 1, e1), line.subrange(e1 + 1, e2)))
        }
    }
}

/// Whether every byte of `s` is a decimal digit.
pub open spec fn all_digits(s: Seq<u8>) -> bool {
    forall|i: int| 0 <= i < s.len() ==> 48 <= #[trigger] s[i] <= 57
}

/// The number that a run of decimal digits denotes.
pub open spec fn digits_value(s: Seq<u8>) -> nat
    decreases s.len(),
{
    if s.len() == 0 {
        0
    } else {
        digits_value(s.drop_last()) * 10 + (s.last() - 48) as nat
    }
}

/// The unsigned number that `token` denotes: an optional plus sign, then at
/// least one decimal digit, the value within the range of `usize`.
pub open spec fn unsigned_number(token: Seq<u8>) -> Option<usize> {
    let digits = if token.len() > 0 && token[0] == 0x2Bu8 {
        token.skip(1)
    } else {
        token
    };
    digits_number(digits)
}

/// The number that `digits` denotes, where it is a non-empty run of decimal
/// digits whose value is within the range of `usize`.
pub open spec fn digits_number(digits: Seq<u8>) -> Option<usize> {
    if digits.len() > 0 && all_digits(digits) && digits_value(digits) <= usize::MAX {
        Some(digits_value(digits) as usize)
    } else {
        None
    }
}

/// The canvas dimensions that a reply to the size request announces.
///
/// The reply must be UTF-8 text. One trailing line feed and one trailing
/// carriage return are set aside; the rest is divided at single spaces, and
/// the second and third part are width and height.
pub open spec fn size_reply(response: Seq<u8>) -> Result<Window, SizeFault> {
    if !vstd::utf8::valid_utf8(response) {
        Err(SizeFault::Undecodable)
    } else {
        match size_fields(stripped(response)) {
            None => Err(SizeFault::TooFewParts),
            Some((w, h)) => match (unsigned_number(w), unsigned_number(h)) {
                (Some(x_width), Some(y_height)) => Ok(Window { x_width, y_height }),
                _ => Err(SizeFault::BadNumber),
            },
        }
    }
}

/// Whether `response` begins with the literal `COMPRESS`.
pub open spec fn acknowledges_compression(response: Seq<u8>) -> bool {
    response.len() >= 8 && response.subrange(0, 8) == compress_request().subrange(0, 8)
}

/// Checks with `core::str::from_utf8` whether the bytes are well-formed
/// UTF-8: the answer is yes exactly for the byte sequences that are.
#[verifier::external_body]
fn is_utf8(bytes: &[u8]) -> (ok: bool)
    ensures
        ok == vstd::utf8::valid_utf8(bytes@),
{
    std::str::from_utf8(bytes).is_ok()
}

proof fn lemma_digits_value_prefix(s: Seq<u8>, k: int)
    requires
        0 <= k <= s.len(),
    ensures
        digits_value(s.subrange(0, k)) <= digits_value(s),
    decreases s.len(),
{
    if k == s.len() {
        assert(s.subrange(0, k) =~= s);
    } else {
        lemma_digits_value_prefix(s.drop_last(), k);
        assert(s.drop_last().subrange(0, k) =~= s.subrange(0, k));
    }
}

fn find_space(s: &[u8], from: usize, end: usize) -> (at: usize)
    requires
        from <= end <= s@.len(),
    ensures
        from <= at <= end,
        at == token_end(s@.subrange(0, end as int), from as int),
{
    let ghost line = s@.subrange(0, end as int);
    let mut i: usize = from;
    while i < end && s[i] != 0x20
        invariant
            from <= i <= end <= s@.len(),
            line == s@.subrange(0, end as int),
            token_end(line, from as int) == token_end(line, i as int),
        decreases end - i,
    {
        assert(line[i as int] == s@[i as int]);
        i += 1;
    }
    proof {
        if i < end {
            assert(line[i as int] == s@[i as int]);
        }
    }
    i
}

fn parse_unsigned(s: &[u8], from: usize, to: usize) -> (res: Option<usize>)
    requires
        from <= to <= s@.len(),
    ensures
        res == unsigned_number(s@.subrange(from as int, to as int)),
{
    let ghost token = s@.subrange(from as int, to as int);
    let start: usize = if from < to && s[from] == 0x2B {
        from + 1
    } else {
        from
    };
    let ghost digits = s@.subrange(start as int, to as int);
    proof {
        if start == from + 1 {
            assert(token[0] == s@[from as int]);
            assert(token.skip(1) =~= digits);
        } else {
            if from < to {
                assert(token[0] == s@[from as int]);
            }
            assert(token =~= digits);
        }
    }
    assert(unsigned_number(token) == digits_number(digits));
    if start == to {
        return None;
    }
    let mut value: usize = 0;
    let mut i: usize = start;
    while i < to
        invariant
            start <= i <= to <= s@.len(),
            start < to,
            from <= to,
            digits == s@.subrange(start as int, to as int),
            unsigned_number(s@.subrange(from as int, to as int)) == digits_number(digits),
            all_digits(digits.subrange(0, i - start)),
            value == digits_value(digits.subrange(0, i - start)),
        decreases to - i,
    {
        let c: u8 = s[i];
        let ghost before = digits.subrange(0, i - start);
        let ghost after = digits.subrange(0, i - start + 1);
        proof {
            assert(digits[i - start] == c);
            assert(after.drop_last() =~= before);
            assert(after.last() == c);
        }
        if c < 48 || c > 57 {
            assert(!all_digits(digits));
            return None;
        }
        let d: usize = (c - 48) as usize;
        if value > (usize::MAX - d) / 10 {
            proof {
                lemma_digits_value_prefix(digits, i - start + 1);
                assert(digits_value(after) == value * 10 + d);
                assert(value * 10 + d > usize::MAX);
            }
            return None;
        }
        value = value * 10 + d;
        proof {
            assert forall|j: int| 0 <= j < after.len() implies 48 <= #[trigger] after[j] <= 57 by {
                if j < before.len() {
                    assert(before[j] == after[j]);
                }
            }
        }
        i += 1;
    }
    proof {
        assert(digits.subrange(0, to - start) =~= digits);
    }
    Some(value)
}

/// Reads the canvas dimensions from the reply to the size request.
pub fn parse_size_response(response: &[u8]) -> (res: Result<Window, SizeFault>)
    ensures
        res == size_reply(response@),
{
    if !is_utf8(response) {
        return Err(SizeFault::Undecodable);
    }
    let mut end: usize = response.len();
    if end > 0 && response[end - 1] == 0x0A {
        end -= 1;
    }
    if end > 0 && response[end - 1] == 0x0D {
        end -= 1;
    }
    let ghost line = response@.subrange(0, end as int);
    proof {
        let a = if response@.len() > 0 && response@.last() == 0x0Au8 {
            response@.drop_last()
        } else {
            response@
        };
        if a.len() > 0 && a.last() == 0x0Du8 {
            assert(a.drop_last() =~= line);
        } else {
            assert(a =~= line);
        }
        assert(stripped(response@) == line);
    }
    let e0: usize = find_space(response, 0, end);
    if e0 >= end {
        return Err(SizeFault::TooFewParts);
    }
    let e1: usize = find_space(response, e0 + 1, end);
    if e1 >= end {
        return Err(SizeFault::TooFewParts);
    }
    let e2: usize = find_space(response, e1 + 1, end);
    proof {
        assert(line.subrange(e0 + 1, e1 as int) =~= response@.subrange(e0 + 1, e1 as int));
        assert(line.subrange(e1 + 1, e2 as int) =~= response@.subrange(e1 + 1, e2 as int));
    }
    let width: Option<usize> = parse_unsigned(response, e0 + 1, e1);
    let height: Option<usize> = parse_unsigned(response, e1 + 1, e2);
    match (width, height) {
        (Some(x_width), Some(y_height)) => Ok(Window { x_width, y_height }),
        _ => Err(SizeFault::BadNumber),
    }
}

/// Whether the server's reply acknowledges compression: it must begin with
/// the literal `COMPRESS`.
pub fn compression_acknowledged(response: &[u8]) -> (ok: bool)
    ensures
        ok == acknowledges_compression(response@),
{
    if response.len() < 8 {
        return false;
    }
    let ok: bool = response[0] == 0x43 && response[1] == 0x4F && response[2] == 0x4D && response[3]
        == 0x50 && response[4] == 0x52 && response[5] == 0x45 && response[6] == 0x53 && response[7]
        == 0x53;
    proof {
        let got = response@.subrange(0, 8);
        let want = compress_request().subrange(0, 8);
        if ok {
            assert(got =~= want);
        } else {
            assert(got[0] == response@[0] && got[1] == response@[1] && got[2] == response@[2]
                && got[3] == response@[3] && got[4] == response@[4] && got[5] == response@[5]
                && got[6] == response@[6] && got[7] == response@[7]);
            assert(want[0] == 0x43 && want[1] == 0x4F && want[2] == 0x4D && want[3] == 0x50
                && want[4] == 0x52 && want[5] == 0x45 && want[6] == 0x53 && want[7] == 0x53);
        }
    }
    ok
}

impl SizeFault {
    /// A short description of the fault.
    pub fn message(&self) -> (m: &'static str)
        ensures
            m@ == self.message_text(),
    {
        match self {
            SizeFault::Undecodable => "Could not read size.",
            SizeFault::TooFewParts => "Did not receive enough parts.",
            SizeFault::BadNumber => "Could not parse width and height.",
        }
    }

    /// The text of [`SizeFault::message`].
    pub open spec fn message_text(self) -> Seq<char> {
        match self {
            SizeFault::Undecodable => "Could not read size."@,
            SizeFault::TooFewParts => "Did not receive enough parts."@,
            SizeFault::BadNumber => "Could not parse width and height."@,
        }
    }
}

/// Where a handshake stands.
#[derive(Clone, Copy, Debug)]
pub enum Negotiation {
    /// The size request is out; its reply is awaited.
    AwaitingSize,
    /// The canvas is known and the compression request is out.
    AwaitingAck(Window),
    /// The session stands.
    Established(CodecData),
    /// The handshake failed.
    Failed,
}

/// What the caller does next in a handshake.
#[derive(Debug)]
pub enum NegotiationAction {
    /// Send the bytes, read one chunk of at most `read_limit` bytes, and hand
    /// it to [`negotiate`].
    Exchange { send: Vec<u8>, read_limit: usize },
    /// The session stands: set up the content source and start streaming.
    Done(CodecData),
    /// Give up with this error.
    Abort(SetupError),
    /// The handshake had failed before; nothing is left to do.
    Stopped,
}

/// Opens a handshake: the size request is to be sent and its reply read.
pub fn start_negotiation() -> (r: (Negotiation, NegotiationAction))
    ensures
        r.0 is AwaitingSize,
        r.1 matches NegotiationAction::Exchange { send, read_limit } && send@ == size_request()
            && read_limit == SIZE_REPLY_LIMIT,
{
    let mut send: Vec<u8> = Vec::new();
    send.push(0x53);
    send.push(0x49);
    send.push(0x5A);
    send.push(0x45);
    send.push(0x0A);
    assert(send@ =~= size_request());
    (Negotiation::AwaitingSize, NegotiationAction::Exchange { send, read_limit: SIZE_REPLY_LIMIT })
}

/// One step of the handshake: from the state and the server's reply to the
/// next state and what to do.
///
/// A malformed size reply fails the handshake. A good one establishes the
/// session at once where no compression was asked for; otherwise the
/// compression request goes out, and the session is established only if the
/// reply to it begins with `COMPRESS`.
pub fn negotiate(state: Negotiation, options: &CodecOptions, response: &[u8]) -> (r: (
    Negotiation,
    NegotiationAction,
))
    ensures
        state is AwaitingSize && size_reply(response@) is Err ==> r.0 is Failed && (r.1 matches NegotiationAction::Abort(
            SetupError::SizeParseError(m),
        ) && m@ == size_reply(response@)->Err_0.message_text()),
        state is AwaitingSize && size_reply(response@) is Ok && options.compression_kind is Some
            ==> r.0 == Negotiation::AwaitingAck(size_reply(response@)->Ok_0) && (r.1 matches NegotiationAction::Exchange {
            send,
            read_limit,
        } && send@ == compress_request() && read_limit == ACK_REPLY_LIMIT),
        state is AwaitingSize && size_reply(response@) is Ok && options.compression_kind is None
            ==> r.0 == Negotiation::Established(
            CodecData { window: size_reply(response@)->Ok_0, options: *options },
        ) && r.1 == NegotiationAction::Done(
            CodecData { window: size_reply(response@)->Ok_0, options: *options },
        ),
        state matches Negotiation::AwaitingAck(window) ==> (acknowledges_compression(response@)
            ==> r.0 == Negotiation::Established(CodecData { window, options: *options }) && r.1
            == NegotiationAction::Done(CodecData { window, options: *options })),
        state is AwaitingAck && !acknowledges_compression(response@) ==> r.0 is Failed && (r.1 matches NegotiationAction::Abort(
            SetupError::EnableCompressionError,
        )),
        state matches Negotiation::Established(data) ==> r.0 == state && r.1
            == NegotiationAction::Done(data),
        state is Failed ==> r.0 is Failed && r.1 is Stopped,
{
    match state {
        Negotiation::AwaitingSize => match parse_size_response(response) {
            Err(fault) => (
                Negotiation::Failed,
                NegotiationAction::Abort(SetupError::SizeParseError(fault.message().to_string())),
            ),
            Ok(window) => match options.compression_kind {
                Some(kind) => (
                    Negotiation::AwaitingAck(window),
                    NegotiationAction::Exchange {
                        send: kind.compression_string(),
                        read_limit: ACK_REPLY_LIMIT,
                    },
                ),
                None => {
                    let data = CodecData { window, options: *options };
                    (Negotiation::Established(data), NegotiationAction::Done(data))
                },
            },
        },
        Negotiation::AwaitingAck(window) => {
            if compression_acknowledged(response) {
                let data = CodecData { window, options: *options };
                (Negotiation::Established(data), NegotiationAction::Done(data))
            } else {
                (Negotiation::Failed, NegotiationAction::Abort(SetupError::EnableCompressionError))
            }
        },
        Negotiation::Established(data) => (state, NegotiationAction::Done(data)),
        Negotiation::Failed => (Negotiation::Failed, NegotiationAction::Stopped),
    }
}

/// What the streaming loop does after a frame is written.
#[derive(Clone, Copy, Debug, PartialEq, Eq, Structural)]
pub enum Pacing {
    /// The frame was the last: stop with success.
    Finish,
    /// Wait this many microseconds, then ask for the next frame.
    Proceed { wait: u64 },
}

/// The decision after a write that took `elapsed` microseconds, for a frame
/// that came with the given interval: without an interval the stream ends;
/// with one, the loop waits for what is left of it, if anything.
pub open spec fn pacing(interval: Option<u64>, elapsed: u64) -> Pacing {
    match interval {
        None => Pacing::Finish,
        Some(target) => if target > elapsed {
            Pacing::Proceed { wait: (target - elapsed) as u64 }
        } else {
            Pacing::Proceed { wait: 0 }
        },
    }
}

/// Decides how the streaming loop goes on after a write.
pub fn pace(interval: Option<u64>, elapsed: u64) -> (p: Pacing)
    ensures
        p == pacing(interval, elapsed),
{
    match interval {
        None => Pacing::Finish,
        Some(target) => if target > elapsed {
            Pacing::Proceed { wait: target - elapsed }
        } else {
            Pacing::Proceed { wait: 0 }
        },
    }
}

/// A write that was faster than the interval is followed by a
/// wait that fills the iteration up to exactly the interval; a write that took
/// the interval or longer is followed by no wait at all.
pub proof fn lemma_pacing_fills_interval(target: u64, elapsed: u64)
    ensures
        pacing(Some(target), elapsed) is Proceed,
        elapsed < target ==> elapsed + pacing(Some(target), elapsed)->wait == target,
        elapsed >= target ==> pacing(Some(target), elapsed)->wait == 0,
        elapsed + pacing(Some(target), elapsed)->wait >= target,
{
}

/// An established session together with its content source.
pub struct Codec<D: DataProducer> {
    data_producer: D,
    data: CodecData,
}

impl<D: DataProducer> Codec<D> {
    /// The negotiated state of the session.
    pub closed spec fn session(self) -> CodecData {
        self.data
    }

    /// The content source of the session.
    pub closed spec fn source(self) -> D {
        self.data_producer
    }

    /// The negotiated state of the session.
    pub fn data(&self) -> (d: &CodecData)
        ensures
            *d == self.session(),
    {
        &self.data
    }

    /// What becomes of a source that was set up for a session: where the
    /// setup succeeded, source and session are bound together; where it
    /// failed, the session fails with the source's own message.
    pub fn bind(source: D, data: CodecData, outcome: Result<(), String>) -> (res: Result<
        Self,
        SetupError,
    >)
        ensures
            match outcome {
                Ok(_) => res matches Ok(codec) && codec.session() == data && codec.source()
                    == source,
                Err(message) => res matches Err(SetupError::DataProducerError(m)) && m == message,
            },
    {
        match outcome {
            Ok(()) => Ok(Codec { data_producer: source, data }),
            Err(message) => Err(SetupError::DataProducerError(message)),
        }
    }

    /// Sets a content source up for an established session and binds the two
    /// together. The source is set up once, for exactly this session. Where
    /// its setup succeeds, the codec holds the session and the source as the
    /// setup left it; where it fails, the session fails with the source's
    /// own message.
    pub fn new(data_producer: D, data: CodecData) -> (res: Result<Self, SetupError>)
        ensures
            res matches Ok(codec) ==> codec.session() == data && data_producer.sets_up(
                &codec.source(),
                data,
                Ok(()),
            ),
            res matches Err(e) ==> (e matches SetupError::DataProducerError(m) && exists|after: D|
                #[trigger] data_producer.sets_up(&after, data, Err(m))),
    {
        let mut source = data_producer;
        let outcome: Result<(), String> = source.do_setup(&data);
        let ghost after = source;
        let ghost answer = outcome;
        let res = Codec::bind(source, data, outcome);
        proof {
            assert(data_producer.sets_up(&after, data, answer));
            match answer {
                Ok(done) => {
                    assert(answer == Ok::<(), String>(()));
                },
                Err(message) => {
                    assert(data_producer.sets_up(&after, data, Err(message)));
                },
            }
        }
        res
    }

    /// Asks the source for the next frame and its interval: the answer is
    /// the one that the source gives, and the source moves on as it does when
    /// it gives that answer. The session stays as it is.
    pub fn next_frame(&mut self) -> (res: Result<(Vec<u8>, Option<u64>), RunError>)
        ensures
            final(self).session() == old(self).session(),
            old(self).source().hands_out(&final(self).source(), res),
    {
        self.data_producer.get_next_data()
    }
}

} // verus!
