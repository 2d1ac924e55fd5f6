//! A local pipe to the host, in place of a network connection.
//!
//! When the environment names an endpoint, the application connects to it and talks to
//! its host there: a socket in the file system on unix, a named pipe on Windows.
//!
//! Both directions carry frames: four bytes with the length of the payload, the lowest
//! first, and then the payload. A frame of no bytes keeps the connection alive and means
//! nothing. A frame of more than [`MAX_FRAME_LEN`] bytes is an error of the protocol and
//! closes the connection, so that a reader that has lost its place does not ask for a
//! huge amount of memory.

use crate::text;
use std::collections::VecDeque;
use vstd::prelude::*;

verus! {

/// The variable of the environment that names the endpoint.
pub const MAKEPAD_STUDIO_PIPE: &'static str = "MAKEPAD_STUDIO_PIPE";

/// The largest frame: far more than any message needs.
pub const MAX_FRAME_LEN: u32 = 64 * 1024 * 1024;

/// The milliseconds for which connecting is tried: the host makes the endpoint first,
/// but on a busy machine the two can race.
pub const CONNECT_DEADLINE_MS: u64 = 10_000;

/// The milliseconds between two tries.
pub const CONNECT_RETRY_SLEEP_MS: u64 = 20;

/// The four bytes of a length, the lowest first.
pub open spec fn length_bytes(len: int) -> Seq<u8> {
    seq![
        (len % 256) as u8,
        (len / 256 % 256) as u8,
        (len / 65536 % 256) as u8,
        (len / 16777216 % 256) as u8,
    ]
}

/// The length that four bytes denote, the lowest first.
pub open spec fn length_of(bytes: Seq<u8>) -> int {
    bytes[0] + bytes[1] * 256 + bytes[2] * 65536 + bytes[3] * 16777216
}

/// A frame with the payload `data`. Of the length, the lowest four bytes are written.
pub open spec fn frame(data: Seq<u8>) -> Seq<u8> {
    length_bytes(data.len() as int) + data
}

/// How a stream of frames ends for its reader.
#[derive(Clone, Copy, Debug, PartialEq, Eq, Structural)]
pub enum StreamEnd {
    /// Nothing more comes, or not a whole frame.
    Closed,
    /// A frame is larger than any may be.
    TooLarge(u32),
}

/// The payloads in a stream of frames, and how it ends for its reader.
pub open spec fn frames_in(stream: Seq<u8>) -> (Seq<Seq<u8>>, StreamEnd)
    decreases stream.len(),
{
    if stream.len() < 4 {
        (Seq::empty(), StreamEnd::Closed)
    } else {
        let len = length_of(stream);
        if len == 0 {
            frames_in(stream.skip(4))
        } else if len > MAX_FRAME_LEN {
            (Seq::empty(), StreamEnd::TooLarge(len as u32))
        } else if stream.len() < 4 + len {
            (Seq::empty(), StreamEnd::Closed)
        } else {
            let (rest, end) = frames_in(stream.skip(4 + len));
            (seq![stream.subrange(4, 4 + len)] + rest, end)
        }
    }
}

/// What the four bytes in front of a payload mean.
#[derive(Clone, Copy, Debug, PartialEq, Eq, Structural)]
pub enum FrameHeader {
    /// No payload follows.
    KeepAlive,
    /// A payload of that length follows.
    Payload(u32),
    /// The payload is too large: the connection is closed.
    TooLarge(u32),
}

/// What a length in front of a payload means.
pub open spec fn header_of(len: int) -> FrameHeader {
    if len == 0 {
        FrameHeader::KeepAlive
    } else if len > MAX_FRAME_LEN {
        FrameHeader::TooLarge(len as u32)
    } else {
        FrameHeader::Payload(len as u32)
    }
}

/// Reads the four bytes in front of a payload.
pub fn frame_header(b0: u8, b1: u8, b2: u8, b3: u8) -> (r: FrameHeader)
    ensures
        r == header_of(length_of(seq![b0, b1, b2, b3])),
{
    let len: u32 = b0 as u32 + b1 as u32 * 256 + b2 as u32 * 65536 + b3 as u32 * 16777216;
    if len == 0 {
        FrameHeader::KeepAlive
    } else if len > MAX_FRAME_LEN {
        FrameHeader::TooLarge(len)
    } else {
        FrameHeader::Payload(len)
    }
}

/// A frame with the payload `data`.
pub fn encode_frame(data: &Vec<u8>) -> (r: Vec<u8>)
    ensures
        r@ == frame(data@),
{
    let len: u64 = data.len() as u64;
    let mut out: Vec<u8> = Vec::new();
    out.push((len % 256) as u8);
    out.push((len / 256 % 256) as u8);
    out.push((len / 65536 % 256) as u8);
    out.push((len / 16777216 % 256) as u8);
    let mut i: usize = 0;
    assert(out@ =~= length_bytes(data@.len() as int) + data@.take(0));
    while i < data.len()
        invariant
            i <= data@.len(),
            out@ =~= length_bytes(data@.len() as int) + data@.take(i as int),
        decreases data@.len() - i,
    {
        out.push(data[i]);
        i = i + 1;
    }
    assert(data@.take(i as int) =~= data@);
    out
}

/// A copy of the bytes from `from` up to `to`.
fn bytes_between(bytes: &Vec<u8>, from: usize, to: usize) -> (r: Vec<u8>)
    requires
        from <= to <= bytes@.len(),
    ensures
        r@ == bytes@.subrange(from as int, to as int),
{
    let mut out: Vec<u8> = Vec::new();
    let mut i: usize = from;
    while i < to
        invariant
            from <= i <= to,
            to <= bytes@.len(),
            out@ =~= bytes@.subrange(from as int, i as int),
        decreases to - i,
    {
        out.push(bytes[i]);
        i = i + 1;
    }
    out
}

/// The payloads in a stream of frames, and how it ends for its reader.
pub struct Frames {
    pub payloads: Vec<Vec<u8>>,
    pub end: StreamEnd,
}

/// The payloads as sequences.
pub open spec fn views(payloads: Seq<Vec<u8>>) -> Seq<Seq<u8>> {
    Seq::new(payloads.len(), |i: int| payloads[i]@)
}

/// Reads the frames of a stream.
pub fn decode_frames(stream: &Vec<u8>) -> (r: Frames)
    ensures
        (views(r.payloads@), r.end) == frames_in(stream@),
{
    let mut payloads: Vec<Vec<u8>> = Vec::new();
    let mut at: usize = 0;
    let size: usize = stream.len();
    assert(stream@.skip(0) =~= stream@);
    assert(views(payloads@) + frames_in(stream@).0 =~= frames_in(stream@).0);
    loop
        invariant
            size == stream@.len(),
            at <= size,
            views(payloads@) + frames_in(stream@.skip(at as int)).0 == frames_in(stream@).0,
            frames_in(stream@.skip(at as int)).1 == frames_in(stream@).1,
        decreases size - at,
    {
        let ghost rest = stream@.skip(at as int);
        if size - at < 4 {
            assert(views(payloads@) + Seq::<Seq<u8>>::empty() =~= views(payloads@));
            return Frames { payloads, end: StreamEnd::Closed };
        }
        let b0: u8 = stream[at];
        let b1: u8 = stream[at + 1];
        let b2: u8 = stream[at + 2];
        let b3: u8 = stream[at + 3];
        match frame_header(b0, b1, b2, b3) {
            FrameHeader::KeepAlive => {
                assert(rest.skip(4) =~= stream@.skip(at + 4));
                at = at + 4;
            },
            FrameHeader::TooLarge(len) => {
                assert(views(payloads@) + Seq::<Seq<u8>>::empty() =~= views(payloads@));
                return Frames { payloads, end: StreamEnd::TooLarge(len) };
            },
            FrameHeader::Payload(len) => {
                let body: usize = len as usize;
                if size - at - 4 < body {
                    assert(views(payloads@) + Seq::<Seq<u8>>::empty() =~= views(payloads@));
                    return Frames { payloads, end: StreamEnd::Closed };
                }
                let payload = bytes_between(stream, at + 4, at + 4 + body);
                proof {
                    let before = views(payloads@);
                    assert(rest.subrange(4, 4 + len) =~= payload@);
                    assert(rest.skip(4 + len) =~= stream@.skip(at + 4 + len));
                    assert(views(payloads@.push(payload)) =~= before.push(payload@));
                    let more = frames_in(stream@.skip(at + 4 + len)).0;
                    assert(before + (seq![payload@] + more) =~= before.push(payload@) + more);
                }
                payloads.push(payload);
                at = at + 4 + body;
            },
        }
    }
}

proof fn lemma_length_is_read_back(len: int)
    requires
        0 <= len <= 0xffff_ffff,
    ensures
        length_of(length_bytes(len)) == len,
{
    assert(len % 256 + len / 256 % 256 * 256 + len / 65536 % 256 * 65536 + len / 16777216 % 256
        * 16777216 == len) by (nonlinear_arith)
        requires
            0 <= len <= 0xffff_ffff,
    ;
}

/// A frame at the head of a stream is read back, and what follows it is read as if it
/// stood alone.
pub proof fn law_a_frame_is_read_back(data: Seq<u8>, rest: Seq<u8>)
    requires
        0 < data.len() <= MAX_FRAME_LEN,
    ensures
        frames_in(frame(data) + rest) == (seq![data] + frames_in(rest).0, frames_in(rest).1),
{
    let stream = frame(data) + rest;
    let len = data.len() as int;
    lemma_length_is_read_back(len);
    assert(stream[0] == length_bytes(len)[0]);
    assert(stream[1] == length_bytes(len)[1]);
    assert(stream[2] == length_bytes(len)[2]);
    assert(stream[3] == length_bytes(len)[3]);
    assert(length_of(stream) == len);
    assert(stream.subrange(4, 4 + len) =~= data);
    assert(stream.skip(4 + len) =~= rest);
}

/// A frame of no bytes is passed over.
pub proof fn law_keep_alives_mean_nothing(rest: Seq<u8>)
    ensures
        frames_in(frame(Seq::empty()) + rest) == frames_in(rest),
{
    let stream = frame(Seq::empty()) + rest;
    assert(stream[0] == 0 && stream[1] == 0 && stream[2] == 0 && stream[3] == 0);
    assert(stream.skip(4) =~= rest);
}

/// The frames of some payloads, one behind the other.
pub open spec fn frames_of(payloads: Seq<Seq<u8>>) -> Seq<u8>
    decreases payloads.len(),
{
    if payloads.len() == 0 {
        Seq::empty()
    } else {
        frame(payloads[0]) + frames_of(payloads.skip(1))
    }
}

/// What is written frame by frame is read back payload by payload.
pub proof fn law_what_is_written_is_read(payloads: Seq<Seq<u8>>)
    requires
        forall|i: int|
            0 <= i < payloads.len() ==> 0 < (#[trigger] payloads[i]).len() <= MAX_FRAME_LEN,
    ensures
        frames_in(frames_of(payloads)) == (payloads, StreamEnd::Closed),
    decreases payloads.len(),
{
    if payloads.len() == 0 {
        assert(frames_in(frames_of(payloads)).0 =~= payloads);
    } else {
        assert forall|i: int| 0 <= i < payloads.skip(1).len() implies 0 < (
        #[trigger] payloads.skip(1)[i]).len() <= MAX_FRAME_LEN by {
            assert(payloads.skip(1)[i] == payloads[i + 1]);
        }
        assert(0 < payloads[0].len() <= MAX_FRAME_LEN);
        law_what_is_written_is_read(payloads.skip(1));
        law_a_frame_is_read_back(payloads[0], frames_of(payloads.skip(1)));
        assert(seq![payloads[0]] + payloads.skip(1) =~= payloads);
    }
}

proof fn lemma_payload_sizes(stream: Seq<u8>)
    ensures
        forall|i: int|
            0 <= i < frames_in(stream).0.len() ==> 0 < (#[trigger] frames_in(stream).0[i]).len()
                <= MAX_FRAME_LEN,
    decreases stream.len(),
{
    if stream.len() >= 4 {
        let len = length_of(stream);
        if len == 0 {
            lemma_payload_sizes(stream.skip(4));
        } else if len <= MAX_FRAME_LEN && stream.len() >= 4 + len {
            lemma_payload_sizes(stream.skip(4 + len));
            let rest = frames_in(stream.skip(4 + len)).0;
            assert forall|i: int| 0 <= i < frames_in(stream).0.len() implies 0 < (
            #[trigger] frames_in(stream).0[i]).len() <= MAX_FRAME_LEN by {
                if i > 0 {
                    assert(frames_in(stream).0[i] == rest[i - 1]);
                }
            }
        }
    }
}

/// Whatever comes, no payload that is read is empty or larger than any may be.
pub proof fn law_payloads_are_within_bounds(stream: Seq<u8>, i: int)
    requires
        0 <= i < frames_in(stream).0.len(),
    ensures
        0 < frames_in(stream).0[i].len() <= MAX_FRAME_LEN,
{
    lemma_payload_sizes(stream);
}

/// The pipe of an application.
#[derive(Clone, Copy, Debug, PartialEq, Eq, Structural)]
pub struct StudioPipe {
    /// Whether the pipe is used in place of the network.
    pub mode: bool,
    /// Whether there is anything to write to.
    pub has_writer: bool,
    /// Whether there is anything to read from.
    pub has_reader: bool,
    /// Whether the host counts as connected.
    pub connected: bool,
}

/// What one look at the incoming frames gives.
pub enum PipeRecv {
    Msg(Vec<u8>),
    /// Nothing yet.
    Timeout,
    /// Nothing ever again.
    Closed,
}

/// The frames that the reader has parsed and that were not looked at yet, and whether
/// more can come.
pub struct Inbox {
    frames: VecDeque<Vec<u8>>,
    open: bool,
}

/// An inbox, in mathematical terms.
pub struct InboxView {
    pub waiting: Seq<Vec<u8>>,
    pub open: bool,
}

impl View for Inbox {
    type V = InboxView;

    closed spec fn view(&self) -> InboxView {
        InboxView { waiting: self.frames@, open: self.open }
    }
}

impl InboxView {
    /// The inbox when another frame was parsed. Behind the end nothing comes.
    pub open spec fn arrived(self, payload: Vec<u8>) -> InboxView {
        if self.open {
            InboxView { waiting: self.waiting.push(payload), ..self }
        } else {
            self
        }
    }

    /// The inbox when the reader has ended.
    pub open spec fn ended(self) -> InboxView {
        InboxView { open: false, ..self }
    }

    /// What one look gives, and what it leaves: the frame that has waited longest, as long
    /// as any waits.
    pub open spec fn look(self) -> (PipeRecv, InboxView) {
        if self.waiting.len() > 0 {
            (
                PipeRecv::Msg(self.waiting[0]),
                InboxView { waiting: self.waiting.skip(1), ..self },
            )
        } else if self.open {
            (PipeRecv::Timeout, self)
        } else {
            (PipeRecv::Closed, self)
        }
    }
}

impl Inbox {
    /// The inbox of a pipe that was just connected.
    pub fn new() -> (r: Inbox)
        ensures
            r@ == (InboxView { waiting: Seq::empty(), open: true }),
    {
        let r = Inbox { frames: VecDeque::new(), open: true };
        assert(r.frames@ =~= Seq::<Vec<u8>>::empty());
        r
    }

    /// Takes a frame that the reader has parsed.
    pub fn arrive(&mut self, payload: Vec<u8>)
        ensures
            final(self)@ == old(self)@.arrived(payload),
    {
        if self.open {
            self.frames.push_back(payload);
        }
    }

    /// Takes over that the reader has ended.
    pub fn close(&mut self)
        ensures
            final(self)@ == old(self)@.ended(),
    {
        self.open = false;
    }

    /// Whether a look has something to give: a frame, or that nothing comes any more.
    pub fn is_settled(&self) -> (r: bool)
        ensures
            r == !(self@.look().0 is Timeout),
    {
        self.frames.len() > 0 || !self.open
    }
}

impl Default for StudioPipe {
    fn default() -> (r: Self)
        ensures
            r == (StudioPipe {
                mode: false,
                has_writer: false,
                has_reader: false,
                connected: false,
            }),
    {
        StudioPipe { mode: false, has_writer: false, has_reader: false, connected: false }
    }
}

/// Whether the pipe is used in place of the network.
pub fn studio_pipe_mode(pipe: &StudioPipe) -> (r: bool)
    ensures
        r == pipe.mode,
{
    pipe.mode
}

/// The endpoint that a setting names: none if it holds nothing but spaces.
pub open spec fn endpoint_of(setting: Option<&str>) -> Option<Seq<char>> {
    match setting {
        Some(raw) => if text::trimmed(raw@).len() == 0 {
            None
        } else {
            Some(text::trimmed(raw@))
        },
        None => None,
    }
}

/// The endpoint that the environment names.
pub fn studio_pipe_endpoint(setting: Option<&str>) -> (r: Option<String>)
    ensures
        match r {
            Some(path) => endpoint_of(setting) == Some(path@),
            None => endpoint_of(setting) is None,
        },
{
    match setting {
        Some(raw) => {
            let cs = text::chars_of(raw);
            let path = text::trim_chars(&cs);
            if path.len() == 0 {
                None
            } else {
                Some(text::string_of(&path))
            }
        },
        None => None,
    }
}

/// Takes the outcome of connecting over, and says whether the pipe is used. There is no
/// falling back to the network where it failed: that would hide a broken host.
pub fn init_studio_pipe_from_env(pipe: &mut StudioPipe, connected: bool) -> (r: bool)
    ensures
        r == connected,
        *final(pipe) == if connected {
            StudioPipe { mode: true, has_writer: true, has_reader: true, connected: true }
        } else {
            *old(pipe)
        },
{
    if connected {
        pipe.mode = true;
        pipe.has_writer = true;
        pipe.has_reader = true;
        pipe.connected = true;
    }
    connected
}

/// What is written for a payload; nothing if there is nothing to write to.
pub fn send_binary(pipe: &StudioPipe, data: &Vec<u8>) -> (r: Option<Vec<u8>>)
    ensures
        match r {
            Some(bytes) => pipe.has_writer && bytes@ == frame(data@),
            None => !pipe.has_writer,
        },
{
    if pipe.has_writer {
        Some(encode_frame(data))
    } else {
        None
    }
}

impl StudioPipe {
    /// Takes over that writing failed: nothing is written any more, and the host no
    /// longer counts as connected.
    pub fn write_failed(&mut self)
        ensures
            *final(self) == (StudioPipe { has_writer: false, connected: false, ..*old(self) }),
    {
        self.has_writer = false;
        self.connected = false;
    }
}

/// Looks at the incoming frames, after waiting for one. A pipe that was never connected
/// is closed.
pub fn recv_timeout(pipe: &StudioPipe, inbox: &mut Inbox) -> (r: PipeRecv)
    ensures
        (r, final(inbox)@) == if pipe.has_reader {
            old(inbox)@.look()
        } else {
            (PipeRecv::Closed, old(inbox)@)
        },
{
    if !pipe.has_reader {
        return PipeRecv::Closed;
    }
    let ghost before = inbox@;
    match inbox.frames.pop_front() {
        Some(payload) => {
            assert(inbox@.waiting =~= before.waiting.skip(1));
            PipeRecv::Msg(payload)
        },
        None => if inbox.open {
            PipeRecv::Timeout
        } else {
            PipeRecv::Closed
        },
    }
}

/// What can happen to an inbox.
pub enum InboxEvent {
    Arrive(Vec<u8>),
    Close,
    Look,
}

/// An inbox after some events.
pub open spec fn inbox_after(v: InboxView, events: Seq<InboxEvent>) -> InboxView
    decreases events.len(),
{
    if events.len() == 0 {
        v
    } else {
        let before = inbox_after(v, events.drop_last());
        match events.last() {
            InboxEvent::Arrive(payload) => before.arrived(payload),
            InboxEvent::Close => before.ended(),
            InboxEvent::Look => before.look().1,
        }
    }
}

/// Closed is final: once a look has found the pipe closed, every later one does, whatever
/// happens in between.
pub proof fn law_closed_is_final(v: InboxView, events: Seq<InboxEvent>)
    requires
        v.look().0 is Closed,
    ensures
        inbox_after(v, events).look().0 is Closed,
    decreases events.len(),
{
    if events.len() > 0 {
        law_closed_is_final(v, events.drop_last());
    }
}

/// The pipe is never found closed while a frame waits: those come out first.
pub proof fn law_waiting_frames_come_first(v: InboxView)
    ensures
        v.look().0 is Closed ==> v.waiting.len() == 0 && !v.open,
        v.waiting.len() > 0 ==> v.look().0 == PipeRecv::Msg(v.waiting[0]),
{
}

/// How often some events have looked.
pub open spec fn looks_in(events: Seq<InboxEvent>) -> nat
    decreases events.len(),
{
    if events.len() == 0 {
        0
    } else {
        looks_in(events.drop_last()) + if events.last() is Look {
            1nat
        } else {
            0nat
        }
    }
}

/// Frames come out in the order in which they came: whatever else arrives, and even if the
/// reader ends, the frame in front of which `k` others wait is what the look after `k`
/// looks gives.
pub proof fn law_frames_come_out_in_order(v: InboxView, events: Seq<InboxEvent>, k: int)
    requires
        0 <= k < v.waiting.len(),
        looks_in(events) <= k,
    ensures
        ({
            let now = inbox_after(v, events);
            &&& k - looks_in(events) < now.waiting.len()
            &&& now.waiting[k - looks_in(events)] == v.waiting[k]
            &&& looks_in(events) == k ==> now.look().0 == PipeRecv::Msg(v.waiting[k])
        }),
    decreases events.len(),
{
    if events.len() > 0 {
        law_frames_come_out_in_order(v, events.drop_last(), k);
    }
}

/// Where pipes are different.
#[derive(Clone, Copy, Debug, PartialEq, Eq, Structural)]
pub enum PipePlatform {
    Unix,
    Windows,
    /// There are no pipes.
    Neither,
}

/// Why connecting failed.
#[derive(Clone, Copy, Debug, PartialEq, Eq, Structural)]
pub enum ConnectError {
    NotFound,
    ConnectionRefused,
    Interrupted,
    /// On Windows, also a pipe that is busy.
    PermissionDenied,
    Unsupported,
    Other,
}

/// Whether the endpoint may be there in a moment.
pub open spec fn may_come(platform: PipePlatform, error: ConnectError) -> bool {
    match platform {
        PipePlatform::Unix => error == ConnectError::NotFound || error
            == ConnectError::ConnectionRefused || error == ConnectError::Interrupted,
        PipePlatform::Windows => error == ConnectError::NotFound || error
            == ConnectError::PermissionDenied,
        PipePlatform::Neither => false,
    }
}

/// What connecting does after a try.
#[derive(Clone, Copy, Debug, PartialEq, Eq, Structural)]
pub enum ConnectStep {
    /// Sleep, and try again.
    Retry,
    GiveUp,
}

/// What connecting does after a try that failed, when `waited_ms` have passed since the
/// first one.
pub fn connect_with_retry(platform: PipePlatform, error: ConnectError, waited_ms: u64) -> (r:
    ConnectStep)
    ensures
        r == if may_come(platform, error) && waited_ms < CONNECT_DEADLINE_MS {
            ConnectStep::Retry
        } else {
            ConnectStep::GiveUp
        },
{
    let soon = match platform {
        PipePlatform::Unix => match error {
            ConnectError::NotFound => true,
            ConnectError::ConnectionRefused => true,
            ConnectError::Interrupted => true,
            _ => false,
        },
        PipePlatform::Windows => match error {
            ConnectError::NotFound => true,
            ConnectError::PermissionDenied => true,
            _ => false,
        },
        PipePlatform::Neither => false,
    };
    if soon && waited_ms < CONNECT_DEADLINE_MS {
        ConnectStep::Retry
    } else {
        ConnectStep::GiveUp
    }
}

/// A frame is four bytes that stand for the number of bytes behind them, the lowest first,
/// and then those bytes.
pub proof fn law_a_frame_starts_with_its_length(data: Seq<u8>)
    requires
        data.len() <= 0xffff_ffff,
    ensures
        frame(data).len() == data.len() + 4,
        frame(data)[0] + 0x100 * frame(data)[1] + 0x1_0000 * frame(data)[2] + 0x100_0000 * frame(
            data,
        )[3] == data.len(),
        frame(data).skip(4) == data,
{
    lemma_length_is_read_back(data.len() as int);
    assert(frame(data).skip(4) =~= data);
}

/// A payload is announced by its length, up to sixty-four times two to the power twenty
/// bytes; a length of zero announces none, and a larger one is refused.
pub proof fn law_lengths_announce_payloads(b0: u8, b1: u8, b2: u8, b3: u8)
    ensures
        ({
            let n = b0 + 0x100 * b1 + 0x1_0000 * b2 + 0x100_0000 * b3;
            let header = header_of(length_of(seq![b0, b1, b2, b3]));
            &&& n == 0 ==> header == FrameHeader::KeepAlive
            &&& 0 < n <= 0x400_0000 ==> header == FrameHeader::Payload(n as u32)
            &&& n > 0x400_0000 ==> header == FrameHeader::TooLarge(n as u32)
        }),
{
}

/// A stream that breaks off in a frame gives no payload for it, and one that announces too
/// large a frame gives none from there on.
pub proof fn law_broken_frames_end_the_stream(stream: Seq<u8>)
    ensures
        stream.len() < 4 ==> frames_in(stream) == (Seq::<Seq<u8>>::empty(), StreamEnd::Closed),
        stream.len() >= 4 ==> ({
            let n = stream[0] + 0x100 * stream[1] + 0x1_0000 * stream[2] + 0x100_0000 * stream[3];
            &&& n > 0x400_0000 ==> frames_in(stream) == (
                Seq::<Seq<u8>>::empty(),
                StreamEnd::TooLarge(n as u32),
            )
            &&& 0 < n <= 0x400_0000 && stream.len() < 4 + n ==> frames_in(stream) == (
                Seq::<Seq<u8>>::empty(),
                StreamEnd::Closed,
            )
        }),
{
}

/// A frame that arrives waits behind those that wait already, unless the reader has ended;
/// the end of the reader leaves them all.
pub proof fn law_frames_wait_in_line(v: InboxView, payload: Vec<u8>)
    ensures
        v.open ==> v.arrived(payload).waiting == v.waiting.push(payload) && v.arrived(payload).open,
        !v.open ==> v.arrived(payload) == v,
        v.ended().waiting == v.waiting && !v.ended().open,
        v.look().1.open == v.open,
        v.waiting.len() > 0 ==> seq![v.waiting[0]] + v.look().1.waiting == v.waiting,
        v.waiting.len() == 0 ==> v.look().1 == v && (v.look().0 is Timeout <==> v.open) && (
        v.look().0 is Closed <==> !v.open),
{
    if v.waiting.len() > 0 {
        assert(seq![v.waiting[0]] + v.look().1.waiting =~= v.waiting);
    }
}

/// An endpoint is named by what is left of a setting without the white space around it; a
/// setting of nothing but white space names none.
pub proof fn law_an_endpoint_is_named_by_its_setting(raw: &str)
    ensures
        endpoint_of(None) is None,
        text::all_white(raw@) ==> endpoint_of(Some(raw)) is None,
        (exists|i: int| 0 <= i < raw@.len() && !text::white(#[trigger] raw@[i])) ==> (endpoint_of(
            Some(raw),
        ) matches Some(path) && path.len() > 0 && text::occurs(raw@, path) && !text::white(path[0])
            && !text::white(path.last())),
{
    let s = raw@;
    let t = text::trimmed(s);
    text::law_trimming_takes_white_space_at_the_ends(s);
    let (front, back) = choose|front: Seq<char>, back: Seq<char>|
        #![trigger front + t + back]
        s == front + t + back && text::all_white(front) && text::all_white(back);
    text::law_what_occurs_stands_between_the_rest(s, t, front, back);
    if text::all_white(s) {
        if t.len() > 0 {
            assert(s[front.len() as int] == t[0]);
        }
    }
    if exists|i: int| 0 <= i < s.len() && !text::white(#[trigger] s[i]) {
        let i = choose|i: int| 0 <= i < s.len() && !text::white(#[trigger] s[i]);
        if t.len() == 0 {
            if i < front.len() {
                assert(s[i] == front[i]);
            } else {
                assert(s[i] == back[i - front.len()]);
            }
        }
    }
}

/// An endpoint that is not there yet is tried again on both platforms; one that refuses, or
/// where the call was interrupted, where pipes are sockets, and one that is busy, where they
/// have names. Nothing else is, and nothing where there are no pipes.
pub proof fn law_only_what_may_come_is_tried_again(platform: PipePlatform, error: ConnectError)
    ensures
        platform != PipePlatform::Neither ==> may_come(platform, ConnectError::NotFound),
        may_come(platform, ConnectError::ConnectionRefused) <==> platform == PipePlatform::Unix,
        may_come(platform, ConnectError::Interrupted) <==> platform == PipePlatform::Unix,
        may_come(platform, ConnectError::PermissionDenied) <==> platform == PipePlatform::Windows,
        !may_come(platform, ConnectError::Unsupported),
        !may_come(platform, ConnectError::Other),
        !may_come(PipePlatform::Neither, error),
        CONNECT_DEADLINE_MS == 10_000,
        CONNECT_RETRY_SLEEP_MS == 20,
        MAX_FRAME_LEN == 0x400_0000,
{
}

/// What is sent is received: the payloads that are framed one after the other are read back
/// from the stream, each as it was.
pub proof fn law_what_is_sent_is_received(
    pipe: &StudioPipe,
    first: &Vec<u8>,
    first_frame: Option<Vec<u8>>,
    second: &Vec<u8>,
    second_frame: Option<Vec<u8>>,
    stream: &Vec<u8>,
    r: Frames,
)
    requires
        call_ensures(send_binary, (pipe, first), first_frame),
        call_ensures(send_binary, (pipe, second), second_frame),
        pipe.has_writer,
        0 < first@.len() <= 0x400_0000,
        0 < second@.len() <= 0x400_0000,
        stream@ == first_frame->0@ + second_frame->0@,
        call_ensures(decode_frames, (stream,), r),
    ensures
        first_frame is Some,
        second_frame is Some,
        r.payloads@.len() == 2,
        r.payloads@[0]@ == first@,
        r.payloads@[1]@ == second@,
        r.end == StreamEnd::Closed,
{
    let none = Seq::<u8>::empty();
    law_a_frame_is_read_back(first@, frame(second@));
    law_a_frame_is_read_back(second@, none);
    assert(frame(second@) + none =~= frame(second@));
    assert(frames_in(none).0 =~= Seq::<Seq<u8>>::empty());
    let read = views(r.payloads@);
    assert(read.len() == r.payloads@.len());
    assert(read[0] == r.payloads@[0]@);
    assert(read[1] == r.payloads@[1]@);
}

/// A frame is its length in four bytes, the lowest first, and its payload; and four bytes in
/// front of a payload are read as its length.
pub proof fn law_frames_are_made_and_read_by_their_length(
    data: &Vec<u8>,
    framed: Vec<u8>,
    b: (u8, u8, u8, u8),
    header: FrameHeader,
)
    requires
        data@.len() <= 0xffff_ffff,
        call_ensures(encode_frame, (data,), framed),
        call_ensures(frame_header, (b.0, b.1, b.2, b.3), header),
    ensures
        framed@.len() == data@.len() + 4,
        framed@[0] + 0x100 * framed@[1] + 0x1_0000 * framed@[2] + 0x100_0000 * framed@[3]
            == data@.len(),
        framed@.skip(4) == data@,
        ({
            let n = b.0 + 0x100 * b.1 + 0x1_0000 * b.2 + 0x100_0000 * b.3;
            &&& n == 0 ==> header == FrameHeader::KeepAlive
            &&& 0 < n <= 0x400_0000 ==> header == FrameHeader::Payload(n as u32)
            &&& n > 0x400_0000 ==> header == FrameHeader::TooLarge(n as u32)
        }),
{
    law_a_frame_starts_with_its_length(data@);
    law_lengths_announce_payloads(b.0, b.1, b.2, b.3);
}

/// The frame that arrived first is the first to be received, and one that arrived before the
/// end is received after it; then the pipe is closed.
pub proof fn law_frames_are_received_in_order(
    pipe: &StudioPipe,
    made: Inbox,
    one: &mut Inbox,
    payload: Vec<u8>,
    two: &mut Inbox,
    other: Vec<u8>,
    three: &mut Inbox,
    four: &mut Inbox,
    first: PipeRecv,
    five: &mut Inbox,
    second: PipeRecv,
    six: &mut Inbox,
    third: PipeRecv,
)
    requires
        pipe.has_reader,
        call_ensures(Inbox::new, (), made),
        *old(one) == made,
        call_ensures(Inbox::arrive, (one, payload), ()),
        *old(two) == *final(one),
        call_ensures(Inbox::arrive, (two, other), ()),
        *old(three) == *final(two),
        call_ensures(Inbox::close, (three,), ()),
        *old(four) == *final(three),
        call_ensures(recv_timeout, (pipe, four), first),
        *old(five) == *final(four),
        call_ensures(recv_timeout, (pipe, five), second),
        *old(six) == *final(five),
        call_ensures(recv_timeout, (pipe, six), third),
    ensures
        first == PipeRecv::Msg(payload),
        second == PipeRecv::Msg(other),
        third is Closed,
{
    assert(final(two)@.waiting =~= seq![payload, other]);
    assert(final(four)@.waiting =~= seq![other]);
    assert(final(five)@.waiting =~= Seq::<Vec<u8>>::empty());
}

/// A pipe is used once it is connected; nothing is written after writing has failed, and
/// nothing is read where there never was a connection.
pub proof fn law_a_pipe_is_used_once_connected(
    pipe: &mut StudioPipe,
    connected: bool,
    used: bool,
    failed: &mut StudioPipe,
    data: &Vec<u8>,
    sent: Option<Vec<u8>>,
    unread: &StudioPipe,
    inbox: &mut Inbox,
    read: PipeRecv,
)
    requires
        call_ensures(init_studio_pipe_from_env, (pipe, connected), used),
        *old(failed) == *final(pipe),
        call_ensures(StudioPipe::write_failed, (failed,), ()),
        call_ensures(send_binary, (&*final(failed), data), sent),
        !unread.has_reader,
        call_ensures(recv_timeout, (unread, inbox), read),
    ensures
        used == connected,
        connected ==> final(pipe).mode && final(pipe).has_writer && final(pipe).has_reader && final(pipe).connected,
        !connected ==> *final(pipe) == *old(pipe),
        sent is None,
        !final(failed).connected,
        final(failed).mode == final(pipe).mode,
        read is Closed,
        final(inbox)@ == old(inbox)@,
{
}

/// Connecting is tried again for ten seconds, as long as the endpoint may come.
pub proof fn law_connecting_is_tried_for_ten_seconds(
    platform: PipePlatform,
    error: ConnectError,
    waited_ms: u64,
    r: ConnectStep,
)
    requires
        call_ensures(connect_with_retry, (platform, error, waited_ms), r),
    ensures
        waited_ms >= 10_000 ==> r == ConnectStep::GiveUp,
        waited_ms < 10_000 && error == ConnectError::NotFound && platform != PipePlatform::Neither
            ==> r == ConnectStep::Retry,
        waited_ms < 10_000 && platform == PipePlatform::Unix && (error
            == ConnectError::ConnectionRefused || error == ConnectError::Interrupted) ==> r
            == ConnectStep::Retry,
        waited_ms < 10_000 && platform == PipePlatform::Windows && error
            == ConnectError::PermissionDenied ==> r == ConnectStep::Retry,
        error == ConnectError::Other || error == ConnectError::Unsupported || platform
            == PipePlatform::Neither ==> r == ConnectStep::GiveUp,
{
}

} // verus!
