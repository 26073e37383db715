//! A streaming session: what the gateway does, message by message, for a client that
//! sends audio while it is spoken.
//!
//! The session itself waits for nothing. It is told what happened and says what to do
//! next: receive a message, transcribe a chunk, send a message, or close.

use vstd::prelude::*;

use crate::transcribe::AudioFormat;
use crate::transcribe::PcmBuffer;
use crate::transcribe::TranscribeError;
use crate::transcribe::TARGET_CHANNELS;
use crate::transcribe::TARGET_SAMPLE_RATE;
use crate::vad::concatenated;
use crate::vad::judges_rounds;
use crate::vad::lemma_concatenated;
use crate::vad::lemma_pushed;
use crate::vad::pcm16le;
use crate::vad::settled;
use crate::vad::views;
use crate::vad::EnergyVad;
use crate::vad::VadState;
use crate::vad::MAX_BUFFER_SAMPLES;

verus! {

/// Seconds without a message from the client after which a session ends.
pub const IDLE_TIMEOUT_SECS: u64 = 60;

/// What a client says in a text message.
#[derive(Debug, Clone, Copy, PartialEq, Eq, Structural)]
pub enum ClientMessage {
    Start { sample_rate: u32, channels: u16 },
    Stop,
}

/// What the gateway tells a client.
#[derive(Debug)]
pub enum ServerMessage {
    Partial { text: String },
    Final { text: String },
    Error { code: String, message: String },
}

/// A message to a client with its texts as sequences of characters.
pub enum ServerMessageView {
    Partial { text: Seq<char> },
    Final { text: Seq<char> },
    Error { code: Seq<char>, message: Seq<char> },
}

impl View for ServerMessage {
    type V = ServerMessageView;

    open spec fn view(&self) -> ServerMessageView {
        match self {
            ServerMessage::Partial { text } => ServerMessageView::Partial { text: text@ },
            ServerMessage::Final { text } => ServerMessageView::Final { text: text@ },
            ServerMessage::Error { code, message } => ServerMessageView::Error {
                code: code@,
                message: message@,
            },
        }
    }
}

/// What came of waiting for a message from the client.
#[derive(Debug)]
pub enum Received {
    /// A message with audio.
    Binary(Vec<u8>),
    /// A text message, and what it says if it can be read.
    Text(Option<ClientMessage>),
    /// A message that closes the connection.
    Close,
    /// A message of any other kind.
    Other,
    /// The connection failed.
    Failed,
    /// The connection is at its end.
    Ended,
    /// No message came in time.
    TimedOut,
}

/// What came of waiting for a message, with audio as a sequence of bytes.
pub enum ReceivedView {
    Binary(Seq<u8>),
    Text(Option<ClientMessage>),
    Close,
    Other,
    Failed,
    Ended,
    TimedOut,
}

impl View for Received {
    type V = ReceivedView;

    open spec fn view(&self) -> ReceivedView {
        match self {
            Received::Binary(bytes) => ReceivedView::Binary(bytes@),
            Received::Text(message) => ReceivedView::Text(*message),
            Received::Close => ReceivedView::Close,
            Received::Other => ReceivedView::Other,
            Received::Failed => ReceivedView::Failed,
            Received::Ended => ReceivedView::Ended,
            Received::TimedOut => ReceivedView::TimedOut,
        }
    }
}

/// What a session is told.
#[derive(Debug)]
pub enum Event {
    /// What came of waiting for a message.
    Received(Received),
    /// What came of transcribing a chunk: its text, or why there is none.
    Transcribed(Result<String, TranscribeError>),
    /// Whether a message could be sent.
    Sent(bool),
}

/// What a session is told, with texts as sequences of characters.
pub enum EventView {
    Received(ReceivedView),
    Transcribed(Result<Seq<char>, Seq<char>>),
    Sent(bool),
}

impl View for Event {
    type V = EventView;

    open spec fn view(&self) -> EventView {
        match self {
            Event::Received(r) => EventView::Received(r@),
            Event::Transcribed(Ok(text)) => EventView::Transcribed(Ok(text@)),
            Event::Transcribed(Err(e)) => EventView::Transcribed(Err(e.text())),
            Event::Sent(ok) => EventView::Sent(*ok),
        }
    }
}

/// What a session wants to be done.
#[derive(Debug)]
pub enum Action {
    /// Wait for a message from the client.
    Receive,
    /// Transcribe a chunk.
    Transcribe(PcmBuffer<i16>),
    /// Send a message to the client.
    Send(ServerMessage),
    /// Close the connection.
    Close,
}

/// What a session wants to be done, with audio and texts as sequences.
pub enum ActionView {
    Receive,
    Transcribe { samples: Seq<i16>, format: AudioFormat },
    Send(ServerMessageView),
    Close,
}

impl View for Action {
    type V = ActionView;

    open spec fn view(&self) -> ActionView {
        match self {
            Action::Receive => ActionView::Receive,
            Action::Transcribe(chunk) => ActionView::Transcribe {
                samples: chunk.samples@,
                format: chunk.format,
            },
            Action::Send(message) => ActionView::Send(message@),
            Action::Close => ActionView::Close,
        }
    }
}

/// The message that tells a client of an error.
pub open spec fn error_message(code: Seq<char>, message: Seq<char>) -> ServerMessageView {
    ServerMessageView::Error { code, message }
}

/// Makes the message that tells a client of an error.
pub fn error(code: &str, message: &str) -> (m: ServerMessage)
    ensures
        m@ == error_message(code@, message@),
{
    ServerMessage::Error { code: code.to_owned(), message: message.to_owned() }
}

/// What comes of the first message of a session.
#[derive(Debug)]
pub enum Handshake {
    /// The client will send audio that can be transcribed.
    Accepted,
    /// The client is told why it is turned away.
    Refused(ServerMessage),
    /// The connection is closed without a word.
    Dropped,
}

/// What comes of the first message of a session, with texts as sequences.
pub enum HandshakeView {
    Accepted,
    Refused(ServerMessageView),
    Dropped,
}

impl View for Handshake {
    type V = HandshakeView;

    open spec fn view(&self) -> HandshakeView {
        match self {
            Handshake::Accepted => HandshakeView::Accepted,
            Handshake::Refused(message) => HandshakeView::Refused(message@),
            Handshake::Dropped => HandshakeView::Dropped,
        }
    }
}

/// The only first message that opens a session.
pub open spec fn opens(first: ReceivedView) -> bool {
    first == ReceivedView::Text(
        Some(
            ClientMessage::Start { sample_rate: TARGET_SAMPLE_RATE, channels: TARGET_CHANNELS },
        ),
    )
}

/// What comes of the first message of a session. Text is answered; anything else is
/// not.
pub open spec fn greeted(first: ReceivedView) -> HandshakeView {
    if opens(first) {
        HandshakeView::Accepted
    } else {
        match first {
            ReceivedView::Text(Some(ClientMessage::Start { .. })) => HandshakeView::Refused(
                error_message(
                    "UNSUPPORTED_FORMAT"@,
                    "streaming only supports 16000Hz mono PCM16LE"@,
                ),
            ),
            ReceivedView::Text(_) => HandshakeView::Refused(
                error_message(
                    "INVALID_HANDSHAKE"@,
                    "first message must be {\"type\":\"start\",\"sample_rate\":16000,\"channels\":1}"@,
                ),
            ),
            _ => HandshakeView::Dropped,
        }
    }
}

/// Judges the first message of a session: it has to announce audio in exactly the
/// format that transcribers take.
pub fn handshake(first: &Received) -> (h: Handshake)
    ensures
        h@ == greeted(first@),
{
    match first {
        Received::Text(Some(ClientMessage::Start { sample_rate, channels })) => {
            if *sample_rate == TARGET_SAMPLE_RATE && *channels == TARGET_CHANNELS {
                Handshake::Accepted
            } else {
                Handshake::Refused(
                    error("UNSUPPORTED_FORMAT", "streaming only supports 16000Hz mono PCM16LE"),
                )
            }
        },
        Received::Text(_) => {
            Handshake::Refused(
                error(
                    "INVALID_HANDSHAKE",
                    "first message must be {\"type\":\"start\",\"sample_rate\":16000,\"channels\":1}",
                ),
            )
        },
        _ => Handshake::Dropped,
    }
}

/// The message that tells a client what came of transcribing a chunk.
pub open spec fn reported(
    outcome: Result<Seq<char>, Seq<char>>,
    is_final: bool,
) -> ServerMessageView {
    match outcome {
        Ok(text) => if is_final {
            ServerMessageView::Final { text }
        } else {
            ServerMessageView::Partial { text }
        },
        Err(message) => error_message("TRANSCRIBE_FAILED"@, message),
    }
}

/// Makes the message that tells a client what came of transcribing a chunk, the last
/// one of the session or not.
pub fn emit_result(outcome: Result<String, TranscribeError>, is_final: bool) -> (m: ServerMessage)
    ensures
        m@ == reported(
            match outcome {
                Ok(text) => Ok(text@),
                Err(e) => Err(e.text()),
            },
            is_final,
        ),
{
    match outcome {
        Ok(text) => {
            if is_final {
                ServerMessage::Final { text }
            } else {
                ServerMessage::Partial { text }
            }
        },
        Err(e) => error("TRANSCRIBE_FAILED", e.message().as_str()),
    }
}

/// What a session waits for.
#[derive(Debug, Clone, Copy, PartialEq, Eq, Structural)]
pub enum Phase {
    /// The first message.
    Handshake,
    /// A message of an open session.
    Streaming,
    /// The transcript of a chunk, the last one or not.
    Transcribing { is_final: bool },
    /// Word that a message was sent, the last one or not.
    Sending { last: bool },
    /// Nothing.
    Closed,
}

/// The state of a session. `pending` are chunks that were cut and wait for those before
/// them to be transcribed.
#[verifier::ext_equal]
pub struct SessionState {
    pub phase: Phase,
    pub vad: VadState,
    pub pending: Seq<Seq<i16>>,
}

impl SessionState {
    /// The state of a new session.
    pub open spec fn start() -> SessionState {
        SessionState { phase: Phase::Handshake, vad: VadState::empty(), pending: Seq::empty() }
    }

    /// What holds of every state: the audio that is buffered does not make a chunk yet, no
    /// pending chunk lasts longer than five seconds, chunks are only pending while one
    /// before them is transcribed and reported, and no audio is left where a session has
    /// not begun or the last chunk is transcribed.
    pub open spec fn valid(self) -> bool {
        &&& settled(self.vad)
        &&& forall|i: int|
            0 <= i < self.pending.len() ==> (#[trigger] self.pending[i]).len()
                <= MAX_BUFFER_SAMPLES
        &&& self.phase is Handshake || self.phase is Streaming ==> self.pending.len() == 0
        &&& self.phase is Handshake ==> self.vad == VadState::empty()
        &&& self.phase == (Phase::Transcribing { is_final: true }) ==> self.vad
            == VadState::empty() && self.pending.len() == 0
    }

    /// Whether the session waits for an event of this kind.
    pub open spec fn expects(self, event: EventView) -> bool {
        match self.phase {
            Phase::Handshake | Phase::Streaming => event is Received,
            Phase::Transcribing { .. } => event is Transcribed,
            Phase::Sending { .. } => event is Sent,
            Phase::Closed => false,
        }
    }

    /// The audio that an event brings, if it brings any.
    pub open spec fn audio(self, event: EventView) -> Option<Seq<u8>> {
        match (self.phase, event) {
            (Phase::Streaming, EventView::Received(ReceivedView::Binary(bytes))) => Some(bytes),
            _ => None,
        }
    }

    /// Whether `rounds` judge the frames of audio that an event completes: chunks are cut
    /// until none is due.
    pub open spec fn judged_by(self, event: EventView, rounds: Seq<Seq<bool>>) -> bool {
        match self.audio(event) {
            Some(bytes) => self.vad.appended(pcm16le(bytes)).settled_by(rounds),
            None => rounds.len() == 0,
        }
    }

    /// The session in another phase.
    pub open spec fn to(self, phase: Phase) -> SessionState {
        SessionState { phase, ..self }
    }

    /// Hands on the first of `chunks` for transcription, or receives where there is none.
    pub open spec fn handed_on(self, chunks: Seq<Seq<i16>>) -> (SessionState, ActionView) {
        if chunks.len() > 0 {
            (
                SessionState {
                    phase: Phase::Transcribing { is_final: false },
                    pending: chunks.drop_first(),
                    ..self
                },
                ActionView::Transcribe { samples: chunks[0], format: AudioFormat::target() },
            )
        } else {
            (
                SessionState { phase: Phase::Streaming, pending: chunks, ..self },
                ActionView::Receive,
            )
        }
    }

    /// What a message of an open session leads to, where `rounds` say which of the frames
    /// that it completes hold speech.
    pub open spec fn streamed(self, received: ReceivedView, rounds: Seq<Seq<bool>>) -> (
        SessionState,
        ActionView,
    ) {
        match received {
            ReceivedView::Binary(bytes) => SessionState {
                vad: self.vad.pushed(bytes, rounds),
                ..self
            }.handed_on(self.vad.chunks(bytes, rounds)),
            ReceivedView::Text(Some(ClientMessage::Stop)) => (
                SessionState {
                    phase: Phase::Transcribing { is_final: true },
                    vad: VadState::empty(),
                    ..self
                },
                ActionView::Transcribe { samples: self.vad.buf, format: AudioFormat::target() },
            ),
            ReceivedView::Text(_) | ReceivedView::Other => (self, ActionView::Receive),
            ReceivedView::TimedOut => (
                self.to(Phase::Sending { last: true }),
                ActionView::Send(error_message("TIMEOUT"@, "no data received within 60s"@)),
            ),
            ReceivedView::Close | ReceivedView::Failed | ReceivedView::Ended => (
                self.to(Phase::Closed),
                ActionView::Close,
            ),
        }
    }

    /// The next state, and what is to be done, once an event has happened for which the
    /// session waits.
    pub open spec fn next(self, event: EventView, rounds: Seq<Seq<bool>>) -> (
        SessionState,
        ActionView,
    ) {
        match (self.phase, event) {
            (Phase::Handshake, EventView::Received(first)) => match greeted(first) {
                HandshakeView::Accepted => (self.to(Phase::Streaming), ActionView::Receive),
                HandshakeView::Refused(message) => (
                    self.to(Phase::Sending { last: true }),
                    ActionView::Send(message),
                ),
                HandshakeView::Dropped => (self.to(Phase::Closed), ActionView::Close),
            },
            (Phase::Streaming, EventView::Received(received)) => self.streamed(received, rounds),
            (Phase::Transcribing { is_final }, EventView::Transcribed(outcome)) => (
                self.to(Phase::Sending { last: is_final }),
                ActionView::Send(reported(outcome, is_final)),
            ),
            (Phase::Sending { last }, EventView::Sent(ok)) => if last || !ok {
                (self.to(Phase::Closed), ActionView::Close)
            } else {
                self.handed_on(self.pending)
            },
            _ => (self, ActionView::Close),
        }
    }
}

/// A streaming session with one client.
pub struct Session {
    phase: Phase,
    vad: EnergyVad,
    pending: Vec<Vec<i16>>,
}

impl View for Session {
    type V = SessionState;

    closed spec fn view(&self) -> SessionState {
        SessionState { phase: self.phase, vad: self.vad@, pending: views(self.pending@) }
    }
}

impl Session {
    /// A session with a client that has just connected.
    pub fn new() -> (session: Session)
        ensures
            session@ == SessionState::start(),
            session@.valid(),
    {
        let session = Session {
            phase: Phase::Handshake,
            vad: EnergyVad::new(),
            pending: Vec::new(),
        };
        assert(session@ =~= SessionState::start());
        session
    }

    /// What the session waits for.
    pub fn phase(&self) -> (phase: Phase)
        ensures
            phase == self@.phase,
    {
        self.phase
    }

    /// Tests whether the session waits for an event of this kind.
    pub fn expects(&self, event: &Event) -> (r: bool)
        ensures
            r == self@.expects(event@),
    {
        match (self.phase, event) {
            (Phase::Handshake, Event::Received(_)) => true,
            (Phase::Streaming, Event::Received(_)) => true,
            (Phase::Transcribing { .. }, Event::Transcribed(_)) => true,
            (Phase::Sending { .. }, Event::Sent(_)) => true,
            _ => false,
        }
    }

    /// Hands on the first pending chunk, or receives where none is pending.
    fn hand_on(&mut self) -> (action: Action)
        ensures
            (final(self)@, action@) == old(self)@.handed_on(old(self)@.pending),
    {
        if self.pending.len() > 0 {
            let ghost chunks = self.pending@;
            let samples = self.pending.remove(0);
            self.phase = Phase::Transcribing { is_final: false };
            assert(views(self.pending@) =~= views(chunks).drop_first());
            Action::Transcribe(PcmBuffer { samples, format: AudioFormat::target() })
        } else {
            self.phase = Phase::Streaming;
            Action::Receive
        }
    }

    fn on_message<F: Fn(&[i16]) -> bool>(&mut self, received: Received, is_speech: F) -> (action:
        Action)
        requires
            old(self)@.valid(),
            old(self)@.phase is Streaming,
            forall|f: &[i16]| #[trigger] call_requires(is_speech, (f,)),
        ensures
            final(self)@.valid(),
            exists|rounds: Seq<Seq<bool>>|
                heard(old(self)@, EventView::Received(received@), is_speech, rounds) && (
                final(self)@,
                action@,
                ) == #[trigger] old(self)@.streamed(received@, rounds),
    {
        let ghost before = self@;
        let ghost r = received@;
        let ghost mut rounds: Seq<Seq<bool>> = Seq::empty();
        let action = match received {
            Received::Binary(bytes) => {
                self.pending = self.vad.push(bytes.as_slice(), is_speech);
                proof {
                    rounds =
                    choose|rounds: Seq<Seq<bool>>|
                        {
                            let all = before.vad.appended(pcm16le(bytes@));
                            &&& all.settled_by(rounds)
                            &&& judges_rounds(is_speech, all, rounds)
                            &&& self.vad@ == #[trigger] before.vad.pushed(bytes@, rounds)
                            &&& views(self.pending@) == before.vad.chunks(bytes@, rounds)
                        };
                    assert forall|i: int| 0 <= i < self@.pending.len() implies (
                    #[trigger] self@.pending[i]).len() <= MAX_BUFFER_SAMPLES by {
                        assert(self@.pending[i] == self.pending@[i]@);
                    }
                }
                self.hand_on()
            },
            Received::Text(Some(ClientMessage::Stop)) => {
                self.phase = Phase::Transcribing { is_final: true };
                Action::Transcribe(
                    PcmBuffer { samples: self.vad.take(), format: AudioFormat::target() },
                )
            },
            Received::Text(_) | Received::Other => Action::Receive,
            Received::TimedOut => {
                self.phase = Phase::Sending { last: true };
                Action::Send(error("TIMEOUT", "no data received within 60s"))
            },
            Received::Close | Received::Failed | Received::Ended => {
                self.phase = Phase::Closed;
                Action::Close
            },
        };
        assert((self@, action@) == before.streamed(r, rounds));
        action
    }

    /// Takes note of an event and says what to do next. `is_speech` judges frames of
    /// audio.
    pub fn step<F: Fn(&[i16]) -> bool>(&mut self, event: Event, is_speech: F) -> (action: Action)
        requires
            old(self)@.valid(),
            old(self)@.expects(event@),
            forall|f: &[i16]| #[trigger] call_requires(is_speech, (f,)),
        ensures
            final(self)@.valid(),
            exists|rounds: Seq<Seq<bool>>|
                heard(old(self)@, event@, is_speech, rounds) && (final(self)@, action@)
                    == #[trigger] old(self)@.next(event@, rounds),
    {
        let ghost before = self@;
        let ghost e = event@;
        let ghost mut rounds: Seq<Seq<bool>> = Seq::empty();
        let action = match (self.phase, event) {
            (Phase::Handshake, Event::Received(first)) => {
                match handshake(&first) {
                    Handshake::Accepted => {
                        self.phase = Phase::Streaming;
                        Action::Receive
                    },
                    Handshake::Refused(message) => {
                        self.phase = Phase::Sending { last: true };
                        Action::Send(message)
                    },
                    Handshake::Dropped => {
                        self.phase = Phase::Closed;
                        Action::Close
                    },
                }
            },
            (Phase::Streaming, Event::Received(received)) => {
                let ghost r = received@;
                let action = self.on_message(received, is_speech);
                proof {
                    rounds =
                    choose|rounds: Seq<Seq<bool>>|
                        heard(before, EventView::Received(r), is_speech, rounds) && (
                        self@,
                        action@,
                        ) == #[trigger] before.streamed(r, rounds);
                }
                action
            },
            (Phase::Transcribing { is_final }, Event::Transcribed(outcome)) => {
                self.phase = Phase::Sending { last: is_final };
                Action::Send(emit_result(outcome, is_final))
            },
            (Phase::Sending { last }, Event::Sent(ok)) => {
                if last || !ok {
                    self.phase = Phase::Closed;
                    Action::Close
                } else {
                    self.hand_on()
                }
            },
            _ => Action::Close,
        };
        assert((self@, action@) == before.next(e, rounds));
        action
    }
}

/// Whether `is_speech`, asked about the frames of audio that an event completes, may
/// have given the verdicts of `rounds`.
pub open spec fn heard<F: Fn(&[i16]) -> bool>(
    s: SessionState,
    event: EventView,
    is_speech: F,
    rounds: Seq<Seq<bool>>,
) -> bool {
    &&& s.judged_by(event, rounds)
    &&& s.audio(event) matches Some(bytes) ==> judges_rounds(
        is_speech,
        s.vad.appended(pcm16le(bytes)),
        rounds,
    )
}

/// The state after a course of events, each with the rounds in which the frames of audio
/// were judged that it completed.
pub open spec fn run(course: Seq<(EventView, Seq<Seq<bool>>)>) -> SessionState
    decreases course.len(),
{
    if course.len() == 0 {
        SessionState::start()
    } else {
        run(course.drop_last()).next(course.last().0, course.last().1).0
    }
}

/// What was to be done after the last event of a course; at first, to receive a
/// message.
pub open spec fn last_action(course: Seq<(EventView, Seq<Seq<bool>>)>) -> ActionView {
    if course.len() == 0 {
        ActionView::Receive
    } else {
        run(course.drop_last()).next(course.last().0, course.last().1).1
    }
}

/// Whether a course of events can happen: every event is one for which the session
/// waited, and every completed frame was judged.
pub open spec fn possible(course: Seq<(EventView, Seq<Seq<bool>>)>) -> bool
    decreases course.len(),
{
    course.len() == 0 || {
        let before = run(course.drop_last());
        &&& possible(course.drop_last())
        &&& before.expects(course.last().0)
        &&& before.judged_by(course.last().0, course.last().1)
    }
}

/// The audio that the client sent in a course of events.
pub open spec fn sent_audio(course: Seq<(EventView, Seq<Seq<bool>>)>) -> Seq<i16>
    decreases course.len(),
{
    if course.len() == 0 {
        Seq::empty()
    } else {
        sent_audio(course.drop_last()) + match run(course.drop_last()).audio(course.last().0) {
            Some(bytes) => pcm16le(bytes),
            None => Seq::empty(),
        }
    }
}

/// The audio that was handed on for transcription in a course of events.
pub open spec fn transcribed_audio(course: Seq<(EventView, Seq<Seq<bool>>)>) -> Seq<i16>
    decreases course.len(),
{
    if course.len() == 0 {
        Seq::empty()
    } else {
        transcribed_audio(course.drop_last()) + match last_action(course) {
            ActionView::Transcribe { samples, .. } => samples,
            _ => Seq::empty(),
        }
    }
}

proof fn lemma_next_is_valid(s: SessionState, event: EventView, rounds: Seq<Seq<bool>>)
    requires
        s.valid(),
        s.expects(event),
        s.judged_by(event, rounds),
    ensures
        s.next(event, rounds).0.valid(),
{
    match s.audio(event) {
        Some(bytes) => {
            lemma_pushed(s.vad, bytes, rounds);
            assert forall|i: int| 0 <= i < s.vad.chunks(bytes, rounds).len() implies (
            #[trigger] s.vad.chunks(bytes, rounds)[i]).len() <= MAX_BUFFER_SAMPLES by {
                crate::vad::law_chunks_last_at_most_five_seconds(s.vad, bytes, rounds, i);
            }
        },
        None => {},
    }
}

/// Whatever happens to a session, its state is a valid one: less than five seconds of
/// audio wait, and none of it makes a chunk yet.
pub proof fn law_sessions_stay_valid(course: Seq<(EventView, Seq<Seq<bool>>)>)
    requires
        possible(course),
    ensures
        run(course).valid(),
        run(course).vad.buf.len() < MAX_BUFFER_SAMPLES,
    decreases course.len(),
{
    if course.len() > 0 {
        law_sessions_stay_valid(course.drop_last());
        lemma_next_is_valid(run(course.drop_last()), course.last().0, course.last().1);
    }
}

/// Every chunk that a session hands on for transcription lasts at most five seconds,
/// however much audio a message brings. So none is longer than the 30 seconds that the
/// model takes in at once.
pub proof fn law_transcribed_chunks_last_at_most_five_seconds(
    s: SessionState,
    event: EventView,
    rounds: Seq<Seq<bool>>,
)
    requires
        s.valid(),
        s.expects(event),
        s.judged_by(event, rounds),
    ensures
        s.next(event, rounds).1 matches ActionView::Transcribe { samples, .. } ==> samples.len()
            <= MAX_BUFFER_SAMPLES && samples.len() <= 5 * TARGET_SAMPLE_RATE && samples.len() <= 30
            * TARGET_SAMPLE_RATE,
{
    match s.audio(event) {
        Some(bytes) => {
            if s.vad.chunks(bytes, rounds).len() > 0 {
                crate::vad::law_chunks_last_at_most_five_seconds(s.vad, bytes, rounds, 0);
            }
        },
        None => {},
    }
}

proof fn lemma_handed_on(s: SessionState, chunks: Seq<Seq<i16>>)
    ensures
        concatenated(chunks) == (match s.handed_on(chunks).1 {
            ActionView::Transcribe { samples, .. } => samples,
            _ => Seq::empty(),
        }) + concatenated(s.handed_on(chunks).0.pending),
{
    if chunks.len() > 0 {
        let head = seq![chunks[0]];
        assert(chunks =~= head + chunks.drop_first());
        lemma_concatenated(head, chunks.drop_first());
        reveal_with_fuel(concatenated, 2);
        assert(concatenated(head) =~= chunks[0]);
    } else {
        assert(Seq::<i16>::empty() + concatenated(chunks) =~= concatenated(chunks));
    }
}

/// One event neither loses nor repeats audio: what is pending and buffered, followed by
/// what the event brings, is what is handed on, followed by what is pending and buffered
/// then.
pub proof fn law_every_event_keeps_audio(
    s: SessionState,
    event: EventView,
    rounds: Seq<Seq<bool>>,
)
    requires
        s.valid(),
        s.expects(event),
        s.judged_by(event, rounds),
    ensures
        concatenated(s.pending) + s.vad.buf + (match s.audio(event) {
            Some(bytes) => pcm16le(bytes),
            None => Seq::empty(),
        }) == (match s.next(event, rounds).1 {
            ActionView::Transcribe { samples, .. } => samples,
            _ => Seq::empty(),
        }) + concatenated(s.next(event, rounds).0.pending) + s.next(event, rounds).0.vad.buf,
{
    let (after, action) = s.next(event, rounds);
    let handed: Seq<i16> = match action {
        ActionView::Transcribe { samples, .. } => samples,
        _ => Seq::empty(),
    };
    match s.audio(event) {
        Some(bytes) => {
            let chunks = s.vad.chunks(bytes, rounds);
            let heard = SessionState { vad: s.vad.pushed(bytes, rounds), ..s };
            crate::vad::law_push_keeps_audio(s.vad, bytes, rounds);
            lemma_handed_on(heard, chunks);
            assert(concatenated(s.pending) + s.vad.buf + pcm16le(bytes) =~= s.vad.buf + pcm16le(
                bytes,
            ));
            assert(handed + concatenated(after.pending) + after.vad.buf =~= concatenated(chunks)
                + after.vad.buf);
        },
        None => {
            lemma_handed_on(s, s.pending);
            assert(concatenated(s.pending) + s.vad.buf + Seq::empty() =~= handed + concatenated(
                after.pending,
            ) + after.vad.buf);
        },
    }
}

/// No audio is lost, repeated or moved: what was transcribed so far, followed by what is
/// pending and what is buffered, is what the client sent. After the client has stopped
/// nothing is left, so all of it is transcribed.
pub proof fn law_all_audio_is_transcribed(course: Seq<(EventView, Seq<Seq<bool>>)>)
    requires
        possible(course),
    ensures
        transcribed_audio(course) + concatenated(run(course).pending) + run(course).vad.buf
            == sent_audio(course),
        run(course).phase == (Phase::Transcribing { is_final: true }) ==> transcribed_audio(course)
            == sent_audio(course),
    decreases course.len(),
{
    if course.len() > 0 {
        let shorter = course.drop_last();
        let before = run(shorter);
        let (event, rounds) = course.last();
        law_all_audio_is_transcribed(shorter);
        law_sessions_stay_valid(shorter);
        law_every_event_keeps_audio(before, event, rounds);
        let brought: Seq<i16> = match before.audio(event) {
            Some(bytes) => pcm16le(bytes),
            None => Seq::empty(),
        };
        let handed: Seq<i16> = match last_action(course) {
            ActionView::Transcribe { samples, .. } => samples,
            _ => Seq::empty(),
        };
        assert(transcribed_audio(course) + concatenated(run(course).pending) + run(course).vad.buf
            =~= transcribed_audio(shorter) + (handed + concatenated(run(course).pending) + run(
            course,
        ).vad.buf));
        assert(transcribed_audio(shorter) + (concatenated(before.pending) + before.vad.buf
            + brought) =~= sent_audio(course));
    } else {
        assert(transcribed_audio(course) + concatenated(run(course).pending) + run(course).vad.buf
            =~= sent_audio(course));
    }
    law_sessions_stay_valid(course);
    assert(transcribed_audio(course) + Seq::<i16>::empty() + Seq::<i16>::empty()
        =~= transcribed_audio(course));
}

/// A session in which the first message did not announce audio in the right format
/// never transcribes anything: the client is told or not, and the connection is
/// closed.
pub proof fn law_nothing_is_transcribed_without_handshake(
    course: Seq<(EventView, Seq<Seq<bool>>)>,
    first: ReceivedView,
)
    requires
        possible(course),
        course.len() > 0,
        course[0].0 == EventView::Received(first),
        !opens(first),
    ensures
        run(course).phase is Closed || run(course).phase == (Phase::Sending { last: true }),
        last_action(course) is Send || last_action(course) is Close,
        transcribed_audio(course) == Seq::<i16>::empty(),
        course.len() <= 2,
    decreases course.len(),
{
    reveal_with_fuel(possible, 3);
    reveal_with_fuel(run, 3);
    reveal_with_fuel(transcribed_audio, 3);
    let shorter = course.drop_last();
    if shorter.len() > 0 {
        assert(shorter[0] == course[0]);
        law_nothing_is_transcribed_without_handshake(shorter, first);
        if shorter.len() == 2 {
            let shortest = shorter.drop_last();
            assert(shortest[0] == course[0]);
            law_nothing_is_transcribed_without_handshake(shortest, first);
        }
    }
    assert(transcribed_audio(course) =~= Seq::<i16>::empty());
}

/// A session opens on exactly one first message: the announcement of audio in the
/// format that transcribers take.
pub proof fn law_handshake_is_exact(first: ReceivedView, rounds: Seq<Seq<bool>>)
    ensures
        SessionState::start().next(EventView::Received(first), rounds).0.phase is Streaming
            <==> first == ReceivedView::Text(
            Some(ClientMessage::Start { sample_rate: 16_000, channels: 1 }),
        ),
{
}

/// Everything that is handed on for transcription is in the format that transcribers
/// take, and each such chunk is answered with exactly one message before anything
/// else happens: its text, or the error.
pub proof fn law_every_chunk_is_answered(
    s: SessionState,
    event: EventView,
    rounds: Seq<Seq<bool>>,
    answer: EventView,
    none: Seq<Seq<bool>>,
)
    requires
        s.expects(event),
        s.next(event, rounds).1 is Transcribe,
    ensures
        s.next(event, rounds).1->format == AudioFormat::target(),
        s.next(event, rounds).0.expects(answer) <==> answer is Transcribed,
        answer is Transcribed ==> s.next(event, rounds).0.next(answer, none).1
            == ActionView::Send(
            reported(
                answer->Transcribed_0,
                event == EventView::Received(ReceivedView::Text(Some(ClientMessage::Stop))),
            ),
        ),
{
}

/// Once the client stops, everything that waits is transcribed, the client is told
/// what came of it, and the connection is closed, whether or not the client could be
/// told.
pub proof fn law_stop_ends_the_session(
    s: SessionState,
    outcome: Result<Seq<char>, Seq<char>>,
    sent: bool,
    none: Seq<Seq<bool>>,
)
    requires
        s.phase is Streaming,
    ensures
        ({
            let stop = EventView::Received(ReceivedView::Text(Some(ClientMessage::Stop)));
            let (s1, a1) = s.next(stop, none);
            let (s2, a2) = s1.next(EventView::Transcribed(outcome), none);
            let (s3, a3) = s2.next(EventView::Sent(sent), none);
            &&& a1 == ActionView::Transcribe { samples: s.vad.buf, format: AudioFormat::target() }
            &&& a2 == ActionView::Send(reported(outcome, true))
            &&& a3 is Close
            &&& s3.phase is Closed
        }),
{
}

/// A final transcript is sent only after the client stopped, and then the connection is
/// closed: it is the last message.
pub proof fn law_final_is_last(course: Seq<(EventView, Seq<Seq<bool>>)>, text: Seq<char>)
    requires
        possible(course),
        last_action(course) == ActionView::Send(ServerMessageView::Final { text }),
    ensures
        run(course).phase == (Phase::Sending { last: true }),
        course.len() >= 2,
        course[course.len() - 2].0 == EventView::Received(
            ReceivedView::Text(Some(ClientMessage::Stop)),
        ),
{
    reveal_with_fuel(possible, 2);
    let shorter = course.drop_last();
    if shorter.len() > 0 {
        assert(shorter.last() == course[course.len() - 2]);
        assert(run(shorter) == run(shorter.drop_last()).next(shorter.last().0, shorter.last().1).0);
    }
}

/// A session that was told to close, or that the client left, waits for nothing more.
pub proof fn law_closed_sessions_stay_closed(course: Seq<(EventView, Seq<Seq<bool>>)>, event: EventView)
    requires
        possible(course),
        last_action(course) is Close,
    ensures
        run(course).phase is Closed,
        !run(course).expects(event),
{
}

/// Messages that mean nothing to an open session change nothing: text that does not stop
/// it, whether or not it can be read, and messages that are neither text, nor audio, nor
/// the end of the connection. The session goes on to receive.
pub proof fn law_ignored_messages_change_nothing(
    s: SessionState,
    received: ReceivedView,
    rounds: Seq<Seq<bool>>,
)
    requires
        s.phase is Streaming,
        received is Other || (received is Text && received != ReceivedView::Text(
            Some(ClientMessage::Stop),
        )),
    ensures
        s.next(EventView::Received(received), rounds) == (s, ActionView::Receive),
{
}

/// What the first message of a session is answered: the announcement of audio at 16 000
/// samples per second in one channel opens the session; another announcement is refused for
/// its format, and any other text for what it is; whatever else comes first is not answered.
pub proof fn law_greetings_are_exact(first: ReceivedView)
    ensures
        match first {
            ReceivedView::Text(Some(ClientMessage::Start { sample_rate, channels })) => if sample_rate
                == 16_000 && channels == 1 {
                greeted(first) is Accepted
            } else {
                greeted(first) == HandshakeView::Refused(
                    ServerMessageView::Error {
                        code: "UNSUPPORTED_FORMAT"@,
                        message: "streaming only supports 16000Hz mono PCM16LE"@,
                    },
                )
            },
            ReceivedView::Text(_) => greeted(first) == HandshakeView::Refused(
                ServerMessageView::Error {
                    code: "INVALID_HANDSHAKE"@,
                    message: "first message must be {\"type\":\"start\",\"sample_rate\":16000,\"channels\":1}"@,
                },
            ),
            _ => greeted(first) is Dropped,
        },
{
}

/// A transcript is reported in full, as final after the client stopped and as partial
/// before; a failure is reported as such, with what is said of it.
pub proof fn law_reports_are_exact(text: Seq<char>, reason: Seq<char>)
    ensures
        reported(Ok(text), true) == (ServerMessageView::Final { text }),
        reported(Ok(text), false) == (ServerMessageView::Partial { text }),
        reported(Err(reason), true) == (ServerMessageView::Error {
            code: "TRANSCRIBE_FAILED"@,
            message: reason,
        }),
        reported(Err(reason), false) == reported(Err(reason), true),
{
}

/// A new session waits for the first message and has no audio.
pub proof fn law_sessions_start_empty()
    ensures
        run(Seq::empty()).phase is Handshake,
        run(Seq::empty()).vad.buf.len() == 0,
        run(Seq::empty()).pending.len() == 0,
{
}

/// A session waits for a message, for a transcript, for word of what it sent, or, once
/// closed, for nothing, and never for two of these.
pub proof fn law_sessions_wait_for_one_kind(s: SessionState, event: EventView)
    ensures
        s.expects(event) <==> match s.phase {
            Phase::Handshake => event is Received,
            Phase::Streaming => event is Received,
            Phase::Transcribing { is_final } => event is Transcribed,
            Phase::Sending { last } => event is Sent,
            Phase::Closed => false,
        },
{
}

/// A client that leaves, or whose connection fails, is left at once.
pub proof fn law_departures_close_the_session(
    s: SessionState,
    received: ReceivedView,
    rounds: Seq<Seq<bool>>,
)
    requires
        s.phase is Streaming,
        received is Close || received is Failed || received is Ended,
    ensures
        s.next(EventView::Received(received), rounds).0.phase is Closed,
        s.next(EventView::Received(received), rounds).1 is Close,
{
}

/// A client that is silent for too long is told so, and then the connection is closed,
/// whether or not it could be told.
pub proof fn law_idle_clients_are_told_and_left(
    s: SessionState,
    rounds: Seq<Seq<bool>>,
    sent: bool,
)
    requires
        s.phase is Streaming,
    ensures
        ({
            let (s1, a1) = s.next(EventView::Received(ReceivedView::TimedOut), rounds);
            let (s2, a2) = s1.next(EventView::Sent(sent), rounds);
            &&& a1 == ActionView::Send(
                ServerMessageView::Error {
                    code: "TIMEOUT"@,
                    message: "no data received within 60s"@,
                },
            )
            &&& a2 is Close
            &&& s2.phase is Closed
        }),
{
}

/// Audio is handed on exactly as it is cut: where a message makes chunks due, the first is
/// transcribed and the others wait in order; where it makes none due, the next message is
/// received.
pub proof fn law_audio_is_handed_on_as_it_is_cut(
    s: SessionState,
    bytes: Seq<u8>,
    rounds: Seq<Seq<bool>>,
)
    requires
        s.phase is Streaming,
    ensures
        ({
            let (s1, a1) = s.next(EventView::Received(ReceivedView::Binary(bytes)), rounds);
            let chunks = s.vad.chunks(bytes, rounds);
            &&& s1.vad == s.vad.pushed(bytes, rounds)
            &&& chunks.len() == 0 ==> a1 is Receive && s1.phase is Streaming && s1.pending.len()
                == 0
            &&& chunks.len() > 0 ==> a1 == (ActionView::Transcribe {
                samples: chunks[0],
                format: AudioFormat { sample_rate: 16_000, channels: 1 },
            }) && s1.phase == (Phase::Transcribing { is_final: false }) && chunks == seq![chunks[0]]
                + s1.pending
        }),
{
    let chunks = s.vad.chunks(bytes, rounds);
    if chunks.len() > 0 {
        assert(chunks =~= seq![chunks[0]] + chunks.drop_first());
    }
}

/// Once a transcript that is not the last was sent, the next pending chunk is transcribed,
/// or the next message received where none is pending; where it could not be sent, the
/// connection is closed. Nothing happens to the audio meanwhile.
pub proof fn law_pending_chunks_follow(s: SessionState, sent: bool, rounds: Seq<Seq<bool>>)
    requires
        s.phase == (Phase::Sending { last: false }),
    ensures
        ({
            let (s1, a1) = s.next(EventView::Sent(sent), rounds);
            &&& s1.vad == s.vad
            &&& !sent ==> a1 is Close && s1.phase is Closed
            &&& sent && s.pending.len() == 0 ==> a1 is Receive && s1.phase is Streaming
            &&& sent && s.pending.len() > 0 ==> a1 == (ActionView::Transcribe {
                samples: s.pending[0],
                format: AudioFormat { sample_rate: 16_000, channels: 1 },
            }) && s1.phase == (Phase::Transcribing { is_final: false }) && s.pending
                == seq![s.pending[0]] + s1.pending
        }),
{
    if s.pending.len() > 0 {
        assert(s.pending =~= seq![s.pending[0]] + s.pending.drop_first());
    }
}

/// What came of transcribing a chunk is sent to the client; after the last chunk the session
/// is about to close, after any other it goes on. Nothing happens to the audio meanwhile.
pub proof fn law_outcomes_are_sent(
    s: SessionState,
    is_final: bool,
    outcome: Result<Seq<char>, Seq<char>>,
    rounds: Seq<Seq<bool>>,
)
    requires
        s.phase == (Phase::Transcribing { is_final }),
    ensures
        ({
            let (s1, a1) = s.next(EventView::Transcribed(outcome), rounds);
            &&& s1.phase == (Phase::Sending { last: is_final })
            &&& s1.vad == s.vad
            &&& s1.pending == s.pending
            &&& a1 == ActionView::Send(
                match outcome {
                    Ok(text) => if is_final {
                        ServerMessageView::Final { text }
                    } else {
                        ServerMessageView::Partial { text }
                    },
                    Err(message) => ServerMessageView::Error {
                        code: "TRANSCRIBE_FAILED"@,
                        message,
                    },
                },
            )
        }),
{
}

/// The frames of audio that a message completes are judged by `is_speech` as they lie:
/// verdict `i` of round `j` is its answer about samples `320 * i` to `320 * i + 320` of those
/// that wait then.
pub proof fn law_sessions_judge_every_frame<F: Fn(&[i16]) -> bool>(
    s: SessionState,
    bytes: Seq<u8>,
    is_speech: F,
    rounds: Seq<Seq<bool>>,
    j: int,
    i: int,
)
    requires
        s.valid(),
        s.phase is Streaming,
        heard(s, EventView::Received(ReceivedView::Binary(bytes)), is_speech, rounds),
        0 <= j < rounds.len(),
        0 <= i < rounds[j].len(),
    ensures
        s.vad.appended(pcm16le(bytes)).settled_by(rounds),
        exists|f: &[i16]|
            f@ == s.vad.appended(pcm16le(bytes)).cut_after(rounds.take(j)).buf.skip(
                s.vad.appended(pcm16le(bytes)).cut_after(rounds.take(j)).analyzed as int,
            ).subrange(320 * i, 320 * i + 320) && #[trigger] call_ensures(
                is_speech,
                (f,),
                rounds[j][i],
            ),
{
    crate::vad::law_verdicts_are_on_their_frames(
        is_speech,
        s.vad.appended(pcm16le(bytes)),
        rounds,
        j,
        i,
    );
}

/// What a session is told, and what it says, is taken for what it is.
pub proof fn law_nothing_is_mistaken(
    received: Received,
    message: ServerMessage,
    event: Event,
    action: Action,
)
    ensures
        match received {
            Received::Binary(bytes) => received@ == ReceivedView::Binary(bytes@),
            Received::Text(text) => received@ == ReceivedView::Text(text),
            Received::Close => received@ is Close,
            Received::Other => received@ is Other,
            Received::Failed => received@ is Failed,
            Received::Ended => received@ is Ended,
            Received::TimedOut => received@ is TimedOut,
        },
        match message {
            ServerMessage::Partial { text } => message@ == (ServerMessageView::Partial {
                text: text@,
            }),
            ServerMessage::Final { text } => message@ == (ServerMessageView::Final { text: text@ }),
            ServerMessage::Error { code, message: m } => message@ == (ServerMessageView::Error {
                code: code@,
                message: m@,
            }),
        },
        match event {
            Event::Received(r) => event@ == EventView::Received(r@),
            Event::Transcribed(Ok(text)) => event@ == EventView::Transcribed(Ok(text@)),
            Event::Transcribed(Err(e)) => event@ == EventView::Transcribed(Err(e.text())),
            Event::Sent(ok) => event@ == EventView::Sent(ok),
        },
        match action {
            Action::Receive => action@ is Receive,
            Action::Transcribe(chunk) => action@ == (ActionView::Transcribe {
                samples: chunk.samples@,
                format: chunk.format,
            }),
            Action::Send(m) => action@ == ActionView::Send(m@),
            Action::Close => action@ is Close,
        },
{
}

} // verus!
