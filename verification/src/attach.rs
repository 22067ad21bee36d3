//! A process in the container, attached to a channel: what becomes of the
//! client's messages, what is kept of the error output, and how the channel is
//! closed when the process is gone.

use vstd::prelude::*;
use vstd::utf8::{decode_utf8, valid_utf8};

use crate::outside::{lossy, lossy_text};
use crate::session::PtySpec;

verus! {

/// How a process is attached: through pipes, or through a terminal.
#[derive(Debug, Clone, Copy, PartialEq, Eq)]
pub enum AttachMode {
    Pipes,
    Pty,
}

/// A process gets a terminal where the client asked for one.
pub fn attach_mode(pty: &Option<PtySpec>) -> (out: AttachMode)
    ensures
        out == if *pty is Some {
            AttachMode::Pty
        } else {
            AttachMode::Pipes
        },
{
    if pty.is_some() {
        AttachMode::Pty
    } else {
        AttachMode::Pipes
    }
}

/// A message on a channel.
#[derive(Debug, Clone)]
pub enum ChannelEvent {
    /// Input for the process.
    Data(Vec<u8>),
    /// The client has no more input.
    Eof,
    /// The client closes the channel.
    Close,
    /// The channel is gone.
    Gone,
    /// Anything else.
    Other,
}

/// A [`ChannelEvent`] with its bytes as a sequence.
pub enum EventView {
    Data(Seq<u8>),
    End,
    Other,
}

impl View for ChannelEvent {
    type V = EventView;

    open spec fn view(&self) -> EventView {
        match *self {
            ChannelEvent::Data(bytes) => EventView::Data(bytes@),
            ChannelEvent::Eof => EventView::End,
            ChannelEvent::Close => EventView::End,
            ChannelEvent::Gone => EventView::End,
            ChannelEvent::Other => EventView::Other,
        }
    }
}

/// What to do about a message.
#[derive(Debug, Clone)]
pub enum InputStep {
    /// Hand these bytes to the process.
    Write(Vec<u8>),
    /// There is no more input.
    Finish,
    /// Nothing.
    Skip,
}

/// An [`InputStep`] with its bytes as a sequence.
pub enum InputView {
    Write(Seq<u8>),
    Finish,
    Skip,
}

impl View for InputStep {
    type V = InputView;

    open spec fn view(&self) -> InputView {
        match *self {
            InputStep::Write(bytes) => InputView::Write(bytes@),
            InputStep::Finish => InputView::Finish,
            InputStep::Skip => InputView::Skip,
        }
    }
}

/// What to do about a message, and whether input goes on.
pub open spec fn input_step(open: bool, event: EventView) -> (bool, InputView) {
    if !open {
        (false, InputView::Skip)
    } else {
        match event {
            EventView::Data(bytes) => (true, InputView::Write(bytes)),
            EventView::End => (false, InputView::Finish),
            EventView::Other => (true, InputView::Skip),
        }
    }
}

/// The way of the client's input to the process.
#[derive(Debug, Clone, Copy)]
pub struct InputPump {
    pub open: bool,
}

impl InputPump {
    /// Input that has just begun.
    pub fn new() -> (out: InputPump)
        ensures
            out.open,
    {
        InputPump { open: true }
    }

    /// What to do about a message.
    pub fn step(&mut self, event: ChannelEvent) -> (out: InputStep)
        ensures
            (final(self).open, out@) == input_step(old(self).open, event@),
    {
        if !self.open {
            return InputStep::Skip;
        }
        match event {
            ChannelEvent::Data(bytes) => InputStep::Write(bytes),
            ChannelEvent::Eof => {
                self.open = false;
                InputStep::Finish
            },
            ChannelEvent::Close => {
                self.open = false;
                InputStep::Finish
            },
            ChannelEvent::Gone => {
                self.open = false;
                InputStep::Finish
            },
            ChannelEvent::Other => InputStep::Skip,
        }
    }
}

/// The end of the client's input is the end of a pipe; a terminal stays open.
pub fn closes_input(mode: AttachMode) -> (r: bool)
    ensures
        r == (mode == AttachMode::Pipes),
{
    match mode {
        AttachMode::Pipes => true,
        AttachMode::Pty => false,
    }
}

/// The bytes that the process gets, message by message.
pub open spec fn written(open: bool, events: Seq<EventView>) -> Seq<u8>
    decreases events.len(),
{
    if events.len() == 0 {
        Seq::empty()
    } else {
        let (next, step) = input_step(open, events[0]);
        let rest = written(next, events.skip(1));
        match step {
            InputView::Write(bytes) => bytes + rest,
            _ => rest,
        }
    }
}

/// The input that comes before its end.
pub open spec fn sent(events: Seq<EventView>) -> Seq<u8>
    decreases events.len(),
{
    if events.len() == 0 {
        Seq::empty()
    } else {
        match events[0] {
            EventView::Data(bytes) => bytes + sent(events.skip(1)),
            EventView::End => Seq::empty(),
            EventView::Other => sent(events.skip(1)),
        }
    }
}

/// Nothing is written behind the end of the input.
proof fn lemma_written_closed(events: Seq<EventView>)
    ensures
        written(false, events) == Seq::<u8>::empty(),
    decreases events.len(),
{
    if events.len() > 0 {
        lemma_written_closed(events.skip(1));
    }
}

/// Law: the process gets what the client sends before the end of its input,
/// all of it, in order, and nothing after.
pub proof fn input_arrives_in_order(events: Seq<EventView>)
    ensures
        written(true, events) == sent(events),
    decreases events.len(),
{
    if events.len() > 0 {
        input_arrives_in_order(events.skip(1));
        lemma_written_closed(events.skip(1));
    }
}

/// The beginning of some output: at most its first 1024 bytes.
pub open spec fn beginning(output: Seq<u8>) -> Seq<u8> {
    if output.len() <= 1024 {
        output
    } else {
        output.take(1024)
    }
}

/// The beginning of a process's error output.
#[derive(Debug)]
pub struct ErrorSample {
    captured: Vec<u8>,
}

impl View for ErrorSample {
    type V = Seq<u8>;

    closed spec fn view(&self) -> Seq<u8> {
        self.captured@
    }
}

impl ErrorSample {
    /// A sample is no longer than it may be.
    #[verifier::type_invariant]
    spec fn within_limit(self) -> bool {
        self.captured@.len() <= 1024
    }

    /// The beginning of no output.
    pub fn new() -> (out: ErrorSample)
        ensures
            out@ == Seq::<u8>::empty(),
    {
        ErrorSample { captured: Vec::new() }
    }

    /// Takes up more of the output.
    pub fn absorb(&mut self, chunk: &[u8])
        ensures
            final(self)@ == beginning(old(self)@ + chunk@),
    {
        proof {
            use_type_invariant(&*self);
        }
        let ghost before = self@;
        let mut kept: Vec<u8> = Vec::new();
        std::mem::swap(&mut kept, &mut self.captured);
        let mut i: usize = 0;
        while i < chunk.len() && kept.len() < 1024
            invariant
                i <= chunk@.len(),
                kept@.len() <= 1024,
                kept@ == before + chunk@.take(i as int),
            decreases chunk@.len() - i,
        {
            kept.push(chunk[i]);
            assert(chunk@.take(i + 1) =~= chunk@.take(i as int).push(chunk@[i as int]));
            i += 1;
        }
        assert(kept@ =~= beginning(before + chunk@));
        self.captured = kept;
    }

    /// The bytes kept.
    pub fn bytes(&self) -> (out: &[u8])
        ensures
            out@ == self@,
    {
        self.captured.as_slice()
    }

    /// What is kept, as a text.
    pub fn text(&self) -> (out: String)
        ensures
            out@ == lossy(self@),
            valid_utf8(self@) ==> out@ == decode_utf8(self@),
    {
        lossy_text(self.captured.as_slice())
    }
}

/// Law: it makes no difference in which pieces the output comes.
pub proof fn sample_ignores_the_pieces(output: Seq<u8>, a: Seq<u8>, b: Seq<u8>)
    ensures
        beginning(beginning(beginning(output) + a) + b) == beginning(output + a + b),
{
    assert(beginning(beginning(beginning(output) + a) + b) =~= beginning(output + a + b));
}

/// The exit status that the client is told: the process's own, 255 where a
/// signal ended it, and nothing below zero.
pub open spec fn exit_status(code: Option<i32>) -> u32 {
    match code {
        Some(c) => if c < 0 {
            0
        } else {
            c as u32
        },
        None => 255,
    }
}

/// The exit status that the client is told.
pub fn exit_code(code: Option<i32>) -> (out: u32)
    ensures
        out == exit_status(code),
{
    match code {
        Some(c) => if c < 0 {
            0
        } else {
            c as u32
        },
        None => 255,
    }
}

/// How a task that copies output has ended.
#[derive(Debug, Clone, Copy, PartialEq, Eq)]
pub enum OutputEnd {
    /// All output is copied.
    Done,
    /// The copying failed.
    Failed,
    /// The task was lost.
    Lost,
    /// The time for it is up.
    TimedOut,
}

/// What happens while a process is wound up.
#[derive(Debug, Clone, Copy, PartialEq, Eq)]
pub enum WindupEvent {
    /// The process is gone, with this code unless a signal ended it.
    Exited(Option<i32>),
    /// The copying of the output has ended.
    Output(OutputEnd),
    /// The copying of the error output has ended.
    Errors(OutputEnd),
}

/// How far the winding up is.
#[derive(Debug, Clone, Copy, PartialEq, Eq)]
pub enum Phase {
    Running,
    AwaitingOutput { status: u32 },
    AwaitingErrors { status: u32 },
    Closed,
}

/// What to do next.
#[derive(Debug, Clone, Copy, PartialEq, Eq)]
pub enum WindupAction {
    /// Stop the input and wait for the output, so many milliseconds if that is
    /// limited.
    AwaitOutput { limit_ms: Option<u64> },
    /// Wait for the error output.
    AwaitErrors,
    /// Send the exit status, the end of the output and the end of the channel,
    /// in this order.
    Close { status: u32 },
    /// Give up with the error that the copying ended with.
    GiveUp,
    /// Give up: a task was lost.
    GiveUpLost { task: OutputTask },
    /// Nothing.
    Nothing,
}

/// A task that copies output.
#[derive(Debug, Clone, Copy, PartialEq, Eq)]
pub enum OutputTask {
    Stdout,
    Stderr,
    PtyStdout,
}

impl OutputTask {
    /// What is logged of a lost task.
    pub open spec fn lost_text(self) -> Seq<char> {
        match self {
            OutputTask::Stdout => "stdout task join failed"@,
            OutputTask::Stderr => "stderr task join failed"@,
            OutputTask::PtyStdout => "pty stdout task join failed"@,
        }
    }

    /// What is logged of a lost task.
    pub fn lost_message(&self) -> (out: String)
        ensures
            out@ == self.lost_text(),
    {
        match self {
            OutputTask::Stdout => "stdout task join failed".to_string(),
            OutputTask::Stderr => "stderr task join failed".to_string(),
            OutputTask::PtyStdout => "pty stdout task join failed".to_string(),
        }
    }
}

/// How long the output of a terminal is waited for once its process is gone.
/// A reader of a terminal does not always see the end of it.
pub const PTY_DRAIN_MS: u64 = 200;

/// What happens next. Pipes are read to their end, first the output, then the
/// error output, however long it takes. A terminal has one output, and its
/// time is limited.
pub open spec fn windup(mode: AttachMode, phase: Phase, event: WindupEvent) -> (Phase, WindupAction) {
    match (phase, event) {
        (Phase::Running, WindupEvent::Exited(code)) => (
            Phase::AwaitingOutput { status: exit_status(code) },
            WindupAction::AwaitOutput {
                limit_ms: match mode {
                    AttachMode::Pipes => None,
                    AttachMode::Pty => Some(PTY_DRAIN_MS),
                },
            },
        ),
        (Phase::AwaitingOutput { status }, WindupEvent::Output(end)) => match end {
            OutputEnd::Failed => (Phase::Closed, WindupAction::GiveUp),
            OutputEnd::Lost => (
                Phase::Closed,
                WindupAction::GiveUpLost {
                    task: match mode {
                        AttachMode::Pipes => OutputTask::Stdout,
                        AttachMode::Pty => OutputTask::PtyStdout,
                    },
                },
            ),
            OutputEnd::Done => match mode {
                AttachMode::Pipes => (
                    Phase::AwaitingErrors { status },
                    WindupAction::AwaitErrors,
                ),
                AttachMode::Pty => (Phase::Closed, WindupAction::Close { status }),
            },
            OutputEnd::TimedOut => match mode {
                AttachMode::Pipes => (phase, WindupAction::AwaitOutput { limit_ms: None }),
                AttachMode::Pty => (Phase::Closed, WindupAction::Close { status }),
            },
        },
        (Phase::AwaitingErrors { status }, WindupEvent::Errors(end)) => match end {
            OutputEnd::Failed => (Phase::Closed, WindupAction::GiveUp),
            OutputEnd::Lost => (
                Phase::Closed,
                WindupAction::GiveUpLost { task: OutputTask::Stderr },
            ),
            OutputEnd::Done => (Phase::Closed, WindupAction::Close { status }),
            OutputEnd::TimedOut => (phase, WindupAction::AwaitErrors),
        },
        _ => (phase, WindupAction::Nothing),
    }
}

/// The winding up of an attached process.
#[derive(Debug, Clone, Copy)]
pub struct Windup {
    pub mode: AttachMode,
    pub phase: Phase,
}

impl Windup {
    /// A process that runs.
    pub fn new(mode: AttachMode) -> (out: Windup)
        ensures
            out.mode == mode,
            out.phase == Phase::Running,
    {
        Windup { mode, phase: Phase::Running }
    }

    /// What happens next.
    pub fn step(&mut self, event: WindupEvent) -> (out: WindupAction)
        ensures
            final(self).mode == old(self).mode,
            (final(self).phase, out) == windup(old(self).mode, old(self).phase, event),
    {
        match (self.phase, event) {
            (Phase::Running, WindupEvent::Exited(code)) => {
                self.phase = Phase::AwaitingOutput { status: exit_code(code) };
                WindupAction::AwaitOutput {
                    limit_ms: match self.mode {
                        AttachMode::Pipes => None,
                        AttachMode::Pty => Some(PTY_DRAIN_MS),
                    },
                }
            },
            (Phase::AwaitingOutput { status }, WindupEvent::Output(end)) => match end {
                OutputEnd::Failed => {
                    self.phase = Phase::Closed;
                    WindupAction::GiveUp
                },
                OutputEnd::Lost => {
                    self.phase = Phase::Closed;
                    WindupAction::GiveUpLost {
                        task: match self.mode {
                            AttachMode::Pipes => OutputTask::Stdout,
                            AttachMode::Pty => OutputTask::PtyStdout,
                        },
                    }
                },
                OutputEnd::Done => match self.mode {
                    AttachMode::Pipes => {
                        self.phase = Phase::AwaitingErrors { status };
                        WindupAction::AwaitErrors
                    },
                    AttachMode::Pty => {
                        self.phase = Phase::Closed;
                        WindupAction::Close { status }
                    },
                },
                OutputEnd::TimedOut => match self.mode {
                    AttachMode::Pipes => WindupAction::AwaitOutput { limit_ms: None },
                    AttachMode::Pty => {
                        self.phase = Phase::Closed;
                        WindupAction::Close { status }
                    },
                },
            },
            (Phase::AwaitingErrors { status }, WindupEvent::Errors(end)) => match end {
                OutputEnd::Failed => {
                    self.phase = Phase::Closed;
                    WindupAction::GiveUp
                },
                OutputEnd::Lost => {
                    self.phase = Phase::Closed;
                    WindupAction::GiveUpLost { task: OutputTask::Stderr }
                },
                OutputEnd::Done => {
                    self.phase = Phase::Closed;
                    WindupAction::Close { status }
                },
                OutputEnd::TimedOut => WindupAction::AwaitErrors,
            },
            _ => WindupAction::Nothing,
        }
    }
}

/// The phase after some events.
pub open spec fn phase_after(mode: AttachMode, phase: Phase, events: Seq<WindupEvent>) -> Phase
    decreases events.len(),
{
    if events.len() == 0 {
        phase
    } else {
        windup(mode, phase_after(mode, phase, events.drop_last()), events.last()).0
    }
}

/// The status that a phase carries is that of the process.
pub open spec fn carries(phase: Phase, code: Option<i32>) -> bool {
    match phase {
        Phase::Running => true,
        Phase::AwaitingOutput { status } => status == exit_status(code),
        Phase::AwaitingErrors { status } => status == exit_status(code),
        Phase::Closed => true,
    }
}

/// Law: a closed channel stays closed, and nothing more is sent on it.
pub proof fn closed_is_final(mode: AttachMode, event: WindupEvent)
    ensures
        windup(mode, Phase::Closed, event) == (Phase::Closed, WindupAction::Nothing),
{
}

/// Law: the exit status is sent only once the process is gone, it is that of
/// the process, and with it the channel is closed.
pub proof fn the_status_sent_is_the_processs(
    mode: AttachMode,
    events: Seq<WindupEvent>,
    event: WindupEvent,
    code: Option<i32>,
)
    requires
        forall|i: int|
            0 <= i < events.len() ==> (#[trigger] events[i] matches WindupEvent::Exited(c) ==> c
                == code),
    ensures
        carries(phase_after(mode, Phase::Running, events), code),
        windup(mode, phase_after(mode, Phase::Running, events), event).1 matches WindupAction::Close {
            status,
        } ==> {
            &&& status == exit_status(code)
            &&& events.contains(WindupEvent::Exited(code))
            &&& windup(mode, phase_after(mode, Phase::Running, events), event).0 == Phase::Closed
        },
    decreases events.len(),
{
    lemma_past_running(mode, events, code);
}

/// A phase past the first is reached by the end of the process alone.
proof fn lemma_past_running(mode: AttachMode, events: Seq<WindupEvent>, code: Option<i32>)
    requires
        forall|i: int|
            0 <= i < events.len() ==> (#[trigger] events[i] matches WindupEvent::Exited(c) ==> c
                == code),
    ensures
        carries(phase_after(mode, Phase::Running, events), code),
        phase_after(mode, Phase::Running, events) != Phase::Running ==> events.contains(
            WindupEvent::Exited(code),
        ),
    decreases events.len(),
{
    if events.len() > 0 {
        let init = events.drop_last();
        assert forall|i: int| 0 <= i < init.len() implies (#[trigger] init[i] matches
            WindupEvent::Exited(c) ==> c == code) by {
            assert(events[i] == init[i]);
        }
        lemma_past_running(mode, init, code);
        assert(events[events.len() - 1] == events.last());
        if phase_after(mode, Phase::Running, init) != Phase::Running {
            let i = choose|i: int| 0 <= i < init.len() && init[i] == WindupEvent::Exited(code);
            assert(events[i] == WindupEvent::Exited(code));
        }
    }
}

/// Through pipes the error output is waited for once the output is copied.
proof fn lemma_output_comes_first(events: Seq<WindupEvent>)
    ensures
        phase_after(AttachMode::Pipes, Phase::Running, events) is AwaitingErrors
            ==> events.contains(WindupEvent::Output(OutputEnd::Done)),
    decreases events.len(),
{
    if events.len() > 0 {
        let before = events.drop_last();
        lemma_output_comes_first(before);
        if phase_after(AttachMode::Pipes, Phase::Running, before) is AwaitingErrors {
            let i = choose|i: int|
                0 <= i < before.len() && before[i] == WindupEvent::Output(OutputEnd::Done);
            assert(events[i] == before[i]);
        }
        assert(events[events.len() - 1] == events.last());
    }
}

/// Law: through pipes the channel is closed only when all output and then all
/// error output is copied.
pub proof fn pipes_are_drained_before_closing(events: Seq<WindupEvent>, event: WindupEvent)
    ensures
        windup(
            AttachMode::Pipes,
            phase_after(AttachMode::Pipes, Phase::Running, events),
            event,
        ).1 is Close ==> {
            &&& events.contains(WindupEvent::Output(OutputEnd::Done))
            &&& event == WindupEvent::Errors(OutputEnd::Done)
        },
{
    lemma_output_comes_first(events);
}

/// Law: through pipes the channel is closed, with the process's exit status,
/// as soon as the process is gone and both outputs are copied.
pub proof fn drained_pipes_are_closed(code: Option<i32>)
    ensures
        windup(
            AttachMode::Pipes,
            phase_after(
                AttachMode::Pipes,
                Phase::Running,
                seq![WindupEvent::Exited(code), WindupEvent::Output(OutputEnd::Done)],
            ),
            WindupEvent::Errors(OutputEnd::Done),
        ) == (Phase::Closed, WindupAction::Close { status: exit_status(code) }),
{
    let events = seq![WindupEvent::Exited(code), WindupEvent::Output(OutputEnd::Done)];
    reveal_with_fuel(phase_after, 3);
    assert(events.drop_last().drop_last() =~= Seq::empty());
}

/// Law: a terminal that nobody ends does not keep the channel open. Once the
/// process is gone, the channel is closed when the output ends or its time is
/// up, whatever the client does.
pub proof fn terminal_does_not_hang(code: Option<i32>, end: OutputEnd)
    requires
        end == OutputEnd::Done || end == OutputEnd::TimedOut,
    ensures
        windup(AttachMode::Pty, Phase::Running, WindupEvent::Exited(code)) == (
            Phase::AwaitingOutput { status: exit_status(code) },
            WindupAction::AwaitOutput { limit_ms: Some(PTY_DRAIN_MS) },
        ),
        windup(
            AttachMode::Pty,
            Phase::AwaitingOutput { status: exit_status(code) },
            WindupEvent::Output(end),
        ) == (Phase::Closed, WindupAction::Close { status: exit_status(code) }),
{
}

/// Law: a process that ends by itself has its own code sent as the status of
/// the channel, whatever the code is; one that a signal ended has 255 sent; and
/// no code below zero is sent.
pub proof fn the_exit_code_is_the_status(c: i32)
    ensures
        c >= 0 ==> exit_status(Some(c)) as int == c as int,
        c < 0 ==> exit_status(Some(c)) == 0,
        exit_status(None) == 255,
        c > 0 ==> exit_status(Some(c)) != 0,
{
}

/// Law: when the channel of a process is closed, through pipes or a terminal,
/// the status sent with it is the process's own exit code, and 255 where a
/// signal ended it.
pub proof fn the_channel_is_closed_with_the_exit_code(
    mode: AttachMode,
    events: Seq<WindupEvent>,
    event: WindupEvent,
    code: Option<i32>,
)
    requires
        forall|i: int|
            0 <= i < events.len() ==> (#[trigger] events[i] matches WindupEvent::Exited(c) ==> c
                == code),
    ensures
        windup(mode, phase_after(mode, Phase::Running, events), event).1 matches WindupAction::Close {
            status,
        } ==> {
            &&& code matches Some(c) ==> c >= 0 ==> status as int == c as int
            &&& code matches Some(c) ==> c > 0 ==> status != 0
            &&& code is None ==> status == 255
        },
{
    the_status_sent_is_the_processs(mode, events, event, code);
}

/// Law: once a process is gone its output is waited for, through a terminal
/// for a fifth of a second, through pipes without a limit; then, through pipes,
/// its error output; then the channel is closed with the status.
pub proof fn winding_up_goes_step_by_step(code: Option<i32>, status: u32)
    ensures
        windup(AttachMode::Pipes, Phase::Running, WindupEvent::Exited(code)).1 == (
        WindupAction::AwaitOutput { limit_ms: None }),
        windup(AttachMode::Pty, Phase::Running, WindupEvent::Exited(code)).1 == (
        WindupAction::AwaitOutput { limit_ms: Some(200u64) }),
        windup(
            AttachMode::Pipes,
            Phase::AwaitingOutput { status },
            WindupEvent::Output(OutputEnd::Done),
        ) == (Phase::AwaitingErrors { status }, WindupAction::AwaitErrors),
        windup(
            AttachMode::Pipes,
            Phase::AwaitingErrors { status },
            WindupEvent::Errors(OutputEnd::Done),
        ) == (Phase::Closed, WindupAction::Close { status }),
        windup(
            AttachMode::Pty,
            Phase::AwaitingOutput { status },
            WindupEvent::Output(OutputEnd::Done),
        ) == (Phase::Closed, WindupAction::Close { status }),
        windup(
            AttachMode::Pty,
            Phase::AwaitingOutput { status },
            WindupEvent::Output(OutputEnd::TimedOut),
        ) == (Phase::Closed, WindupAction::Close { status }),
        windup(
            AttachMode::Pipes,
            Phase::AwaitingOutput { status },
            WindupEvent::Output(OutputEnd::Lost),
        ).1 == (WindupAction::GiveUpLost { task: OutputTask::Stdout }),
        windup(
            AttachMode::Pipes,
            Phase::AwaitingErrors { status },
            WindupEvent::Errors(OutputEnd::Lost),
        ).1 == (WindupAction::GiveUpLost { task: OutputTask::Stderr }),
        windup(
            AttachMode::Pty,
            Phase::AwaitingOutput { status },
            WindupEvent::Output(OutputEnd::Lost),
        ).1 == (WindupAction::GiveUpLost { task: OutputTask::PtyStdout }),
        forall|mode: AttachMode|
            #[trigger] windup(
                mode,
                Phase::AwaitingOutput { status },
                WindupEvent::Output(OutputEnd::Failed),
            ).1 == WindupAction::GiveUp,
        forall|mode: AttachMode|
            #[trigger] windup(
                mode,
                Phase::AwaitingErrors { status },
                WindupEvent::Errors(OutputEnd::Failed),
            ).1 == WindupAction::GiveUp,
{
}

/// Law: a channel is closed only with the status of a process that is gone, and
/// nothing is done about an output that is not waited for.
pub proof fn nothing_is_done_out_of_turn(mode: AttachMode, end: OutputEnd, status: u32, code: Option<i32>)
    ensures
        windup(mode, Phase::Running, WindupEvent::Output(end)) == (
            Phase::Running,
            WindupAction::Nothing,
        ),
        windup(mode, Phase::Running, WindupEvent::Errors(end)) == (
            Phase::Running,
            WindupAction::Nothing,
        ),
        windup(mode, Phase::AwaitingOutput { status }, WindupEvent::Errors(end)) == (
            Phase::AwaitingOutput { status },
            WindupAction::Nothing,
        ),
        windup(mode, Phase::AwaitingErrors { status }, WindupEvent::Output(end)) == (
            Phase::AwaitingErrors { status },
            WindupAction::Nothing,
        ),
        windup(mode, Phase::AwaitingOutput { status }, WindupEvent::Exited(code)) == (
            Phase::AwaitingOutput { status },
            WindupAction::Nothing,
        ),
        windup(mode, Phase::AwaitingErrors { status }, WindupEvent::Exited(code)) == (
            Phase::AwaitingErrors { status },
            WindupAction::Nothing,
        ),
{
}

/// Law: each piece of input is handed on whole while the input is open; the
/// client's end of input closes it for good; anything else changes nothing.
pub proof fn input_is_handed_on_piece_by_piece(bytes: Seq<u8>, event: EventView)
    ensures
        input_step(true, EventView::Data(bytes)) == (true, InputView::Write(bytes)),
        input_step(true, EventView::End) == (false, InputView::Finish),
        input_step(true, EventView::Other) == (true, InputView::Skip),
        input_step(false, event) == (false, InputView::Skip),
{
}

/// Law: what a process is handed of several pieces of input is the pieces one
/// after the other, and of what comes behind the end of the input nothing.
pub proof fn pieces_of_input_are_joined(bytes: Seq<u8>, rest: Seq<EventView>)
    ensures
        written(true, Seq::empty()) == Seq::<u8>::empty(),
        written(true, seq![EventView::Data(bytes)] + rest) == bytes + written(true, rest),
        written(true, seq![EventView::Other] + rest) == written(true, rest),
        written(true, seq![EventView::End] + rest) == Seq::<u8>::empty(),
{
    let a = seq![EventView::Data(bytes)] + rest;
    let b = seq![EventView::Other] + rest;
    let c = seq![EventView::End] + rest;
    assert(a.skip(1) =~= rest);
    assert(b.skip(1) =~= rest);
    assert(c.skip(1) =~= rest);
    lemma_nothing_after_the_end(rest);
}

/// Nothing is written once the input is closed.
proof fn lemma_nothing_after_the_end(events: Seq<EventView>)
    ensures
        written(false, events) == Seq::<u8>::empty(),
    decreases events.len(),
{
    if events.len() > 0 {
        lemma_nothing_after_the_end(events.skip(1));
    }
}

/// Law: the ends that a client can give its input are all ends, and data is
/// data, byte for byte.
pub proof fn events_are_seen_as_they_are(data: Vec<u8>)
    ensures
        ChannelEvent::Data(data)@ == EventView::Data(data@),
        ChannelEvent::Eof@ == EventView::End,
        ChannelEvent::Close@ == EventView::End,
        ChannelEvent::Gone@ == EventView::End,
        ChannelEvent::Other@ == EventView::Other,
        InputStep::Write(data)@ == InputView::Write(data@),
        InputStep::Finish@ == InputView::Finish,
        InputStep::Skip@ == InputView::Skip,
{
}

/// Law: a sample is the beginning of the output, up to a kilobyte of it.
pub proof fn a_sample_is_the_first_kilobyte(output: Seq<u8>)
    ensures
        beginning(output).is_prefix_of(output),
        output.len() <= 1024 ==> beginning(output).len() == output.len(),
        output.len() > 1024 ==> beginning(output).len() == 1024,
{
}

/// Law: a lost task is told by its output.
pub proof fn lost_tasks_are_told_by_their_output()
    ensures
        OutputTask::Stdout.lost_text() == "stdout task join failed"@,
        OutputTask::Stderr.lost_text() == "stderr task join failed"@,
        OutputTask::PtyStdout.lost_text() == "pty stdout task join failed"@,
{
}

/// Law: the status that a client is told is the process's own exit code, and
/// 255 where a signal ended it.
pub proof fn the_client_is_told_the_exit_code(code: Option<i32>, status: u32)
    requires
        call_ensures(exit_code, (code,), status),
    ensures
        code matches Some(c) ==> c >= 0 ==> status as int == c as int,
        code matches Some(c) ==> c < 0 ==> status == 0,
        code is None ==> status == 255,
{
}

/// Law: a process has a terminal exactly where one was asked for, and its input
/// is closed at its end exactly where it has none.
pub proof fn a_terminal_where_one_was_asked_for(
    pty: &Option<PtySpec>,
    mode: AttachMode,
    closes: bool,
)
    requires
        call_ensures(attach_mode, (pty,), mode),
        call_ensures(closes_input, (mode,), closes),
    ensures
        mode == AttachMode::Pty <==> *pty is Some,
        closes <==> *pty is None,
{
}

} // verus!
