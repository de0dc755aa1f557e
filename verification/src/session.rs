//! The interaction loop as a state machine: what to do next, given what
//! just happened. The caller performs the commands (sending, reading,
//! printing) and reports each outcome as the next event.

use crate::history::{
    assistant_message, is_history, system_message, user_message, ConversationHistory, MessageView,
    Role,
};
use crate::record::Mode;
use crate::request::{
    build_chat_request, build_generate_request, chat_request, generate_request, system_prompt,
    system_prompt_text, Request, RequestView,
};
use crate::seqs::joined;
use crate::stream::{
    lemma_after_text_wf, lemma_shown_is_gathered, DecoderView, StreamDecoder,
};
use crate::utf8::{lossy_text, lossy_texts};
use crate::text::{
    blank, eq_ignore_ascii_case, eq_ignore_ascii_case_spec, is_blank,
    lemma_trimmed_empty_iff_blank, trim, trimmed,
};
use vstd::prelude::*;

verus! {

/// Where the interaction loop stands.
#[derive(Clone, Copy, Debug, PartialEq, Eq, Structural)]
pub enum LoopState {
    /// Nothing has happened yet; the question from the command line is awaited.
    Idle,
    /// A line of interactive input is awaited.
    AwaitingInput,
    /// A request was handed out and its response has not opened.
    RequestInFlight,
    /// The response body is being read.
    StreamingResponse,
    /// The loop has ended.
    Terminated,
}

/// What just happened.
#[derive(Debug)]
pub enum Event {
    /// The question from the command line.
    Question(String),
    /// One line of interactive input.
    InputLine(String),
    /// The request was sent and the response body is open.
    ResponseOpened,
    /// The next chunk of the response body.
    Chunk(Vec<u8>),
    /// The response body has ended.
    StreamEnded,
    /// The connection could not be made, or reading from it failed.
    TransportFailed,
}

/// The mathematical value of an `Event`.
pub enum EventView {
    Question(Seq<char>),
    InputLine(Seq<char>),
    ResponseOpened,
    Chunk(Seq<u8>),
    StreamEnded,
    TransportFailed,
}

impl View for Event {
    type V = EventView;

    open spec fn view(&self) -> EventView {
        match self {
            Event::Question(q) => EventView::Question(q@),
            Event::InputLine(l) => EventView::InputLine(l@),
            Event::ResponseOpened => EventView::ResponseOpened,
            Event::Chunk(bytes) => EventView::Chunk(bytes@),
            Event::StreamEnded => EventView::StreamEnded,
            Event::TransportFailed => EventView::TransportFailed,
        }
    }
}

/// What the caller is to do next.
#[derive(Debug, PartialEq, Eq)]
pub enum Command {
    /// The question was blank: tell the user, and end without an error.
    Reject,
    /// Send this request and open its response.
    Send(Request),
    /// Read the next chunk of the response body.
    ReadChunk,
    /// Prompt for, and read, one line of input.
    ReadInput,
    /// End with success.
    Stop,
    /// Report the transport error and end.
    Fail,
    /// The event does not apply in this state; nothing was changed.
    Ignored,
}

/// The mathematical value of a `Command`.
pub enum CommandView {
    Reject,
    Send(RequestView),
    ReadChunk,
    ReadInput,
    Stop,
    Fail,
    Ignored,
}

impl View for Command {
    type V = CommandView;

    open spec fn view(&self) -> CommandView {
        match self {
            Command::Reject => CommandView::Reject,
            Command::Send(request) => CommandView::Send(request@),
            Command::ReadChunk => CommandView::ReadChunk,
            Command::ReadInput => CommandView::ReadInput,
            Command::Stop => CommandView::Stop,
            Command::Fail => CommandView::Fail,
            Command::Ignored => CommandView::Ignored,
        }
    }
}

/// The answer to one event.
#[derive(Debug, PartialEq, Eq)]
pub struct Step {
    /// The fragments to print at once, in order.
    pub output: Vec<String>,
    /// Whether this event brought the record that ends the turn; the
    /// completing newline is then due. A body that merely ends completes no turn.
    pub turn_completed: bool,
    /// What to do next.
    pub command: Command,
}

/// The mathematical value of a `Step`.
pub struct StepView {
    pub output: Seq<Seq<char>>,
    pub turn_completed: bool,
    pub command: CommandView,
}

impl View for Step {
    type V = StepView;

    open spec fn view(&self) -> StepView {
        StepView {
            output: self.output.deep_view(),
            turn_completed: self.turn_completed,
            command: self.command@,
        }
    }
}

impl StepView {
    /// A step that prints nothing and completes no turn.
    pub open spec fn quiet(command: CommandView) -> StepView {
        StepView { output: Seq::empty(), turn_completed: false, command }
    }
}

/// What a line of interactive input asks for.
#[derive(Debug, PartialEq, Eq)]
pub enum Input {
    /// One of the exit keywords: end the conversation.
    Exit,
    /// Nothing but whitespace: ask again.
    Empty,
    /// A message to send, without its surrounding whitespace.
    Message(String),
}

/// The mathematical value of an `Input`.
pub enum InputView {
    Exit,
    Empty,
    Message(Seq<char>),
}

impl View for Input {
    type V = InputView;

    open spec fn view(&self) -> InputView {
        match self {
            Input::Exit => InputView::Exit,
            Input::Empty => InputView::Empty,
            Input::Message(text) => InputView::Message(text@),
        }
    }
}

/// The exit keywords are `exit` and `quit`, in any mix of ASCII case.
pub open spec fn is_exit_keyword(text: Seq<char>) -> bool {
    eq_ignore_ascii_case_spec(text, "exit"@) || eq_ignore_ascii_case_spec(text, "quit"@)
}

/// What a line of input asks for, judged after trimming.
pub open spec fn classified(line: Seq<char>) -> InputView {
    let text = trimmed(line);
    if is_exit_keyword(text) {
        InputView::Exit
    } else if text.len() == 0 {
        InputView::Empty
    } else {
        InputView::Message(text)
    }
}

/// Judges one line of interactive input.
pub fn classify_input(line: &str) -> (r: Input)
    ensures
        r@ == classified(line@),
{
    let text = trim(line);
    if eq_ignore_ascii_case(text.as_str(), "exit") || eq_ignore_ascii_case(text.as_str(), "quit") {
        Input::Exit
    } else if text.as_str().unicode_len() == 0 {
        Input::Empty
    } else {
        Input::Message(text)
    }
}

/// The mathematical value of a `Session`.
pub struct SessionView {
    pub mode: Mode,
    pub state: LoopState,
    /// The task list in its serialized form, as the prompts embed it.
    pub tasks_json: Seq<char>,
    pub history: Seq<MessageView>,
    pub decoder: DecoderView,
}

impl SessionView {
    /// The session before anything has happened: idle, with the history
    /// seeded with the one system message.
    pub open spec fn start(mode: Mode, tasks_json: Seq<char>) -> SessionView {
        SessionView {
            mode,
            state: LoopState::Idle,
            tasks_json,
            history: seq![system_message(system_prompt_text(tasks_json))],
            decoder: DecoderView::start(mode),
        }
    }

    /// After the system message, user and assistant take turns, the user first.
    pub open spec fn alternates(self) -> bool {
        forall|i: int|
            1 <= i < self.history.len() ==> (#[trigger] self.history[i]).role == if i % 2 == 1 {
                Role::User
            } else {
                Role::Assistant
            }
    }

    /// What holds of every session that was started and then only stepped.
    pub open spec fn wf(self) -> bool {
        &&& is_history(self.history)
        &&& self.history[0] == system_message(system_prompt_text(self.tasks_json))
        &&& self.decoder.mode == self.mode
        &&& self.decoder.wf()
        &&& (self.state == LoopState::StreamingResponse ==> !self.decoder.turn.done)
        &&& self.alternates()
        &&& match self.mode {
            Mode::OneShot => self.history.len() == 1 && self.state != LoopState::AwaitingInput,
            Mode::Chat => match self.state {
                LoopState::Idle => self.history.len() == 1,
                LoopState::AwaitingInput => self.history.len() % 2 == 1 && self.history.len() >= 3,
                LoopState::RequestInFlight => self.history.len() % 2 == 0,
                LoopState::StreamingResponse => self.history.len() % 2 == 0,
                LoopState::Terminated => true,
            },
        }
    }

    /// The number of exchanges that were completed: user messages that got their answer.
    pub open spec fn completed_turns(self) -> int {
        (self.history.len() - 1) / 2
    }

    /// The session in another state, all else unchanged.
    pub open spec fn at(self, state: LoopState) -> SessionView {
        SessionView { state, ..self }
    }

    /// A first question, or a message from interactive input, is accepted:
    /// in chat mode it joins the history and the whole history is sent; in
    /// one-shot mode it is embedded in the prompt.
    pub open spec fn ask(self, text: Seq<char>) -> (SessionView, StepView) {
        match self.mode {
            Mode::OneShot => (
                self.at(LoopState::RequestInFlight),
                StepView::quiet(CommandView::Send(generate_request(self.tasks_json, text))),
            ),
            Mode::Chat => {
                let history = self.history.push(user_message(text));
                (
                    SessionView { state: LoopState::RequestInFlight, history, ..self },
                    StepView::quiet(CommandView::Send(chat_request(history))),
                )
            },
        }
    }

    /// The response is over, with `decoder` holding the reply and `output`
    /// still to print: in chat mode the reply joins the history and input is
    /// awaited; in one-shot mode the loop ends. The turn counts as completed
    /// exactly when the record that ends it was decoded, not when the body
    /// merely ended.
    pub open spec fn finish(self, decoder: DecoderView, output: Seq<Seq<char>>) -> (
        SessionView,
        StepView,
    ) {
        let turn_completed = decoder.turn.done;
        match self.mode {
            Mode::OneShot => (
                SessionView { state: LoopState::Terminated, decoder, ..self },
                StepView { output, turn_completed, command: CommandView::Stop },
            ),
            Mode::Chat => (
                SessionView {
                    state: LoopState::AwaitingInput,
                    history: self.history.push(assistant_message(decoder.turn.partial_text)),
                    decoder,
                    ..self
                },
                StepView { output, turn_completed, command: CommandView::ReadInput },
            ),
        }
    }

    /// The next state and the answer, for every state and every event.
    pub open spec fn transition(self, event: EventView) -> (SessionView, StepView) {
        match (self.state, event) {
            (LoopState::Idle, EventView::Question(question)) => {
                if is_blank(question) {
                    (self.at(LoopState::Terminated), StepView::quiet(CommandView::Reject))
                } else {
                    self.ask(question)
                }
            },
            (LoopState::AwaitingInput, EventView::InputLine(line)) => match classified(line) {
                InputView::Exit => (
                    self.at(LoopState::Terminated),
                    StepView::quiet(CommandView::Stop),
                ),
                InputView::Empty => (self, StepView::quiet(CommandView::ReadInput)),
                InputView::Message(text) => self.ask(text),
            },
            (LoopState::RequestInFlight, EventView::ResponseOpened) => (
                SessionView {
                    state: LoopState::StreamingResponse,
                    decoder: DecoderView::start(self.mode),
                    ..self
                },
                StepView::quiet(CommandView::ReadChunk),
            ),
            (LoopState::RequestInFlight, EventView::TransportFailed) => (
                self.at(LoopState::Terminated),
                StepView::quiet(CommandView::Fail),
            ),
            (LoopState::StreamingResponse, EventView::Chunk(bytes)) => {
                let decoder = self.decoder.after_chunk(bytes);
                let output = self.decoder.shown_by_chunk(bytes);
                if decoder.turn.done {
                    self.finish(decoder, output)
                } else {
                    (
                        SessionView { decoder, ..self },
                        StepView {
                            output,
                            turn_completed: false,
                            command: CommandView::ReadChunk,
                        },
                    )
                }
            },
            (LoopState::StreamingResponse, EventView::StreamEnded) => self.finish(
                self.decoder,
                Seq::empty(),
            ),
            (LoopState::StreamingResponse, EventView::TransportFailed) => (
                self.at(LoopState::Terminated),
                StepView::quiet(CommandView::Fail),
            ),
            _ => (self, StepView::quiet(CommandView::Ignored)),
        }
    }

    /// What a run of events, taken in order, gives to print.
    pub open spec fn output_of_events(self, events: Seq<EventView>) -> Seq<Seq<char>>
        decreases events.len(),
    {
        if events.len() == 0 {
            Seq::empty()
        } else {
            let before = events.drop_last();
            self.output_of_events(before) + self.after_events(before).transition(
                events.last(),
            ).1.output
        }
    }

    /// The session after a run of events, taken in order.
    pub open spec fn after_events(self, events: Seq<EventView>) -> SessionView
        decreases events.len(),
    {
        if events.len() == 0 {
            self
        } else {
            self.after_events(events.drop_last()).transition(events.last()).0
        }
    }
}

/// One run of the interaction loop: a single exchange, or a conversation.
pub struct Session {
    mode: Mode,
    state: LoopState,
    tasks_json: String,
    history: ConversationHistory,
    decoder: StreamDecoder,
}

impl View for Session {
    type V = SessionView;

    closed spec fn view(&self) -> SessionView {
        SessionView {
            mode: self.mode,
            state: self.state,
            tasks_json: self.tasks_json@,
            history: self.history@,
            decoder: self.decoder@,
        }
    }
}

fn quiet(command: Command) -> (r: Step)
    ensures
        r@ == StepView::quiet(command@),
{
    let r = Step { output: Vec::new(), turn_completed: false, command };
    assert(r.output.deep_view() =~= Seq::<Seq<char>>::empty());
    r
}

impl Session {
    #[verifier::type_invariant]
    spec fn well_formed(self) -> bool {
        self@.wf()
    }

    /// A session in `mode` over the task list `tasks_json`: idle, its
    /// history seeded with the system message that embeds the task list.
    pub fn new(mode: Mode, tasks_json: &str) -> (r: Self)
        ensures
            r@ == SessionView::start(mode, tasks_json@),
            r@.wf(),
    {
        Session {
            mode,
            state: LoopState::Idle,
            tasks_json: String::from_str(tasks_json),
            history: ConversationHistory::new(system_prompt(tasks_json)),
            decoder: StreamDecoder::new(mode),
        }
    }

    /// The mode of the session.
    pub fn mode(&self) -> (r: Mode)
        ensures
            r == self@.mode,
    {
        self.mode
    }

    /// Where the loop stands.
    pub fn state(&self) -> (r: LoopState)
        ensures
            r == self@.state,
            self@.wf(),
    {
        proof {
            use_type_invariant(self);
        }
        self.state
    }

    /// The conversation so far.
    pub fn history(&self) -> (r: &ConversationHistory)
        ensures
            r@ == self@.history,
    {
        &self.history
    }

    /// Takes what just happened and gives the session after it together with
    /// what to do next. Every state answers every event; an event that does
    /// not apply changes nothing.
    pub fn step(self, event: Event) -> (r: (Session, Step))
        ensures
            (r.0@, r.1@) == self@.transition(event@),
            r.0@.wf(),
    {
        proof {
            use_type_invariant(&self);
            lemma_transition_wf(self@, event@);
        }
        let Session { mode, state, tasks_json, mut history, mut decoder } = self;
        let (state, step) = match (state, event) {
            (LoopState::Idle, Event::Question(question)) => {
                if blank(question.as_str()) {
                    (LoopState::Terminated, quiet(Command::Reject))
                } else {
                    (
                        LoopState::RequestInFlight,
                        ask(mode, tasks_json.as_str(), &mut history, question),
                    )
                }
            },
            (LoopState::AwaitingInput, Event::InputLine(line)) => match classify_input(
                line.as_str(),
            ) {
                Input::Exit => (LoopState::Terminated, quiet(Command::Stop)),
                Input::Empty => (LoopState::AwaitingInput, quiet(Command::ReadInput)),
                Input::Message(text) => (
                    LoopState::RequestInFlight,
                    ask(mode, tasks_json.as_str(), &mut history, text),
                ),
            },
            (LoopState::RequestInFlight, Event::ResponseOpened) => {
                decoder = StreamDecoder::new(mode);
                (LoopState::StreamingResponse, quiet(Command::ReadChunk))
            },
            (LoopState::RequestInFlight, Event::TransportFailed) => (
                LoopState::Terminated,
                quiet(Command::Fail),
            ),
            (LoopState::StreamingResponse, Event::Chunk(bytes)) => {
                let output = decoder.feed(bytes.as_slice());
                if decoder.is_done() {
                    finish(mode, &mut history, &decoder, output)
                } else {
                    (
                        LoopState::StreamingResponse,
                        Step { output, turn_completed: false, command: Command::ReadChunk },
                    )
                }
            },
            (LoopState::StreamingResponse, Event::StreamEnded) => {
                let output: Vec<String> = Vec::new();
                assert(output.deep_view() =~= Seq::<Seq<char>>::empty());
                finish(mode, &mut history, &decoder, output)
            },
            (LoopState::StreamingResponse, Event::TransportFailed) => (
                LoopState::Terminated,
                quiet(Command::Fail),
            ),
            (state, _) => (state, quiet(Command::Ignored)),
        };
        (Session { mode, state, tasks_json, history, decoder }, step)
    }
}

/// Accepts a question or a message: in chat mode it joins the history and
/// the whole history is sent; in one-shot mode it is embedded in the prompt.
fn ask(mode: Mode, tasks_json: &str, history: &mut ConversationHistory, text: String) -> (step:
    Step)
    ensures
        final(history)@ == match mode {
            Mode::OneShot => old(history)@,
            Mode::Chat => old(history)@.push(user_message(text@)),
        },
        step@ == StepView::quiet(
            CommandView::Send(
                match mode {
                    Mode::OneShot => generate_request(tasks_json@, text@),
                    Mode::Chat => chat_request(final(history)@),
                },
            ),
        ),
{
    match mode {
        Mode::OneShot => quiet(Command::Send(build_generate_request(tasks_json, text.as_str()))),
        Mode::Chat => {
            history.push_user(text);
            quiet(Command::Send(build_chat_request(history)))
        },
    }
}

/// Ends the response: in chat mode the reply joins the history and input is
/// awaited; in one-shot mode the loop ends.
fn finish(
    mode: Mode,
    history: &mut ConversationHistory,
    decoder: &StreamDecoder,
    output: Vec<String>,
) -> (r: (LoopState, Step))
    ensures
        final(history)@ == match mode {
            Mode::OneShot => old(history)@,
            Mode::Chat => old(history)@.push(assistant_message(decoder@.turn.partial_text)),
        },
        r.0 == match mode {
            Mode::OneShot => LoopState::Terminated,
            Mode::Chat => LoopState::AwaitingInput,
        },
        r.1@ == (StepView {
            output: output.deep_view(),
            turn_completed: decoder@.turn.done,
            command: match mode {
                Mode::OneShot => CommandView::Stop,
                Mode::Chat => CommandView::ReadInput,
            },
        }),
{
    let turn_completed = decoder.is_done();
    match mode {
        Mode::OneShot => (
            LoopState::Terminated,
            Step { output, turn_completed, command: Command::Stop },
        ),
        Mode::Chat => {
            history.push_assistant(String::from_str(decoder.text()));
            (LoopState::AwaitingInput, Step { output, turn_completed, command: Command::ReadInput })
        },
    }
}

/// Every session that a well-formed session can become is well-formed.
pub proof fn lemma_transition_wf(s: SessionView, event: EventView)
    requires
        s.wf(),
    ensures
        s.transition(event).0.wf(),
{
    match (s.state, event) {
        (LoopState::StreamingResponse, EventView::Chunk(bytes)) => {
            lemma_after_text_wf(s.decoder, lossy_text(bytes));
        },
        _ => {},
    }
}

/// The history only grows, at its end: what was said stays said, in place.
pub proof fn lemma_history_only_grows(s: SessionView, event: EventView)
    ensures
        s.history.len() <= s.transition(event).0.history.len() <= s.history.len() + 1,
        s.transition(event).0.history.take(s.history.len() as int) == s.history,
        s.transition(event).0.tasks_json == s.tasks_json,
        s.transition(event).0.mode == s.mode,
{
    let next = s.transition(event).0;
    assert(next.history.take(s.history.len() as int) =~= s.history);
}

/// Every session that is reached from the start is well-formed.
pub proof fn lemma_reachable_wf(mode: Mode, tasks_json: Seq<char>, events: Seq<EventView>)
    ensures
        SessionView::start(mode, tasks_json).after_events(events).wf(),
    decreases events.len(),
{
    let start = SessionView::start(mode, tasks_json);
    if events.len() == 0 {
        assert(start.wf());
    } else {
        lemma_reachable_wf(mode, tasks_json, events.drop_last());
        lemma_transition_wf(start.after_events(events.drop_last()), events.last());
    }
}

/// The shape of a conversation between exchanges. While a chat session
/// awaits the question or a line of input, and `n` exchanges were completed,
/// its history holds exactly `1 + 2n` messages: first the system message
/// that the session was seeded with, then for each exchange the user's
/// message followed by the assistant's.
pub proof fn lemma_history_shape(s: SessionView)
    requires
        s.wf(),
        s.mode == Mode::Chat,
        s.state == LoopState::Idle || s.state == LoopState::AwaitingInput,
    ensures
        s.history.len() == 1 + 2 * s.completed_turns(),
        s.history[0] == system_message(system_prompt_text(s.tasks_json)),
        forall|k: int|
            0 <= k < s.completed_turns() ==> (#[trigger] s.history[1 + 2 * k]).role == Role::User,
        forall|k: int|
            0 <= k < s.completed_turns() ==> (#[trigger] s.history[2 + 2 * k]).role
                == Role::Assistant,
{
    let n = s.completed_turns();
    assert forall|k: int| 0 <= k < n implies (#[trigger] s.history[1 + 2 * k]).role
        == Role::User by {
        assert((1 + 2 * k) % 2 == 1);
    }
    assert forall|k: int| 0 <= k < n implies (#[trigger] s.history[2 + 2 * k]).role
        == Role::Assistant by {
        assert((2 + 2 * k) % 2 == 0);
    }
}

/// The same shape for a session reached from the start by any run of events.
pub proof fn lemma_history_after_turns(mode: Mode, tasks_json: Seq<char>, events: Seq<EventView>)
    requires
        mode == Mode::Chat,
        SessionView::start(mode, tasks_json).after_events(events).state
            == LoopState::AwaitingInput,
    ensures
        ({
            let s = SessionView::start(mode, tasks_json).after_events(events);
            &&& s.history.len() == 1 + 2 * s.completed_turns()
            &&& s.history[0] == system_message(system_prompt_text(tasks_json))
            &&& forall|k: int|
                0 <= k < s.completed_turns() ==> (#[trigger] s.history[1 + 2 * k]).role
                    == Role::User
            &&& forall|k: int|
                0 <= k < s.completed_turns() ==> (#[trigger] s.history[2 + 2 * k]).role
                    == Role::Assistant
        }),
{
    let start = SessionView::start(mode, tasks_json);
    let s = start.after_events(events);
    lemma_reachable_wf(mode, tasks_json, events);
    lemma_after_events_keeps_setup(start, events);
    lemma_history_shape(s);
}

/// A line of nothing but whitespace is empty input: the session asks again,
/// sends nothing, and stays as it was.
pub proof fn lemma_blank_input_asks_again(s: SessionView, line: Seq<char>)
    requires
        s.state == LoopState::AwaitingInput,
        is_blank(line),
    ensures
        classified(line) is Empty,
        s.transition(EventView::InputLine(line)) == (s, StepView::quiet(CommandView::ReadInput)),
{
    lemma_trimmed_empty_iff_blank(line);
    reveal_strlit("exit");
    reveal_strlit("quit");
}

/// An exit keyword ends the loop: nothing joins the history, nothing is sent.
pub proof fn lemma_exit_keyword_ends_the_loop(s: SessionView, line: Seq<char>)
    requires
        s.state == LoopState::AwaitingInput,
        is_exit_keyword(trimmed(line)),
    ensures
        s.transition(EventView::InputLine(line)) == (
            s.at(LoopState::Terminated),
            StepView::quiet(CommandView::Stop),
        ),
        s.transition(EventView::InputLine(line)).0.history == s.history,
{
}

/// A body that merely ends completes no turn: nothing is given to print and
/// no completing newline is due. In chat mode what was gathered still joins
/// the history and input is awaited; in one-shot mode the loop ends.
pub proof fn lemma_body_end_completes_no_turn(s: SessionView)
    requires
        s.wf(),
        s.state == LoopState::StreamingResponse,
    ensures
        s.transition(EventView::StreamEnded).1 == (StepView {
            output: Seq::empty(),
            turn_completed: false,
            command: match s.mode {
                Mode::OneShot => CommandView::Stop,
                Mode::Chat => CommandView::ReadInput,
            },
        }),
        s.transition(EventView::StreamEnded).0.history == match s.mode {
            Mode::OneShot => s.history,
            Mode::Chat => s.history.push(assistant_message(s.decoder.turn.partial_text)),
        },
{
}

/// A turn is reported as completed only by the chunk that brings the record
/// that ends it.
pub proof fn lemma_turn_completed_means_final_record(s: SessionView, event: EventView)
    requires
        s.wf(),
        s.transition(event).1.turn_completed,
    ensures
        s.state == LoopState::StreamingResponse,
        event is Chunk,
        s.decoder.after_chunk(event->Chunk_0).turn.done,
{
}

/// A request is only ever handed out together with the move into
/// `RequestInFlight`; no other step sends anything.
pub proof fn lemma_send_means_request_in_flight(s: SessionView, event: EventView)
    ensures
        s.transition(event).1.command is Send ==> s.transition(event).0.state
            == LoopState::RequestInFlight,
        s.transition(event).1.command is Send ==> (s.state == LoopState::Idle || s.state
            == LoopState::AwaitingInput),
{
}

/// The events of a response body that arrives as `chunks`.
pub open spec fn chunk_events(chunks: Seq<Seq<u8>>) -> Seq<EventView> {
    chunks.map_values(|chunk: Seq<u8>| EventView::Chunk(chunk))
}

/// While a response streams, the session is its decoder: after any run of
/// chunks the decoder has taken them all, what was given to print is what
/// the decoder showed, and the history has grown by the reply exactly if
/// the reply was completed.
pub proof fn lemma_streaming(s: SessionView, chunks: Seq<Seq<u8>>)
    requires
        s.state == LoopState::StreamingResponse,
        !s.decoder.turn.done,
    ensures
        ({
            let t = s.after_events(chunk_events(chunks));
            &&& t.decoder == s.decoder.after_chunks(chunks)
            &&& s.output_of_events(chunk_events(chunks)) == s.decoder.shown_by_chunks(chunks)
            &&& t.mode == s.mode
            &&& match t.state {
                LoopState::StreamingResponse => t.history == s.history && !t.decoder.turn.done,
                LoopState::AwaitingInput => s.mode == Mode::Chat && t.decoder.turn.done
                    && t.history == s.history.push(
                    assistant_message(t.decoder.turn.partial_text),
                ),
                LoopState::Terminated => s.mode == Mode::OneShot && t.decoder.turn.done
                    && t.history == s.history,
                _ => false,
            }
        }),
    decreases chunks.len(),
{
    let events = chunk_events(chunks);
    let none = Seq::<Seq<char>>::empty();
    if chunks.len() == 0 {
        assert(lossy_texts(chunks) =~= Seq::<Seq<char>>::empty());
    } else {
        let before = chunks.drop_last();
        lemma_streaming(s, before);
        assert(events.drop_last() =~= chunk_events(before));
        assert(lossy_texts(chunks).drop_last() =~= lossy_texts(before));
        let mid = s.after_events(chunk_events(before));
        if mid.state != LoopState::StreamingResponse {
            assert(s.output_of_events(chunk_events(before)) + none == s.output_of_events(
                chunk_events(before),
            ));
        }
    }
}

/// The reply that joins the history is the reply that was shown. When the
/// chunks of a response complete the reply of a chat session, the message
/// appended to the history is the assistant's, and its content is what was
/// given to print while the response streamed, joined in order.
pub proof fn lemma_reply_is_what_was_shown(s: SessionView, chunks: Seq<Seq<u8>>)
    requires
        s.mode == Mode::Chat,
        s.state == LoopState::StreamingResponse,
        s.decoder == DecoderView::start(s.mode),
        s.after_events(chunk_events(chunks)).state == LoopState::AwaitingInput,
    ensures
        s.after_events(chunk_events(chunks)).history == s.history.push(
            assistant_message(joined(s.output_of_events(chunk_events(chunks)))),
        ),
{
    lemma_streaming(s, chunks);
    lemma_shown_is_gathered(s.decoder, lossy_texts(chunks));
    let shown = joined(s.decoder.shown_by_chunks(chunks));
    assert(Seq::<char>::empty() + shown == shown);
}

/// Stepping changes neither the mode nor the task list of a session.
pub proof fn lemma_after_events_keeps_setup(s: SessionView, events: Seq<EventView>)
    ensures
        s.after_events(events).mode == s.mode,
        s.after_events(events).tasks_json == s.tasks_json,
    decreases events.len(),
{
    if events.len() > 0 {
        lemma_after_events_keeps_setup(s, events.drop_last());
        lemma_history_only_grows(s.after_events(events.drop_last()), events.last());
    }
}

} // verus!
