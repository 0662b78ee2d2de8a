//! The life of one connection, as a state machine.
//!
//! The machine decides; its caller does the outside work. Each call of
//! [`step`] takes the state and the event that the last action led to, and
//! gives the next state and the next action:
//!
//! ```text
//! Accepted -> Reading -> Parsed -> Dispatched -> Responded -> Closed
//!                |                     |
//!                v                     v
//!           ParseFailed          HandlerFailed
//! ```
//!
//! One read is made per connection and one request is served from it. A
//! request that does not parse, a handler that gives up and outside work
//! that fails all end the connection without a response.

use crate::files::{
    entry_names, entry_paths, file_path, search_directory_for_file, spec_file_path, spec_search,
    DirEntry,
};
use crate::request::{
    join_segments, parse_request, spec_request, ParseError, Request, RequestView,
};
use crate::response::{
    lemma_built_responses_framed, spec_empty, spec_serialize, spec_with_body, Response,
    ResponseView, Status,
};
use crate::router::{
    lemma_echo_looks_at_the_path_alone, lemma_replies_are_framed, route, spec_route,
    HandlerError, Outcome, OutcomeView,
};
use crate::text::{lit_echo, lit_octet_stream, lit_text_plain, octet_stream};
use vstd::prelude::*;

verus! {

/// How many bytes the one read of a connection asks for at most.
pub const READ_LIMIT: usize = 1024;

/// What the server is started with. It does not change afterwards.
#[derive(Clone, Debug, PartialEq, Eq)]
pub struct ServerConfig {
    /// Where the server listens.
    pub listen_address: String,
    /// The directory that files are served from and stored in, if any.
    pub file_directory: Option<String>,
}

impl ServerConfig {
    /// The bytes of the serving directory's name.
    pub open spec fn directory(&self) -> Option<Seq<u8>> {
        match self.file_directory {
            Some(name) => Some(vstd::utf8::encode_utf8(name@)),
            None => None,
        }
    }
}

/// Why a connection ended after its request was parsed.
#[derive(Clone, Copy, Debug, PartialEq, Eq, Structural)]
pub enum Failure {
    /// The handler gave up.
    Handler(HandlerError),
    /// Outside work failed.
    Io,
    /// An event came that the state does not wait for.
    Unexpected,
}

/// What a dispatched handler waits for.
#[derive(Clone, Debug, PartialEq, Eq)]
pub enum Pending {
    /// The listing of the serving directory, to look `name` up in it.
    Listing { name: Vec<u8> },
    /// The contents of the file that was found.
    Contents,
    /// The end of the file write.
    Stored,
    /// The end of the response write.
    Sent,
}

/// The state of a connection.
#[derive(Clone, Debug, PartialEq, Eq)]
pub enum State {
    Accepted,
    Reading,
    Parsed(Request),
    ParseFailed(ParseError),
    Dispatched(Pending),
    Responded,
    HandlerFailed(Failure),
    Closed,
}

/// What the outside work led to.
#[derive(Clone, Debug, PartialEq, Eq)]
pub enum Event {
    /// Nothing to report: the connection was accepted, or the last action
    /// was `Continue`.
    Proceed,
    /// The bytes that the read returned.
    Read(Vec<u8>),
    /// The entries of the directory. A directory that cannot be read has
    /// none.
    Listing(Vec<DirEntry>),
    /// The contents of the file.
    Contents(Vec<u8>),
    /// The write, or the close, is done.
    Done,
    /// The outside work failed.
    Failed,
}

/// The outside work to do next.
#[derive(Clone, Debug, PartialEq, Eq)]
pub enum Action {
    /// Read once from the connection, `limit` bytes at most.
    Read { limit: usize },
    /// Nothing: call again with `Proceed`.
    Continue,
    /// List the entries of `directory`.
    ListDirectory { directory: Vec<u8> },
    /// Read the file at `path`.
    ReadFile { path: Vec<u8> },
    /// Create or truncate the file at `path` and write `contents` to it.
    WriteFile { path: Vec<u8>, contents: Vec<u8> },
    /// Write these bytes to the connection.
    Send(Vec<u8>),
    /// Close the connection.
    Close,
    /// Stop: the connection is over.
    Halt,
}

/// The mathematical value of a [`Pending`].
pub enum PendingView {
    Listing { name: Seq<u8> },
    Contents,
    Stored,
    Sent,
}

/// The mathematical value of a [`State`].
pub enum StateView {
    Accepted,
    Reading,
    Parsed(RequestView),
    ParseFailed(ParseError),
    Dispatched(PendingView),
    Responded,
    HandlerFailed(Failure),
    Closed,
}

/// The mathematical value of an [`Event`].
pub enum EventView {
    Proceed,
    Read(Seq<u8>),
    Listing { names: Seq<Seq<u8>>, paths: Seq<Seq<u8>> },
    Contents(Seq<u8>),
    Done,
    Failed,
}

/// The mathematical value of an [`Action`].
pub enum ActionView {
    Read { limit: nat },
    Continue,
    ListDirectory { directory: Seq<u8> },
    ReadFile { path: Seq<u8> },
    WriteFile { path: Seq<u8>, contents: Seq<u8> },
    Send(Seq<u8>),
    Close,
    Halt,
}

impl View for Pending {
    type V = PendingView;

    open spec fn view(&self) -> PendingView {
        match self {
            Pending::Listing { name } => PendingView::Listing { name: name@ },
            Pending::Contents => PendingView::Contents,
            Pending::Stored => PendingView::Stored,
            Pending::Sent => PendingView::Sent,
        }
    }
}

impl View for State {
    type V = StateView;

    open spec fn view(&self) -> StateView {
        match self {
            State::Accepted => StateView::Accepted,
            State::Reading => StateView::Reading,
            State::Parsed(request) => StateView::Parsed(request@),
            State::ParseFailed(e) => StateView::ParseFailed(*e),
            State::Dispatched(pending) => StateView::Dispatched(pending@),
            State::Responded => StateView::Responded,
            State::HandlerFailed(f) => StateView::HandlerFailed(*f),
            State::Closed => StateView::Closed,
        }
    }
}

impl View for Event {
    type V = EventView;

    open spec fn view(&self) -> EventView {
        match self {
            Event::Proceed => EventView::Proceed,
            Event::Read(bytes) => EventView::Read(bytes@),
            Event::Listing(entries) => EventView::Listing {
                names: entry_names(entries@),
                paths: entry_paths(entries@),
            },
            Event::Contents(bytes) => EventView::Contents(bytes@),
            Event::Done => EventView::Done,
            Event::Failed => EventView::Failed,
        }
    }
}

impl View for Action {
    type V = ActionView;

    open spec fn view(&self) -> ActionView {
        match self {
            Action::Read { limit } => ActionView::Read { limit: *limit as nat },
            Action::Continue => ActionView::Continue,
            Action::ListDirectory { directory } => ActionView::ListDirectory {
                directory: directory@,
            },
            Action::ReadFile { path } => ActionView::ReadFile { path: path@ },
            Action::WriteFile { path, contents } => ActionView::WriteFile {
                path: path@,
                contents: contents@,
            },
            Action::Send(bytes) => ActionView::Send(bytes@),
            Action::Close => ActionView::Close,
            Action::Halt => ActionView::Halt,
        }
    }
}

/// The serving directory's name, empty when none is configured.
pub open spec fn directory_or_empty(directory: Option<Seq<u8>>) -> Seq<u8> {
    match directory {
        Some(d) => d,
        None => Seq::empty(),
    }
}

/// What a parsed request leads to.
pub open spec fn spec_dispatch(directory: Option<Seq<u8>>, request: RequestView) -> (
    StateView,
    ActionView,
) {
    match spec_route(request, directory is Some) {
        OutcomeView::Reply(response) => (
            StateView::Dispatched(PendingView::Sent),
            ActionView::Send(spec_serialize(response)),
        ),
        OutcomeView::ReadFile { name } => (
            StateView::Dispatched(PendingView::Listing { name }),
            ActionView::ListDirectory { directory: directory_or_empty(directory) },
        ),
        OutcomeView::WriteFile { name, contents } => (
            StateView::Dispatched(PendingView::Stored),
            ActionView::WriteFile {
                path: spec_file_path(directory_or_empty(directory), name),
                contents,
            },
        ),
        OutcomeView::NoReply => (StateView::Responded, ActionView::Close),
        OutcomeView::Failed(e) => (
            StateView::HandlerFailed(Failure::Handler(e)),
            ActionView::Close,
        ),
    }
}

/// How a dispatched handler goes on when its outside work is done.
pub open spec fn spec_resume(pending: PendingView, event: EventView) -> (StateView, ActionView) {
    match (pending, event) {
        (PendingView::Listing { name }, EventView::Listing { names, paths }) => match spec_search(
            names,
            paths,
            name,
        ) {
            Some(path) => (
                StateView::Dispatched(PendingView::Contents),
                ActionView::ReadFile { path },
            ),
            None => (
                StateView::Dispatched(PendingView::Sent),
                ActionView::Send(spec_serialize(spec_empty(Status::NotFound))),
            ),
        },
        (PendingView::Contents, EventView::Contents(bytes)) => (
            StateView::Dispatched(PendingView::Sent),
            ActionView::Send(
                spec_serialize(spec_with_body(Status::Okay, lit_octet_stream(), bytes)),
            ),
        ),
        (PendingView::Stored, EventView::Done) => (
            StateView::Dispatched(PendingView::Sent),
            ActionView::Send(spec_serialize(spec_empty(Status::Created))),
        ),
        (PendingView::Sent, EventView::Done) => (StateView::Responded, ActionView::Close),
        (_, EventView::Failed) => (StateView::HandlerFailed(Failure::Io), ActionView::Close),
        (_, _) => (StateView::HandlerFailed(Failure::Unexpected), ActionView::Close),
    }
}

/// The transition table: the next state and the next action, for the
/// serving directory that is configured, a state, and the event that the
/// last action led to.
pub open spec fn spec_step(directory: Option<Seq<u8>>, state: StateView, event: EventView) -> (
    StateView,
    ActionView,
) {
    match state {
        StateView::Accepted => match event {
            EventView::Proceed => (
                StateView::Reading,
                ActionView::Read { limit: READ_LIMIT as nat },
            ),
            _ => (StateView::Closed, ActionView::Close),
        },
        StateView::Reading => match event {
            EventView::Read(bytes) => match spec_request(bytes) {
                Ok(request) => (StateView::Parsed(request), ActionView::Continue),
                Err(e) => (StateView::ParseFailed(e), ActionView::Close),
            },
            _ => (StateView::Closed, ActionView::Close),
        },
        StateView::Parsed(request) => match event {
            EventView::Proceed => spec_dispatch(directory, request),
            EventView::Failed => (StateView::HandlerFailed(Failure::Io), ActionView::Close),
            _ => (StateView::HandlerFailed(Failure::Unexpected), ActionView::Close),
        },
        StateView::Dispatched(pending) => spec_resume(pending, event),
        StateView::Responded => (StateView::Closed, ActionView::Halt),
        StateView::ParseFailed(e) => (StateView::ParseFailed(e), ActionView::Halt),
        StateView::HandlerFailed(f) => (StateView::HandlerFailed(f), ActionView::Halt),
        StateView::Closed => (StateView::Closed, ActionView::Halt),
    }
}

impl ServerConfig {
    /// Whether a directory to serve files from is configured.
    pub fn serves_files(&self) -> (r: bool)
        ensures
            r == self.directory().is_some(),
    {
        self.file_directory.is_some()
    }

    /// The bytes of the serving directory's name, empty when none is
    /// configured.
    pub fn directory_bytes(&self) -> (r: Vec<u8>)
        ensures
            r@ == directory_or_empty(self.directory()),
    {
        match &self.file_directory {
            Some(name) => vstd::slice::slice_to_vec(name.as_str().as_bytes()),
            None => Vec::new(),
        }
    }
}

/// Starts the handler of a parsed request.
fn dispatch(config: &ServerConfig, request: &Request) -> (r: (State, Action))
    ensures
        (r.0@, r.1@) == spec_dispatch(config.directory(), request@),
{
    match route(request, config.serves_files()) {
        Outcome::Reply(response) => (
            State::Dispatched(Pending::Sent),
            Action::Send(response.serialize()),
        ),
        Outcome::ReadFile { name } => (
            State::Dispatched(Pending::Listing { name }),
            Action::ListDirectory { directory: config.directory_bytes() },
        ),
        Outcome::WriteFile { name, contents } => {
            let directory = config.directory_bytes();
            let path = file_path(directory.as_slice(), name.as_slice());
            (State::Dispatched(Pending::Stored), Action::WriteFile { path, contents })
        },
        Outcome::NoReply => (State::Responded, Action::Close),
        Outcome::Failed(e) => (State::HandlerFailed(Failure::Handler(e)), Action::Close),
    }
}

/// Goes on with a dispatched handler when its outside work is done.
fn resume(pending: Pending, event: Event) -> (r: (State, Action))
    ensures
        (r.0@, r.1@) == spec_resume(pending@, event@),
{
    match (pending, event) {
        (Pending::Listing { name }, Event::Listing(entries)) => {
            match search_directory_for_file(&entries, name.as_slice()) {
                Some(path) => (State::Dispatched(Pending::Contents), Action::ReadFile { path }),
                None => (
                    State::Dispatched(Pending::Sent),
                    Action::Send(Response::empty(Status::NotFound).serialize()),
                ),
            }
        },
        (Pending::Contents, Event::Contents(bytes)) => {
            let response = Response::with_body(Status::Okay, octet_stream().as_slice(), bytes);
            (State::Dispatched(Pending::Sent), Action::Send(response.serialize()))
        },
        (Pending::Stored, Event::Done) => (
            State::Dispatched(Pending::Sent),
            Action::Send(Response::empty(Status::Created).serialize()),
        ),
        (Pending::Sent, Event::Done) => (State::Responded, Action::Close),
        (_, Event::Failed) => (State::HandlerFailed(Failure::Io), Action::Close),
        (_, _) => (State::HandlerFailed(Failure::Unexpected), Action::Close),
    }
}

/// One step of a connection: takes its state and the event that the last
/// action led to, and gives the next state and the next action.
///
/// A new connection starts in `Accepted` with the event `Proceed`. The
/// caller performs each action and calls again with its event, until the
/// action is `Halt`.
pub fn step(config: &ServerConfig, state: State, event: Event) -> (r: (State, Action))
    ensures
        (r.0@, r.1@) == spec_step(config.directory(), state@, event@),
{
    match state {
        State::Accepted => match event {
            Event::Proceed => (State::Reading, Action::Read { limit: READ_LIMIT }),
            _ => (State::Closed, Action::Close),
        },
        State::Reading => match event {
            Event::Read(bytes) => match parse_request(bytes.as_slice()) {
                Ok(request) => (State::Parsed(request), Action::Continue),
                Err(e) => (State::ParseFailed(e), Action::Close),
            },
            _ => (State::Closed, Action::Close),
        },
        State::Parsed(request) => match event {
            Event::Proceed => dispatch(config, &request),
            Event::Failed => (State::HandlerFailed(Failure::Io), Action::Close),
            _ => (State::HandlerFailed(Failure::Unexpected), Action::Close),
        },
        State::Dispatched(pending) => resume(pending, event),
        State::Responded => (State::Closed, Action::Halt),
        State::ParseFailed(e) => (State::ParseFailed(e), Action::Halt),
        State::HandlerFailed(f) => (State::HandlerFailed(f), Action::Halt),
        State::Closed => (State::Closed, Action::Halt),
    }
}

/// Whether a connection in this state is over.
pub open spec fn is_over(state: StateView) -> bool {
    state is ParseFailed || state is HandlerFailed || state is Closed
}

/// How many steps a connection in this state has left at most.
pub open spec fn steps_left(state: StateView) -> nat {
    match state {
        StateView::Accepted => 7,
        StateView::Reading => 6,
        StateView::Parsed(_) => 5,
        StateView::Dispatched(PendingView::Listing { .. }) => 4,
        StateView::Dispatched(PendingView::Contents) => 3,
        StateView::Dispatched(PendingView::Stored) => 3,
        StateView::Dispatched(PendingView::Sent) => 2,
        StateView::Responded => 1,
        StateView::ParseFailed(_) => 0,
        StateView::HandlerFailed(_) => 0,
        StateView::Closed => 0,
    }
}

/// A connection that is over stays as it is, whatever the event, and asks
/// for no more work.
pub proof fn lemma_over_is_final(directory: Option<Seq<u8>>, state: StateView, event: EventView)
    requires
        is_over(state),
    ensures
        spec_step(directory, state, event) == (state, ActionView::Halt),
{
}

/// Every step of a connection that is not over brings it closer to its
/// end: no run takes more than eight steps. `Halt` comes exactly when the
/// connection was over or had responded.
pub proof fn lemma_step_makes_progress(
    directory: Option<Seq<u8>>,
    state: StateView,
    event: EventView,
)
    ensures
        !is_over(state) ==> steps_left(spec_step(directory, state, event).0) < steps_left(state),
        spec_step(directory, state, event).1 is Halt <==> is_over(state) || state is Responded,
{
}

/// A connection that fails sends nothing: the step into `ParseFailed` or
/// `HandlerFailed`, and every step from an event that the state does not
/// wait for, asks to close the connection.
pub proof fn lemma_failure_sends_nothing(
    directory: Option<Seq<u8>>,
    state: StateView,
    event: EventView,
)
    requires
        !is_over(state),
        is_over(spec_step(directory, state, event).0),
    ensures
        spec_step(directory, state, event).1 is Close || (state is Responded && spec_step(
            directory,
            state,
            event,
        ).1 is Halt),
{
}

/// Whatever a connection sends is a whole response whose `Content-Length`
/// header, where it has one, spells the length of its body.
pub proof fn lemma_sends_framed_responses(
    directory: Option<Seq<u8>>,
    state: StateView,
    event: EventView,
) -> (response: ResponseView)
    requires
        spec_step(directory, state, event).1 is Send,
    ensures
        spec_step(directory, state, event).1 == ActionView::Send(spec_serialize(response)),
        response.framed(),
{
    match state {
        StateView::Parsed(request) => {
            let serving = directory is Some;
            lemma_replies_are_framed(request, serving);
            spec_route(request, serving)->Reply_0
        },
        StateView::Dispatched(PendingView::Listing { name }) => {
            lemma_built_responses_framed(
                Status::NotFound,
                Seq::empty(),
                Seq::empty(),
            );
            spec_empty(Status::NotFound)
        },
        StateView::Dispatched(PendingView::Contents) => {
            let bytes = event->Contents_0;
            lemma_built_responses_framed(Status::Okay, lit_octet_stream(), bytes);
            spec_with_body(Status::Okay, lit_octet_stream(), bytes)
        },
        _ => {
            lemma_built_responses_framed(
                Status::Created,
                Seq::empty(),
                Seq::empty(),
            );
            spec_empty(Status::Created)
        },
    }
}

/// Echo requests are answered alike. The bytes of a request for the echo
/// route decide the bytes of the response: whatever directory is
/// configured, the connection sends the same response, with the path
/// behind `/echo/` as its body.
pub proof fn lemma_echo_answers_alike(
    directory_a: Option<Seq<u8>>,
    directory_b: Option<Seq<u8>>,
    input: Seq<u8>,
)
    requires
        spec_request(input) is Ok,
        spec_request(input)->Ok_0.path_segments.len() >= 1,
        spec_request(input)->Ok_0.path_segments[0] == lit_echo(),
    ensures
        spec_step(directory_a, StateView::Reading, EventView::Read(input)) == (
            StateView::Parsed(spec_request(input)->Ok_0),
            ActionView::Continue,
        ),
        spec_step(directory_a, StateView::Parsed(spec_request(input)->Ok_0), EventView::Proceed)
            == spec_step(
            directory_b,
            StateView::Parsed(spec_request(input)->Ok_0),
            EventView::Proceed,
        ),
        spec_step(directory_a, StateView::Parsed(spec_request(input)->Ok_0), EventView::Proceed)
            == (
            StateView::Dispatched(PendingView::Sent),
            ActionView::Send(
                spec_serialize(
                    spec_with_body(
                        Status::Okay,
                        lit_text_plain(),
                        join_segments(
                            spec_request(input)->Ok_0.path_segments.skip(1),
                        ),
                    ),
                ),
            ),
        ),
{
    let request = spec_request(input)->Ok_0;
    lemma_echo_looks_at_the_path_alone(
        request,
        directory_a is Some,
        request,
        directory_b is Some,
    );
}

} // verus!
