//! One exchange with the server, step by step: what is to be done next, and what follows from how
//! it went.

use vstd::prelude::*;

use crate::ipc::{
    announced, announced_length, length_prefix, outcome_view, prefix_of, IpcRequest, IpcResponse,
    RequestView, ResponseView,
};

verus! {

/// How far an exchange has come.
pub enum Exchange {
    /// The server is to be reached.
    Connecting(IpcRequest),
    /// The request is to be turned into bytes.
    Encoding(IpcRequest),
    /// The length of the request is to be sent.
    SendingLength(Vec<u8>),
    /// The request is to be sent.
    SendingPayload(Vec<u8>),
    /// The length of the response is to be read.
    AwaitingLength,
    /// The response, of this many bytes, is to be read.
    AwaitingPayload(usize),
    /// The bytes of the response are to be understood.
    Decoding(Vec<u8>),
    /// The exchange is over.
    Finished(Result<IpcResponse, String>),
}

/// How far an exchange has come, with texts and bytes as sequences.
pub enum ExchangeView {
    Connecting(RequestView),
    Encoding(RequestView),
    SendingLength(Seq<u8>),
    SendingPayload(Seq<u8>),
    AwaitingLength,
    AwaitingPayload(nat),
    Decoding(Seq<u8>),
    Finished(Result<ResponseView, Seq<char>>),
}

/// What is to be done next.
pub enum ExchangeAction {
    /// Connect to the server.
    Connect,
    /// Turn the request into JSON.
    Encode(IpcRequest),
    /// Write all of these bytes.
    Write(Vec<u8>),
    /// Read exactly this many bytes.
    Read(usize),
    /// Read a response from JSON.
    Decode(Vec<u8>),
    /// Nothing: the exchange ended so.
    Return(Result<IpcResponse, String>),
}

/// What is to be done next, with texts and bytes as sequences.
pub enum ExchangeActionView {
    Connect,
    Encode(RequestView),
    Write(Seq<u8>),
    Read(nat),
    Decode(Seq<u8>),
    Return(Result<ResponseView, Seq<char>>),
}

/// How it went.
pub enum ExchangeEvent {
    /// It is done.
    Done,
    /// It gave these bytes.
    Bytes(Vec<u8>),
    /// It gave this response.
    Response(IpcResponse),
    /// It failed, and this is what the system says about it.
    Failed(String),
}

/// How it went, with texts and bytes as sequences.
pub enum ExchangeEventView {
    Done,
    Bytes(Seq<u8>),
    Response(ResponseView),
    Failed(Seq<char>),
}

impl View for Exchange {
    type V = ExchangeView;

    open spec fn view(&self) -> ExchangeView {
        match self {
            Exchange::Connecting(request) => ExchangeView::Connecting(request@),
            Exchange::Encoding(request) => ExchangeView::Encoding(request@),
            Exchange::SendingLength(payload) => ExchangeView::SendingLength(payload@),
            Exchange::SendingPayload(payload) => ExchangeView::SendingPayload(payload@),
            Exchange::AwaitingLength => ExchangeView::AwaitingLength,
            Exchange::AwaitingPayload(len) => ExchangeView::AwaitingPayload(*len as nat),
            Exchange::Decoding(payload) => ExchangeView::Decoding(payload@),
            Exchange::Finished(outcome) => ExchangeView::Finished(outcome_view(*outcome)),
        }
    }
}

impl View for ExchangeAction {
    type V = ExchangeActionView;

    open spec fn view(&self) -> ExchangeActionView {
        match self {
            ExchangeAction::Connect => ExchangeActionView::Connect,
            ExchangeAction::Encode(request) => ExchangeActionView::Encode(request@),
            ExchangeAction::Write(bytes) => ExchangeActionView::Write(bytes@),
            ExchangeAction::Read(len) => ExchangeActionView::Read(*len as nat),
            ExchangeAction::Decode(bytes) => ExchangeActionView::Decode(bytes@),
            ExchangeAction::Return(outcome) => ExchangeActionView::Return(outcome_view(*outcome)),
        }
    }
}

impl View for ExchangeEvent {
    type V = ExchangeEventView;

    open spec fn view(&self) -> ExchangeEventView {
        match self {
            ExchangeEvent::Done => ExchangeEventView::Done,
            ExchangeEvent::Bytes(bytes) => ExchangeEventView::Bytes(bytes@),
            ExchangeEvent::Response(response) => ExchangeEventView::Response(response@),
            ExchangeEvent::Failed(detail) => ExchangeEventView::Failed(detail@),
        }
    }
}

impl ExchangeView {
    /// What is to be done next.
    pub open spec fn action(self) -> ExchangeActionView {
        match self {
            ExchangeView::Connecting(_) => ExchangeActionView::Connect,
            ExchangeView::Encoding(request) => ExchangeActionView::Encode(request),
            ExchangeView::SendingLength(payload) => ExchangeActionView::Write(
                prefix_of(payload.len()),
            ),
            ExchangeView::SendingPayload(payload) => ExchangeActionView::Write(payload),
            ExchangeView::AwaitingLength => ExchangeActionView::Read(4),
            ExchangeView::AwaitingPayload(len) => ExchangeActionView::Read(len),
            ExchangeView::Decoding(payload) => ExchangeActionView::Decode(payload),
            ExchangeView::Finished(outcome) => ExchangeActionView::Return(outcome),
        }
    }

    /// What a failure at this point is called.
    pub open spec fn failure(self) -> Seq<char> {
        match self {
            ExchangeView::Connecting(_) => "Connect failed: "@,
            ExchangeView::Encoding(_) => "JSON encode failed: "@,
            ExchangeView::SendingLength(_) => "Write length failed: "@,
            ExchangeView::SendingPayload(_) => "Write payload failed: "@,
            ExchangeView::AwaitingLength => "Read length failed: "@,
            ExchangeView::AwaitingPayload(_) => "Read payload failed: "@,
            ExchangeView::Decoding(_) => "JSON decode failed: "@,
            ExchangeView::Finished(_) => Seq::empty(),
        }
    }

    /// Where the exchange stands after `event`. A failure ends it; an event that does not answer
    /// what was to be done changes nothing.
    pub open spec fn next(self, event: ExchangeEventView) -> ExchangeView {
        if self is Finished {
            self
        } else {
            match (self, event) {
                (_, ExchangeEventView::Failed(detail)) => ExchangeView::Finished(
                    Err(self.failure() + detail),
                ),
                (
                    ExchangeView::Connecting(request),
                    ExchangeEventView::Done,
                ) => ExchangeView::Encoding(request),
                (
                    ExchangeView::Encoding(_),
                    ExchangeEventView::Bytes(payload),
                ) => ExchangeView::SendingLength(payload),
                (
                    ExchangeView::SendingLength(payload),
                    ExchangeEventView::Done,
                ) => ExchangeView::SendingPayload(payload),
                (
                    ExchangeView::SendingPayload(_),
                    ExchangeEventView::Done,
                ) => ExchangeView::AwaitingLength,
                (ExchangeView::AwaitingLength, ExchangeEventView::Bytes(prefix)) => {
                    if prefix.len() == 4 {
                        ExchangeView::AwaitingPayload(announced(prefix))
                    } else {
                        self
                    }
                },
                (ExchangeView::AwaitingPayload(len), ExchangeEventView::Bytes(payload)) => {
                    if payload.len() == len {
                        ExchangeView::Decoding(payload)
                    } else {
                        self
                    }
                },
                (
                    ExchangeView::Decoding(_),
                    ExchangeEventView::Response(response),
                ) => ExchangeView::Finished(Ok(response)),
                _ => self,
            }
        }
    }

    /// Where the exchange stands after `events`, one after the other.
    pub open spec fn run(self, events: Seq<ExchangeEventView>) -> ExchangeView
        decreases events.len(),
    {
        if events.len() == 0 {
            self
        } else {
            self.next(events[0]).run(events.drop_first())
        }
    }

    /// How many steps are left at most.
    pub open spec fn steps_left(self) -> nat {
        match self {
            ExchangeView::Connecting(_) => 7,
            ExchangeView::Encoding(_) => 6,
            ExchangeView::SendingLength(_) => 5,
            ExchangeView::SendingPayload(_) => 4,
            ExchangeView::AwaitingLength => 3,
            ExchangeView::AwaitingPayload(_) => 2,
            ExchangeView::Decoding(_) => 1,
            ExchangeView::Finished(_) => 0,
        }
    }
}

/// A copy of a request.
fn copy_request(request: &IpcRequest) -> (out: IpcRequest)
    ensures
        out@ == request@,
{
    IpcRequest { command: request.command.clone(), uid: request.uid.clone() }
}

/// A copy of a sequence of bytes.
fn copy_bytes(bytes: &Vec<u8>) -> (out: Vec<u8>)
    ensures
        out@ == bytes@,
{
    let mut out: Vec<u8> = Vec::new();
    out.extend_from_slice(bytes.as_slice());
    assert(out@ =~= bytes@);
    out
}

impl Exchange {
    /// The exchange that asks `request` of the server.
    pub fn new(request: IpcRequest) -> (out: Exchange)
        ensures
            out@ == ExchangeView::Connecting(request@),
    {
        Exchange::Connecting(request)
    }

    /// What is to be done next.
    pub fn action(&self) -> (out: ExchangeAction)
        ensures
            out@ == self@.action(),
    {
        match self {
            Exchange::Connecting(_) => ExchangeAction::Connect,
            Exchange::Encoding(request) => ExchangeAction::Encode(copy_request(request)),
            Exchange::SendingLength(payload) => ExchangeAction::Write(length_prefix(payload.len())),
            Exchange::SendingPayload(payload) => ExchangeAction::Write(copy_bytes(payload)),
            Exchange::AwaitingLength => ExchangeAction::Read(4),
            Exchange::AwaitingPayload(len) => ExchangeAction::Read(*len),
            Exchange::Decoding(payload) => ExchangeAction::Decode(copy_bytes(payload)),
            Exchange::Finished(Ok(response)) => ExchangeAction::Return(
                Ok(
                    IpcResponse {
                        status: response.status.clone(),
                        text: response.text.clone(),
                    },
                ),
            ),
            Exchange::Finished(Err(message)) => ExchangeAction::Return(Err(message.clone())),
        }
    }

    /// What a failure at this point is called.
    fn failure(&self) -> (out: String)
        ensures
            out@ == self@.failure(),
    {
        match self {
            Exchange::Connecting(_) => "Connect failed: ".to_owned(),
            Exchange::Encoding(_) => "JSON encode failed: ".to_owned(),
            Exchange::SendingLength(_) => "Write length failed: ".to_owned(),
            Exchange::SendingPayload(_) => "Write payload failed: ".to_owned(),
            Exchange::AwaitingLength => "Read length failed: ".to_owned(),
            Exchange::AwaitingPayload(_) => "Read payload failed: ".to_owned(),
            Exchange::Decoding(_) => "JSON decode failed: ".to_owned(),
            Exchange::Finished(_) => String::new(),
        }
    }

    /// Where the exchange stands after `event`.
    pub fn advance(self, event: ExchangeEvent) -> (out: Exchange)
        ensures
            out@ == self@.next(event@),
    {
        match event {
            ExchangeEvent::Failed(detail) => match self {
                Exchange::Finished(outcome) => Exchange::Finished(outcome),
                going => {
                    let mut message = going.failure();
                    message.append(detail.as_str());
                    Exchange::Finished(Err(message))
                },
            },
            ExchangeEvent::Done => match self {
                Exchange::Connecting(request) => Exchange::Encoding(request),
                Exchange::SendingLength(payload) => Exchange::SendingPayload(payload),
                Exchange::SendingPayload(_) => Exchange::AwaitingLength,
                other => other,
            },
            ExchangeEvent::Bytes(bytes) => match self {
                Exchange::Encoding(_) => Exchange::SendingLength(bytes),
                Exchange::AwaitingLength => {
                    if bytes.len() == 4 {
                        Exchange::AwaitingPayload(announced_length(&bytes))
                    } else {
                        Exchange::AwaitingLength
                    }
                },
                Exchange::AwaitingPayload(len) => {
                    if bytes.len() == len {
                        Exchange::Decoding(bytes)
                    } else {
                        Exchange::AwaitingPayload(len)
                    }
                },
                other => other,
            },
            ExchangeEvent::Response(response) => match self {
                Exchange::Decoding(_) => Exchange::Finished(Ok(response)),
                other => other,
            },
        }
    }
}

// ---------------------------------------------------------------------------
// Laws
// ---------------------------------------------------------------------------

/// Each event either brings the exchange nearer to its end or changes nothing, and one that is
/// over stays as it is.
pub proof fn law_exchange_makes_progress(state: ExchangeView, event: ExchangeEventView)
    ensures
        state.next(event) == state || state.next(event).steps_left() < state.steps_left(),
        state is Finished ==> state.next(event) == state,
{
}

/// A failure at any point ends the exchange with the name of what failed and what the system says
/// about it.
pub proof fn law_failure_ends_exchange(state: ExchangeView, detail: Seq<char>)
    requires
        !(state is Finished),
    ensures
        state.next(ExchangeEventView::Failed(detail)) == ExchangeView::Finished(
            Err(state.failure() + detail),
        ),
        state.failure().len() > 0,
{
    reveal_strlit("Connect failed: ");
    reveal_strlit("JSON encode failed: ");
    reveal_strlit("Write length failed: ");
    reveal_strlit("Write payload failed: ");
    reveal_strlit("Read length failed: ");
    reveal_strlit("Read payload failed: ");
    reveal_strlit("JSON decode failed: ");
}

/// An exchange in which nothing fails: the request is encoded as `payload`, its length and then
/// its bytes are written, the length of `answer` and then `answer` are read, and the response is
/// what `answer` is understood to say. It takes seven steps.
pub proof fn law_exchange_succeeds(
    request: RequestView,
    payload: Seq<u8>,
    answer: Seq<u8>,
    response: ResponseView,
)
    requires
        answer.len() < 0x1_0000_0000,
    ensures
        ({
            let e0 = ExchangeView::Connecting(request);
            let e1 = e0.next(ExchangeEventView::Done);
            let e2 = e1.next(ExchangeEventView::Bytes(payload));
            let e3 = e2.next(ExchangeEventView::Done);
            let e4 = e3.next(ExchangeEventView::Done);
            let e5 = e4.next(ExchangeEventView::Bytes(prefix_of(answer.len())));
            let e6 = e5.next(ExchangeEventView::Bytes(answer));
            let e7 = e6.next(ExchangeEventView::Response(response));
            &&& e0.action() == ExchangeActionView::Connect
            &&& e1.action() == ExchangeActionView::Encode(request)
            &&& e2.action() == ExchangeActionView::Write(prefix_of(payload.len()))
            &&& e3.action() == ExchangeActionView::Write(payload)
            &&& e4.action() == ExchangeActionView::Read(4)
            &&& e5.action() == ExchangeActionView::Read(answer.len())
            &&& e6.action() == ExchangeActionView::Decode(answer)
            &&& e7 == ExchangeView::Finished(Ok(response))
        }),
{
    crate::ipc::law_length_read_back(answer.len());
}

/// No sequence of events makes an exchange succeed in which no response was understood: the
/// response that comes out was handed in.
pub proof fn law_only_a_response_succeeds(state: ExchangeView, events: Seq<ExchangeEventView>)
    requires
        !(state is Finished),
    ensures
        state.run(events) matches ExchangeView::Finished(Ok(response)) ==> events.contains(
            ExchangeEventView::Response(response),
        ),
    decreases events.len(),
{
    if events.len() > 0 {
        let rest = events.drop_first();
        let after = state.next(events[0]);
        if after is Finished {
            lemma_finished_stays(after, rest);
            assert(events.contains(events[0]));
        } else {
            law_only_a_response_succeeds(after, rest);
            if state.run(events) is Finished && state.run(events)->Finished_0 is Ok {
                let e = ExchangeEventView::Response(state.run(events)->Finished_0->Ok_0);
                let k = choose|k: int| 0 <= k < rest.len() && rest[k] == e;
                assert(events[k + 1] == e);
            }
        }
    }
}

proof fn lemma_finished_stays(state: ExchangeView, events: Seq<ExchangeEventView>)
    requires
        state is Finished,
    ensures
        state.run(events) == state,
    decreases events.len(),
{
    if events.len() > 0 {
        lemma_finished_stays(state.next(events[0]), events.drop_first());
    }
}

/// Each failure is named after what failed.
pub proof fn law_failures_are_named(
    request: RequestView,
    bytes: Seq<u8>,
    len: nat,
    detail: Seq<char>,
)
    ensures
        ({
            let failed = ExchangeEventView::Failed(detail);
            let ended = |what: Seq<char>| ExchangeView::Finished(Err(what + detail));
            &&& ExchangeView::Connecting(request).next(failed) == ended("Connect failed: "@)
            &&& ExchangeView::Encoding(request).next(failed) == ended("JSON encode failed: "@)
            &&& ExchangeView::SendingLength(bytes).next(failed) == ended("Write length failed: "@)
            &&& ExchangeView::SendingPayload(bytes).next(failed) == ended(
                "Write payload failed: "@,
            )
            &&& ExchangeView::AwaitingLength.next(failed) == ended("Read length failed: "@)
            &&& ExchangeView::AwaitingPayload(len).next(failed) == ended("Read payload failed: "@)
            &&& ExchangeView::Decoding(bytes).next(failed) == ended("JSON decode failed: "@)
        }),
{
}

/// Whether an event is an answer to what was to be done. A read is answered by as many bytes as
/// were to be read.
pub open spec fn answers(action: ExchangeActionView, event: ExchangeEventView) -> bool {
    match action {
        ExchangeActionView::Connect => event is Done || event is Failed,
        ExchangeActionView::Encode(_) => event is Bytes || event is Failed,
        ExchangeActionView::Write(_) => event is Done || event is Failed,
        ExchangeActionView::Read(n) => event is Failed || (event is Bytes && event->Bytes_0.len()
            == n),
        ExchangeActionView::Decode(_) => event is Response || event is Failed,
        ExchangeActionView::Return(_) => false,
    }
}

/// An event moves an exchange on if and only if it answers what was to be done.
pub proof fn law_only_answers_count(state: ExchangeView, event: ExchangeEventView)
    ensures
        answers(state.action(), event) <==> state.next(event) != state,
{
}

/// What is read is handed on as it is: the announced number of bytes is read and understood, and
/// the response that they are understood to be is what the exchange gives back.
pub proof fn law_answer_is_handed_on(
    prefix: Seq<u8>,
    answer: Seq<u8>,
    response: ResponseView,
    outcome: Result<ResponseView, Seq<char>>,
)
    requires
        prefix.len() == 4,
        answer.len() == prefix[0] * 0x100_0000 + prefix[1] * 0x1_0000 + prefix[2] * 0x100
            + prefix[3],
    ensures
        ({
            let reading = ExchangeView::AwaitingLength.next(ExchangeEventView::Bytes(prefix));
            let read = reading.next(ExchangeEventView::Bytes(answer));
            let over = read.next(ExchangeEventView::Response(response));
            &&& reading.action() == ExchangeActionView::Read(answer.len())
            &&& read.action() == ExchangeActionView::Decode(answer)
            &&& over.action() == ExchangeActionView::Return(Ok(response))
            &&& ExchangeView::Finished(outcome).action() == ExchangeActionView::Return(outcome)
        }),
{
}

/// A message goes out as four bytes that hold its length, the most significant first, and then its
/// own bytes.
pub proof fn law_message_is_framed(request: RequestView, payload: Seq<u8>)
    requires
        payload.len() < 0x1_0000_0000,
    ensures
        ({
            let sending = ExchangeView::Encoding(request).next(ExchangeEventView::Bytes(payload));
            let sent = sending.next(ExchangeEventView::Done);
            &&& sending.action() matches ExchangeActionView::Write(p) && p.len() == 4 && p[0]
                * 0x100_0000 + p[1] * 0x1_0000 + p[2] * 0x100 + p[3] == payload.len()
            &&& sent.action() == ExchangeActionView::Write(payload)
        }),
{
    crate::ipc::law_most_significant_byte_first(payload.len(), prefix_of(payload.len()));
}

/// What is to be done, and how it went, is taken as it is.
pub proof fn law_exchange_views(
    request: IpcRequest,
    bytes: Vec<u8>,
    len: usize,
    outcome: Result<IpcResponse, String>,
    response: IpcResponse,
    detail: String,
)
    ensures
        ExchangeAction::Connect@ == ExchangeActionView::Connect,
        ExchangeAction::Encode(request)@ == ExchangeActionView::Encode(request@),
        ExchangeAction::Write(bytes)@ == ExchangeActionView::Write(bytes@),
        ExchangeAction::Read(len)@ == ExchangeActionView::Read(len as nat),
        ExchangeAction::Decode(bytes)@ == ExchangeActionView::Decode(bytes@),
        ExchangeAction::Return(outcome)@ == ExchangeActionView::Return(outcome_view(outcome)),
        ExchangeEvent::Done@ == ExchangeEventView::Done,
        ExchangeEvent::Bytes(bytes)@ == ExchangeEventView::Bytes(bytes@),
        ExchangeEvent::Response(response)@ == ExchangeEventView::Response(response@),
        ExchangeEvent::Failed(detail)@ == ExchangeEventView::Failed(detail@),
{
}

} // verus!
