//! Decisions of the HTTP command handler.
//!
//! A `POST /command` body is checked and turned into a frame to send
//! ([`plan_command`]); once the transmitter has answered, the reply and the
//! new state follow ([`finish_command`]). Reading the request, sending the
//! frame and writing the response stay with the caller.
use vstd::prelude::*;
use vstd::utf8::{valid_utf8, decode_utf8, encode_utf8, encode_utf8_decode_utf8};
use crate::ir_protocol::pack_ir_payload;
use crate::ac_state::{
    AcState, spec_from_json, json_text, state_payload, state_to_json, lemma_named_payload,
    initial_state,
};

verus! {

/// How the controller answers a request.
#[derive(Debug)]
pub enum Reply {
    /// 200, with the JSON text of the state as body.
    Json(String),
    /// 400: the body is not UTF-8 text or does not describe a state.
    BadRequest,
    /// 422: the state names a setting that no frame can carry.
    Unprocessable,
    /// 500: the IR transmitter failed.
    IrError,
}

impl Reply {
    /// The HTTP status code of the reply.
    pub open spec fn spec_status(&self) -> u16 {
        match self {
            Reply::Json(_) => 200,
            Reply::BadRequest => 400,
            Reply::Unprocessable => 422,
            Reply::IrError => 500,
        }
    }

    /// The HTTP status code of the reply.
    pub fn status(&self) -> (r: u16)
        ensures
            r == self.spec_status(),
    {
        match self {
            Reply::Json(_) => 200,
            Reply::BadRequest => 400,
            Reply::Unprocessable => 422,
            Reply::IrError => 500,
        }
    }

    /// The reason phrase sent with the status; none for a JSON reply.
    pub fn reason(&self) -> (r: Option<&'static str>)
        ensures
            self is Json ==> r is None,
            self is BadRequest ==> r == Some("Bad Request"),
            self is Unprocessable ==> r == Some("Unprocessable Entity"),
            self is IrError ==> r == Some("IR Error"),
    {
        match self {
            Reply::Json(_) => None,
            Reply::BadRequest => Some("Bad Request"),
            Reply::Unprocessable => Some("Unprocessable Entity"),
            Reply::IrError => Some("IR Error"),
        }
    }
}

/// What to do with a command.
#[derive(Debug)]
pub enum CommandPlan {
    /// Answer with this reply; the state does not change.
    Refuse(Reply),
    /// Send the frame for `payload`, then finish with `requested`.
    Transmit { requested: AcState, payload: u64 },
}

/// `std::str::from_utf8`: the bytes as text, or `None` when they are not UTF-8.
///
/// Claims what the standard library documents: the result is `Ok` exactly
/// when the bytes are valid UTF-8, and the text then consists of those bytes.
#[verifier::external_body]
fn str_from_utf8(bytes: &[u8]) -> (r: Option<&str>)
    ensures
        r is Some <==> valid_utf8(bytes@),
        r matches Some(s) ==> encode_utf8(s@) == bytes@,
{
    std::str::from_utf8(bytes).ok()
}

/// The state a command body asks for, when the controller transmits it: the
/// body is UTF-8 text that describes a state, and that state is valid.
pub open spec fn requested_state(body: Seq<u8>) -> Option<AcState> {
    if !valid_utf8(body) {
        None
    } else {
        match spec_from_json(decode_utf8(body)) {
            Some(st) => if st.is_valid() {
                Some(st)
            } else {
                None
            },
            None => None,
        }
    }
}

/// The status a command is answered with, given whether the transmitter
/// sent its frame: 400 for a body that is not UTF-8 or not a state, 422 for a
/// state out of range, then 200 when the frame went out and 500 when not.
pub open spec fn command_status(body: Seq<u8>, sent: bool) -> u16 {
    if !valid_utf8(body) {
        400
    } else {
        match spec_from_json(decode_utf8(body)) {
            None => 400,
            Some(st) => if !st.is_valid() {
                422
            } else if sent {
                200
            } else {
                500
            },
        }
    }
}

/// Decides what to do with the body of a command: refuse it with 400 when it
/// is not UTF-8 or not a state, with 422 when the state names a setting that
/// no frame can carry, and otherwise send the frame of the requested state.
pub fn plan_command(body: &[u8]) -> (p: CommandPlan)
    ensures
        !valid_utf8(body@) ==> p == CommandPlan::Refuse(Reply::BadRequest),
        valid_utf8(body@) ==> match spec_from_json(decode_utf8(body@)) {
            None => p == CommandPlan::Refuse(Reply::BadRequest),
            Some(st) => if st.is_valid() {
                p == (CommandPlan::Transmit { requested: st, payload: state_payload(st) as u64 })
                    && state_payload(st) < 0x8_0000_0000
            } else {
                p == CommandPlan::Refuse(Reply::Unprocessable)
            },
        },
        p matches CommandPlan::Transmit { requested, .. } ==> requested_state(body@) == Some(
            requested,
        ),
        p is Refuse <==> requested_state(body@) is None,
        p matches CommandPlan::Refuse(r) ==> r.spec_status() == command_status(body@, true)
            && r.spec_status() == command_status(body@, false),
{
    let text = match str_from_utf8(body) {
        Some(t) => t,
        None => return CommandPlan::Refuse(Reply::BadRequest),
    };
    proof {
        encode_utf8_decode_utf8(text@);
    }
    let requested = match AcState::from_json(text) {
        Some(s) => s,
        None => return CommandPlan::Refuse(Reply::BadRequest),
    };
    let data = match requested.to_ir_data() {
        Some(d) => d,
        None => return CommandPlan::Refuse(Reply::Unprocessable),
    };
    let payload: u64 = pack_ir_payload(data);
    proof {
        lemma_named_payload(requested, data);
    }
    CommandPlan::Transmit { requested, payload }
}

/// The state that the controller reports, sent back as the UTF-8 body of a
/// command, reads as the same state: a valid one is transmitted unchanged.
pub proof fn lemma_reported_state_accepted(s: AcState)
    ensures
        valid_utf8(encode_utf8(json_text(s))),
        spec_from_json(decode_utf8(encode_utf8(json_text(s)))) == Some(s),
{
    vstd::utf8::encode_utf8_valid_utf8(json_text(s));
    encode_utf8_decode_utf8(json_text(s));
    crate::ac_state::lemma_json_round_trip(s);
}

/// Finishes a command once the transmitter has answered: when the frame went
/// out, the requested state becomes the current one and is echoed as JSON;
/// otherwise the state stays and the reply is 500.
pub fn finish_command(state: &mut AcState, requested: AcState, sent: bool) -> (r: Reply)
    ensures
        sent ==> *final(state) == requested,
        sent ==> (r matches Reply::Json(t) && t@ == json_text(requested)),
        !sent ==> *final(state) == *old(state) && r is IrError,
        r.spec_status() == if sent {
            200u16
        } else {
            500u16
        },
{
    if sent {
        *state = requested;
        Reply::Json(state_to_json(&requested))
    } else {
        Reply::IrError
    }
}

// ---------------------------------------------------------------- request sequences

/// A request to the controller, as far as the state is concerned: a read of
/// the state (`GET /state`), or a command (`POST /command`) with its body and
/// whether the transmitter sent the frame when one was due.
pub enum Request {
    GetState,
    Command(Seq<u8>, bool),
}

/// The state after one command: the requested state when it was transmitted,
/// the state before otherwise (refused commands and failed sends change nothing).
pub open spec fn state_after_command(state: AcState, body: Seq<u8>, sent: bool) -> AcState {
    match requested_state(body) {
        Some(st) => if sent {
            st
        } else {
            state
        },
        None => state,
    }
}

/// The controller's state after a sequence of requests, handled one at a time
/// from the initial state, as `plan_command` and `finish_command` drive it.
pub open spec fn state_after(requests: Seq<Request>) -> AcState
    decreases requests.len(),
{
    if requests.len() == 0 {
        initial_state()
    } else {
        let before = state_after(requests.drop_last());
        match requests.last() {
            Request::GetState => before,
            Request::Command(body, sent) => state_after_command(before, body, sent),
        }
    }
}

/// The body of the answer to `GET /state` after a sequence of requests.
pub open spec fn state_reply(requests: Seq<Request>) -> Seq<char> {
    json_text(state_after(requests))
}

/// The request is a command that was answered with 200.
pub open spec fn succeeded(r: Request) -> bool {
    match r {
        Request::GetState => false,
        Request::Command(body, sent) => command_status(body, sent) == 200,
    }
}

/// The state a command asked for.
pub open spec fn commanded_state(r: Request) -> AcState {
    match r {
        Request::GetState => initial_state(),
        Request::Command(body, _) => match spec_from_json(decode_utf8(body)) {
            Some(st) => st,
            None => initial_state(),
        },
    }
}

/// A command answered with 200 is exactly one whose requested state was transmitted.
pub proof fn lemma_success_is_transmitted(body: Seq<u8>, sent: bool)
    ensures
        (command_status(body, sent) == 200) <==> (sent && requested_state(body) is Some),
        command_status(body, sent) == 200 ==> requested_state(body) == Some(
            commanded_state(Request::Command(body, sent)),
        ),
{
}

/// Whatever requests come, the stored state names settings that a frame can
/// carry.
pub proof fn lemma_state_always_valid(requests: Seq<Request>)
    ensures
        state_after(requests).is_valid(),
    decreases requests.len(),
{
    if requests.len() > 0 {
        lemma_state_always_valid(requests.drop_last());
    }
}

/// One request changes the state only when it is a command answered with 200,
/// and then to the state that command asked for.
proof fn lemma_step(requests: Seq<Request>)
    requires
        requests.len() > 0,
    ensures
        state_after(requests) == if succeeded(requests.last()) {
            commanded_state(requests.last())
        } else {
            state_after(requests.drop_last())
        },
{
    match requests.last() {
        Request::GetState => {},
        Request::Command(body, sent) => {
            lemma_success_is_transmitted(body, sent);
        },
    }
}

/// Before any command is answered with 200, the state is the initial one.
pub proof fn lemma_state_initial_until_success(requests: Seq<Request>)
    ensures
        (forall|j: int| 0 <= j < requests.len() ==> !succeeded(#[trigger] requests[j]))
            ==> state_after(requests) == initial_state(),
    decreases requests.len(),
{
    if requests.len() > 0 && forall|j: int|
        0 <= j < requests.len() ==> !succeeded(#[trigger] requests[j]) {
        let before = requests.drop_last();
        lemma_step(requests);
        assert(!succeeded(requests[requests.len() - 1]));
        assert forall|j: int| 0 <= j < before.len() implies !succeeded(#[trigger] before[j]) by {
            assert(before[j] == requests[j]);
        }
        lemma_state_initial_until_success(before);
    }
}

/// The stored state, and so every `GET /state` answer, is that of the last
/// command answered with 200; requests answered otherwise never change it.
pub proof fn lemma_state_is_last_success(requests: Seq<Request>, k: int)
    requires
        0 <= k < requests.len(),
        succeeded(requests[k]),
        forall|j: int| k < j < requests.len() ==> !succeeded(#[trigger] requests[j]),
    ensures
        state_after(requests) == commanded_state(requests[k]),
        state_reply(requests) == json_text(commanded_state(requests[k])),
    decreases requests.len(),
{
    let n = requests.len() - 1;
    let before = requests.drop_last();
    lemma_step(requests);
    if k < n {
        assert(!succeeded(requests[n]));
        assert(before[k] == requests[k]);
        assert forall|j: int| k < j < before.len() implies !succeeded(#[trigger] before[j]) by {
            assert(before[j] == requests[j]);
        }
        lemma_state_is_last_success(before, k);
    }
}

} // verus!
