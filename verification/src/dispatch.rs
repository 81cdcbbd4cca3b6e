//! The decisions of the dispatch runtime.
//!
//! A frame starts with the fingerprint of a procedure name, eight bytes
//! big-endian; the payload follows. Handlers are registered under names
//! and found by fingerprint. The runtime that owns the sockets asks this
//! module what a frame is for and what, if anything, has to be sent back.

use crate::buffer::{
    be_bytes, be_value, buffer_len, contents, lemma_be_bytes_len, lemma_be_round_trip,
    lemma_pow256_values, new_buffer, put_be, put_buffer, take_be,
};
use crate::fnv::{fingerprint, fnv};
use std::marker::PhantomData;
use std::collections::HashMap;
use tokio_util::bytes::BytesMut;
use vstd::prelude::*;

verus! {

broadcast use vstd::std_specs::hash::group_hash_axioms;

/// The handlers of a server or client, each with the name it was registered under.
pub struct HandlerRegistry<H> {
    pub handlers: HashMap<u64, (H, String)>,
}

impl<H> View for HandlerRegistry<H> {
    type V = Map<u64, (H, Seq<char>)>;

    open spec fn view(&self) -> Map<u64, (H, Seq<char>)> {
        Map::new(
            |k: u64| self.handlers@.contains_key(k),
            |k: u64| (self.handlers@[k].0, self.handlers@[k].1@),
        )
    }
}

impl<H> HandlerRegistry<H> {
    /// A registry without handlers.
    pub fn new() -> (registry: Self)
        ensures
            registry@ == Map::<u64, (H, Seq<char>)>::empty(),
    {
        let registry = Self { handlers: HashMap::new() };
        assert(registry@ =~= Map::<u64, (H, Seq<char>)>::empty());
        registry
    }

    /// Registers a handler under the fingerprint of a name. A handler that
    /// was registered under that fingerprint before is replaced.
    pub fn register(&mut self, name: &str, handler: H)
        ensures
            final(self)@ == old(self)@.insert(fingerprint(name@), (handler, name@)),
    {
        self.handlers.insert(fnv(name), (handler, String::from_str(name)));
        assert(self@ =~= old(self)@.insert(fingerprint(name@), (handler, name@)));
    }

    /// The handler that is registered under a fingerprint, with its name.
    pub fn lookup(&self, fingerprint: u64) -> (found: Option<&(H, String)>)
        ensures
            match found {
                Some(entry) => self@.contains_key(fingerprint) && self@[fingerprint] == (
                    entry.0,
                    entry.1@,
                ),
                None => !self@.contains_key(fingerprint),
            },
    {
        self.handlers.get(&fingerprint)
    }
}

/// The handler that was registered last under a name is the one that is
/// found: a second registration under the same name replaces the first.
pub proof fn lemma_last_registration_wins<H>(
    registry: Map<u64, (H, Seq<char>)>,
    name: Seq<char>,
    first: H,
    second: H,
)
    ensures
        registry.insert(fingerprint(name), (first, name)).insert(
            fingerprint(name),
            (second, name),
        ) == registry.insert(fingerprint(name), (second, name)),
        registry.insert(fingerprint(name), (first, name)).insert(
            fingerprint(name),
            (second, name),
        )[fingerprint(name)].0 == second,
{
    assert(registry.insert(fingerprint(name), (first, name)).insert(
        fingerprint(name),
        (second, name),
    ) =~= registry.insert(fingerprint(name), (second, name)));
}

/// A frame that carries a fingerprint and a payload.
pub open spec fn frame_of(fingerprint: u64, payload: Seq<u8>) -> Seq<u8> {
    be_bytes(fingerprint as nat, 8) + payload
}

/// Takes the fingerprint off the front of a frame and leaves the payload.
/// A frame of fewer than eight bytes has no fingerprint and stays as it is.
pub fn take_fingerprint(frame: &mut BytesMut) -> (found: Option<u64>)
    ensures
        match found {
            Some(fingerprint) => {
                &&& contents(*old(frame)).len() >= 8
                &&& fingerprint == be_value(contents(*old(frame)).take(8))
                &&& contents(*final(frame)) == contents(*old(frame)).skip(8)
            },
            None => contents(*old(frame)).len() < 8 && contents(*final(frame)) == contents(
                *old(frame),
            ),
        },
{
    if buffer_len(frame) < 8 {
        return None;
    }
    proof {
        lemma_pow256_values();
    }
    Some(take_be(frame, 8) as u64)
}

/// The frame that asks for a procedure: the fingerprint of its name, then
/// the serialized input.
pub fn request_frame(procedure_name: &str, data: &BytesMut) -> (frame: BytesMut)
    ensures
        contents(frame) == frame_of(fingerprint(procedure_name@), contents(*data)),
{
    let mut to_send = new_buffer();
    put_be(&mut to_send, fnv(procedure_name) as u128, 8);
    put_buffer(&mut to_send, data);
    assert(contents(to_send) =~= frame_of(fingerprint(procedure_name@), contents(*data)));
    to_send
}

/// The frame that answers a call: the fingerprint that the call came with,
/// then what the handler returned. A handler that returned no bytes gets
/// no answer sent.
pub fn response_frame(procedure_name_hash: u64, response: &BytesMut) -> (frame: Option<BytesMut>)
    ensures
        match frame {
            Some(out) => contents(*response).len() > 0 && contents(out) == frame_of(
                procedure_name_hash,
                contents(*response),
            ),
            None => contents(*response).len() == 0,
        },
{
    if buffer_len(response) == 0 {
        return None;
    }
    let mut out = new_buffer();
    put_be(&mut out, procedure_name_hash as u128, 8);
    put_buffer(&mut out, response);
    assert(contents(out) =~= frame_of(procedure_name_hash, contents(*response)));
    Some(out)
}

/// The fingerprint that is taken off a frame is the one it was made with,
/// and what is left is the payload.
pub proof fn lemma_frame_reads_back(fingerprint: u64, payload: Seq<u8>)
    ensures
        frame_of(fingerprint, payload).len() >= 8,
        be_value(frame_of(fingerprint, payload).take(8)) == fingerprint,
        frame_of(fingerprint, payload).skip(8) == payload,
{
    lemma_pow256_values();
    lemma_be_bytes_len(fingerprint as nat, 8);
    lemma_be_round_trip(fingerprint as nat, 8);
    assert(frame_of(fingerprint, payload).take(8) =~= be_bytes(fingerprint as nat, 8));
    assert(frame_of(fingerprint, payload).skip(8) =~= payload);
}

/// A typed handler function, kept together with the type of its input, so
/// that handlers of any signature can stand behind one interface.
pub struct ProcedureHolder<F, T> {
    pub procedure: F,
    pub input: PhantomData<T>,
}

impl<F, T> ProcedureHolder<F, T> {
    pub fn new(procedure: F) -> (holder: Self)
        ensures
            holder.procedure == procedure,
    {
        Self { procedure, input: PhantomData }
    }
}

/// Where a call stands.
#[derive(Debug, Clone, Copy, PartialEq, Eq, Structural)]
pub enum CallState {
    /// The procedure is registered; no frame for it is at hand.
    Registered,
    /// A frame has arrived; its input is being decoded.
    Dispatching,
    /// The input was decoded; the function runs.
    Executing,
    /// An answer was sent.
    Responded,
    /// The call ended without an answer.
    Silent,
}

/// What happens to a call.
#[derive(Debug, Clone, Copy, PartialEq, Eq, Structural)]
pub enum CallEvent {
    /// A frame with the procedure's fingerprint arrives.
    FrameArrived,
    /// The input was decoded.
    Decoded,
    /// The input could not be decoded.
    DecodeFailed,
    /// The function returned this many serialized bytes.
    Returned { len: usize },
}

/// What the runtime has to do next.
#[derive(Debug, Clone, Copy, PartialEq, Eq, Structural)]
pub enum CallAction {
    /// Decode the input.
    Decode,
    /// Run the function.
    Invoke,
    /// Send the answer.
    Respond,
    /// Log the failure; send nothing.
    LogFailure,
    /// Send nothing.
    Nothing,
}

/// The state that an event leads to and what is to be done then, or
/// nothing where the event cannot happen in the state.
pub open spec fn next_call_state(state: CallState, event: CallEvent) -> Option<(CallState, CallAction)> {
    match (state, event) {
        (CallState::Registered, CallEvent::FrameArrived) => Some(
            (CallState::Dispatching, CallAction::Decode),
        ),
        (CallState::Dispatching, CallEvent::Decoded) => Some(
            (CallState::Executing, CallAction::Invoke),
        ),
        (CallState::Dispatching, CallEvent::DecodeFailed) => Some(
            (CallState::Silent, CallAction::LogFailure),
        ),
        (CallState::Executing, CallEvent::Returned { len }) => if len > 0 {
            Some((CallState::Responded, CallAction::Respond))
        } else {
            Some((CallState::Silent, CallAction::Nothing))
        },
        _ => None,
    }
}

/// One step of a call.
pub fn step(state: CallState, event: CallEvent) -> (next: Option<(CallState, CallAction)>)
    ensures
        next == next_call_state(state, event),
{
    match (state, event) {
        (CallState::Registered, CallEvent::FrameArrived) => Some(
            (CallState::Dispatching, CallAction::Decode),
        ),
        (CallState::Dispatching, CallEvent::Decoded) => Some(
            (CallState::Executing, CallAction::Invoke),
        ),
        (CallState::Dispatching, CallEvent::DecodeFailed) => Some(
            (CallState::Silent, CallAction::LogFailure),
        ),
        (CallState::Executing, CallEvent::Returned { len }) => {
            if len > 0 {
                Some((CallState::Responded, CallAction::Respond))
            } else {
                Some((CallState::Silent, CallAction::Nothing))
            }
        },
        _ => None,
    }
}

} // verus!
