//! The client side of raft calls to remote conductors: addressing a call and
//! following leader hints.

use vstd::prelude::*;
use crate::node::{HcNode, RaftId};
use crate::message::{RpcRequest, RpcResponse, RpcRequestEnvelope, P2pResponse};

verus! {

/// How many calls a leader-directed request may make before giving up.
pub const LEADER_CALL_ATTEMPTS: u32 = 3;

/// The zome name (and function name) under which raft messages travel.
pub open spec fn raft_zome_name() -> Seq<char> {
    "raft-hardwired-hack"@
}

/// Who a raft client calls as, in which network, for which raft instance.
#[derive(Clone, Debug)]
pub struct HcClient {
    /// The local agent that signs the calls.
    pub provenance: HcNode,
    /// The network (DNA hash, raw bytes) the peers share.
    pub dna_hash: Vec<u8>,
    /// The raft instance the calls are about.
    pub raft_id: RaftId,
}

/// Everything a remote zome call carries, before its payload is encoded and
/// the call signed.
#[derive(Clone, Debug)]
pub struct RaftZomeCall<R> {
    pub provenance: HcNode,
    /// The cell called: the network and the target agent.
    pub dna_hash: Vec<u8>,
    pub target: HcNode,
    pub zome_name: String,
    pub fn_name: String,
    pub payload: RpcRequestEnvelope<R>,
    /// A fresh nonce and the moment (µs) the call expires, supplied by the caller.
    pub nonce: Vec<u8>,
    pub expires_at: i64,
}

impl HcClient {
    /// A client calling as `provenance` within network `dna_hash` for `raft_id`.
    pub fn new(provenance: HcNode, dna_hash: Vec<u8>, raft_id: RaftId) -> (res: HcClient)
        ensures
            res.provenance@ == provenance@,
            res.dna_hash@ == dna_hash@,
            res.raft_id@ == raft_id@,
    {
        HcClient { provenance, dna_hash, raft_id }
    }

    /// The remote zome call that delivers `message` to `target`'s raft
    /// instance: signed by this client's agent, addressed to the target's
    /// cell in this network, wrapped with this client's raft id.
    pub fn zome_call_params<R>(
        &self,
        target: HcNode,
        message: RpcRequest<R>,
        nonce: Vec<u8>,
        expires_at: i64,
    ) -> (res: RaftZomeCall<R>)
        ensures
            res.provenance@ == self.provenance@,
            res.dna_hash@ == self.dna_hash@,
            res.target@ == target@,
            res.zome_name@ == raft_zome_name(),
            res.fn_name@ == raft_zome_name(),
            res.payload.raft_id@ == self.raft_id@,
            res.payload.payload == message,
            res.nonce@ == nonce@,
            res.expires_at == expires_at,
    {
        let dna_hash = self.dna_hash.clone();
        assert(dna_hash@ =~= self.dna_hash@);
        let workspace = self.raft_id.workspace.clone();
        assert(workspace@ =~= self.raft_id@);
        RaftZomeCall {
            provenance: self.provenance.clone(),
            dna_hash,
            target,
            zome_name: "raft-hardwired-hack".to_owned(),
            fn_name: "raft-hardwired-hack".to_owned(),
            payload: RpcRequestEnvelope { raft_id: RaftId::from_workspace(workspace), payload: message },
            nonce,
            expires_at,
        }
    }

    /// Starts a leader-directed request: the first call goes to this
    /// client's own agent.
    pub fn call_leader(&self) -> (res: LeaderCall)
        ensures
            res.target() == self.provenance@,
            res.calls_made() == 0,
    {
        LeaderCall::new(self.provenance.clone())
    }
}

/// A zome call payload in its signed form: the serialized call and the
/// provenance's signature over it.
#[derive(Clone, Debug)]
pub struct ZomeCallParamsSigned {
    /// The serialized call.
    pub bytes: Vec<u8>,
    /// The provenance's signature of `bytes`.
    pub signature: Vec<u8>,
}

impl ZomeCallParamsSigned {
    /// Pairs the serialized call with its signature.
    pub fn new(bytes: Vec<u8>, signature: Vec<u8>) -> (res: ZomeCallParamsSigned)
        ensures
            res.bytes@ == bytes@,
            res.signature@ == signature@,
    {
        ZomeCallParamsSigned { bytes, signature }
    }
}

/// How a remote zome call was answered, as Holochain reports it.
#[derive(Clone, Debug)]
pub enum ZomeCallAnswer<T> {
    /// The zome function ran and returned this.
    Returned(T),
    /// The call's signature could not be verified against its provenance.
    AuthenticationFailed,
    /// No capability grant allows the call.
    Unauthorized,
    /// The call failed on the network, for the given reason.
    NetworkError(String),
    /// A countersigning session failed to start, for the given reason.
    CountersigningSession(String),
}

/// What a remote raft call yields: what the zome function returned; any
/// other answer is unexpected and is handed back as the error.
pub fn call_result<T>(answer: ZomeCallAnswer<T>) -> (res: Result<T, ZomeCallAnswer<T>>)
    ensures
        answer matches ZomeCallAnswer::Returned(v) ==> res == Ok::<T, ZomeCallAnswer<T>>(v),
        !(answer is Returned) ==> res == Err::<T, ZomeCallAnswer<T>>(answer),
{
    match answer {
        ZomeCallAnswer::Returned(v) => Ok(v),
        other => Err(other),
    }
}

/// The leader a response says to go to, if it says so.
pub open spec fn leader_hint<R>(response: RpcResponse<R>) -> Option<Option<Seq<u8>>> {
    match response {
        RpcResponse::P2p(P2pResponse::ForwardToLeader(Some(l))) => Some(Some(l@)),
        RpcResponse::P2p(P2pResponse::ForwardToLeader(None)) => Some(None),
        _ => None,
    }
}

/// A request that is sent to whoever is believed to be the leader, and
/// re-sent to the leader a "not the leader" answer names, up to
/// [`LEADER_CALL_ATTEMPTS`] calls in all.
#[derive(Debug)]
pub struct LeaderCall {
    target: HcNode,
    calls: u32,
}

impl LeaderCall {
    /// The agent the next call goes to.
    pub closed spec fn target(&self) -> Seq<u8> {
        self.target@
    }

    /// How many calls have been answered so far.
    pub closed spec fn calls_made(&self) -> nat {
        self.calls as nat
    }

    #[verifier::type_invariant]
    spec fn well_formed(self) -> bool {
        self.calls <= LEADER_CALL_ATTEMPTS
    }

    /// A request whose first call goes to `first`.
    pub fn new(first: HcNode) -> (res: LeaderCall)
        ensures
            res.target() == first@,
            res.calls_made() == 0,
    {
        LeaderCall { target: first, calls: 0 }
    }

    /// Who to call next, or nothing once every attempt has been used.
    pub fn next_target(&self) -> (res: Option<HcNode>)
        ensures
            res is Some <==> self.calls_made() < LEADER_CALL_ATTEMPTS,
            res matches Some(t) ==> t@ == self.target(),
            self.calls_made() <= LEADER_CALL_ATTEMPTS,
    {
        proof { use_type_invariant(self); }
        if self.calls < LEADER_CALL_ATTEMPTS {
            Some(self.target.clone())
        } else {
            None
        }
    }

    /// Takes the answer to the call just made. Returns true when it is the
    /// final answer; a "not the leader" answer instead points the next call at
    /// the leader it names (or keeps the target when it names none).
    pub fn on_response<R>(&mut self, response: &RpcResponse<R>) -> (settled: bool)
        requires
            old(self).calls_made() < LEADER_CALL_ATTEMPTS,
        ensures
            final(self).calls_made() == old(self).calls_made() + 1,
            settled == !(*response matches RpcResponse::P2p(P2pResponse::ForwardToLeader(_))),
            settled == (leader_hint(*response) is None),
            final(self).target() == match leader_hint(*response) {
                Some(Some(l)) => l,
                _ => old(self).target(),
            },
    {
        proof { use_type_invariant(&*self); }
        let calls = self.calls + 1;
        match response {
            RpcResponse::P2p(P2pResponse::ForwardToLeader(Some(leader))) => {
                *self = LeaderCall { target: leader.clone(), calls };
                false
            },
            RpcResponse::P2p(P2pResponse::ForwardToLeader(None)) => {
                self.calls = calls;
                false
            },
            _ => {
                self.calls = calls;
                true
            },
        }
    }
}

/// Only a "not the leader" answer sends the request on: every other
/// response, a raft answer, `Done` or an `Error` refusal, is final and names
/// no leader; a "not the leader" answer names the leader it carries.
pub proof fn lemma_only_forwarding_retries<R>(response: RpcResponse<R>)
    ensures
        (leader_hint(response) is None) <==> !(response matches RpcResponse::P2p(P2pResponse::ForwardToLeader(_))),
        response matches RpcResponse::P2p(P2pResponse::Error(_)) ==> leader_hint(response) is None,
        response matches RpcResponse::P2p(P2pResponse::ForwardToLeader(Some(l))) ==> leader_hint(response) == Some(
            Some(l@),
        ),
{
}

} // verus!
