//! Messages exchanged between raft peers over the Holochain network, and the
//! decisions taken when one arrives.

use vstd::prelude::*;
use crate::node::{HcNode, RaftId, RaftOp, node_keys, distinct_nodes, distinct};

verus! {

/// A request one conductor makes of another's raft instance on behalf of a
/// client, besides the raft protocol's own messages.
#[derive(Clone, Debug)]
pub enum P2pRequest {
    /// Ask to be added as a voter.
    Join,
    /// Ask to be removed as a voter.
    Leave,
    /// Propose an operation for the log.
    Propose(RaftOp),
}

/// How a peer answered a [`P2pRequest`].
#[derive(Clone, Debug)]
pub enum P2pResponse {
    /// The request was carried out.
    Done,
    /// The peer is not the leader; it names the leader when it knows one.
    ForwardToLeader(Option<HcNode>),
    /// The peer's raft instance refused the request for another reason,
    /// described in text.
    Error(String),
}

/// A message to a remote raft instance: a raft protocol message (`R`) or a
/// client request.
#[derive(Clone, Debug)]
pub enum RpcRequest<R> {
    Raft(R),
    P2p(P2pRequest),
}

/// The answer to an [`RpcRequest`].
#[derive(Clone, Debug)]
pub enum RpcResponse<R> {
    Raft(R),
    P2p(P2pResponse),
}

impl<R> RpcResponse<R> {
    /// The raft protocol answer this response carries, if it carries one;
    /// a client answer gives none.
    pub fn into_raft(self) -> (res: Option<R>)
        ensures
            self matches RpcResponse::Raft(r) ==> res == Some(r),
            self is P2p ==> res is None,
    {
        match self {
            RpcResponse::Raft(r) => Some(r),
            RpcResponse::P2p(_) => None,
        }
    }

    /// The client answer this response carries, if it carries one.
    pub fn into_p2p(self) -> (res: Option<P2pResponse>)
        ensures
            self matches RpcResponse::P2p(r) ==> res == Some(r),
            self is Raft ==> res is None,
    {
        match self {
            RpcResponse::P2p(r) => Some(r),
            RpcResponse::Raft(_) => None,
        }
    }
}

/// An [`RpcRequest`] addressed to one raft instance.
#[derive(Clone, Debug)]
pub struct RpcRequestEnvelope<R> {
    pub raft_id: RaftId,
    pub payload: RpcRequest<R>,
}

/// A request that arrives at a raft instance from a remote conductor.
#[derive(Clone, Debug)]
pub enum RaftRpcRequestPayload<R> {
    /// A raft protocol message (append entries, snapshot, vote).
    Raft(R),
    /// Propose an operation for the log.
    ProposeOp(RaftOp),
    /// Start the cluster with these members.
    Initialize(Vec<HcNode>),
    /// Add this agent as a voter.
    Join(HcNode),
    /// Remove this agent as a voter.
    Leave(HcNode),
}

/// What the local raft engine is asked to do for an incoming request.
#[derive(Clone, Debug)]
pub enum RaftCommand<R> {
    /// Hand a protocol message to the engine.
    Engine(R),
    /// Write an operation to the log as a client.
    ClientWrite(RaftOp),
    /// Initialize the cluster with these members, each listed once.
    Initialize(Vec<HcNode>),
    /// Add a voter, without waiting for it to catch up.
    AddVoter(HcNode),
    /// Remove a voter, without waiting.
    RemoveVoter(HcNode),
}

/// The answer to a proposal.
#[derive(Clone, Debug)]
pub enum ProposalResponse {
    Accepted,
    ForwardToLeader(HcNode),
    NoLeader,
}

/// How a client write to the local raft engine ended.
#[derive(Clone, Debug)]
pub enum ClientWriteOutcome {
    /// The operation was committed.
    Written,
    /// This node is not the leader; the engine names the leader if it knows it.
    ForwardToLeader(Option<HcNode>),
    /// Any other failure, described in text.
    Failed(String),
}

/// Turns an incoming request into the command for the local raft engine.
/// Initial members are deduplicated: the engine takes them as a set.
pub fn plan_incoming_request<R>(payload: RaftRpcRequestPayload<R>) -> (res: RaftCommand<R>)
    ensures
        payload matches RaftRpcRequestPayload::Raft(m) ==> res == RaftCommand::Engine(m),
        payload matches RaftRpcRequestPayload::ProposeOp(op) ==> res matches RaftCommand::ClientWrite(o) && o@ == op@,
        payload matches RaftRpcRequestPayload::Join(a) ==> res matches RaftCommand::AddVoter(n) && n@ == a@,
        payload matches RaftRpcRequestPayload::Leave(a) ==> res matches RaftCommand::RemoveVoter(n) && n@ == a@,
        payload matches RaftRpcRequestPayload::Initialize(peers) ==> res matches RaftCommand::Initialize(members)
            && node_keys(members@) == node_keys(peers@) && distinct_nodes(members@),
{
    match payload {
        RaftRpcRequestPayload::Raft(m) => RaftCommand::Engine(m),
        RaftRpcRequestPayload::ProposeOp(op) => RaftCommand::ClientWrite(op),
        RaftRpcRequestPayload::Initialize(peers) => RaftCommand::Initialize(distinct(&peers)),
        RaftRpcRequestPayload::Join(agent) => RaftCommand::AddVoter(agent),
        RaftRpcRequestPayload::Leave(agent) => RaftCommand::RemoveVoter(agent),
    }
}

/// The answer to a proposal, given how the client write ended: accepted when
/// written; when this node is not the leader, the leader to forward to, or
/// that there is no leader; any other failure is passed on as an error.
pub fn proposal_response(outcome: ClientWriteOutcome) -> (res: Result<ProposalResponse, String>)
    ensures
        outcome is Written ==> res == Ok::<ProposalResponse, String>(ProposalResponse::Accepted),
        outcome matches ClientWriteOutcome::ForwardToLeader(Some(l)) ==> res matches Ok(
            ProposalResponse::ForwardToLeader(n),
        ) && n@ == l@,
        outcome matches ClientWriteOutcome::ForwardToLeader(None) ==> res == Ok::<ProposalResponse, String>(
            ProposalResponse::NoLeader,
        ),
        outcome matches ClientWriteOutcome::Failed(e) ==> res == Err::<ProposalResponse, String>(e),
{
    match outcome {
        ClientWriteOutcome::Written => Ok(ProposalResponse::Accepted),
        ClientWriteOutcome::ForwardToLeader(Some(leader)) => Ok(ProposalResponse::ForwardToLeader(leader)),
        ClientWriteOutcome::ForwardToLeader(None) => Ok(ProposalResponse::NoLeader),
        ClientWriteOutcome::Failed(e) => Err(e),
    }
}

} // verus!
