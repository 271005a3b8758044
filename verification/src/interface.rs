//! The app-interface view of a raft instance: requests clients make of their
//! conductor, its answers, and how a request is turned into work.

use vstd::prelude::*;
use crate::node::{HcNode, RaftId, RaftOp, node_keys, distinct_nodes, distinct};
use crate::message::{P2pRequest, P2pResponse};

verus! {

/// Identifies a log entry: the leader's term and node, and its position.
#[derive(Clone, Debug)]
pub struct LogId {
    pub term: u64,
    pub leader: HcNode,
    pub index: u64,
}

/// What a log entry holds.
#[derive(Clone, Debug)]
pub enum LogPayload {
    /// An empty entry a new leader writes.
    Blank,
    /// An operation a client proposed.
    Normal(RaftOp),
    /// A membership change: the voter sets of the (possibly joint) configuration.
    Membership(Vec<Vec<HcNode>>),
}

/// One entry of the replicated log.
#[derive(Clone, Debug)]
pub struct LogEntry {
    pub log_id: LogId,
    pub payload: LogPayload,
}

/// A client operation found in the log, with where it stands.
#[derive(Clone, Debug)]
pub struct LogOp {
    pub log_id: LogId,
    pub op: RaftOp,
}

/// A client's request about one raft instance.
#[derive(Clone, Debug)]
pub struct RaftInterfaceRequest {
    /// The network (DNA hash, raw bytes) that contains the peers to sync with.
    pub dna_hash: Vec<u8>,
    /// The raft instance; one is created for each workspace.
    pub raft_id: RaftId,
    /// The actual request.
    pub payload: RaftInterfaceRequestPayload,
}

/// The answer to a [`RaftInterfaceRequest`].
#[derive(Clone, Debug)]
pub struct RaftInterfaceResponse {
    /// The workspace the request was made for.
    pub workspace: Vec<u8>,
    /// The actual response.
    pub payload: RaftInterfaceResponsePayload,
}

/// What a client can ask of a raft instance.
#[derive(Clone, Debug)]
pub enum RaftInterfaceRequestPayload {
    /// Initialize the raft network with the provided peers.
    Initialize(Vec<HcNode>),
    /// Ask the provided peers to add this node to the raft network.
    Join(Vec<HcNode>),
    /// Leave the raft network.
    Leave,
    /// Propose an operation to the raft network.
    Propose(RaftOp),
    /// Get the log entries after the given index (all when none is given).
    GetAllLogEntries(Option<u64>),
    /// Get the client operations in the log after the given index (all when
    /// none is given).
    GetUserLogEntries(Option<u64>),
}

/// What a raft instance answers a client.
#[derive(Clone, Debug)]
pub enum RaftInterfaceResponsePayload {
    AllLogEntries(Vec<LogEntry>),
    UserLogEntries(Vec<LogOp>),
    /// The request was carried out.
    Done,
    NoLeader,
    /// A peer answered with something other than success.
    Error(P2pResponse),
}

/// The work a client request turns into.
#[derive(Clone, Debug)]
pub enum InterfaceCommand {
    /// Initialize the local raft instance with these members, each once.
    Initialize(Vec<HcNode>),
    /// Send each of these peers a join request.
    AskToJoin(Vec<HcNode>),
    /// Send this request to the leader, following leader hints.
    CallLeader(P2pRequest),
    /// Read the local log after an index (from the start when none is
    /// given), keeping only client operations when `user_only`.
    ReadLog { after: Option<u64>, user_only: bool },
}

/// Turns a client request into the work it asks for.
pub fn plan_interface_call(payload: RaftInterfaceRequestPayload) -> (res: InterfaceCommand)
    ensures
        payload matches RaftInterfaceRequestPayload::Initialize(peers) ==> res matches InterfaceCommand::Initialize(
            members,
        ) && node_keys(members@) == node_keys(peers@) && distinct_nodes(members@),
        payload matches RaftInterfaceRequestPayload::Join(peers) ==> res matches InterfaceCommand::AskToJoin(p)
            && p@ == peers@,
        payload is Leave ==> res matches InterfaceCommand::CallLeader(P2pRequest::Leave),
        payload matches RaftInterfaceRequestPayload::Propose(op) ==> res matches InterfaceCommand::CallLeader(
            P2pRequest::Propose(o),
        ) && o@ == op@,
        payload matches RaftInterfaceRequestPayload::GetAllLogEntries(i) ==> res == (InterfaceCommand::ReadLog {
            after: i,
            user_only: false,
        }),
        payload matches RaftInterfaceRequestPayload::GetUserLogEntries(i) ==> res == (InterfaceCommand::ReadLog {
            after: i,
            user_only: true,
        }),
{
    match payload {
        RaftInterfaceRequestPayload::Initialize(peers) => InterfaceCommand::Initialize(distinct(&peers)),
        RaftInterfaceRequestPayload::Join(peers) => InterfaceCommand::AskToJoin(peers),
        RaftInterfaceRequestPayload::Leave => InterfaceCommand::CallLeader(P2pRequest::Leave),
        RaftInterfaceRequestPayload::Propose(op) => InterfaceCommand::CallLeader(P2pRequest::Propose(op)),
        RaftInterfaceRequestPayload::GetAllLogEntries(i) => InterfaceCommand::ReadLog {
            after: i,
            user_only: false,
        },
        RaftInterfaceRequestPayload::GetUserLogEntries(i) => InterfaceCommand::ReadLog {
            after: i,
            user_only: true,
        },
    }
}

/// The client's answer when a peer answered a request: done on success,
/// otherwise the peer's answer as an error.
pub fn p2p_reply_payload(reply: P2pResponse) -> (res: RaftInterfaceResponsePayload)
    ensures
        reply is Done ==> res is Done,
        !(reply is Done) ==> res == RaftInterfaceResponsePayload::Error(reply),
{
    match reply {
        P2pResponse::Done => RaftInterfaceResponsePayload::Done,
        r => RaftInterfaceResponsePayload::Error(r),
    }
}

/// The first failure among the join requests, in peer order, if any.
pub open spec fn first_failure<E>(replies: Seq<Result<P2pResponse, E>>) -> Option<E>
    decreases replies.len(),
{
    if replies.len() == 0 {
        None
    } else {
        match replies[0] {
            Err(e) => Some(e),
            Ok(_) => first_failure(replies.drop_first()),
        }
    }
}

/// The outcome of asking every peer to add this node: the first call that
/// failed, in peer order, fails the request; otherwise it is done, whatever
/// the peers answered.
pub fn join_outcome<E>(replies: Vec<Result<P2pResponse, E>>) -> (res: Result<RaftInterfaceResponsePayload, E>)
    ensures
        first_failure(replies@) matches Some(e) ==> res == Err::<RaftInterfaceResponsePayload, E>(e),
        first_failure(replies@) is None ==> res matches Ok(RaftInterfaceResponsePayload::Done),
{
    let ghost all = replies@;
    for r in iter: replies.into_iter()
        invariant
            iter.seq() == all,
            forall|j: int| 0 <= j < iter.index() ==> iter.seq()[j] is Ok,
    {
        match r {
            Err(e) => {
                proof { lemma_first_failure_at(all, iter.index() as int); }
                return Err(e);
            },
            Ok(reply) => {
                let _ = p2p_reply_payload(reply);
            },
        }
    }
    proof { lemma_no_failure(all); }
    Ok(RaftInterfaceResponsePayload::Done)
}

proof fn lemma_first_failure_at<E>(replies: Seq<Result<P2pResponse, E>>, k: int)
    requires
        0 <= k < replies.len(),
        replies[k] is Err,
        forall|j: int| 0 <= j < k ==> replies[j] is Ok,
    ensures
        first_failure(replies) == Some(replies[k]->Err_0),
    decreases k,
{
    if k > 0 {
        let rest = replies.drop_first();
        assert forall|j: int| 0 <= j < k - 1 implies rest[j] is Ok by {
            assert(rest[j] == replies[j + 1]);
        }
        lemma_first_failure_at(rest, k - 1);
    }
}

proof fn lemma_no_failure<E>(replies: Seq<Result<P2pResponse, E>>)
    requires
        forall|j: int| 0 <= j < replies.len() ==> replies[j] is Ok,
    ensures
        first_failure(replies) is None,
    decreases replies.len(),
{
    if replies.len() > 0 {
        let rest = replies.drop_first();
        assert forall|j: int| 0 <= j < rest.len() implies rest[j] is Ok by {
            assert(rest[j] == replies[j + 1]);
        }
        lemma_no_failure(rest);
    }
}

/// The client operations in a stretch of log, in log order, each with its
/// log id.
pub open spec fn user_ops(entries: Seq<LogEntry>) -> Seq<LogOp>
    decreases entries.len(),
{
    if entries.len() == 0 {
        Seq::empty()
    } else {
        let rest = user_ops(entries.drop_last());
        match entries.last().payload {
            LogPayload::Normal(op) => rest.push(LogOp { log_id: entries.last().log_id, op }),
            _ => rest,
        }
    }
}

/// Whether a log entry carries an operation a client proposed.
pub open spec fn is_client_op(entry: LogEntry) -> bool {
    entry.payload is Normal
}

/// The client operations of a stretch of log are its entries that carry
/// one, every one of them, in log order: the `j`-th operation is the `j`-th
/// such entry's, with that entry's log id.
pub proof fn lemma_user_ops_are_client_entries(entries: Seq<LogEntry>)
    ensures
        ({
            let ops = user_ops(entries);
            let normal = entries.filter(|e: LogEntry| is_client_op(e));
            &&& ops.len() == normal.len()
            &&& forall|j: int|
                0 <= j < ops.len() ==> (#[trigger] ops[j]).log_id == normal[j].log_id && normal[j].payload
                    == LogPayload::Normal(ops[j].op)
        }),
    decreases entries.len(),
{
    reveal_with_fuel(Seq::filter, 1);
    if entries.len() > 0 {
        lemma_user_ops_are_client_entries(entries.drop_last());
        let ops = user_ops(entries);
        let normal = entries.filter(|e: LogEntry| is_client_op(e));
        let rest_normal = entries.drop_last().filter(|e: LogEntry| is_client_op(e));
        assert(normal == if is_client_op(entries.last()) {
            rest_normal.push(entries.last())
        } else {
            rest_normal
        });
    }
}

/// Adding an entry to a stretch of log adds its operation, if it carries
/// one, after those already there, and changes nothing else: a repeated
/// operation is kept each time it is proposed.
pub proof fn lemma_user_ops_push(entries: Seq<LogEntry>, entry: LogEntry)
    ensures
        user_ops(entries.push(entry)) == match entry.payload {
            LogPayload::Normal(op) => user_ops(entries).push(LogOp { log_id: entry.log_id, op }),
            _ => user_ops(entries),
        },
        user_ops(entries.push(entry)).len() == user_ops(entries).len() + if is_client_op(entry) {
            1int
        } else {
            0int
        },
{
    assert(entries.push(entry).drop_last() =~= entries);
}

/// Keeps the client operations of a stretch of log.
pub fn user_log_entries(entries: Vec<LogEntry>) -> (res: Vec<LogOp>)
    ensures
        res@ == user_ops(entries@),
        res@.len() == entries@.filter(|e: LogEntry| is_client_op(e)).len(),
        forall|j: int|
            0 <= j < res@.len() ==> (#[trigger] res@[j]).log_id == entries@.filter(|e: LogEntry| is_client_op(e))[j].log_id
                && entries@.filter(|e: LogEntry| is_client_op(e))[j].payload == LogPayload::Normal(res@[j].op),
{
    proof { lemma_user_ops_are_client_entries(entries@); }
    let ghost all = entries@;
    let mut res: Vec<LogOp> = Vec::new();
    for e in iter: entries.into_iter()
        invariant
            iter.seq() == all,
            res@ == user_ops(all.take(iter.index() as int)),
    {
        let ghost i = iter.index() as int;
        assert(all.take(i + 1).drop_last() =~= all.take(i));
        assert(all.take(i + 1).last() == all[i]);
        match e.payload {
            LogPayload::Normal(op) => {
                res.push(LogOp { log_id: e.log_id, op });
            },
            _ => {},
        }
    }
    assert(all.take(all.len() as int) =~= all);
    res
}

/// Whether a log entry lies after an index (every entry does when none is
/// given).
pub open spec fn is_after(entry: LogEntry, after: Option<u64>) -> bool {
    match after {
        Some(i) => entry.log_id.index > i,
        None => true,
    }
}

/// The entries of a stretch of log that lie after an index, in log order.
pub open spec fn entries_after(entries: Seq<LogEntry>, after: Option<u64>) -> Seq<LogEntry>
    decreases entries.len(),
{
    if entries.len() == 0 {
        Seq::empty()
    } else {
        let rest = entries_after(entries.drop_last(), after);
        if is_after(entries.last(), after) {
            rest.push(entries.last())
        } else {
            rest
        }
    }
}

/// Keeps the entries that lie after an index.
pub fn keep_after(entries: Vec<LogEntry>, after: Option<u64>) -> (res: Vec<LogEntry>)
    ensures
        res@ == entries_after(entries@, after),
{
    let ghost all = entries@;
    let mut res: Vec<LogEntry> = Vec::new();
    for e in iter: entries.into_iter()
        invariant
            iter.seq() == all,
            res@ == entries_after(all.take(iter.index() as int), after),
    {
        let ghost i = iter.index() as int;
        assert(all.take(i + 1).drop_last() =~= all.take(i));
        assert(all.take(i + 1).last() == all[i]);
        let keep = match after {
            Some(a) => e.log_id.index > a,
            None => true,
        };
        if keep {
            res.push(e);
        }
    }
    assert(all.take(all.len() as int) =~= all);
    res
}

/// The answer to a log read: the entries read that lie after the index, or
/// only the client operations among them.
pub fn log_read_payload(entries: Vec<LogEntry>, after: Option<u64>, user_only: bool) -> (res: RaftInterfaceResponsePayload)
    ensures
        !user_only ==> (res matches RaftInterfaceResponsePayload::AllLogEntries(es) && es@ == entries_after(entries@, after)),
        user_only ==> (res matches RaftInterfaceResponsePayload::UserLogEntries(ops) && ops@ == user_ops(
            entries_after(entries@, after),
        )),
{
    let kept = keep_after(entries, after);
    if user_only {
        RaftInterfaceResponsePayload::UserLogEntries(user_log_entries(kept))
    } else {
        RaftInterfaceResponsePayload::AllLogEntries(kept)
    }
}

} // verus!
