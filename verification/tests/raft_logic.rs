use holochain_raft::client::{
    call_result, HcClient, LeaderCall, ZomeCallAnswer, ZomeCallParamsSigned, LEADER_CALL_ATTEMPTS,
};
use holochain_raft::config::{make_config, mem_config, validated_config, ConfigFault, RaftTiming};
use holochain_raft::error::RemoteErrorWrapper;
use holochain_raft::forker::{is_quorum, Forker, RaftForkId, FORKING_WINDOW};
use holochain_raft::interface::{
    join_outcome, keep_after, log_read_payload, p2p_reply_payload, plan_interface_call, user_log_entries,
    InterfaceCommand, LogEntry, LogId, LogPayload, RaftInterfaceRequestPayload,
    RaftInterfaceResponsePayload,
};
use holochain_raft::message::{
    plan_incoming_request, proposal_response, ClientWriteOutcome, P2pRequest, P2pResponse,
    ProposalResponse, RaftCommand, RaftRpcRequestPayload, RpcRequest, RpcResponse,
};
use holochain_raft::node::{bytes_equal, contains_node, distinct, without, HcNode, RaftId, RaftOp};
use holochain_raft::peer_tracker::{PeerTracker, PRESENCE_WINDOW};
use holochain_raft::presence::PresenceLog;
use holochain_raft::registry::{raft_setup, RaftRegistry};

fn node(b: u8) -> HcNode {
    HcNode::from_core(vec![b; 32])
}

fn raws(nodes: &[HcNode]) -> Vec<Vec<u8>> {
    let mut v: Vec<Vec<u8>> = nodes.iter().map(|n| n.raw().clone()).collect();
    v.sort();
    v
}

#[test]
fn conductor_config_values() {
    let c = make_config();
    assert_eq!(c.heartbeat_interval, 500);
    assert_eq!(c.election_timeout_min, 1500);
    assert_eq!(c.election_timeout_max, 3000);
    let c = validated_config(c).unwrap();
    assert_eq!(c.heartbeat_interval, 500);
    assert_eq!(c.election_timeout_min, 1500);
    assert_eq!(c.election_timeout_max, 3000);
    assert_eq!(c.max_payload_entries, 300);
}

#[test]
fn validated_config_keeps_openraft_defaults() {
    let c = validated_config(make_config()).unwrap();
    let d = openraft::Config::default();
    assert_eq!(c.cluster_name, d.cluster_name);
    assert_eq!(c.cluster_name, "foo");
    assert_eq!(c.install_snapshot_timeout, d.install_snapshot_timeout);
    assert_eq!(c.install_snapshot_timeout, 200);
    #[allow(deprecated)]
    {
        assert_eq!(c.send_snapshot_timeout, 0);
    }
    assert_eq!(c.max_payload_entries, d.max_payload_entries);
    assert_eq!(c.replication_lag_threshold, 5000);
    assert_eq!(c.snapshot_policy, openraft::SnapshotPolicy::LogsSinceLast(5000));
    assert_eq!(c.snapshot_max_chunk_size, 3145728);
    assert_eq!(c.max_in_snapshot_log_to_keep, 1000);
    assert_eq!(c.max_in_snapshot_log_to_keep, d.max_in_snapshot_log_to_keep);
    assert_eq!(c.purge_batch_size, 1);
    assert!(c.enable_tick && c.enable_heartbeat && c.enable_elect);
}

#[test]
fn mem_config_values() {
    let c = mem_config();
    assert_eq!(c, RaftTiming { heartbeat_interval: 100, election_timeout_min: 250, election_timeout_max: 500 });
    let oc = c.to_openraft().unwrap();
    assert_eq!(oc.election_timeout_max, 500);
}

#[test]
fn config_rejects_empty_election_window() {
    let t = RaftTiming { heartbeat_interval: 10, election_timeout_min: 300, election_timeout_max: 300 };
    match validated_config(t) {
        Err(f) => assert_eq!(f, ConfigFault::ElectionTimeout { min: 300, max: 300 }),
        Ok(_) => panic!("accepted"),
    }
}

#[test]
fn config_rejects_heartbeat_not_below_election() {
    let t = RaftTiming { heartbeat_interval: 300, election_timeout_min: 300, election_timeout_max: 600 };
    match validated_config(t) {
        Err(f) => assert_eq!(
            f,
            ConfigFault::ElectionTimeoutLTHeartBeat { election_timeout_min: 300, heartbeat_interval: 300 }
        ),
        Ok(_) => panic!("accepted"),
    }
}

#[test]
fn default_node_is_zero_agent() {
    let d = HcNode::default();
    let expected = holo_hash::AgentPubKey::from_raw_32(vec![0; 32]);
    assert_eq!(d.raw().as_slice(), expected.get_raw_39());
    assert_eq!(&d.raw()[0..3], &[0x84u8, 0x20, 0x24]);
    assert_eq!(&d.raw()[3..35], &[0u8; 32]);
}

#[test]
fn node_from_core_matches_holo_hash() {
    let n = node(7);
    let expected = holo_hash::AgentPubKey::from_raw_32(vec![7; 32]);
    assert_eq!(n.raw().as_slice(), expected.get_raw_39());
    assert_eq!(n.to_b64_string(), expected.to_string());
    assert_eq!(n.to_b64_string().len(), 53);
    assert!(n.to_b64_string().starts_with('u'));
}

#[test]
fn raw_bytes_must_be_an_agent_key() {
    let good = node(3).raw().clone();
    assert!(HcNode::try_from_raw(good.clone()).is_some());
    let mut wrong_prefix = good.clone();
    wrong_prefix[1] = 0x21;
    assert!(HcNode::try_from_raw(wrong_prefix).is_none());
    assert!(HcNode::try_from_raw(good[..38].to_vec()).is_none());
}

#[test]
fn node_equality_and_distinct() {
    assert!(node(1).same_as(&node(1)));
    assert!(!node(1).same_as(&node(2)));
    let list = vec![node(1), node(2), node(1), node(3), node(2)];
    let d = distinct(&list);
    assert_eq!(d.len(), 3);
    assert_eq!(raws(&d), raws(&[node(1), node(2), node(3)]));
    assert!(contains_node(&list, &node(3)));
    assert!(!contains_node(&list, &node(4)));
    assert!(bytes_equal(&vec![1, 2], &vec![1, 2]));
    assert!(!bytes_equal(&vec![1, 2], &vec![1]));
}

#[test]
fn raft_op_round_trip() {
    let op = RaftOp::from_bytes(vec![4, 5]);
    assert_eq!(op.bytes(), &vec![4, 5]);
    assert_eq!(op.into_bytes(), vec![4, 5]);
    let id = RaftId::from_workspace(vec![55; 39]);
    assert!(id.same_as(&RaftId::from_workspace(vec![55; 39])));
    assert!(!id.same_as(&RaftId::from_workspace(vec![56; 39])));
}

#[test]
fn presence_log_touch_and_recent() {
    let mut log = PresenceLog::new();
    assert_eq!(log.len(), 0);
    log.touch_at(node(1), 100);
    log.touch_at(node(2), 900);
    log.touch_at(node(1), 950);
    assert_eq!(log.len(), 2);
    assert_eq!(log.last_seen_of(&node(1)), Some(950));
    assert_eq!(log.last_seen_of(&node(2)), Some(900));
    assert_eq!(log.last_seen_of(&node(3)), None);
    assert_eq!(raws(&log.recent_at(101, 1000)), raws(&[node(1), node(2)]));
    assert_eq!(raws(&log.recent_at(60, 1000)), raws(&[node(1)]));
    assert_eq!(log.recent_at(50, 1000).len(), 0);
    // a moment after `now` counts as just now
    assert_eq!(raws(&log.recent_at(1, 10)), raws(&[node(1), node(2)]));
}

const SEC: u64 = 1_000_000_000;

#[test]
fn responsive_and_unresponsive_peers() {
    let mut t = PeerTracker::new(node(9));
    assert!(t.local_node().same_as(&node(9)));
    t.touch_at(node(1), 1 * SEC);
    t.touch_at(node(2), 9 * SEC);
    let here = t.responsive_peers_at(PRESENCE_WINDOW, 10 * SEC);
    assert_eq!(raws(&here), raws(&[node(2)]));
    let voters = vec![node(1), node(2), node(3), node(3)];
    let absent = t.unresponsive_members_at(&voters, PRESENCE_WINDOW, 10 * SEC);
    assert_eq!(raws(&absent), raws(&[node(1), node(3)]));
}

#[test]
fn responsive_peers_leave_out_the_local_node() {
    let mut t = PeerTracker::new(node(1));
    // a leader call to the local agent marks it as heard from
    t.touch_at(node(1), 9 * SEC);
    t.touch_at(node(2), 9 * SEC);
    let here = t.responsive_peers_at(PRESENCE_WINDOW, 10 * SEC);
    assert_eq!(raws(&here), raws(&[node(2)]));
    t.touch(node(1));
    assert!(!contains_node(&t.responsive_peers(60 * SEC), &node(1)));
}

#[test]
fn absentees_are_removed_once_per_window() {
    let mut t = PeerTracker::new(node(9));
    t.touch_at(node(1), 0);
    t.touch_at(node(2), 9 * SEC + SEC / 2);
    let voters = vec![node(1), node(2), node(3)];
    let removed = t.handle_absentees_at(&voters, PRESENCE_WINDOW, 10 * SEC);
    assert_eq!(raws(&removed), raws(&[node(1), node(3)]));
    assert_eq!(t.last_seen().last_seen_of(&node(3)), Some(10 * SEC));
    assert_eq!(t.last_seen().last_seen_of(&node(2)), Some(9 * SEC + SEC / 2));
    // within the same window nobody is removed again
    let again = t.handle_absentees_at(&voters, PRESENCE_WINDOW, 10 * SEC);
    assert!(again.is_empty());
}

#[test]
fn local_voter_is_never_removed() {
    let mut t = PeerTracker::new(node(1));
    let voters = vec![node(1), node(2)];
    let removed = t.handle_absentees_at(&voters, PRESENCE_WINDOW, 100 * SEC);
    assert_eq!(raws(&removed), raws(&[node(2)]));
    assert_eq!(t.last_seen().last_seen_of(&node(1)), None);
    let absent = t.unresponsive_members_at(&voters, PRESENCE_WINDOW, 200 * SEC);
    assert_eq!(raws(&absent), raws(&[node(2)]));
}

#[test]
fn clock_based_tracking() {
    let mut t = PeerTracker::new(node(9));
    t.touch(node(5));
    let here = t.responsive_peers(60 * SEC);
    assert_eq!(raws(&here), raws(&[node(5)]));
    let absent = t.unresponsive_members(&vec![node(5), node(6)], 60 * SEC);
    assert_eq!(raws(&absent), raws(&[node(6)]));
    let removed = t.handle_absentees(&vec![node(5)]);
    assert!(removed.is_empty());
}

#[test]
fn forking_time_after_quorumless_window() {
    let mut f = Forker::new();
    assert!(f.first_instant_without_quorum().is_none());
    assert!(!f.its_forking_time_at(false, 1_000, FORKING_WINDOW));
    assert_eq!(f.first_instant_without_quorum(), Some(1_000));
    assert!(!f.its_forking_time_at(false, 1_000 + FORKING_WINDOW, FORKING_WINDOW));
    assert_eq!(f.first_instant_without_quorum(), Some(1_000));
    assert!(f.its_forking_time_at(false, 1_001 + FORKING_WINDOW, FORKING_WINDOW));
    // a quorum resets the stretch
    assert!(!f.its_forking_time_at(true, 50_000, FORKING_WINDOW));
    assert!(f.first_instant_without_quorum().is_none());
}

#[test]
fn active_fork_freezes_forker() {
    let mut f = Forker::new();
    f.set_active_fork(Some(RaftForkId(vec![1])));
    assert!(f.active_fork().is_some());
    assert!(!f.its_forking_time_at(false, 100_000, 0));
    assert!(f.first_instant_without_quorum().is_none());
    assert!(!f.its_forking_time(&vec![vec![node(1)]]));
}

#[test]
fn forker_presence() {
    let mut f = Forker::new();
    f.touch_at(node(1), 10);
    f.touch_at(node(2), 500);
    assert_eq!(raws(&f.who_else_is_here_at(100, 550)), raws(&[node(2)]));
    assert_eq!(f.last_seen().last_seen_of(&node(1)), Some(10));
    f.touch(node(3));
    assert!(contains_node(&f.who_else_is_here(60 * SEC), &node(3)));
}

#[test]
fn leader_call_follows_hints() {
    let client = HcClient::new(node(1), vec![9; 39], RaftId::from_workspace(vec![55; 39]));
    let mut call = client.call_leader();
    assert!(call.next_target().unwrap().same_as(&node(1)));
    let hint: RpcResponse<()> = RpcResponse::P2p(P2pResponse::ForwardToLeader(Some(node(2))));
    assert!(!call.on_response(&hint));
    assert!(call.next_target().unwrap().same_as(&node(2)));
    let no_hint: RpcResponse<()> = RpcResponse::P2p(P2pResponse::ForwardToLeader(None));
    assert!(!call.on_response(&no_hint));
    assert!(call.next_target().unwrap().same_as(&node(2)));
    let done: RpcResponse<()> = RpcResponse::P2p(P2pResponse::Done);
    assert!(call.on_response(&done));
    assert!(call.next_target().is_none());
}

#[test]
fn leader_call_gives_up_after_attempts() {
    let mut call = LeaderCall::new(node(1));
    let mut calls = 0;
    while let Some(_) = call.next_target() {
        calls += 1;
        let hint: RpcResponse<()> = RpcResponse::P2p(P2pResponse::ForwardToLeader(Some(node(2))));
        assert!(!call.on_response(&hint));
    }
    assert_eq!(calls, LEADER_CALL_ATTEMPTS);
    assert_eq!(calls, 3);
}

#[test]
fn zome_call_addressing() {
    let client = HcClient::new(node(1), vec![9; 39], RaftId::from_workspace(vec![55; 39]));
    let call = client.zome_call_params(node(2), RpcRequest::<()>::P2p(P2pRequest::Leave), vec![0; 32], 77);
    assert!(call.provenance.same_as(&node(1)));
    assert!(call.target.same_as(&node(2)));
    assert_eq!(call.dna_hash, vec![9; 39]);
    assert_eq!(call.zome_name, "raft-hardwired-hack");
    assert_eq!(call.fn_name, "raft-hardwired-hack");
    assert_eq!(call.payload.raft_id.workspace, vec![55; 39]);
    assert!(matches!(call.payload.payload, RpcRequest::P2p(P2pRequest::Leave)));
    assert_eq!(call.expires_at, 77);
    let signed = ZomeCallParamsSigned::new(vec![1, 2], vec![3; 64]);
    assert_eq!(signed.bytes, vec![1, 2]);
    assert_eq!(signed.signature, vec![3; 64]);
}

#[test]
fn incoming_requests_become_commands() {
    match plan_incoming_request::<u8>(RaftRpcRequestPayload::Raft(7)) {
        RaftCommand::Engine(7) => {}
        _ => panic!(),
    }
    match plan_incoming_request::<u8>(RaftRpcRequestPayload::Initialize(vec![node(1), node(1), node(2)])) {
        RaftCommand::Initialize(m) => assert_eq!(raws(&m), raws(&[node(1), node(2)])),
        _ => panic!(),
    }
    match plan_incoming_request::<u8>(RaftRpcRequestPayload::Join(node(4))) {
        RaftCommand::AddVoter(n) => assert!(n.same_as(&node(4))),
        _ => panic!(),
    }
    match plan_incoming_request::<u8>(RaftRpcRequestPayload::Leave(node(4))) {
        RaftCommand::RemoveVoter(n) => assert!(n.same_as(&node(4))),
        _ => panic!(),
    }
    match plan_incoming_request::<u8>(RaftRpcRequestPayload::ProposeOp(RaftOp(vec![3]))) {
        RaftCommand::ClientWrite(op) => assert_eq!(op.0, vec![3]),
        _ => panic!(),
    }
}

#[test]
fn proposal_answers() {
    assert!(matches!(proposal_response(ClientWriteOutcome::Written), Ok(ProposalResponse::Accepted)));
    match proposal_response(ClientWriteOutcome::ForwardToLeader(Some(node(2)))) {
        Ok(ProposalResponse::ForwardToLeader(n)) => assert!(n.same_as(&node(2))),
        _ => panic!(),
    }
    assert!(matches!(proposal_response(ClientWriteOutcome::ForwardToLeader(None)), Ok(ProposalResponse::NoLeader)));
    match proposal_response(ClientWriteOutcome::Failed("boom".to_string())) {
        Err(e) => assert_eq!(e, "boom"),
        _ => panic!(),
    }
}

#[test]
fn rpc_response_parts() {
    let r: RpcResponse<u8> = RpcResponse::Raft(3);
    assert_eq!(r.into_raft(), Some(3));
    let p: RpcResponse<u8> = RpcResponse::P2p(P2pResponse::Done);
    assert!(p.clone().into_raft().is_none());
    assert!(matches!(p.into_p2p(), Some(P2pResponse::Done)));
}

#[test]
fn interface_requests_become_commands() {
    match plan_interface_call(RaftInterfaceRequestPayload::Initialize(vec![node(1), node(1)])) {
        InterfaceCommand::Initialize(m) => assert_eq!(m.len(), 1),
        _ => panic!(),
    }
    match plan_interface_call(RaftInterfaceRequestPayload::Join(vec![node(1), node(2)])) {
        InterfaceCommand::AskToJoin(p) => assert_eq!(p.len(), 2),
        _ => panic!(),
    }
    assert!(matches!(plan_interface_call(RaftInterfaceRequestPayload::Leave), InterfaceCommand::CallLeader(P2pRequest::Leave)));
    match plan_interface_call(RaftInterfaceRequestPayload::Propose(RaftOp(vec![1]))) {
        InterfaceCommand::CallLeader(P2pRequest::Propose(op)) => assert_eq!(op.0, vec![1]),
        _ => panic!(),
    }
    assert!(matches!(
        plan_interface_call(RaftInterfaceRequestPayload::GetAllLogEntries(Some(4))),
        InterfaceCommand::ReadLog { after: Some(4), user_only: false }
    ));
    assert!(matches!(
        plan_interface_call(RaftInterfaceRequestPayload::GetUserLogEntries(None)),
        InterfaceCommand::ReadLog { after: None, user_only: true }
    ));
}

#[test]
fn peer_replies_to_client_answers() {
    assert!(matches!(p2p_reply_payload(P2pResponse::Done), RaftInterfaceResponsePayload::Done));
    assert!(matches!(
        p2p_reply_payload(P2pResponse::Error("no".to_string())),
        RaftInterfaceResponsePayload::Error(P2pResponse::Error(_))
    ));
    assert!(matches!(
        p2p_reply_payload(P2pResponse::ForwardToLeader(None)),
        RaftInterfaceResponsePayload::Error(P2pResponse::ForwardToLeader(None))
    ));
}

#[test]
fn join_fails_on_first_failed_call() {
    let replies: Vec<Result<P2pResponse, String>> = vec![
        Ok(P2pResponse::Error("x".to_string())),
        Err("first".to_string()),
        Err("second".to_string()),
    ];
    match join_outcome(replies) {
        Err(e) => assert_eq!(e, "first"),
        Ok(_) => panic!(),
    }
    let replies: Vec<Result<P2pResponse, String>> = vec![Ok(P2pResponse::Done), Ok(P2pResponse::ForwardToLeader(None))];
    assert!(matches!(join_outcome(replies), Ok(RaftInterfaceResponsePayload::Done)));
    let none: Vec<Result<P2pResponse, String>> = vec![];
    assert!(matches!(join_outcome(none), Ok(RaftInterfaceResponsePayload::Done)));
}

fn entry(index: u64, payload: LogPayload) -> LogEntry {
    LogEntry { log_id: LogId { term: 1, leader: node(1), index }, payload }
}

#[test]
fn user_entries_keep_client_ops_in_order() {
    let entries = vec![
        entry(0, LogPayload::Blank),
        entry(1, LogPayload::Membership(vec![vec![node(1)]])),
        entry(2, LogPayload::Normal(RaftOp(vec![10]))),
        entry(3, LogPayload::Blank),
        entry(4, LogPayload::Normal(RaftOp(vec![11]))),
    ];
    let ops = user_log_entries(entries.clone());
    assert_eq!(ops.len(), 2);
    assert_eq!(ops[0].log_id.index, 2);
    assert_eq!(ops[0].op.0, vec![10]);
    assert_eq!(ops[1].log_id.index, 4);
    assert_eq!(ops[1].op.0, vec![11]);
    match log_read_payload(entries.clone(), None, false) {
        RaftInterfaceResponsePayload::AllLogEntries(all) => assert_eq!(all.len(), 5),
        _ => panic!(),
    }
    match log_read_payload(entries.clone(), None, true) {
        RaftInterfaceResponsePayload::UserLogEntries(u) => assert_eq!(u.len(), 2),
        _ => panic!(),
    }
    // reads return what lies strictly after the given index
    match log_read_payload(entries.clone(), Some(2), false) {
        RaftInterfaceResponsePayload::AllLogEntries(all) => {
            let idx: Vec<u64> = all.iter().map(|e| e.log_id.index).collect();
            assert_eq!(idx, vec![3, 4]);
        }
        _ => panic!(),
    }
    match log_read_payload(entries.clone(), Some(2), true) {
        RaftInterfaceResponsePayload::UserLogEntries(u) => {
            assert_eq!(u.len(), 1);
            assert_eq!(u[0].log_id.index, 4);
        }
        _ => panic!(),
    }
    let kept = keep_after(entries, Some(4));
    assert!(kept.is_empty());
}

#[test]
fn registry_reads_back_what_was_recorded() {
    let mut reg: RaftRegistry<u32> = RaftRegistry::new();
    let id_a = RaftId::from_workspace(vec![1; 39]);
    let id_b = RaftId::from_workspace(vec![2; 39]);
    assert!(reg.get(&vec![9; 39], &id_a).is_none());
    reg.insert_new(vec![9; 39], id_a.clone(), 10);
    assert_eq!(reg.get(&vec![9; 39], &id_a), Some(&10));
    assert!(reg.get(&vec![9; 39], &id_b).is_none());
    assert!(reg.get(&vec![8; 39], &id_a).is_none());
    assert_eq!(reg.len(), 1);
    reg.insert_new(vec![8; 39], id_a.clone(), 20);
    assert_eq!(reg.len(), 2);
    assert_eq!(reg.get(&vec![8; 39], &id_a), Some(&20));
    assert_eq!(reg.get(&vec![9; 39], &id_a), Some(&10));
}

#[test]
fn remote_error_text() {
    let w = RemoteErrorWrapper::from_error(anyhow::Error::msg("peer gone"));
    assert_eq!(w.to_text(), "peer gone");
    assert_eq!(w.into_inner().to_string(), "peer gone");
}

#[test]
fn quorum_is_majority_of_every_config() {
    let single = vec![vec![node(1), node(2), node(3)]];
    assert!(is_quorum(&single, &vec![node(1), node(2)]));
    assert!(!is_quorum(&single, &vec![node(1), node(9)]));
    let joint = vec![vec![node(1), node(2), node(3)], vec![node(4), node(5)]];
    assert!(!is_quorum(&joint, &vec![node(1), node(2), node(4)]));
    assert!(is_quorum(&joint, &vec![node(1), node(2), node(4), node(5)]));
    assert!(!is_quorum(&vec![vec![]], &vec![node(1)]));
    assert!(is_quorum(&vec![], &vec![]));
    let even = vec![vec![node(1), node(2), node(3), node(4)]];
    assert!(!is_quorum(&even, &vec![node(1), node(2)]));
    assert!(is_quorum(&even, &vec![node(1), node(2), node(3)]));
}

#[test]
fn forking_decision_from_membership() {
    let mut f = Forker::new();
    f.touch_at(node(1), 1 * SEC);
    f.touch_at(node(2), 1 * SEC);
    let configs = vec![vec![node(1), node(2), node(3)]];
    assert!(!f.its_forking_time_with(&configs, 2 * SEC, FORKING_WINDOW));
    assert!(f.first_instant_without_quorum().is_none());
    // everyone went quiet: the stretch starts, and forking follows after the window
    assert!(!f.its_forking_time_with(&configs, 100 * SEC, FORKING_WINDOW));
    assert_eq!(f.first_instant_without_quorum(), Some(100 * SEC));
    assert!(!f.its_forking_time_with(&configs, 100 * SEC + FORKING_WINDOW, FORKING_WINDOW));
    assert!(f.its_forking_time_with(&configs, 100 * SEC + 1 + FORKING_WINDOW, FORKING_WINDOW));
}

#[test]
fn reply_marks_sender_then_picks_absentees() {
    let mut t = PeerTracker::new(node(9));
    t.touch_at(node(1), 0);
    let voters = vec![node(1), node(2), node(9)];
    let removed = t.record_reply_at(node(2), &voters, PRESENCE_WINDOW, 10 * SEC);
    assert_eq!(raws(&removed), raws(&[node(1)]));
    assert_eq!(t.last_seen().last_seen_of(&node(2)), Some(10 * SEC));
    assert_eq!(t.last_seen().last_seen_of(&node(1)), Some(10 * SEC));
    let mut t2 = PeerTracker::new(node(9));
    let removed = t2.record_reply(node(3), &vec![node(3)]);
    assert!(removed.is_empty());
}

#[test]
fn without_drops_one_node() {
    let list = vec![node(1), node(2), node(1), node(3)];
    let rest = without(&list, &node(1));
    assert_eq!(rest.len(), 2);
    assert_eq!(raws(&rest), raws(&[node(2), node(3)]));
    assert_eq!(without(&list, &node(4)).len(), 4);
}

#[test]
fn zome_call_answers() {
    let ok: ZomeCallAnswer<u8> = ZomeCallAnswer::Returned(5);
    assert!(matches!(call_result(ok), Ok(5)));
    let denied: ZomeCallAnswer<u8> = ZomeCallAnswer::Unauthorized;
    assert!(matches!(call_result(denied), Err(ZomeCallAnswer::Unauthorized)));
    let auth: ZomeCallAnswer<u8> = ZomeCallAnswer::AuthenticationFailed;
    assert!(matches!(call_result(auth), Err(ZomeCallAnswer::AuthenticationFailed)));
    let net: ZomeCallAnswer<u8> = ZomeCallAnswer::NetworkError("down".to_string());
    match call_result(net) {
        Err(ZomeCallAnswer::NetworkError(e)) => assert_eq!(e, "down"),
        _ => panic!(),
    }
    let cs: ZomeCallAnswer<u8> = ZomeCallAnswer::CountersigningSession("busy".to_string());
    assert!(matches!(call_result(cs), Err(ZomeCallAnswer::CountersigningSession(_))));
}

#[test]
fn conductor_builds_raft_setup() {
    let setup = raft_setup(node(4), vec![9; 39], RaftId::from_workspace(vec![55; 39]));
    assert!(setup.client.provenance.same_as(&node(4)));
    assert_eq!(setup.client.dna_hash, vec![9; 39]);
    assert!(setup.client.raft_id.same_as(&RaftId::from_workspace(vec![55; 39])));
    assert_eq!(setup.timing, make_config());
    assert_eq!(setup.timing.heartbeat_interval, 500);
    let call = setup.client.call_leader();
    assert!(call.next_target().unwrap().same_as(&node(4)));
}

#[test]
fn forking_calls_date_the_stretch_from_the_last_quorum() {
    let mut f = Forker::new();
    let w = FORKING_WINDOW;
    assert!(!f.its_forking_time_at(false, 0, w));
    assert!(!f.its_forking_time_at(false, w / 2, w));
    // a quorum in between ends the stretch begun at 0
    assert!(!f.its_forking_time_at(true, w, w));
    assert!(!f.its_forking_time_at(false, w + 10, w));
    assert!(!f.its_forking_time_at(false, 2 * w + 1, w));
    assert!(!f.its_forking_time_at(false, 2 * w + 10, w));
    // more than the window after the first call without a quorum
    assert!(f.its_forking_time_at(false, 2 * w + 11, w));
    assert_eq!(f.first_instant_without_quorum(), Some(w + 10));
    assert!(f.last_seen().len() == 0);
    assert!(f.active_fork().is_none());
}
