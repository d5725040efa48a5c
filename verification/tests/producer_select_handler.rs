use commit_reveal::producer_select::{
    HandlerAction, HandlerMessage, NetworkEvent, NonReservedPeerMode, ObservedRole,
    ProducerSelectHandler, ProducerSelectHandlerPrototype, Role, MAX_NOTIFICATION_SIZE,
};
use commit_reveal::wire::{decode_web_message, encode_vote_data, encode_web_message, VoteData, WebMessage};

const SEC: u128 = 1_000_000_000;

fn peer(i: u8) -> Vec<u8> {
    // an identity multihash: code 0, length 4, four bytes of key
    vec![0, 4, i, i, i, i]
}

fn handler(role: Role) -> ProducerSelectHandler {
    ProducerSelectHandlerPrototype::new("dot").build(peer(0), role)
}

fn open(h: &mut ProducerSelectHandler, p: Vec<u8>, role: ObservedRole) {
    let name = h.protocol_name().clone();
    let a = h.handle_network_event(NetworkEvent::NotificationStreamOpened { remote: p, protocol: name, role }, 0);
    assert!(a.is_empty());
}

fn receive(h: &mut ProducerSelectHandler, from: Vec<u8>, msg: Vec<u8>, now: u128) -> Vec<HandlerAction> {
    let name = h.protocol_name().clone();
    h.handle_network_event(NetworkEvent::NotificationsReceived { remote: from, messages: vec![(name, msg)] }, now)
}

fn vote_msg(vote_num: u64, sync_id: u32) -> Vec<u8> {
    encode_web_message(&WebMessage::VoteData(VoteData::new(vote_num, sync_id)))
}

fn writes(actions: &[HandlerAction]) -> Vec<(Vec<u8>, Vec<u8>)> {
    actions
        .iter()
        .filter_map(|a| match a {
            HandlerAction::WriteNotification(p, m) => Some((p.clone(), m.clone())),
            _ => None,
        })
        .collect()
}

fn rank(actions: &[HandlerAction]) -> Option<Option<usize>> {
    actions.iter().find_map(|a| match a {
        HandlerAction::ReplyRank(r) => Some(*r),
        _ => None,
    })
}

#[test]
fn protocol_name_and_config() {
    let proto = ProducerSelectHandlerPrototype::new("dot");
    let c = proto.set_config();
    assert_eq!(c.notifications_protocol, "/dot/producer-select/1");
    assert!(c.fallback_names.is_empty());
    assert_eq!(c.max_notification_size, MAX_NOTIFICATION_SIZE);
    assert_eq!(c.max_notification_size, 16 * 1024 * 1024);
    assert_eq!((c.set_config.in_peers, c.set_config.out_peers), (0, 0));
    assert!(c.set_config.reserved_nodes.is_empty());
    assert_eq!(c.set_config.non_reserved_mode, NonReservedPeerMode::Deny);
}

#[test]
fn sync_connections_manage_reserved_set() {
    let mut h = handler(Role::Full);
    let a = h.handle_network_event(NetworkEvent::SyncConnected { remote: peer(3) }, 0);
    assert!(matches!(a.as_slice(), [HandlerAction::AddReservedPeer(p)] if *p == peer(3)));
    let a = h.handle_network_event(NetworkEvent::SyncDisconnected { remote: peer(3) }, 0);
    assert!(matches!(a.as_slice(), [HandlerAction::RemoveReservedPeer(p)] if *p == peer(3)));
    assert!(h.handle_network_event(NetworkEvent::Dht, 0).is_empty());
}

#[test]
fn votes_in_time_and_round_are_recorded() {
    let mut h = handler(Role::Authority);
    h.handle_message(HandlerMessage::PrepareVote(9, 10 * SEC), 100 * SEC);
    let a = receive(&mut h, peer(1), vote_msg(50, 9), 105 * SEC);
    assert!(matches!(a.as_slice(), [HandlerAction::ForwardVote(v)] if *v == VoteData::new(50, 9)));
    // late vote
    receive(&mut h, peer(2), vote_msg(40, 9), 111 * SEC);
    // wrong round
    receive(&mut h, peer(3), vote_msg(30, 8), 101 * SEC);
    // before the round opened
    receive(&mut h, peer(4), vote_msg(20, 9), 99 * SEC);
    // other protocol
    let a = h.handle_network_event(
        NetworkEvent::NotificationsReceived { remote: peer(5), messages: vec![("/other".to_string(), vote_msg(10, 9))] },
        101 * SEC,
    );
    assert!(a.is_empty());
    // exactly at the end of the window
    receive(&mut h, peer(6), vote_msg(60, 9), 110 * SEC);
    // local vote
    h.handle_message(HandlerMessage::SendVote(VoteData::new(55, 9)), 102 * SEC);
    let a = h.handle_message(HandlerMessage::SendElectionResult, 112 * SEC);
    // votes 50 (peer 1), 55 (local), 60 (peer 6)
    assert_eq!(rank(&a), Some(Some(1)));
    let w = writes(&a);
    assert_eq!(w.len(), 2);
    assert_eq!(w[0].0, peer(1));
    assert_eq!(w[1].0, peer(6));
    let expected = WebMessage::ElectionData(vec![(peer(1), 50), (peer(0), 55), (peer(6), 60)]);
    assert_eq!(w[0].1, encode_web_message(&expected));
}

#[test]
fn election_rank_read_by_receiver() {
    let mut sender = handler(Role::Authority);
    sender.handle_message(HandlerMessage::PrepareVote(1, 10 * SEC), 0);
    receive(&mut sender, peer(7), vote_msg(3, 1), SEC);
    receive(&mut sender, peer(8), vote_msg(1, 1), SEC);
    let a = sender.handle_message(HandlerMessage::SendElectionResult, 2 * SEC);
    assert_eq!(rank(&a), Some(None));
    let w = writes(&a);
    assert_eq!(w.len(), 2);
    // peer 7 voted 3 (second in vote order), reads rank 1
    let mut receiver = ProducerSelectHandlerPrototype::new("dot").build(peer(7), Role::Authority);
    let r = receive(&mut receiver, peer(0), w[0].1.clone(), 3 * SEC);
    assert_eq!(rank(&r), Some(Some(1)));
    let mut other = ProducerSelectHandlerPrototype::new("dot").build(peer(8), Role::Authority);
    let r = receive(&mut other, peer(0), w[0].1.clone(), 3 * SEC);
    assert_eq!(rank(&r), Some(Some(0)));
}

#[test]
fn election_rank_skips_unparsable_peers() {
    let mut h = handler(Role::Full);
    let msg = encode_web_message(&WebMessage::ElectionData(vec![(vec![0xff, 0xff], 1), (peer(0), 2)]));
    let r = receive(&mut h, peer(1), msg, 0);
    assert_eq!(rank(&r), Some(Some(0)));
}

#[test]
fn full_node_announces_without_rank() {
    let mut h = handler(Role::Full);
    let a = h.handle_message(HandlerMessage::SendElectionResult, 0);
    assert!(a.is_empty());
}

#[test]
fn vote_goes_to_authorities_only() {
    let mut h = handler(Role::Full);
    open(&mut h, peer(1), ObservedRole::Authority);
    open(&mut h, peer(2), ObservedRole::Full);
    open(&mut h, peer(3), ObservedRole::Light);
    h.handle_message(HandlerMessage::PrepareVote(4, SEC), 0);
    let a = h.handle_message(HandlerMessage::SendVote(VoteData::new(8, 4)), 0);
    let w = writes(&a);
    assert_eq!(w, vec![(peer(1), vote_msg(8, 4))]);
    // a full node does not record its own vote
    let a = h.handle_message(HandlerMessage::SendElectionResult, 0);
    assert!(writes(&a).is_empty());
}

#[test]
fn numbers_go_to_non_light_peers() {
    let mut h = handler(Role::Full);
    open(&mut h, peer(1), ObservedRole::Authority);
    open(&mut h, peer(2), ObservedRole::Full);
    open(&mut h, peer(3), ObservedRole::Light);
    let a = h.handle_message(HandlerMessage::PropagateRandom(77, 5), 0);
    let mut w = writes(&a);
    w.sort();
    let body = encode_vote_data(&VoteData::new(77, 5));
    assert_eq!(w, vec![(peer(1), body.clone()), (peer(2), body)]);
    assert!(h.handle_message(HandlerMessage::PropagateNumber(1), 0).is_empty());
    assert!(h.handle_message(HandlerMessage::BuildVoteStream, 0).is_empty());
}

#[test]
fn closed_stream_drops_the_peer() {
    let mut h = handler(Role::Full);
    open(&mut h, peer(1), ObservedRole::Authority);
    let name = h.protocol_name().clone();
    h.handle_network_event(NetworkEvent::NotificationStreamClosed { remote: peer(1), protocol: name }, 0);
    let a = h.handle_message(HandlerMessage::PropagateRandom(1, 1), 0);
    assert!(a.is_empty());
}

#[test]
fn prepare_vote_forgets_previous_round() {
    let mut h = handler(Role::Authority);
    h.handle_message(HandlerMessage::PrepareVote(1, SEC), 0);
    receive(&mut h, peer(1), vote_msg(3, 1), 0);
    h.handle_message(HandlerMessage::PrepareVote(2, SEC), 0);
    let a = h.handle_message(HandlerMessage::SendElectionResult, 0);
    assert_eq!(rank(&a), Some(None));
    assert!(writes(&a).is_empty());
    let decoded = decode_web_message(&encode_web_message(&WebMessage::ElectionData(vec![])));
    assert!(matches!(decoded, Some(WebMessage::ElectionData(l)) if l.is_empty()));
}

#[test]
fn vote_map_lists_in_vote_order() {
    let mut m = commit_reveal::vote_map::VoteMap::new();
    m.insert(30, vec![3]);
    m.insert(10, vec![1]);
    m.insert(20, vec![2]);
    m.insert(10, vec![9]);
    assert_eq!(m.entries(), vec![(10, vec![9]), (20, vec![2]), (30, vec![3])]);
    m.clear();
    assert!(m.entries().is_empty());
}
