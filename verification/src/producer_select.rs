//! The producer-select notification protocol: a handler that collects the
//! votes of a round from its peers, broadcasts its own vote, and announces
//! the election result (the voters in increasing vote number). The handler
//! here makes the decisions; the network service performs the actions it
//! returns.

use vstd::prelude::*;
use crate::byte_map::ByteKeyMap;
use crate::peer::{parse_peer_id, peer_id_canonical};
use crate::tally::copy_bytes;
use crate::vote_map::{VoteMap, vote_listing_view};
use crate::wire::{
    VoteData, WebMessage, WebMessageView, decode_web_message, election_view,
    encode_vote, encode_vote_data, encode_web, encode_web_message, parse_web,
    peer_votes_encodable,
};

verus! {

/// The largest notification the protocol accepts.
pub const MAX_NOTIFICATION_SIZE: u64 = 16 * 1024 * 1024;

/// How many notifications are remembered per peer.
pub const MAX_KNOWN_NOTIFICATIONS: usize = 10240;

/// The role of a connected peer, as the network observed it.
#[derive(PartialEq, Eq, Structural, Clone, Copy, Debug)]
pub enum ObservedRole {
    Full,
    Light,
    Authority,
}

/// The role of the local node.
#[derive(PartialEq, Eq, Structural, Clone, Copy, Debug)]
pub enum Role {
    Full,
    Light,
    Authority,
}

/// Whether peers outside the reserved set may connect.
#[derive(PartialEq, Eq, Structural, Clone, Copy, Debug)]
pub enum NonReservedPeerMode {
    Accept,
    Deny,
}

/// The peer set of the protocol.
pub struct SetConfig {
    pub in_peers: u32,
    pub out_peers: u32,
    pub reserved_nodes: Vec<Vec<u8>>,
    pub non_reserved_mode: NonReservedPeerMode,
}

/// The configuration of the protocol's notification set.
pub struct NonDefaultSetConfig {
    pub notifications_protocol: String,
    pub fallback_names: Vec<String>,
    pub max_notification_size: u64,
    pub set_config: SetConfig,
}

/// The protocol, before it runs.
pub struct ProducerSelectHandlerPrototype {
    protocol_name: String,
}

/// The protocol name for a chain's protocol id.
pub open spec fn protocol_name_for(protocol_id: Seq<char>) -> Seq<char> {
    "/"@ + protocol_id + "/producer-select/1"@
}

impl ProducerSelectHandlerPrototype {
    pub closed spec fn name(&self) -> Seq<char> {
        self.protocol_name@
    }

    /// Create a new instance: the protocol is `/<protocol id>/producer-select/1`.
    pub fn new(protocol_id: &str) -> (p: Self)
        ensures
            p.name() == protocol_name_for(protocol_id@),
    {
        let mut proto = String::new();
        proto.append("/");
        proto.append(protocol_id);
        proto.append("/producer-select/1");
        ProducerSelectHandlerPrototype { protocol_name: proto }
    }

    /// The configuration of the set to put in the network configuration: the
    /// protocol, no fallback names, at most `MAX_NOTIFICATION_SIZE` per
    /// notification, no slots, no reserved nodes, non-reserved peers denied.
    pub fn set_config(&self) -> (c: NonDefaultSetConfig)
        ensures
            c.notifications_protocol@ == self.name(),
            c.fallback_names@.len() == 0,
            c.max_notification_size == MAX_NOTIFICATION_SIZE,
            c.set_config.in_peers == 0,
            c.set_config.out_peers == 0,
            c.set_config.reserved_nodes@.len() == 0,
            c.set_config.non_reserved_mode == NonReservedPeerMode::Deny,
    {
        NonDefaultSetConfig {
            notifications_protocol: self.protocol_name.clone(),
            fallback_names: Vec::new(),
            max_notification_size: MAX_NOTIFICATION_SIZE,
            set_config: SetConfig {
                in_peers: 0,
                out_peers: 0,
                reserved_nodes: Vec::new(),
                non_reserved_mode: NonReservedPeerMode::Deny,
            },
        }
    }

    /// Turns the prototype into the handler of a node with the given peer id
    /// (its canonical bytes) and role: no peers, no votes, no round open.
    pub fn build(self, local_peer_id: Vec<u8>, local_role: Role) -> (h: ProducerSelectHandler)
        ensures
            h.wf(),
            h.protocol() == self.name(),
            h.local_peer() == local_peer_id@,
            h.role() == local_role,
            h.peers() == Map::<Seq<u8>, ObservedRole>::empty(),
            h.vote_listing() == Seq::<(u64, Seq<u8>)>::empty(),
            h.config() is None,
    {
        ProducerSelectHandler {
            protocol_name: self.protocol_name,
            local_peer_id,
            local_role,
            peers: ByteKeyMap::new(),
            vote_map: VoteMap::new(),
            vote_recv_config: None,
        }
    }
}

/// The round the handler accepts votes for: its block number, when it
/// opened (nanoseconds since the Unix epoch) and how long it stays open
/// (nanoseconds).
#[derive(PartialEq, Eq, Structural, Clone, Copy, Debug)]
pub struct VoteRecvConfig {
    pub sync_number: u32,
    pub begin_time: u128,
    pub open_duration: u128,
}

/// A network event, with peers by their canonical peer id bytes.
pub enum NetworkEvent {
    Dht,
    SyncConnected { remote: Vec<u8> },
    SyncDisconnected { remote: Vec<u8> },
    NotificationStreamOpened { remote: Vec<u8>, protocol: String, role: ObservedRole },
    NotificationStreamClosed { remote: Vec<u8>, protocol: String },
    NotificationsReceived { remote: Vec<u8>, messages: Vec<(String, Vec<u8>)> },
}

/// A request of the controller, without its reply channel.
pub enum HandlerMessage {
    PropagateNumber(u64),
    PropagateRandom(u64, u32),
    SendVote(VoteData),
    PrepareVote(u32, u128),
    SendElectionResult,
    BuildVoteStream,
}

/// What the handler asks the network side to do.
pub enum HandlerAction {
    /// Add the peer to the protocol's reserved set.
    AddReservedPeer(Vec<u8>),
    /// Remove the peer from the protocol's reserved set.
    RemoveReservedPeer(Vec<u8>),
    /// Send a notification of the protocol to the peer.
    WriteNotification(Vec<u8>, Vec<u8>),
    /// Hand the vote to the vote stream, if one was built.
    ForwardVote(VoteData),
    /// Answer the pending vote request, if any, with this rank.
    ReplyRank(Option<usize>),
}

/// An action, with byte strings as sequences.
pub enum HandlerActionView {
    AddReservedPeer(Seq<u8>),
    RemoveReservedPeer(Seq<u8>),
    WriteNotification(Seq<u8>, Seq<u8>),
    ForwardVote(VoteData),
    ReplyRank(Option<usize>),
}

impl View for HandlerAction {
    type V = HandlerActionView;

    open spec fn view(&self) -> HandlerActionView {
        match self {
            HandlerAction::AddReservedPeer(p) => HandlerActionView::AddReservedPeer(p@),
            HandlerAction::RemoveReservedPeer(p) => HandlerActionView::RemoveReservedPeer(p@),
            HandlerAction::WriteNotification(p, m) => HandlerActionView::WriteNotification(p@, m@),
            HandlerAction::ForwardVote(v) => HandlerActionView::ForwardVote(*v),
            HandlerAction::ReplyRank(r) => HandlerActionView::ReplyRank(*r),
        }
    }
}

pub open spec fn actions_view(a: Seq<HandlerAction>) -> Seq<HandlerActionView> {
    a.map_values(|x: HandlerAction| x@)
}

/// Whether the local node records its own vote: it is an authority and its
/// open round is for the vote's block (however long ago the round opened).
pub open spec fn records_own_vote(role: Role, cfg: Option<VoteRecvConfig>, v: VoteData) -> bool {
    role == Role::Authority && match cfg {
        Some(c) => c.sync_number == v.sync_id,
        None => false,
    }
}

/// Whether a vote is taken into the round: a round is open, the vote came
/// no earlier than it opened and within its duration, and is for its block.
pub open spec fn vote_accepted(cfg: Option<VoteRecvConfig>, v: VoteData, now: u128) -> bool {
    match cfg {
        Some(c) => now >= c.begin_time && now - c.begin_time <= c.open_duration && v.sync_id
            == c.sync_number,
        None => false,
    }
}

/// The canonical ids of the peers of an election list that parse, in order.
pub open spec fn parsed_peers(list: Seq<(Seq<u8>, u64)>) -> Seq<Seq<u8>>
    decreases list.len(),
{
    if list.len() == 0 {
        Seq::empty()
    } else {
        parsed_peers(list.drop_last()) + match peer_id_canonical(list.last().0) {
            Some(c) => seq![c],
            None => Seq::empty(),
        }
    }
}

/// The index of the first occurrence of `x` in `s`.
pub open spec fn first_index(s: Seq<Seq<u8>>, x: Seq<u8>) -> Option<usize>
    decreases s.len(),
{
    if s.len() == 0 {
        None
    } else if s[0] == x {
        Some(0)
    } else {
        match first_index(s.drop_first(), x) {
            Some(i) => Some((i + 1) as usize),
            None => None,
        }
    }
}

/// The rank a node reads for itself from an election list.
pub open spec fn election_rank(list: Seq<(Seq<u8>, u64)>, local: Seq<u8>) -> Option<usize> {
    first_index(parsed_peers(list), local)
}

/// The election list of a vote listing: `(voter, vote number)` in order.
pub open spec fn election_list(listing: Seq<(u64, Seq<u8>)>) -> Seq<(Seq<u8>, u64)> {
    listing.map_values(|e: (u64, Seq<u8>)| (e.1, e.0))
}

/// The voters of a vote listing, in order.
pub open spec fn voters(listing: Seq<(u64, Seq<u8>)>) -> Seq<Seq<u8>> {
    listing.map_values(|e: (u64, Seq<u8>)| e.1)
}

/// The effect of one received notification on the votes, and its actions:
/// other protocols and undecodable messages are ignored; a vote is
/// forwarded and recorded when accepted; an election list is answered with
/// the node's rank in it.
pub open spec fn message_effect(
    votes: Map<u64, Seq<u8>>,
    cfg: Option<VoteRecvConfig>,
    name: Seq<char>,
    local: Seq<u8>,
    remote: Seq<u8>,
    protocol: Seq<char>,
    msg: Seq<u8>,
    now: u128,
) -> (Map<u64, Seq<u8>>, Seq<HandlerActionView>) {
    if protocol != name {
        (votes, Seq::empty())
    } else {
        match parse_web(msg) {
            None => (votes, Seq::empty()),
            Some(WebMessageView::VoteData(v)) => (
                if vote_accepted(cfg, v, now) {
                    votes.insert(v.vote_num, remote)
                } else {
                    votes
                },
                seq![HandlerActionView::ForwardVote(v)],
            ),
            Some(WebMessageView::ElectionData(list)) => (
                votes,
                seq![HandlerActionView::ReplyRank(election_rank(list, local))],
            ),
        }
    }
}

/// The effect of received notifications, one after another.
pub open spec fn messages_effect(
    votes: Map<u64, Seq<u8>>,
    cfg: Option<VoteRecvConfig>,
    name: Seq<char>,
    local: Seq<u8>,
    remote: Seq<u8>,
    msgs: Seq<(Seq<char>, Seq<u8>)>,
    now: u128,
) -> (Map<u64, Seq<u8>>, Seq<HandlerActionView>)
    decreases msgs.len(),
{
    if msgs.len() == 0 {
        (votes, Seq::empty())
    } else {
        let (v1, a1) = messages_effect(votes, cfg, name, local, remote, msgs.drop_last(), now);
        let (v2, a2) = message_effect(v1, cfg, name, local, remote, msgs.last().0, msgs.last().1, now);
        (v2, a1 + a2)
    }
}

/// The view of received notifications.
pub open spec fn messages_view(m: Seq<(String, Vec<u8>)>) -> Seq<(Seq<char>, Seq<u8>)> {
    m.map_values(|e: (String, Vec<u8>)| (e.0@, e.1@))
}

/// Whether a peer of the given role receives a broadcast: only
/// authorities for votes (`authorities_only`), every non-light peer
/// otherwise.
pub open spec fn receives(role: ObservedRole, authorities_only: bool) -> bool {
    if authorities_only {
        role == ObservedRole::Authority
    } else {
        role != ObservedRole::Light
    }
}

/// Notifications of `msg` to the receiving peers, in peer order.
pub open spec fn writes_to(
    peers: Seq<(Vec<u8>, ObservedRole)>,
    authorities_only: bool,
    msg: Seq<u8>,
) -> Seq<HandlerActionView>
    decreases peers.len(),
{
    if peers.len() == 0 {
        Seq::empty()
    } else {
        writes_to(peers.drop_last(), authorities_only, msg) + if receives(peers.last().1, authorities_only) {
            seq![HandlerActionView::WriteNotification(peers.last().0@, msg)]
        } else {
            Seq::empty()
        }
    }
}

/// Notifications to the voters of a listing other than `local`, in order.
pub open spec fn election_writes(listing: Seq<(u64, Seq<u8>)>, local: Seq<u8>, msg: Seq<u8>) -> Seq<HandlerActionView>
    decreases listing.len(),
{
    if listing.len() == 0 {
        Seq::empty()
    } else {
        election_writes(listing.drop_last(), local, msg) + if listing.last().1 != local {
            seq![HandlerActionView::WriteNotification(listing.last().1, msg)]
        } else {
            Seq::empty()
        }
    }
}

pub proof fn lemma_first_index_found(s: Seq<Seq<u8>>, x: Seq<u8>, i: int)
    requires
        0 <= i < s.len(),
        s.len() <= usize::MAX,
        s[i] == x,
        forall|j: int| 0 <= j < i ==> s[j] != x,
    ensures
        first_index(s, x) == Some(i as usize),
    decreases i,
{
    if i > 0 {
        lemma_first_index_found(s.drop_first(), x, i - 1);
        assert(s[0] != x);
    }
}

pub proof fn lemma_first_index_absent(s: Seq<Seq<u8>>, x: Seq<u8>)
    requires
        forall|j: int| 0 <= j < s.len() ==> s[j] != x,
    ensures
        first_index(s, x) is None,
    decreases s.len(),
{
    if s.len() > 0 {
        lemma_first_index_absent(s.drop_first(), x);
    }
}

/// The index of the first occurrence of `x` in `s`.
fn position_of(s: &Vec<Vec<u8>>, x: &Vec<u8>) -> (r: Option<usize>)
    ensures
        r == first_index(crate::tally::bytes_seqs(s@), x@),
{
    let ghost v = crate::tally::bytes_seqs(s@);
    let mut i: usize = 0;
    while i < s.len()
        invariant
            i <= s@.len(),
            v == crate::tally::bytes_seqs(s@),
            forall|j: int| 0 <= j < i ==> v[j] != x@,
        decreases s@.len() - i,
    {
        if crate::bytes::bytes_equal(s[i].as_slice(), x.as_slice()) {
            proof {
                lemma_first_index_found(v, x@, i as int);
            }
            return Some(i);
        }
        i = i + 1;
    }
    proof {
        lemma_first_index_absent(v, x@);
    }
    None
}

/// The rank the local node reads for itself from an election list.
fn election_rank_exec(list: &Vec<(Vec<u8>, u64)>, local: &Vec<u8>) -> (r: Option<usize>)
    ensures
        r == election_rank(election_view(list@), local@),
{
    let ghost lv = election_view(list@);
    let mut parsed: Vec<Vec<u8>> = Vec::new();
    let mut i: usize = 0;
    while i < list.len()
        invariant
            i <= list@.len(),
            lv == election_view(list@),
            crate::tally::bytes_seqs(parsed@) == parsed_peers(lv.take(i as int)),
        decreases list@.len() - i,
    {
        let ghost before = parsed@;
        match parse_peer_id(list[i].0.as_slice()) {
            Some(c) => {
                parsed.push(c);
            },
            None => {},
        }
        proof {
            assert(lv.take(i + 1).drop_last() =~= lv.take(i as int));
            assert(lv.take(i + 1).last() == lv[i as int]);
            assert(crate::tally::bytes_seqs(parsed@) =~= parsed_peers(lv.take(i + 1)));
        }
        i = i + 1;
    }
    assert(lv.take(list@.len() as int) =~= lv);
    position_of(&parsed, local)
}

/// Whether a vote is taken into the round.
fn vote_accepted_exec(cfg: &Option<VoteRecvConfig>, v: &VoteData, now: u128) -> (r: bool)
    ensures
        r == vote_accepted(*cfg, *v, now),
{
    match cfg {
        Some(c) => now >= c.begin_time && now - c.begin_time <= c.open_duration && v.sync_id == c.sync_number,
        None => false,
    }
}

proof fn lemma_parsed_canonical(list: Seq<(Seq<u8>, u64)>)
    requires
        forall|i: int| 0 <= i < list.len() ==> peer_id_canonical(#[trigger] list[i].0) == Some(list[i].0),
    ensures
        parsed_peers(list) == list.map_values(|e: (Seq<u8>, u64)| e.0),
    decreases list.len(),
{
    if list.len() > 0 {
        let t = list.drop_last();
        assert forall|i: int| 0 <= i < t.len() implies peer_id_canonical(#[trigger] t[i].0) == Some(t[i].0) by {
            assert(t[i] == list[i]);
        }
        lemma_parsed_canonical(t);
        assert(peer_id_canonical(list[list.len() - 1].0) == Some(list.last().0));
        assert(list.map_values(|e: (Seq<u8>, u64)| e.0) =~= t.map_values(|e: (Seq<u8>, u64)| e.0).push(list.last().0));
    } else {
        assert(list.map_values(|e: (Seq<u8>, u64)| e.0) =~= Seq::<Seq<u8>>::empty());
    }
}

/// Every node reads the same rank from an election announcement: a node
/// that receives the announcement of a round whose voters are canonical
/// peer ids decodes exactly the announced list, keeps its votes, and
/// answers the rank of its first vote in increasing vote number, the rank
/// that the announcing authority answers for itself.
pub proof fn lemma_election_rank_agrees(
    listing: Seq<(u64, Seq<u8>)>,
    node: Seq<u8>,
    votes: Map<u64, Seq<u8>>,
    cfg: Option<VoteRecvConfig>,
    name: Seq<char>,
    remote: Seq<u8>,
    now: u128,
)
    requires
        forall|i: int| 0 <= i < listing.len() ==> peer_id_canonical(#[trigger] listing[i].1) == Some(listing[i].1),
        peer_votes_encodable(election_list(listing)),
    ensures
        ({
            let msg = encode_web(WebMessageView::ElectionData(election_list(listing)));
            &&& parse_web(msg) == Some(WebMessageView::ElectionData(election_list(listing)))
            &&& message_effect(votes, cfg, name, node, remote, name, msg, now) == (
                votes,
                seq![HandlerActionView::ReplyRank(first_index(voters(listing), node))],
            )
        }),
{
    let list = election_list(listing);
    crate::wire::lemma_web_roundtrip(WebMessageView::ElectionData(list), Seq::empty());
    let msg = encode_web(WebMessageView::ElectionData(list));
    assert(msg + Seq::<u8>::empty() =~= msg);
    assert forall|i: int| 0 <= i < list.len() implies peer_id_canonical(#[trigger] list[i].0) == Some(list[i].0) by {
        assert(list[i].0 == listing[i].1);
    }
    lemma_parsed_canonical(list);
    assert(list.map_values(|e: (Seq<u8>, u64)| e.0) =~= voters(listing));
}

/// A vote sent with `send_vote` reaches a node of the same protocol as that
/// vote: the node forwards it, and records it for the sender when it came
/// in time and for the node's open round.
pub proof fn lemma_vote_delivery(
    v: VoteData,
    votes: Map<u64, Seq<u8>>,
    cfg: Option<VoteRecvConfig>,
    name: Seq<char>,
    node: Seq<u8>,
    remote: Seq<u8>,
    now: u128,
)
    ensures
        message_effect(votes, cfg, name, node, remote, name, encode_web(WebMessageView::VoteData(v)), now) == (
            if vote_accepted(cfg, v, now) {
                votes.insert(v.vote_num, remote)
            } else {
                votes
            },
            seq![HandlerActionView::ForwardVote(v)],
        ),
{
    let msg = encode_web(WebMessageView::VoteData(v));
    crate::wire::lemma_web_roundtrip(WebMessageView::VoteData(v), Seq::empty());
    assert(msg + Seq::<u8>::empty() =~= msg);
}

/// The handler of the protocol.
pub struct ProducerSelectHandler {
    protocol_name: String,
    local_peer_id: Vec<u8>,
    local_role: Role,
    peers: ByteKeyMap<ObservedRole>,
    vote_map: VoteMap,
    vote_recv_config: Option<VoteRecvConfig>,
}

impl ProducerSelectHandler {
    pub closed spec fn wf(&self) -> bool {
        &&& self.peers.wf()
        &&& self.vote_map.wf()
    }

    pub closed spec fn protocol(&self) -> Seq<char> {
        self.protocol_name@
    }

    pub closed spec fn local_peer(&self) -> Seq<u8> {
        self.local_peer_id@
    }

    pub closed spec fn role(&self) -> Role {
        self.local_role
    }

    /// The connected peers of the protocol and their roles.
    pub closed spec fn peers(&self) -> Map<Seq<u8>, ObservedRole> {
        self.peers@
    }

    /// The connected peers in the order the handler walks them.
    pub closed spec fn peer_listing(&self) -> Seq<(Vec<u8>, ObservedRole)> {
        self.peers.listing()
    }

    /// The votes of the round, by vote number.
    pub closed spec fn votes(&self) -> Map<u64, Seq<u8>> {
        self.vote_map@
    }

    /// The votes of the round in increasing vote number.
    pub closed spec fn vote_listing(&self) -> Seq<(u64, Seq<u8>)> {
        self.vote_map.listing()
    }

    pub closed spec fn config(&self) -> Option<VoteRecvConfig> {
        self.vote_recv_config
    }

    /// The votes are listed in strictly increasing vote number, exactly as
    /// the map holds them.
    pub proof fn lemma_votes_ordered(&self)
        requires
            self.wf(),
        ensures
            forall|i: int, j: int|
                0 <= i < j < self.vote_listing().len() ==> self.vote_listing()[i].0 < self.vote_listing()[j].0,
            forall|i: int|
                0 <= i < self.vote_listing().len() ==> self.votes().contains_key(#[trigger] self.vote_listing()[i].0)
                    && self.votes()[self.vote_listing()[i].0] == self.vote_listing()[i].1,
            forall|k: u64|
                #[trigger] self.votes().contains_key(k) ==> exists|i: int|
                    0 <= i < self.vote_listing().len() && self.vote_listing()[i].0 == k,
    {
        self.vote_map.lemma_listing();
        assert forall|k: u64| #[trigger] self.votes().contains_key(k) implies exists|i: int|
            0 <= i < self.vote_listing().len() && self.vote_listing()[i].0 == k by {
            assert(self.vote_map@.contains_key(k));
            let i = choose|i: int| 0 <= i < self.vote_map.listing().len() && self.vote_map.listing()[i].0 == k;
            assert(0 <= i < self.vote_listing().len() && self.vote_listing()[i].0 == k);
        }
    }


    /// The peers are walked each once, in an order that lists exactly the
    /// connected peers with their roles.
    pub proof fn lemma_peer_listing(&self)
        requires
            self.wf(),
        ensures
            crate::byte_map::listing_keys(self.peer_listing()).no_duplicates(),
            forall|i: int|
                0 <= i < self.peer_listing().len() ==> self.peers().contains_key(
                    #[trigger] self.peer_listing()[i].0@,
                ) && self.peers()[self.peer_listing()[i].0@] == self.peer_listing()[i].1,
            forall|k: Seq<u8>|
                #[trigger] self.peers().contains_key(k) ==> exists|i: int|
                    0 <= i < self.peer_listing().len() && self.peer_listing()[i].0@ == k,
    {
        self.peers.lemma_listing();
        assert forall|k: Seq<u8>| #[trigger] self.peers().contains_key(k) implies exists|i: int|
            0 <= i < self.peer_listing().len() && self.peer_listing()[i].0@ == k by {
            assert(self.peers@.contains_key(k));
            let i = choose|i: int| 0 <= i < self.peers.listing().len() && self.peers.listing()[i].0@ == k;
            assert(self.peer_listing()[i].0@ == k);
        }
    }

    /// The protocol name.
    pub fn protocol_name(&self) -> (n: &String)
        ensures
            n@ == self.protocol(),
    {
        &self.protocol_name
    }


    /// Notifications of `msg` to the connected peers that receive it.
    fn write_to_peers(&self, authorities_only: bool, msg: &Vec<u8>) -> (a: Vec<HandlerAction>)
        requires
            self.wf(),
        ensures
            actions_view(a@) == writes_to(self.peer_listing(), authorities_only, msg@),
    {
        let entries = self.peers.entries();
        let ghost pl = self.peer_listing();
        let mut actions: Vec<HandlerAction> = Vec::new();
        let mut i: usize = 0;
        while i < entries.len()
            invariant
                i <= entries@.len(),
                entries@ == pl,
                actions_view(actions@) == writes_to(pl.take(i as int), authorities_only, msg@),
            decreases entries@.len() - i,
        {
            let ghost before = actions@;
            let role = entries[i].1;
            let send = if authorities_only {
                role == ObservedRole::Authority
            } else {
                role != ObservedRole::Light
            };
            if send {
                actions.push(HandlerAction::WriteNotification(copy_bytes(&entries[i].0), copy_bytes(msg)));
            }
            proof {
                assert(pl.take(i + 1).drop_last() =~= pl.take(i as int));
                assert(pl.take(i + 1).last() == pl[i as int]);
                assert(actions_view(actions@) =~= writes_to(pl.take(i + 1), authorities_only, msg@));
            }
            i = i + 1;
        }
        assert(pl.take(entries@.len() as int) =~= pl);
        actions
    }

    /// Broadcasts a vote for `vote_num` in the round of block `sync_id` (the
    /// vote's own bytes) to every connected peer that is not a light node.
    pub fn propagate_number(&self, vote_num: u64, sync_id: u32) -> (a: Vec<HandlerAction>)
        requires
            self.wf(),
        ensures
            actions_view(a@) == writes_to(
                self.peer_listing(),
                false,
                encode_vote(VoteData { vote_num, sync_id }),
            ),
    {
        let to_send = encode_vote_data(&VoteData::new(vote_num, sync_id));
        self.write_to_peers(false, &to_send)
    }

    /// Casts the local vote: an authority whose open round is for the vote's
    /// block records itself as the vote's voter; the vote message goes to
    /// every connected authority.
    pub fn send_vote(&mut self, vote_data: VoteData) -> (a: Vec<HandlerAction>)
        requires
            old(self).wf(),
        ensures
            final(self).wf(),
            final(self).votes() == if records_own_vote(old(self).role(), old(self).config(), vote_data) {
                old(self).votes().insert(vote_data.vote_num, old(self).local_peer())
            } else {
                old(self).votes()
            },
            final(self).config() == old(self).config(),
            final(self).peers() == old(self).peers(),
            final(self).peer_listing() == old(self).peer_listing(),
            final(self).protocol() == old(self).protocol(),
            final(self).local_peer() == old(self).local_peer(),
            final(self).role() == old(self).role(),
            actions_view(a@) == writes_to(
                old(self).peer_listing(),
                true,
                encode_web(WebMessageView::VoteData(vote_data)),
            ),
    {
        if self.local_role == Role::Authority {
            match &self.vote_recv_config {
                Some(c) => {
                    if c.sync_number == vote_data.sync_id {
                        let me = copy_bytes(&self.local_peer_id);
                        self.vote_map.insert(vote_data.vote_num, me);
                    }
                },
                None => {},
            }
        }
        let to_send = encode_web_message(&WebMessage::VoteData(vote_data));
        self.write_to_peers(true, &to_send)
    }

    /// Announces the election result: an authority first answers its own
    /// rank among the voters; the list of voters with their vote numbers, in
    /// increasing vote number, goes to every voter but the local node.
    pub fn send_election_result(&self) -> (a: Vec<HandlerAction>)
        requires
            self.wf(),
            peer_votes_encodable(election_list(self.vote_listing())),
        ensures
            actions_view(a@) == (if self.role() == Role::Authority {
                seq![HandlerActionView::ReplyRank(first_index(voters(self.vote_listing()), self.local_peer()))]
            } else {
                Seq::empty()
            }) + election_writes(
                self.vote_listing(),
                self.local_peer(),
                encode_web(WebMessageView::ElectionData(election_list(self.vote_listing()))),
            ),
    {
        let entries = self.vote_map.entries();
        let ghost vl = self.vote_listing();
        let mut list: Vec<(Vec<u8>, u64)> = Vec::new();
        let mut who: Vec<Vec<u8>> = Vec::new();
        let mut i: usize = 0;
        while i < entries.len()
            invariant
                i <= entries@.len(),
                vote_listing_view(entries@) == vl,
                election_view(list@) == election_list(vl.take(i as int)),
                crate::tally::bytes_seqs(who@) == voters(vl.take(i as int)),
            decreases entries@.len() - i,
        {
            let ghost old_list = list@;
            let ghost old_who = who@;
            list.push((copy_bytes(&entries[i].1), entries[i].0));
            who.push(copy_bytes(&entries[i].1));
            proof {
                assert(vl[i as int] == (entries@[i as int].0, entries@[i as int].1@));
                assert(vl.take(i + 1) =~= vl.take(i as int).push(vl[i as int]));
                assert(election_list(vl.take(i + 1)) =~= election_list(vl.take(i as int)).push((vl[i as int].1, vl[i as int].0)));
                assert(voters(vl.take(i + 1)) =~= voters(vl.take(i as int)).push(vl[i as int].1));
                assert(election_view(list@) =~= election_view(old_list).push((vl[i as int].1, vl[i as int].0)));
                assert(crate::tally::bytes_seqs(who@) =~= crate::tally::bytes_seqs(old_who).push(vl[i as int].1));
                assert(election_view(list@) =~= election_list(vl.take(i + 1)));
                assert(crate::tally::bytes_seqs(who@) =~= voters(vl.take(i + 1)));
            }
            i = i + 1;
        }
        assert(vl.take(entries@.len() as int) =~= vl);
        let mut actions: Vec<HandlerAction> = Vec::new();
        if self.local_role == Role::Authority {
            let rank = position_of(&who, &self.local_peer_id);
            actions.push(HandlerAction::ReplyRank(rank));
        }
        let ghost head = actions_view(actions@);
        let msg = WebMessage::ElectionData(list);
        let to_send = encode_web_message(&msg);
        let ghost m = encode_web(WebMessageView::ElectionData(election_list(vl)));
        let mut j: usize = 0;
        while j < entries.len()
            invariant
                j <= entries@.len(),
                vote_listing_view(entries@) == vl,
                to_send@ == m,
                actions_view(actions@) == head + election_writes(vl.take(j as int), self.local_peer(), m),
            decreases entries@.len() - j,
        {
            let ghost before = actions@;
            if !crate::bytes::bytes_equal(entries[j].1.as_slice(), self.local_peer_id.as_slice()) {
                actions.push(HandlerAction::WriteNotification(copy_bytes(&entries[j].1), copy_bytes(&to_send)));
                assert(actions_view(actions@) =~= actions_view(before).push(HandlerActionView::WriteNotification(vl[j as int].1, m)));
            }
            proof {
                let w = election_writes(vl.take(j as int), self.local_peer(), m);
                assert(actions_view(before) == head + w);
                assert(vl[j as int] == (entries@[j as int].0, entries@[j as int].1@));
                assert(vl.take(j + 1).drop_last() =~= vl.take(j as int));
                assert(vl.take(j + 1).last() == vl[j as int]);
                assert(actions_view(actions@) =~= head + election_writes(vl.take(j + 1), self.local_peer(), m));
            }
            j = j + 1;
        }
        assert(vl.take(entries@.len() as int) =~= vl);
        actions
    }


    /// Handles the notifications received from `remote` (see
    /// `messages_effect`); only the votes change.
    fn receive_notifications(&mut self, remote: &Vec<u8>, messages: &Vec<(String, Vec<u8>)>, now: u128) -> (a: Vec<HandlerAction>)
        requires
            old(self).wf(),
        ensures
            final(self).wf(),
            (final(self).votes(), actions_view(a@)) == messages_effect(
                old(self).votes(),
                old(self).config(),
                old(self).protocol(),
                old(self).local_peer(),
                remote@,
                messages_view(messages@),
                now,
            ),
            final(self).config() == old(self).config(),
            final(self).peers() == old(self).peers(),
            final(self).peer_listing() == old(self).peer_listing(),
            final(self).protocol() == old(self).protocol(),
            final(self).local_peer() == old(self).local_peer(),
            final(self).role() == old(self).role(),
    {
        let ghost mv = messages_view(messages@);
        let ghost votes0 = self.votes();
        let mut actions: Vec<HandlerAction> = Vec::new();
        let mut i: usize = 0;
        while i < messages.len()
            invariant
                i <= messages@.len(),
                mv == messages_view(messages@),
                self.wf(),
                (self.votes(), actions_view(actions@)) == messages_effect(
                    votes0,
                    old(self).config(),
                    old(self).protocol(),
                    old(self).local_peer(),
                    remote@,
                    mv.take(i as int),
                    now,
                ),
                self.config() == old(self).config(),
                self.peers() == old(self).peers(),
                self.peer_listing() == old(self).peer_listing(),
                self.protocol() == old(self).protocol(),
                self.local_peer() == old(self).local_peer(),
                self.role() == old(self).role(),
            decreases messages@.len() - i,
        {
            let ghost votes_before = self.votes();
            let ghost before = actions@;
            proof {
                assert(mv.take(i + 1).drop_last() =~= mv.take(i as int));
                assert(mv.take(i + 1).last() == (messages@[i as int].0@, messages@[i as int].1@));
            }
            let protocol = &messages[i].0;
            let message = &messages[i].1;
            if *protocol == self.protocol_name {
                match decode_web_message(message.as_slice()) {
                    None => {},
                    Some(WebMessage::VoteData(v)) => {
                        actions.push(HandlerAction::ForwardVote(v));
                        if vote_accepted_exec(&self.vote_recv_config, &v, now) {
                            self.vote_map.insert(v.vote_num, copy_bytes(remote));
                        }
                        assert(actions_view(actions@) =~= actions_view(before).push(HandlerActionView::ForwardVote(v)));
                    },
                    Some(WebMessage::ElectionData(list)) => {
                        let rank = election_rank_exec(&list, &self.local_peer_id);
                        actions.push(HandlerAction::ReplyRank(rank));
                        assert(actions_view(actions@) =~= actions_view(before).push(HandlerActionView::ReplyRank(rank)));
                    },
                }
            }
            proof {
                let (v1, a1) = messages_effect(votes0, old(self).config(), old(self).protocol(), old(self).local_peer(), remote@, mv.take(i as int), now);
                assert(v1 == votes_before && a1 == actions_view(before));
                assert(actions_view(actions@) =~= a1 + message_effect(v1, old(self).config(), old(self).protocol(), old(self).local_peer(), remote@, mv.take(i + 1).last().0, mv.take(i + 1).last().1, now).1);
            }
            i = i + 1;
        }
        assert(mv.take(messages@.len() as int) =~= mv);
        actions
    }

    /// Handles a network event: connections and disconnections of the
    /// syncing layer add the remote to, or remove it from, the protocol's
    /// reserved set; streams of the protocol that open or close add or
    /// remove the peer with its role; received notifications are handled
    /// one after another (`messages_effect`) at time `now`.
    pub fn handle_network_event(&mut self, event: NetworkEvent, now: u128) -> (a: Vec<HandlerAction>)
        requires
            old(self).wf(),
        ensures
            final(self).wf(),
            final(self).config() == old(self).config(),
            final(self).protocol() == old(self).protocol(),
            final(self).local_peer() == old(self).local_peer(),
            final(self).role() == old(self).role(),
            match event {
                NetworkEvent::Dht => {
                    &&& a@.len() == 0
                    &&& final(self).votes() == old(self).votes()
                    &&& final(self).peers() == old(self).peers()
                    &&& final(self).peer_listing() == old(self).peer_listing()
                },
                NetworkEvent::SyncConnected { remote } => {
                    &&& actions_view(a@) == seq![HandlerActionView::AddReservedPeer(remote@)]
                    &&& final(self).votes() == old(self).votes()
                    &&& final(self).peers() == old(self).peers()
                    &&& final(self).peer_listing() == old(self).peer_listing()
                },
                NetworkEvent::SyncDisconnected { remote } => {
                    &&& actions_view(a@) == seq![HandlerActionView::RemoveReservedPeer(remote@)]
                    &&& final(self).votes() == old(self).votes()
                    &&& final(self).peers() == old(self).peers()
                    &&& final(self).peer_listing() == old(self).peer_listing()
                },
                NetworkEvent::NotificationStreamOpened { remote, protocol, role } => {
                    &&& a@.len() == 0
                    &&& final(self).votes() == old(self).votes()
                    &&& final(self).peers() == if protocol@ == old(self).protocol() {
                        old(self).peers().insert(remote@, role)
                    } else {
                        old(self).peers()
                    }
                },
                NetworkEvent::NotificationStreamClosed { remote, protocol } => {
                    &&& a@.len() == 0
                    &&& final(self).votes() == old(self).votes()
                    &&& final(self).peers() == if protocol@ == old(self).protocol() {
                        old(self).peers().remove(remote@)
                    } else {
                        old(self).peers()
                    }
                },
                NetworkEvent::NotificationsReceived { remote, messages } => {
                    &&& (final(self).votes(), actions_view(a@)) == messages_effect(
                        old(self).votes(),
                        old(self).config(),
                        old(self).protocol(),
                        old(self).local_peer(),
                        remote@,
                        messages_view(messages@),
                        now,
                    )
                    &&& final(self).peers() == old(self).peers()
                    &&& final(self).peer_listing() == old(self).peer_listing()
                },
            },
    {
        match event {
            NetworkEvent::Dht => Vec::new(),
            NetworkEvent::SyncConnected { remote } => {
                let mut a: Vec<HandlerAction> = Vec::new();
                a.push(HandlerAction::AddReservedPeer(remote));
                assert(actions_view(a@) =~= seq![HandlerActionView::AddReservedPeer(remote@)]);
                a
            },
            NetworkEvent::SyncDisconnected { remote } => {
                let mut a: Vec<HandlerAction> = Vec::new();
                a.push(HandlerAction::RemoveReservedPeer(remote));
                assert(actions_view(a@) =~= seq![HandlerActionView::RemoveReservedPeer(remote@)]);
                a
            },
            NetworkEvent::NotificationStreamOpened { remote, protocol, role } => {
                if protocol == self.protocol_name {
                    self.peers.insert(remote, role);
                }
                Vec::new()
            },
            NetworkEvent::NotificationStreamClosed { remote, protocol } => {
                if protocol == self.protocol_name {
                    let _peer = self.peers.remove(remote.as_slice());
                }
                Vec::new()
            },
            NetworkEvent::NotificationsReceived { remote, messages } => {
                self.receive_notifications(&remote, &messages, now)
            },
        }
    }

    /// Handles a request of the controller at time `now`: a random number is
    /// broadcast (`propagate_number`), a vote is cast (`send_vote`), a round
    /// is opened (`prepare_vote`), the election result is announced
    /// (`send_election_result`); the other requests only concern the
    /// controller's channels.
    pub fn handle_message(&mut self, message: HandlerMessage, now: u128) -> (a: Vec<HandlerAction>)
        requires
            old(self).wf(),
            message is SendElectionResult ==> peer_votes_encodable(election_list(old(self).vote_listing())),
        ensures
            final(self).wf(),
            final(self).peers() == old(self).peers(),
            final(self).peer_listing() == old(self).peer_listing(),
            final(self).protocol() == old(self).protocol(),
            final(self).local_peer() == old(self).local_peer(),
            final(self).role() == old(self).role(),
            match message {
                HandlerMessage::PropagateNumber(_) | HandlerMessage::BuildVoteStream => {
                    &&& a@.len() == 0
                    &&& final(self).votes() == old(self).votes()
                    &&& final(self).config() == old(self).config()
                },
                HandlerMessage::PropagateRandom(vote_num, parent_id) => {
                    &&& actions_view(a@) == writes_to(old(self).peer_listing(), false, encode_vote(VoteData { vote_num, sync_id: parent_id }))
                    &&& final(self).votes() == old(self).votes()
                    &&& final(self).config() == old(self).config()
                },
                HandlerMessage::SendVote(v) => {
                    &&& actions_view(a@) == writes_to(old(self).peer_listing(), true, encode_web(WebMessageView::VoteData(v)))
                    &&& final(self).votes() == if records_own_vote(old(self).role(), old(self).config(), v) {
                        old(self).votes().insert(v.vote_num, old(self).local_peer())
                    } else {
                        old(self).votes()
                    }
                    &&& final(self).config() == old(self).config()
                },
                HandlerMessage::PrepareVote(sync_number, duration) => {
                    &&& a@.len() == 0
                    &&& final(self).votes() == Map::<u64, Seq<u8>>::empty()
                    &&& final(self).config() == Some(VoteRecvConfig { sync_number, begin_time: now, open_duration: duration })
                },
                HandlerMessage::SendElectionResult => {
                    &&& actions_view(a@) == (if old(self).role() == Role::Authority {
                        seq![HandlerActionView::ReplyRank(first_index(voters(old(self).vote_listing()), old(self).local_peer()))]
                    } else {
                        Seq::empty()
                    }) + election_writes(
                        old(self).vote_listing(),
                        old(self).local_peer(),
                        encode_web(WebMessageView::ElectionData(election_list(old(self).vote_listing()))),
                    )
                    &&& final(self).votes() == old(self).votes()
                    &&& final(self).config() == old(self).config()
                },
            },
    {
        match message {
            HandlerMessage::PropagateNumber(_) => Vec::new(),
            HandlerMessage::PropagateRandom(vote_num, parent_id) => self.propagate_number(vote_num, parent_id),
            HandlerMessage::SendVote(v) => self.send_vote(v),
            HandlerMessage::SendElectionResult => self.send_election_result(),
            HandlerMessage::PrepareVote(sync_number, duration) => {
                self.prepare_vote(sync_number, duration, now);
                Vec::new()
            },
            HandlerMessage::BuildVoteStream => Vec::new(),
        }
    }


    /// Whether the election list of the round can be written: at most
    /// `u32::MAX` voters, each id at most `u32::MAX` bytes long.
    pub fn election_encodable(&self) -> (r: bool)
        requires
            self.wf(),
        ensures
            r == peer_votes_encodable(election_list(self.vote_listing())),
    {
        let entries = self.vote_map.entries();
        let ghost vl = self.vote_listing();
        if entries.len() > 0xffff_ffffusize {
            assert(election_list(vl).len() == entries@.len());
            return false;
        }
        let mut i: usize = 0;
        while i < entries.len()
            invariant
                i <= entries@.len(),
                vote_listing_view(entries@) == vl,
                vl == self.vote_listing(),
                forall|j: int| 0 <= j < i ==> (#[trigger] vl[j]).1.len() <= u32::MAX,
            decreases entries@.len() - i,
        {
            if entries[i].1.len() > 0xffff_ffffusize {
                assert(vl[i as int].1 == entries@[i as int].1@);
                assert(vl.len() == entries@.len());
                assert(election_list(vl).len() == vl.len());
                assert(election_list(vl)[i as int].0.len() > u32::MAX);
                assert(!peer_votes_encodable(election_list(vl)));
                return false;
            }
            assert(vl[i as int].1 == entries@[i as int].1@);
            i = i + 1;
        }
        assert forall|j: int| 0 <= j < election_list(vl).len() implies (#[trigger] election_list(vl)[j]).0.len() <= u32::MAX by {
            assert(election_list(vl)[j].0 == vl[j].1);
        }
        true
    }

    /// Opens a round for block `sync_number` at time `now`, for `duration`
    /// nanoseconds, forgetting the votes of the previous round.
    pub fn prepare_vote(&mut self, sync_number: u32, duration: u128, now: u128)
        requires
            old(self).wf(),
        ensures
            final(self).wf(),
            final(self).config() == Some(VoteRecvConfig { sync_number, begin_time: now, open_duration: duration }),
            final(self).votes() == Map::<u64, Seq<u8>>::empty(),
            final(self).vote_listing() == Seq::<(u64, Seq<u8>)>::empty(),
            final(self).peers() == old(self).peers(),
            final(self).peer_listing() == old(self).peer_listing(),
            final(self).protocol() == old(self).protocol(),
            final(self).local_peer() == old(self).local_peer(),
            final(self).role() == old(self).role(),
    {
        self.vote_recv_config = Some(VoteRecvConfig { sync_number, begin_time: now, open_duration: duration });
        self.vote_map.clear();
    }
}

/// A peer's vote is taken only while a round is open: a received vote
/// message on the handler's protocol records its vote number for the
/// sending peer exactly when a round is open, the vote arrived no earlier
/// than the round opened and within its duration, and it is for the round's
/// block; otherwise the votes stay as they were. Either way the vote is
/// forwarded.
pub proof fn lemma_received_vote_needs_open_round(
    votes: Map<u64, Seq<u8>>,
    cfg: Option<VoteRecvConfig>,
    name: Seq<char>,
    local: Seq<u8>,
    remote: Seq<u8>,
    v: VoteData,
    now: u128,
)
    ensures
        message_effect(votes, cfg, name, local, remote, name, encode_web(WebMessageView::VoteData(v)), now) == (
            if cfg matches Some(c) && c.begin_time <= now && now <= c.begin_time + c.open_duration && v.sync_id
                == c.sync_number {
                votes.insert(v.vote_num, remote)
            } else {
                votes
            },
            seq![HandlerActionView::ForwardVote(v)],
        ),
{
    crate::wire::lemma_web_roundtrip(WebMessageView::VoteData(v), Seq::empty());
    assert(encode_web(WebMessageView::VoteData(v)) + Seq::<u8>::empty() =~= encode_web(
        WebMessageView::VoteData(v),
    ));
}

/// Received notifications change the votes only while a round is open and
/// only by naming the sending peer: with no round open, or outside its time
/// window, the votes stay as they were; votes are never dropped; and every
/// vote number whose voter changed now names the remote peer.
pub proof fn lemma_votes_recorded_only_in_open_round(
    votes: Map<u64, Seq<u8>>,
    cfg: Option<VoteRecvConfig>,
    name: Seq<char>,
    local: Seq<u8>,
    remote: Seq<u8>,
    msgs: Seq<(Seq<char>, Seq<u8>)>,
    now: u128,
)
    ensures
        ({
            let after = messages_effect(votes, cfg, name, local, remote, msgs, now).0;
            &&& !(cfg matches Some(c) && c.begin_time <= now && now <= c.begin_time + c.open_duration) ==> after
                == votes
            &&& forall|k: u64| #[trigger] votes.contains_key(k) ==> after.contains_key(k)
            &&& forall|k: u64|
                #[trigger] after.contains_key(k) ==> (votes.contains_key(k) && after[k] == votes[k]) || after[k]
                    == remote
        }),
    decreases msgs.len(),
{
    if msgs.len() > 0 {
        lemma_votes_recorded_only_in_open_round(votes, cfg, name, local, remote, msgs.drop_last(), now);
        let v1 = messages_effect(votes, cfg, name, local, remote, msgs.drop_last(), now).0;
        let last = msgs.last();
        let v2 = message_effect(v1, cfg, name, local, remote, last.0, last.1, now).0;
        assert(v2 == messages_effect(votes, cfg, name, local, remote, msgs, now).0);
        if last.0 == name {
            match parse_web(last.1) {
                Some(WebMessageView::VoteData(v)) => {
                    if vote_accepted(cfg, v, now) {
                        assert(v2 == v1.insert(v.vote_num, remote));
                    } else {
                        assert(v2 == v1);
                    }
                },
                _ => {
                    assert(v2 == v1);
                },
            }
        } else {
            assert(v2 == v1);
        }
    }
}

/// The node records its own vote only as an authority with a round open for
/// the vote's block.
pub proof fn lemma_own_vote_needs_open_round(role: Role, cfg: Option<VoteRecvConfig>, v: VoteData)
    ensures
        records_own_vote(role, cfg, v) <==> (role == Role::Authority && (cfg matches Some(c) && c.sync_number
            == v.sync_id)),
{
}

/// A broadcast reaches exactly the peers that take it, each with the
/// message: votes (`authorities_only`) go to authorities only, other
/// messages to every peer but light clients.
pub proof fn lemma_broadcast_targets(peers: Seq<(Vec<u8>, ObservedRole)>, authorities_only: bool, msg: Seq<u8>)
    ensures
        ({
            let w = writes_to(peers, authorities_only, msg);
            let takes = |r: ObservedRole| if authorities_only {
                r == ObservedRole::Authority
            } else {
                r != ObservedRole::Light
            };
            &&& forall|j: int|
                #![trigger w[j]]
                0 <= j < w.len() ==> exists|i: int|
                    0 <= i < peers.len() && takes(peers[i].1) && w[j] == HandlerActionView::WriteNotification(
                        #[trigger] peers[i].0@,
                        msg,
                    )
            &&& forall|i: int|
                0 <= i < peers.len() && takes(peers[i].1) ==> w.contains(
                    HandlerActionView::WriteNotification(#[trigger] peers[i].0@, msg),
                )
        }),
    decreases peers.len(),
{
    if peers.len() > 0 {
        let t = peers.drop_last();
        lemma_broadcast_targets(t, authorities_only, msg);
        let w0 = writes_to(t, authorities_only, msg);
        let w = writes_to(peers, authorities_only, msg);
        let takes = |r: ObservedRole| if authorities_only {
            r == ObservedRole::Authority
        } else {
            r != ObservedRole::Light
        };
        let n = peers.len() - 1;
        assert forall|j: int| #![trigger w[j]] 0 <= j < w.len() implies exists|i: int|
            0 <= i < peers.len() && takes(peers[i].1) && w[j] == HandlerActionView::WriteNotification(
                #[trigger] peers[i].0@,
                msg,
            ) by {
            if j < w0.len() {
                assert(w[j] == w0[j]);
                let i = choose|i: int|
                    0 <= i < t.len() && takes(t[i].1) && w0[j] == HandlerActionView::WriteNotification(
                        #[trigger] t[i].0@,
                        msg,
                    );
                assert(peers[i] == t[i]);
            } else {
                assert(w[j] == HandlerActionView::WriteNotification(peers[n].0@, msg));
            }
        }
        assert forall|i: int| 0 <= i < peers.len() && takes(peers[i].1) implies w.contains(
            HandlerActionView::WriteNotification(#[trigger] peers[i].0@, msg),
        ) by {
            if i < n {
                assert(peers[i] == t[i]);
                assert(w0.contains(HandlerActionView::WriteNotification(t[i].0@, msg)));
                let j = choose|j: int| 0 <= j < w0.len() && w0[j] == HandlerActionView::WriteNotification(t[i].0@, msg);
                assert(w[j] == w0[j]);
            } else {
                assert(w[w0.len() as int] == HandlerActionView::WriteNotification(peers[n].0@, msg));
            }
        }
    }
}

/// The election list goes to every voter of the listing but the local node,
/// and to nobody else.
pub proof fn lemma_election_targets(listing: Seq<(u64, Seq<u8>)>, local: Seq<u8>, msg: Seq<u8>)
    ensures
        ({
            let w = election_writes(listing, local, msg);
            &&& forall|j: int|
                #![trigger w[j]]
                0 <= j < w.len() ==> exists|i: int|
                    0 <= i < listing.len() && #[trigger] listing[i].1 != local && w[j]
                        == HandlerActionView::WriteNotification(listing[i].1, msg)
            &&& forall|i: int|
                0 <= i < listing.len() && #[trigger] listing[i].1 != local ==> w.contains(
                    HandlerActionView::WriteNotification(listing[i].1, msg),
                )
        }),
    decreases listing.len(),
{
    if listing.len() > 0 {
        let t = listing.drop_last();
        lemma_election_targets(t, local, msg);
        let w0 = election_writes(t, local, msg);
        let w = election_writes(listing, local, msg);
        let n = listing.len() - 1;
        assert forall|j: int| #![trigger w[j]] 0 <= j < w.len() implies exists|i: int|
            0 <= i < listing.len() && #[trigger] listing[i].1 != local && w[j]
                == HandlerActionView::WriteNotification(listing[i].1, msg) by {
            if j < w0.len() {
                assert(w[j] == w0[j]);
                let i = choose|i: int|
                    0 <= i < t.len() && #[trigger] t[i].1 != local && w0[j]
                        == HandlerActionView::WriteNotification(t[i].1, msg);
                assert(listing[i] == t[i]);
            } else {
                assert(w[j] == HandlerActionView::WriteNotification(listing[n].1, msg));
            }
        }
        assert forall|i: int| 0 <= i < listing.len() && #[trigger] listing[i].1 != local implies w.contains(
            HandlerActionView::WriteNotification(listing[i].1, msg),
        ) by {
            if i < n {
                assert(listing[i] == t[i]);
                assert(t[i].1 != local);
                let j = choose|j: int| 0 <= j < w0.len() && w0[j] == HandlerActionView::WriteNotification(t[i].1, msg);
                assert(w[j] == w0[j]);
            } else {
                assert(w[w0.len() as int] == HandlerActionView::WriteNotification(listing[n].1, msg));
            }
        }
    }
}

} // verus!
