//! The client side of the relay protocol, over one UDP socket.
//!
//! Every two seconds we send:    REGISTER <our id> <our name>
//! The relay answers with:       REGISTERED <our public address>
//! followed by a hello packet for each other named person (see `presence`).
//!
//! To chat we send:              RELAY <person id> <token> CHAT <text>
//! The relay forwards it as:     FROM <sender id> <token> CHAT <text>
//! The receiving app answers:    RELAY <sender id> <token> RECEIPT
//! which arrives back as:        FROM <person id> <token> RECEIPT
//!
//! UDP can lose packets, so a message is resent until its receipt arrives or we give
//! up. The token lets both sides recognise repeats of the same message.
//!
//! The socket itself belongs to the caller: these functions take what arrived and
//! return the packets to send, in order.
use vstd::prelude::*;
use vstd::utf8::{decode_utf8, encode_utf8, valid_utf8};

use crate::presence::{
    elapsed, is_valid_name, mark_missing_people_offline, offline_marked, presence_applied,
    receive_presence, valid_name_spec,
};
use crate::search::{any_of, first_of, lemma_found_first};
use crate::state::{
    deliveries_marked, has_person, ids_distinct, lemma_marked_none, lemma_marked_step,
    lemma_person_index, named_by_any, names_message, person_index, same_except_people, same_ids,
    App, Delivery, Message, OutgoingMessage, Person, MAX_MESSAGE_CHARACTERS, MAX_PENDING_MESSAGES,
};
use crate::text::{
    chars_eq, chars_of, decimal_spec, has_control, hex_chars, hex_spec, is_control,
    is_control_spec, is_whitespace_spec, push_decimal, push_str, same_text, splitn_chars,
    splitn_spec, starts_with_chars, text_of, utf8_len_within,
};

verus! {

broadcast use vstd::string::group_string_axioms;

/// The public relay that the app registers with.
pub const DEFAULT_SERVER: &'static str = "32.189.170.75:47002";

/// How often we register again (milliseconds).
pub const REGISTER_EVERY: u64 = 2000;

/// The relay counts as unavailable when it has not answered for this long (milliseconds).
pub const RELAY_SILENT_AFTER: u64 = 8000;

/// How often an unconfirmed message is sent again (milliseconds).
pub const RESEND_EVERY: u64 = 500;

/// A message without a receipt after this long is shown as unconfirmed (milliseconds).
pub const GIVE_UP_AFTER: u64 = 10000;

/// How long a received message is remembered to recognise repeats (milliseconds).
pub const REMEMBER_RECEIVED_FOR: u64 = 60000;

/// The most packets read from the socket in one update.
pub const MAX_PACKETS_PER_UPDATE: usize = 256;

/// The most received messages remembered at once.
pub const MAX_REMEMBERED_MESSAGES: usize = 4096;

/// The longest message token, in UTF-8 bytes.
pub const MAX_TOKEN_BYTES: usize = 64;

/// The number of random bytes in an ID.
pub const RANDOM_ID_BYTES: usize = 12;

/// The size of the receive buffer; a packet that fills it may have been cut short.
pub const RECEIVE_BUFFER_BYTES: usize = 4096;

/// A message we sent that has not been confirmed yet.
pub struct PendingMessage {
    pub outgoing: OutgoingMessage,
    pub token: String,
    pub first_sent: u64,
    pub next_send: u64,
}

/// A message we already displayed, so a resend of it is not shown twice.
pub struct ReceivedMessage {
    pub sender_id: String,
    pub token: String,
    pub received_at: u64,
}

/// One packet that the socket delivered: whether it came from the relay we registered
/// with, and its bytes.
pub struct Datagram {
    pub from_server: bool,
    pub bytes: Vec<u8>,
}

/// Our side of the relay protocol.
pub struct Network {
    pub id: String,
    pub name: String,
    pub next_register: u64,
    pub last_server_reply: Option<u64>,
    pub next_token_number: u64,
    pub pending: Vec<PendingMessage>,
    pub received: Vec<ReceivedMessage>,
}

/// Why `Network::connect` failed.
#[derive(Debug, PartialEq, Eq)]
pub enum ConnectError {
    /// The system's random number source failed, with its description.
    Random(String),
    /// The display name is blank, too long or holds control characters.
    InvalidName,
}

/// `REGISTER <id> <name>`
pub open spec fn register_packet(id: Seq<char>, name: Seq<char>) -> Seq<char> {
    "REGISTER "@ + id + " "@ + name
}

/// `GOODBYE <id>`
pub open spec fn goodbye_packet(id: Seq<char>) -> Seq<char> {
    "GOODBYE "@ + id
}

/// `RELAY <person id> <token> CHAT <text>`
pub open spec fn chat_packet(person_id: Seq<char>, token: Seq<char>, text: Seq<char>) -> Seq<char> {
    "RELAY "@ + person_id + " "@ + token + " CHAT "@ + text
}

/// `RELAY <sender id> <token> RECEIPT`
pub open spec fn receipt_packet(sender_id: Seq<char>, token: Seq<char>) -> Seq<char> {
    "RELAY "@ + sender_id + " "@ + token + " RECEIPT"@
}

/// The token of our `number`th message: `<our id>-<number>`.
pub open spec fn token_text(id: Seq<char>, number: nat) -> Seq<char> {
    id + "-"@ + decimal_spec(number)
}

/// The texts of a list of packets.
pub open spec fn texts(packets: Seq<String>) -> Seq<Seq<char>> {
    packets.map_values(|p: String| p@)
}

/// Update the delivery label on the message the user sent.
pub fn mark_delivery(app: &mut App, outgoing: &OutgoingMessage, delivery: Delivery)
    ensures
        same_except_people(*final(app), *old(app)),
        deliveries_marked(old(app).people@, final(app).people@, seq![*outgoing], delivery),
{
    let ghost os = seq![*outgoing];
    let index = match app.find_person_index(outgoing.person_id.as_str()) {
        Some(index) => index,
        None => {
            assert forall|j: int, k: int| !#[trigger] named_by_any(old(app).people@, os, j, k) by {
                if named_by_any(old(app).people@, os, j, k) {
                    let t = choose|t: int| 0 <= t < os.len() && names_message(old(app).people@, #[trigger] os[t], j, k);
                    assert(os[t] == *outgoing);
                }
            }
            return;
        },
    };
    if outgoing.message_index < app.people[index].messages.len() {
        app.people[index].messages[outgoing.message_index].delivery = Some(delivery);
    }
    proof {
        let ghost a = old(app).people@;
        let ghost b = app.people@;
        assert forall|j: int, k: int|
            0 <= j < a.len() && 0 <= k < a[j].messages@.len() implies named_by_any(a, os, j, k)
            == (j == index && k == outgoing.message_index) by {
            if named_by_any(a, os, j, k) {
                let t = choose|t: int| 0 <= t < os.len() && names_message(a, #[trigger] os[t], j, k);
                assert(os[t] == *outgoing);
            }
            if j == index && k == outgoing.message_index {
                assert(names_message(a, os[0], j, k));
            }
        }
        assert forall|j: int| 0 <= j < a.len() implies (#[trigger] b[j]).id == a[j].id by {}
    }
}

/// A received message matching this sender and token.
pub open spec fn same_message(sender_id: Seq<char>, token: Seq<char>) -> spec_fn(ReceivedMessage) -> bool {
    |r: ReceivedMessage| r.sender_id@ == sender_id && r.token@ == token
}

/// A pending message to this person with this token.
pub open spec fn awaiting(person_id: Seq<char>, token: Seq<char>) -> spec_fn(PendingMessage) -> bool {
    |m: PendingMessage| m.outgoing.person_id@ == person_id && m.token@ == token
}

/// A chat text we accept: one to `MAX_MESSAGE_CHARACTERS` characters, no control characters.
pub open spec fn valid_chat_text(text: Seq<char>) -> bool {
    &&& text.len() > 0
    &&& text.len() <= MAX_MESSAGE_CHARACTERS
    &&& !has_control(text)
}

/// The status line for the relay connection at `now`.
pub open spec fn status_text(last_server_reply: Option<u64>, now: u64) -> Seq<char> {
    match last_server_reply {
        Some(t) => if elapsed(now, t) < RELAY_SILENT_AFTER {
            "Relay connected"@
        } else {
            "Relay unavailable \u{b7} retrying"@
        },
        None => "Relay unavailable \u{b7} retrying"@,
    }
}

/// The two networks differ at most in the fields that the caller lists as changed:
/// each flag says whether that field must stay the same.
pub open spec fn network_kept(
    a: Network,
    b: Network,
    register: bool,
    reply: bool,
    token: bool,
    pending: bool,
    received: bool,
) -> bool {
    &&& a.id == b.id
    &&& a.name == b.name
    &&& register ==> a.next_register == b.next_register
    &&& reply ==> a.last_server_reply == b.last_server_reply
    &&& token ==> a.next_token_number == b.next_token_number
    &&& pending ==> a.pending@ == b.pending@
    &&& received ==> a.received@ == b.received@
}

/// The effect of a receipt for `token` from `sender_id`: the first matching pending
/// message is confirmed and marked delivered; otherwise nothing changes.
pub open spec fn receipt_outcome(
    old_net: Network,
    new_net: Network,
    old_app: App,
    new_app: App,
    sender_id: Seq<char>,
    token: Seq<char>,
) -> bool {
    &&& network_kept(old_net, new_net, true, true, true, false, true)
    &&& same_except_people(new_app, old_app)
    &&& if any_of(old_net.pending@, awaiting(sender_id, token)) {
        let k = first_of(old_net.pending@, awaiting(sender_id, token));
        &&& new_net.pending@ == old_net.pending@.remove(k)
        &&& deliveries_marked(
            old_app.people@,
            new_app.people@,
            seq![old_net.pending@[k].outgoing],
            Delivery::Delivered,
        )
    } else {
        &&& new_net.pending@ == old_net.pending@
        &&& new_app.people@ == old_app.people@
    }
}

/// The effect of a chat message `text` with `token` from `sender_id` at `now`.
/// Valid text from a listed person is shown once per token and always answered with a
/// receipt, unless the memory of received messages is full and the token is new.
pub open spec fn chat_outcome(
    old_net: Network,
    new_net: Network,
    old_app: App,
    new_app: App,
    old_out: Seq<Seq<char>>,
    new_out: Seq<Seq<char>>,
    sender_id: Seq<char>,
    token: Seq<char>,
    text: Seq<char>,
    now: u64,
) -> bool {
    &&& network_kept(old_net, new_net, true, true, true, true, false)
    &&& same_except_people(new_app, old_app)
    &&& if !valid_chat_text(text) || !has_person(old_app.people@, sender_id) {
        new_app.people@ == old_app.people@ && new_net.received@ == old_net.received@ && new_out
            == old_out
    } else if any_of(old_net.received@, same_message(sender_id, token)) {
        &&& new_app.people@ == old_app.people@
        &&& new_net.received@ == old_net.received@
        &&& new_out == old_out.push(receipt_packet(sender_id, token))
    } else if old_net.received@.len() >= MAX_REMEMBERED_MESSAGES {
        new_app.people@ == old_app.people@ && new_net.received@ == old_net.received@ && new_out
            == old_out
    } else {
        let i = person_index(old_app.people@, sender_id);
        let p = old_app.people@[i];
        let q = new_app.people@[i];
        &&& new_app.people@.len() == old_app.people@.len()
        &&& forall|j: int| 0 <= j < old_app.people@.len() && j != i ==> new_app.people@[j] == old_app.people@[j]
        &&& q.id == p.id && q.name == p.name && q.online == p.online
        &&& q.last_seen == p.last_seen && q.draft == p.draft
        &&& q.messages@.len() == p.messages@.len() + 1
        &&& q.messages@.take(p.messages@.len() as int) == p.messages@
        &&& !q.messages@.last().from_me
        &&& q.messages@.last().text@ == text
        &&& q.messages@.last().delivery is None
        &&& new_net.received@.len() == old_net.received@.len() + 1
        &&& new_net.received@.take(old_net.received@.len() as int) == old_net.received@
        &&& new_net.received@.last().sender_id@ == sender_id
        &&& new_net.received@.last().token@ == token
        &&& new_net.received@.last().received_at == now
        &&& new_out == old_out.push(receipt_packet(sender_id, token))
    }
}

/// The fields of a relayed packet: `FROM <sender id> <token> <kind> [<body>]`,
/// or `None` when the packet is not of that shape or its token is empty or too long.
pub open spec fn from_parts(text: Seq<char>) -> Option<(Seq<char>, Seq<char>, Seq<char>, Seq<char>)> {
    let w = splitn_spec(text, 5, ' ');
    if w.len() < 4 || w[0] != "FROM"@ || w[2].len() == 0 || encode_utf8(w[2]).len()
        > MAX_TOKEN_BYTES {
        None
    } else {
        Some((w[1], w[2], w[3], if w.len() == 5 { w[4] } else { Seq::<char>::empty() }))
    }
}

/// The effect of one packet `text` from the relay at `now`.
pub open spec fn packet_outcome(
    old_net: Network,
    new_net: Network,
    old_app: App,
    new_app: App,
    old_out: Seq<Seq<char>>,
    new_out: Seq<Seq<char>>,
    text: Seq<char>,
    now: u64,
) -> bool {
    if "REGISTERED "@.is_prefix_of(text) {
        &&& network_kept(old_net, new_net, true, false, true, true, true)
        &&& new_net.last_server_reply == Some(now)
        &&& new_app == old_app
        &&& new_out == old_out
    } else if "bit-to-byte/1\n"@.is_prefix_of(text) {
        &&& new_net == old_net
        &&& presence_applied(old_app, new_app, text, old_net.id@, now)
        &&& new_out == old_out
    } else {
        match from_parts(text) {
            None => new_net == old_net && new_app == old_app && new_out == old_out,
            Some((sender_id, token, kind, body)) => if kind == "RECEIPT"@ && body.len() == 0 {
                receipt_outcome(old_net, new_net, old_app, new_app, sender_id, token)
                    && new_out == old_out
            } else if kind == "CHAT"@ {
                chat_outcome(
                    old_net,
                    new_net,
                    old_app,
                    new_app,
                    old_out,
                    new_out,
                    sender_id,
                    token,
                    body,
                    now,
                )
            } else {
                new_net == old_net && new_app == old_app && new_out == old_out
            },
        }
    }
}

/// Changing only what `deliveries_marked` allows keeps the IDs distinct.
proof fn lemma_marked_keeps_ids(a: Seq<Person>, b: Seq<Person>)
    requires
        same_ids(a, b),
    ensures
        ids_distinct(a) ==> ids_distinct(b),
{
    assert forall|i: int, j: int|
        ids_distinct(a) && 0 <= i < b.len() && 0 <= j < b.len() && i != j implies (#[trigger] b[i]).id@
        != (#[trigger] b[j]).id@ by {
        assert(a[i].id == b[i].id);
        assert(a[j].id == b[j].id);
    }
}

/// Adding a message to one person keeps the IDs distinct.
proof fn lemma_chat_keeps_ids(a: Seq<Person>, b: Seq<Person>, sender_id: Seq<char>)
    requires
        a.len() == b.len(),
        forall|j: int| 0 <= j < a.len() ==> (#[trigger] b[j]).id == a[j].id,
    ensures
        ids_distinct(a) ==> ids_distinct(b),
{
    assert(same_ids(a, b));
    lemma_marked_keeps_ids(a, b);
}

/// How many of `queued` messages fit beside `pending_len` pending ones.
pub open spec fn admitted_count(pending_len: nat, queued: nat) -> nat {
    if pending_len >= MAX_PENDING_MESSAGES {
        0
    } else if queued <= MAX_PENDING_MESSAGES - pending_len {
        queued
    } else {
        (MAX_PENDING_MESSAGES - pending_len) as nat
    }
}

/// The two apps differ only in their people lists and outboxes.
pub open spec fn same_except_people_and_outbox(a: App, b: App) -> bool {
    &&& a.name == b.name
    &&& a.network_status == b.network_status
    &&& a.running == b.running
    &&& a.typing == b.typing
    &&& a.view == b.view
    &&& a.selected_person == b.selected_person
    &&& a.announcements@ == b.announcements@
}

/// The effect of moving the app's outbox into the pending list at `now`: messages are
/// admitted in order while fewer than `MAX_PENDING_MESSAGES` are pending, each with the
/// next token; the rest are marked unconfirmed. The outbox ends empty.
pub open spec fn queue_outcome(
    old_net: Network,
    new_net: Network,
    old_app: App,
    new_app: App,
    now: u64,
) -> bool {
    let q = old_app.outbox@;
    let n = old_net.pending@.len();
    let a = admitted_count(n, q.len());
    &&& network_kept(old_net, new_net, true, true, false, false, true)
    &&& new_net.next_token_number == old_net.next_token_number + a
    &&& new_net.pending@.len() == n + a
    &&& new_net.pending@.take(n as int) == old_net.pending@
    &&& forall|k: int|
        0 <= k < a ==> {
            &&& (#[trigger] new_net.pending@[n + k]).outgoing == q[k]
            &&& new_net.pending@[n + k].token@ == token_text(
                old_net.id@,
                (old_net.next_token_number + k + 1) as nat,
            )
            &&& new_net.pending@[n + k].first_sent == now
            &&& new_net.pending@[n + k].next_send == now
        }
    &&& new_app.outbox@.len() == 0
    &&& same_except_people_and_outbox(new_app, old_app)
    &&& deliveries_marked(old_app.people@, new_app.people@, q.skip(a as int), Delivery::Unconfirmed)
}

proof fn lemma_admitted_step(n: nat, t: nat)
    ensures
        admitted_count(n, t) <= t,
        admitted_count(n, t + 1) == if n + admitted_count(n, t) >= MAX_PENDING_MESSAGES {
            admitted_count(n, t)
        } else {
            admitted_count(n, t) + 1
        },
        n + admitted_count(n, t) <= MAX_PENDING_MESSAGES || admitted_count(n, t) == 0,
{
}

/// A pending message sent less than `GIVE_UP_AFTER` ago.
pub open spec fn still_waiting(m: PendingMessage, now: u64) -> bool {
    elapsed(now, m.first_sent) < GIVE_UP_AFTER
}

/// A pending message after the resend check at `now`: when its send time has come,
/// it is sent and the next send is `RESEND_EVERY` later.
pub open spec fn after_resend(m: PendingMessage, now: u64) -> PendingMessage {
    if now >= m.next_send {
        PendingMessage { next_send: (now + RESEND_EVERY) as u64, ..m }
    } else {
        m
    }
}

/// The pending messages still waiting at `now`, in order, after the resend check.
pub open spec fn kept_pending(p: Seq<PendingMessage>, now: u64) -> Seq<PendingMessage>
    decreases p.len(),
{
    if p.len() == 0 {
        p
    } else {
        let rest = kept_pending(p.drop_last(), now);
        if still_waiting(p.last(), now) {
            rest.push(after_resend(p.last(), now))
        } else {
            rest
        }
    }
}

/// The outgoing messages given up at `now`, in order.
pub open spec fn given_up(p: Seq<PendingMessage>, now: u64) -> Seq<OutgoingMessage>
    decreases p.len(),
{
    if p.len() == 0 {
        Seq::<OutgoingMessage>::empty()
    } else {
        let rest = given_up(p.drop_last(), now);
        if still_waiting(p.last(), now) {
            rest
        } else {
            rest.push(p.last().outgoing)
        }
    }
}

/// The chat packets sent again at `now`, in order.
pub open spec fn resent(p: Seq<PendingMessage>, now: u64) -> Seq<Seq<char>>
    decreases p.len(),
{
    if p.len() == 0 {
        Seq::<Seq<char>>::empty()
    } else {
        let rest = resent(p.drop_last(), now);
        let m = p.last();
        if still_waiting(m, now) && now >= m.next_send {
            rest.push(chat_packet(m.outgoing.person_id@, m.token@, m.outgoing.text@))
        } else {
            rest
        }
    }
}

/// The effect of the resend check at `now`: messages waiting for `GIVE_UP_AFTER` are
/// dropped and marked unconfirmed; the others are sent again when due.
pub open spec fn resend_outcome(
    old_net: Network,
    new_net: Network,
    old_app: App,
    new_app: App,
    old_out: Seq<Seq<char>>,
    new_out: Seq<Seq<char>>,
    now: u64,
) -> bool {
    &&& network_kept(old_net, new_net, true, true, true, false, true)
    &&& new_net.pending@ == kept_pending(old_net.pending@, now)
    &&& new_out == old_out + resent(old_net.pending@, now)
    &&& same_except_people(new_app, old_app)
    &&& deliveries_marked(
        old_app.people@,
        new_app.people@,
        given_up(old_net.pending@, now),
        Delivery::Unconfirmed,
    )
}

/// The received messages remembered for less than `REMEMBER_RECEIVED_FOR` at `now`.
pub open spec fn remembered(r: Seq<ReceivedMessage>, now: u64) -> Seq<ReceivedMessage>
    decreases r.len(),
{
    if r.len() == 0 {
        r
    } else {
        let rest = remembered(r.drop_last(), now);
        if elapsed(now, r.last().received_at) < REMEMBER_RECEIVED_FOR {
            rest.push(r.last())
        } else {
            rest
        }
    }
}

/// The effect of one datagram: only a packet from our relay that did not fill the
/// receive buffer and is valid UTF-8 is acted on.
pub open spec fn datagram_outcome(
    old_net: Network,
    new_net: Network,
    old_app: App,
    new_app: App,
    old_out: Seq<Seq<char>>,
    new_out: Seq<Seq<char>>,
    datagram: Datagram,
    now: u64,
) -> bool {
    if !datagram.from_server || datagram.bytes@.len() >= RECEIVE_BUFFER_BYTES || !valid_utf8(
        datagram.bytes@,
    ) {
        new_net == old_net && new_app == old_app && new_out == old_out
    } else {
        packet_outcome(
            old_net,
            new_net,
            old_app,
            new_app,
            old_out,
            new_out,
            decode_utf8(datagram.bytes@),
            now,
        )
    }
}

/// The states that acting on each datagram in turn passes through: `states[0]` is the
/// state before the first datagram and `states[i + 1]` the state after datagram `i`.
pub open spec fn datagram_trace(
    states: Seq<(Network, App, Seq<Seq<char>>)>,
    datagrams: Seq<Datagram>,
    now: u64,
) -> bool {
    &&& states.len() == datagrams.len() + 1
    &&& forall|i: int|
        0 <= i < datagrams.len() ==> datagram_outcome(
            (#[trigger] states[i]).0,
            states[i + 1].0,
            states[i].1,
            states[i + 1].1,
            states[i].2,
            states[i + 1].2,
            datagrams[i],
            now,
        )
}

/// The datagrams one update acts on: the first `MAX_PACKETS_PER_UPDATE` of those waiting.
pub open spec fn update_batch(datagrams: Seq<Datagram>) -> Seq<Datagram> {
    if datagrams.len() <= MAX_PACKETS_PER_UPDATE {
        datagrams
    } else {
        datagrams.take(MAX_PACKETS_PER_UPDATE as int)
    }
}

/// The effect of the datagrams, one after another, in order.
pub open spec fn datagrams_outcome(
    old_net: Network,
    new_net: Network,
    old_app: App,
    new_app: App,
    old_out: Seq<Seq<char>>,
    new_out: Seq<Seq<char>>,
    datagrams: Seq<Datagram>,
    now: u64,
) -> bool {
    exists|states: Seq<(Network, App, Seq<Seq<char>>)>|
        #[trigger] datagram_trace(states, datagrams, now) && states[0] == (old_net, old_app, old_out)
            && states.last() == (new_net, new_app, new_out)
}

/// `new` is `old` with the relay status shown for `last_server_reply` at `now`.
pub open spec fn status_shown(old: App, new: App, last_server_reply: Option<u64>, now: u64) -> bool {
    &&& new.network_status@ == status_text(last_server_reply, now)
    &&& new.people@ == old.people@
    &&& new.outbox@ == old.outbox@
    &&& new.name == old.name
    &&& new.running == old.running
    &&& new.typing == old.typing
    &&& new.view == old.view
    &&& new.selected_person == old.selected_person
    &&& new.announcements@ == old.announcements@
}

/// The registration step at `now`: the packet is sent when due.
pub open spec fn register_step(old: Network, new: Network, out: Seq<Seq<char>>, now: u64) -> bool {
    if now < old.next_register {
        new == old && out == Seq::<Seq<char>>::empty()
    } else {
        &&& out == seq![register_packet(old.id@, old.name@)]
        &&& new.next_register == now + REGISTER_EVERY
        &&& network_kept(old, new, false, true, true, true, true)
    }
}

/// The steps of one update, through the given intermediate states.
pub open spec fn update_chain(
    net0: Network,
    app0: App,
    datagrams: Seq<Datagram>,
    now: u64,
    net_end: Network,
    app_end: App,
    out_end: Seq<Seq<char>>,
    net1: Network,
    out1: Seq<Seq<char>>,
    net2: Network,
    app2: App,
    out2: Seq<Seq<char>>,
    app3: App,
    app4: App,
    net5: Network,
    app5: App,
    net6: Network,
) -> bool {
    &&& register_step(net0, net1, out1, now)
    &&& datagrams_outcome(net1, net2, app0, app2, out1, out2, update_batch(datagrams), now)
    &&& status_shown(app2, app3, net2.last_server_reply, now)
    &&& offline_marked(app3, app4, now)
    &&& queue_outcome(net2, net5, app4, app5, now)
    &&& resend_outcome(net5, net6, app5, app_end, out2, out_end, now)
    &&& network_kept(net6, net_end, true, true, true, true, false)
    &&& net_end.received@ == remembered(net6.received@, now)
}

/// The effect of one update at `now` with the datagrams that arrived: register when due,
/// act on the datagrams, show the relay status, mark missing people offline, queue the
/// outbox, resend or give up pending messages, and forget old received messages.
pub open spec fn update_outcome(
    net0: Network,
    app0: App,
    datagrams: Seq<Datagram>,
    now: u64,
    net_end: Network,
    app_end: App,
    out_end: Seq<Seq<char>>,
) -> bool {
    exists|
        net1: Network,
        out1: Seq<Seq<char>>,
        net2: Network,
        app2: App,
        out2: Seq<Seq<char>>,
        app3: App,
        app4: App,
        net5: Network,
        app5: App,
        net6: Network,
    |
        #[trigger] update_chain(
            net0,
            app0,
            datagrams,
            now,
            net_end,
            app_end,
            out_end,
            net1,
            out1,
            net2,
            app2,
            out2,
            app3,
            app4,
            net5,
            app5,
            net6,
        )
}

/// Acting on datagrams keeps the outbox and the token counter.
proof fn lemma_datagrams_keep_outbox(
    n0: Network,
    n1: Network,
    a0: App,
    a1: App,
    o0: Seq<Seq<char>>,
    o1: Seq<Seq<char>>,
    ds: Seq<Datagram>,
    now: u64,
)
    requires
        datagrams_outcome(n0, n1, a0, a1, o0, o1, ds, now),
    ensures
        a1.outbox@ == a0.outbox@,
        n1.next_token_number == n0.next_token_number,
{
    let states = choose|states: Seq<(Network, App, Seq<Seq<char>>)>|
        #[trigger] datagram_trace(states, ds, now) && states[0] == (n0, a0, o0) && states.last()
            == (n1, a1, o1);
    lemma_trace_keeps_outbox(states, ds, now, ds.len() as int);
}

proof fn lemma_trace_keeps_outbox(
    states: Seq<(Network, App, Seq<Seq<char>>)>,
    ds: Seq<Datagram>,
    now: u64,
    i: int,
)
    requires
        datagram_trace(states, ds, now),
        0 <= i <= ds.len(),
    ensures
        states[i].1.outbox@ == states[0].1.outbox@,
        states[i].0.next_token_number == states[0].0.next_token_number,
    decreases i,
{
    if i > 0 {
        lemma_trace_keeps_outbox(states, ds, now, i - 1);
        assert(datagram_outcome(
            states[i - 1].0,
            states[i].0,
            states[i - 1].1,
            states[i].1,
            states[i - 1].2,
            states[i].2,
            ds[i - 1],
            now,
        ));
    }
}

/// The error type of the `getrandom` crate.
#[verifier::external_type_specification]
#[verifier::external_body]
pub struct ExRandomError(getrandom::Error);

/// Twelve bytes from the system's random number source (`getrandom::fill`).
/// Nothing is claimed about the bytes or about when the source fails.
#[verifier::external_body]
fn fill_random() -> (bytes: Result<[u8; 12], getrandom::Error>) {
    let mut bytes = [0u8; 12];
    match getrandom::fill(&mut bytes) {
        Ok(()) => Ok(bytes),
        Err(error) => Err(error),
    }
}

/// The description of a random-source failure (the `Display` text of `getrandom::Error`).
/// Nothing is claimed about the text.
#[verifier::external_body]
fn random_error_text(error: &getrandom::Error) -> (text: String) {
    error.to_string()
}

/// A fresh ID for this run: twelve random bytes written as 24 hexadecimal characters.
pub fn random_id() -> (id: Result<String, String>)
    ensures
        id matches Ok(text) ==> exists|bytes: Seq<u8>|
            bytes.len() == RANDOM_ID_BYTES && text@ == #[trigger] hex_spec(bytes),
{
    match fill_random() {
        Ok(bytes) => {
            let id = id_text(&bytes);
            Ok(id)
        },
        Err(error) => Err(random_error_text(&error)),
    }
}

/// The ID for these random bytes: lowercase hexadecimal, two digits per byte.
pub fn id_text(bytes: &[u8; 12]) -> (id: String)
    ensures
        id@ == hex_spec(bytes@),
        id@.len() == 24,
{
    let digits = hex_chars(bytes.as_slice());
    text_of(&digits)
}

/// The name used when none was chosen: `Member ` and the first six characters of the ID.
pub open spec fn default_name(id: Seq<char>) -> Seq<char> {
    "Member "@ + id.take(6)
}

/// The name a network with this ID and chosen name uses.
pub open spec fn network_name(chosen_name: Option<String>, id: Seq<char>) -> Seq<char> {
    match chosen_name {
        Some(name) => name@,
        None => default_name(id),
    }
}

/// A freshly connected network: our ID and name, registration due at once,
/// no relay answer yet, no messages pending or remembered.
pub open spec fn fresh_network(n: Network, id: Seq<char>, name: Seq<char>, now: u64) -> bool {
    &&& n.id@ == id
    &&& n.name@ == name
    &&& n.next_register == now
    &&& n.last_server_reply is None
    &&& n.next_token_number == 0
    &&& n.pending@.len() == 0
    &&& n.received@.len() == 0
}

proof fn lemma_hex_len(bytes: Seq<u8>)
    ensures
        hex_spec(bytes).len() == 2 * bytes.len(),
    decreases bytes.len(),
{
    if bytes.len() > 0 {
        lemma_hex_len(bytes.drop_last());
    }
}

proof fn lemma_hex_chars_plain(bytes: Seq<u8>)
    ensures
        forall|i: int|
            0 <= i < hex_spec(bytes).len() ==> {
                let u = (#[trigger] hex_spec(bytes)[i]) as u32;
                (48 <= u && u <= 57) || (97 <= u && u <= 102)
            },
    decreases bytes.len(),
{
    lemma_hex_len(bytes);
    if bytes.len() > 0 {
        lemma_hex_chars_plain(bytes.drop_last());
        lemma_hex_len(bytes.drop_last());
        let b = bytes.last();
        assert((b / 16) < 16 && (b % 16) < 16);
    }
}

/// The default name for a hexadecimal ID is a valid display name.
proof fn lemma_default_name_valid(id: Seq<char>, bytes: Seq<u8>)
    requires
        id == hex_spec(bytes),
        bytes.len() == RANDOM_ID_BYTES,
    ensures
        valid_name_spec(default_name(id)),
{
    lemma_hex_len(bytes);
    lemma_hex_chars_plain(bytes);
    reveal_strlit("Member ");
    let name = default_name(id);
    assert(name.len() == 13);
    assert(!is_whitespace_spec(name[0]));
    assert forall|i: int| 0 <= i < name.len() implies !is_control_spec(#[trigger] name[i]) by {
        if i >= 7 {
            assert(name[i] == id[i - 7]);
        }
    }
}

/// A repeated chat message is shown once: handling the same message a second time adds
/// nothing to the conversations, and when the first copy was answered with a receipt,
/// so is the repeat.
pub proof fn law_repeated_chat_shown_once(
    n0: Network,
    n1: Network,
    n2: Network,
    a0: App,
    a1: App,
    a2: App,
    o0: Seq<Seq<char>>,
    o1: Seq<Seq<char>>,
    o2: Seq<Seq<char>>,
    sender_id: Seq<char>,
    token: Seq<char>,
    text: Seq<char>,
    now0: u64,
    now1: u64,
)
    requires
        chat_outcome(n0, n1, a0, a1, o0, o1, sender_id, token, text, now0),
        chat_outcome(n1, n2, a1, a2, o1, o2, sender_id, token, text, now1),
    ensures
        a2.people@ == a1.people@,
        o1 == o0.push(receipt_packet(sender_id, token)) ==> o2 == o1.push(
            receipt_packet(sender_id, token),
        ),
{
    if valid_chat_text(text) && has_person(a0.people@, sender_id) && !any_of(
        n0.received@,
        same_message(sender_id, token),
    ) && n0.received@.len() < MAX_REMEMBERED_MESSAGES {
        let last = n1.received@.len() - 1;
        assert(same_message(sender_id, token)(n1.received@[last]));
        lemma_person_index(a0.people@, sender_id);
        let i = person_index(a0.people@, sender_id);
        assert(a1.people@[i].id@ == sender_id);
        assert(has_person(a1.people@, sender_id));
    } else if valid_chat_text(text) && has_person(a0.people@, sender_id) {
        assert(a1.people@ == a0.people@);
    }
}

proof fn lemma_kept_are_recent(p: Seq<PendingMessage>, now: u64)
    ensures
        forall|j: int|
            0 <= j < kept_pending(p, now).len() ==> now < (#[trigger] kept_pending(p, now)[j]).first_sent
                + GIVE_UP_AFTER,
    decreases p.len(),
{
    if p.len() > 0 {
        let rest = kept_pending(p.drop_last(), now);
        lemma_kept_are_recent(p.drop_last(), now);
        let kept = kept_pending(p, now);
        assert forall|j: int| 0 <= j < kept.len() implies now < (#[trigger] kept[j]).first_sent
            + GIVE_UP_AFTER by {
            if j < rest.len() {
                assert(kept[j] == rest[j]);
            } else {
                assert(kept[j] == after_resend(p.last(), now));
            }
        }
    }
}

proof fn lemma_old_are_given_up(p: Seq<PendingMessage>, now: u64, i: int)
    requires
        0 <= i < p.len(),
        p[i].first_sent + GIVE_UP_AFTER <= now,
    ensures
        given_up(p, now).contains(p[i].outgoing),
    decreases p.len(),
{
    let rest = given_up(p.drop_last(), now);
    if i == p.len() - 1 {
        assert(given_up(p, now)[rest.len() as int] == p[i].outgoing);
    } else {
        lemma_old_are_given_up(p.drop_last(), now, i);
        assert(p.drop_last()[i] == p[i]);
        let k = choose|k: int| 0 <= k < rest.len() && rest[k] == p[i].outgoing;
        assert(given_up(p, now)[k] == rest[k]);
    }
}

proof fn lemma_recent_are_kept(p: Seq<PendingMessage>, now: u64, i: int)
    requires
        0 <= i < p.len(),
        now < p[i].first_sent + GIVE_UP_AFTER,
    ensures
        kept_pending(p, now).contains(after_resend(p[i], now)),
        now >= p[i].next_send ==> resent(p, now).contains(
            chat_packet(p[i].outgoing.person_id@, p[i].token@, p[i].outgoing.text@),
        ),
    decreases p.len(),
{
    let kept_rest = kept_pending(p.drop_last(), now);
    let sent_rest = resent(p.drop_last(), now);
    let packet = chat_packet(p[i].outgoing.person_id@, p[i].token@, p[i].outgoing.text@);
    if i == p.len() - 1 {
        assert(kept_pending(p, now)[kept_rest.len() as int] == after_resend(p[i], now));
        if now >= p[i].next_send {
            assert(resent(p, now)[sent_rest.len() as int] == packet);
        }
    } else {
        lemma_recent_are_kept(p.drop_last(), now, i);
        assert(p.drop_last()[i] == p[i]);
        let k = choose|k: int| 0 <= k < kept_rest.len() && kept_rest[k] == after_resend(p[i], now);
        assert(kept_pending(p, now)[k] == kept_rest[k]);
        if now >= p[i].next_send {
            let q = choose|q: int| 0 <= q < sent_rest.len() && sent_rest[q] == packet;
            assert(resent(p, now)[q] == sent_rest[q]);
        }
    }
}

/// A message first sent less than `GIVE_UP_AFTER` before `now` stays pending with its
/// token and first send time; when its send time has come it is sent again, and its
/// next send is `RESEND_EVERY` later.
pub proof fn law_recent_messages_stay_pending(
    n0: Network,
    n1: Network,
    a0: App,
    a1: App,
    o0: Seq<Seq<char>>,
    o1: Seq<Seq<char>>,
    now: u64,
    i: int,
)
    requires
        resend_outcome(n0, n1, a0, a1, o0, o1, now),
        0 <= i < n0.pending@.len(),
        now < n0.pending@[i].first_sent + GIVE_UP_AFTER,
    ensures
        exists|j: int|
            0 <= j < n1.pending@.len() && (#[trigger] n1.pending@[j]).outgoing
                == n0.pending@[i].outgoing && n1.pending@[j].token == n0.pending@[i].token
                && n1.pending@[j].first_sent == n0.pending@[i].first_sent && n1.pending@[j].next_send
                == if now >= n0.pending@[i].next_send {
                (now + RESEND_EVERY) as u64
            } else {
                n0.pending@[i].next_send
            },
        now >= n0.pending@[i].next_send ==> o1.subrange(o0.len() as int, o1.len() as int).contains(
            chat_packet(
                n0.pending@[i].outgoing.person_id@,
                n0.pending@[i].token@,
                n0.pending@[i].outgoing.text@,
            ),
        ),
{
    let p = n0.pending@;
    lemma_recent_are_kept(p, now, i);
    let j = choose|j: int| 0 <= j < n1.pending@.len() && n1.pending@[j] == after_resend(p[i], now);
    assert(n1.pending@[j] == after_resend(p[i], now));
    assert(o1.subrange(o0.len() as int, o1.len() as int) =~= resent(p, now));
}

/// A message first sent `GIVE_UP_AFTER` or more before `now` is given up at the resend
/// check, however recently it was sent again: its outgoing message is among those marked
/// unconfirmed, and every message still pending was first sent less than
/// `GIVE_UP_AFTER` ago.
pub proof fn law_messages_given_up_after_ten_seconds(
    n0: Network,
    n1: Network,
    a0: App,
    a1: App,
    o0: Seq<Seq<char>>,
    o1: Seq<Seq<char>>,
    now: u64,
    i: int,
)
    requires
        resend_outcome(n0, n1, a0, a1, o0, o1, now),
        0 <= i < n0.pending@.len(),
        n0.pending@[i].first_sent + GIVE_UP_AFTER <= now,
    ensures
        given_up(n0.pending@, now).contains(n0.pending@[i].outgoing),
        forall|j: int|
            0 <= j < n1.pending@.len() ==> now < (#[trigger] n1.pending@[j]).first_sent
                + GIVE_UP_AFTER,
        ({
            let o = n0.pending@[i].outgoing;
            let j = person_index(a0.people@, o.person_id@);
            has_person(a0.people@, o.person_id@) && o.message_index
                < a0.people@[j].messages@.len() ==> {
                let before = a0.people@[j].messages@[o.message_index as int];
                let after = a1.people@[j].messages@[o.message_index as int];
                &&& after.delivery == Some(Delivery::Unconfirmed)
                &&& after.text == before.text
                &&& after.from_me == before.from_me
            }
        }),
{
    let o = n0.pending@[i].outgoing;
    let os = given_up(n0.pending@, now);
    lemma_old_are_given_up(n0.pending@, now, i);
    lemma_kept_are_recent(n0.pending@, now);
    if has_person(a0.people@, o.person_id@) {
        let j = person_index(a0.people@, o.person_id@);
        lemma_person_index(a0.people@, o.person_id@);
        let k = o.message_index as int;
        if k < a0.people@[j].messages@.len() {
            let t = choose|t: int| 0 <= t < os.len() && os[t] == o;
            assert(names_message(a0.people@, os[t], j, k));
            assert(named_by_any(a0.people@, os, j, k));
            assert(a1.people@[j].messages@[k] == crate::state::with_delivery(
                a0.people@[j].messages@[k],
                Delivery::Unconfirmed,
            ));
        }
    }
}

/// Queuing never lets more than `MAX_PENDING_MESSAGES` messages wait.
pub proof fn law_pending_bounded(n0: Network, n1: Network, a0: App, a1: App, now: u64)
    requires
        queue_outcome(n0, n1, a0, a1, now),
        n0.pending@.len() <= MAX_PENDING_MESSAGES,
    ensures
        n1.pending@.len() <= MAX_PENDING_MESSAGES,
{
}

/// The memory of received messages never grows past `MAX_REMEMBERED_MESSAGES`.
pub proof fn law_received_bounded(
    n0: Network,
    n1: Network,
    a0: App,
    a1: App,
    o0: Seq<Seq<char>>,
    o1: Seq<Seq<char>>,
    sender_id: Seq<char>,
    token: Seq<char>,
    text: Seq<char>,
    now: u64,
)
    requires
        chat_outcome(n0, n1, a0, a1, o0, o1, sender_id, token, text, now),
        n0.received@.len() <= MAX_REMEMBERED_MESSAGES,
    ensures
        n1.received@.len() <= MAX_REMEMBERED_MESSAGES,
{
}

/// The tokens given out in one queuing step are all different.
pub proof fn law_queued_tokens_differ(n0: Network, n1: Network, a0: App, a1: App, now: u64, j: int, k: int)
    requires
        queue_outcome(n0, n1, a0, a1, now),
        n0.pending@.len() <= j < k < n1.pending@.len(),
    ensures
        n1.pending@[j].token@ != n1.pending@[k].token@,
{
    let n = n0.pending@.len() as int;
    let a = n0.next_token_number + (j - n) + 1;
    let b = n0.next_token_number + (k - n) + 1;
    assert(n1.pending@[n + (j - n)] == n1.pending@[j]);
    assert(n1.pending@[n + (k - n)] == n1.pending@[k]);
    let ta = token_text(n0.id@, a as nat);
    let tb = token_text(n0.id@, b as nat);
    crate::text::lemma_decimal_injective(a as nat, b as nat);
    let p = n0.id@ + "-"@;
    assert(ta == p + decimal_spec(a as nat));
    assert(tb == p + decimal_spec(b as nat));
    if ta == tb {
        assert(ta.skip(p.len() as int) =~= decimal_spec(a as nat));
        assert(tb.skip(p.len() as int) =~= decimal_spec(b as nat));
    }
}

impl Network {
    /// A network with this ID, using the chosen name or else the default name.
    /// Fails when the name is not a valid display name.
    pub fn with_id(chosen_name: Option<String>, id: String, now: u64) -> (network: Result<Network, ConnectError>)
        requires
            id@.len() >= 6,
        ensures
            network is Ok <==> valid_name_spec(network_name(chosen_name, id@)),
            network is Err ==> network == Err::<Network, ConnectError>(ConnectError::InvalidName),
            network matches Ok(n) ==> fresh_network(n, id@, network_name(chosen_name, id@), now),
    {
        let name = match chosen_name {
            Some(name) => name,
            None => {
                let id_chars = chars_of(id.as_str());
                let mut prefix: Vec<char> = Vec::new();
                let mut i: usize = 0;
                while i < 6
                    invariant
                        id_chars@ == id@,
                        id@.len() >= 6,
                        i <= 6,
                        prefix@ == id@.take(i as int),
                    decreases 6 - i,
                {
                    prefix.push(id_chars[i]);
                    i = i + 1;
                    assert(prefix@ =~= id@.take(i as int));
                }
                let mut name = "Member ".to_owned();
                let prefix_text = text_of(&prefix);
                push_str(&mut name, prefix_text.as_str());
                name
            },
        };
        if !is_valid_name(name.as_str()) {
            return Err(ConnectError::InvalidName);
        }
        Ok(
            Network {
                id: id,
                name: name,
                next_register: now,
                last_server_reply: None,
                next_token_number: 0,
                pending: Vec::new(),
                received: Vec::new(),
            },
        )
    }

    /// Start the relay protocol with a fresh random ID. `chosen_name` is `None` when the
    /// user did not pick a name; the default name is then `Member ` and six ID characters.
    pub fn connect(chosen_name: Option<String>, now: u64) -> (network: Result<Network, ConnectError>)
        ensures
            network matches Ok(n) ==> {
                &&& exists|bytes: Seq<u8>|
                    bytes.len() == RANDOM_ID_BYTES && n.id@ == #[trigger] hex_spec(bytes)
                &&& valid_name_spec(network_name(chosen_name, n.id@))
                &&& fresh_network(n, n.id@, network_name(chosen_name, n.id@), now)
            },
            network == Err::<Network, ConnectError>(ConnectError::InvalidName) ==> chosen_name is Some
                && !valid_name_spec(chosen_name->0@),
    {
        let id = match random_id() {
            Ok(id) => id,
            Err(text) => return Err(ConnectError::Random(text)),
        };
        proof {
            let bytes = choose|bytes: Seq<u8>|
                bytes.len() == RANDOM_ID_BYTES && id@ == #[trigger] hex_spec(bytes);
            lemma_hex_len(bytes);
            if chosen_name is None {
                lemma_default_name_valid(id@, bytes);
            }
        }
        Network::with_id(chosen_name, id, now)
    }

    /// Our display name.
    pub fn name(&self) -> (name: &str)
        ensures
            name@ == self.name@,
    {
        self.name.as_str()
    }

    /// The packet that tells the relay we are leaving.
    pub fn goodbye(&self) -> (packet: String)
        ensures
            packet@ == goodbye_packet(self.id@),
    {
        let mut packet = "GOODBYE ".to_owned();
        push_str(&mut packet, self.id.as_str());
        packet
    }

    /// The registration packet, when it is due at `now`; the next one is then due
    /// `REGISTER_EVERY` later.
    pub fn register_if_due(&mut self, now: u64) -> (packet: Option<String>)
        requires
            now <= u64::MAX - REGISTER_EVERY,
        ensures
            now < old(self).next_register ==> packet is None && *final(self) == *old(self),
            now >= old(self).next_register ==> {
                &&& packet matches Some(p) && p@ == register_packet(old(self).id@, old(self).name@)
                &&& final(self).next_register == now + REGISTER_EVERY
                &&& network_kept(*old(self), *final(self), false, true, true, true, true)
            },
    {
        if now < self.next_register {
            return None;
        }
        let mut packet = "REGISTER ".to_owned();
        push_str(&mut packet, self.id.as_str());
        push_str(&mut packet, " ");
        push_str(&mut packet, self.name.as_str());
        self.next_register = now + REGISTER_EVERY;
        Some(packet)
    }

    /// Whether a message with this sender and token was already shown.
    pub fn already_received(&self, sender_id: &str, token: &str) -> (seen: bool)
        ensures
            seen == any_of(self.received@, same_message(sender_id@, token@)),
    {
        let mut i: usize = 0;
        while i < self.received.len()
            invariant
                i <= self.received@.len(),
                forall|j: int| 0 <= j < i ==> !same_message(sender_id@, token@)(#[trigger] self.received@[j]),
            decreases self.received@.len() - i,
        {
            if same_text(self.received[i].sender_id.as_str(), sender_id) && same_text(
                self.received[i].token.as_str(),
                token,
            ) {
                assert(same_message(sender_id@, token@)(self.received@[i as int]));
                return true;
            }
            i = i + 1;
        }
        false
    }

    /// Show whether the relay answered recently.
    pub fn update_status(&self, app: &mut App, now: u64)
        ensures
            final(app).network_status@ == status_text(self.last_server_reply, now),
            final(app).people@ == old(app).people@,
            final(app).outbox@ == old(app).outbox@,
            final(app).name == old(app).name,
            final(app).running == old(app).running,
            final(app).typing == old(app).typing,
            final(app).view == old(app).view,
            final(app).selected_person == old(app).selected_person,
            final(app).announcements@ == old(app).announcements@,
    {
        let mut connected = false;
        match self.last_server_reply {
            Some(reply_time) => {
                if now.saturating_sub(reply_time) < RELAY_SILENT_AFTER {
                    connected = true;
                }
            },
            None => {},
        }
        if connected {
            app.network_status = "Relay connected".to_owned();
        } else {
            app.network_status = "Relay unavailable \u{b7} retrying".to_owned();
        }
    }

    /// Confirm the pending message that this receipt answers.
    pub fn handle_receipt(&mut self, app: &mut App, sender_id: &str, token: &str)
        ensures
            receipt_outcome(*old(self), *final(self), *old(app), *final(app), sender_id@, token@),
    {
        let ghost wanted = awaiting(sender_id@, token@);
        let mut index: usize = 0;
        while index < self.pending.len()
            invariant
                *self == *old(self),
                *app == *old(app),
                wanted == awaiting(sender_id@, token@),
                index <= self.pending@.len(),
                forall|j: int| 0 <= j < index ==> !wanted(#[trigger] self.pending@[j]),
            decreases self.pending@.len() - index,
        {
            let matches = same_text(self.pending[index].outgoing.person_id.as_str(), sender_id)
                && same_text(self.pending[index].token.as_str(), token);
            if matches {
                proof {
                    assert(wanted(self.pending@[index as int]));
                    lemma_found_first(self.pending@, wanted, index as int);
                }
                let confirmed = self.pending.remove(index);
                mark_delivery(app, &confirmed.outgoing, Delivery::Delivered);
                return;
            }
            index = index + 1;
        }
    }

    /// Show a chat message from a listed person once, and answer it with a receipt.
    pub fn handle_chat(
        &mut self,
        app: &mut App,
        sender_id: &str,
        token: &str,
        text: &str,
        now: u64,
        out: &mut Vec<String>,
    )
        ensures
            chat_outcome(
                *old(self),
                *final(self),
                *old(app),
                *final(app),
                texts(old(out)@),
                texts(final(out)@),
                sender_id@,
                token@,
                text@,
                now,
            ),
    {
        let chars = chars_of(text);
        if chars.len() == 0 || chars.len() > MAX_MESSAGE_CHARACTERS {
            return;
        }
        let mut i: usize = 0;
        while i < chars.len()
            invariant
                chars@ == text@,
                *self == *old(self),
                *app == *old(app),
                out@ == old(out)@,
                i <= chars@.len(),
                forall|j: int| 0 <= j < i ==> !is_control_spec(#[trigger] chars@[j]),
            decreases chars@.len() - i,
        {
            if is_control(chars[i]) {
                assert(has_control(text@));
                return;
            }
            i = i + 1;
        }
        assert(valid_chat_text(text@));
        // Only accept messages from people in our list.
        let index = match app.find_person_index(sender_id) {
            Some(index) => index,
            None => return,
        };
        if !self.already_received(sender_id, token) {
            if self.received.len() >= MAX_REMEMBERED_MESSAGES {
                return;
            }
            app.people[index].messages.push(Message::received(text));
            self.received.push(
                ReceivedMessage {
                    sender_id: sender_id.to_owned(),
                    token: token.to_owned(),
                    received_at: now,
                },
            );
            assert(app.people@[index as int].messages@.take(
                old(app).people@[index as int].messages@.len() as int,
            ) =~= old(app).people@[index as int].messages@);
            assert(self.received@.take(old(self).received@.len() as int) =~= old(self).received@);
        }
        // Send a receipt even for a repeat, because the first one may have been lost.
        let mut packet = "RELAY ".to_owned();
        push_str(&mut packet, sender_id);
        push_str(&mut packet, " ");
        push_str(&mut packet, token);
        push_str(&mut packet, " RECEIPT");
        out.push(packet);
        assert(texts(out@) =~= texts(old(out)@).push(receipt_packet(sender_id@, token@)));
    }

    /// Act on one packet from the relay.
    pub fn handle_packet(&mut self, app: &mut App, text: &str, now: u64, out: &mut Vec<String>)
        ensures
            packet_outcome(
                *old(self),
                *final(self),
                *old(app),
                *final(app),
                texts(old(out)@),
                texts(final(out)@),
                text@,
                now,
            ),
            ids_distinct(old(app).people@) ==> ids_distinct(final(app).people@),
    {
        let chars = chars_of(text);
        let registered = chars_of("REGISTERED ");
        if starts_with_chars(chars.as_slice(), registered.as_slice()) {
            self.last_server_reply = Some(now);
            return;
        }
        let protocol = chars_of("bit-to-byte/1\n");
        if starts_with_chars(chars.as_slice(), protocol.as_slice()) {
            receive_presence(app, &chars, self.id.as_str(), now);
            return;
        }
        // FROM <sender id> <token> CHAT <text>   or   FROM <sender id> <token> RECEIPT
        let words = splitn_chars(&chars, 5, ' ');
        let from_word = chars_of("FROM");
        if words.len() < 4 || !chars_eq(words[0].as_slice(), from_word.as_slice()) {
            return;
        }
        let token_chars = &words[2];
        if token_chars.len() == 0 || !utf8_len_within(token_chars, MAX_TOKEN_BYTES) {
            return;
        }
        let empty: Vec<char> = Vec::new();
        let body = if words.len() == 5 {
            &words[4]
        } else {
            &empty
        };
        assert(from_parts(text@) == Some((words@[1]@, words@[2]@, words@[3]@, body@)));
        let sender_id = text_of(&words[1]);
        let token = text_of(token_chars);
        let receipt_word = chars_of("RECEIPT");
        let chat_word = chars_of("CHAT");
        if chars_eq(words[3].as_slice(), receipt_word.as_slice()) && body.len() == 0 {
            self.handle_receipt(app, sender_id.as_str(), token.as_str());
            proof {
                lemma_marked_keeps_ids(old(app).people@, app.people@);
            }
        } else if chars_eq(words[3].as_slice(), chat_word.as_slice()) {
            let body_text = text_of(body);
            self.handle_chat(app, sender_id.as_str(), token.as_str(), body_text.as_str(), now, out);
            proof {
                lemma_chat_keeps_ids(old(app).people@, app.people@, sender_id@);
            }
        }
    }

    /// The token for our message number `number`.
    fn token_for(&self, number: u64) -> (token: String)
        ensures
            token@ == token_text(self.id@, number as nat),
    {
        let mut token = self.id.clone();
        push_str(&mut token, "-");
        let mut digits: Vec<char> = Vec::new();
        push_decimal(&mut digits, number as u128);
        assert(digits@ =~= decimal_spec(number as nat));
        let digits_text = text_of(&digits);
        push_str(&mut token, digits_text.as_str());
        token
    }

    /// Move messages the user just sent from the app outbox into our pending list.
    pub fn queue_outgoing_messages(&mut self, app: &mut App, now: u64)
        requires
            old(self).next_token_number + old(app).outbox@.len() <= u64::MAX,
        ensures
            queue_outcome(*old(self), *final(self), *old(app), *final(app), now),
    {
        let ghost q = old(app).outbox@;
        let ghost n = old(self).pending@.len();
        let ghost total = admitted_count(n, q.len());
        let queued = app.outbox.len();
        let mut t: usize = 0;
        proof {
            lemma_marked_none(old(app).people@, Delivery::Unconfirmed);
            assert(q.subrange(0, 0) =~= Seq::<OutgoingMessage>::empty());
        }
        while !app.outbox.is_empty()
            invariant
                t <= q.len(),
                q.len() == queued,
                app.outbox@ == q.skip(t as int),
                old(self).next_token_number + q.len() <= u64::MAX,
                n == old(self).pending@.len(),
                total == admitted_count(n, q.len()),
                network_kept(*old(self), *self, true, true, false, false, true),
                self.next_token_number == old(self).next_token_number + admitted_count(n, t as nat),
                self.pending@.len() == n + admitted_count(n, t as nat),
                self.pending@.take(n as int) == old(self).pending@,
                forall|k: int|
                    0 <= k < admitted_count(n, t as nat) ==> {
                        &&& (#[trigger] self.pending@[n + k]).outgoing == q[k]
                        &&& self.pending@[n + k].token@ == token_text(
                            old(self).id@,
                            (old(self).next_token_number + k + 1) as nat,
                        )
                        &&& self.pending@[n + k].first_sent == now
                        &&& self.pending@[n + k].next_send == now
                    },
                same_except_people_and_outbox(*app, *old(app)),
                deliveries_marked(
                    old(app).people@,
                    app.people@,
                    q.subrange(admitted_count(n, t as nat) as int, t as int),
                    Delivery::Unconfirmed,
                ),
            decreases q.len() - t,
        {
            proof {
                lemma_admitted_step(n, t as nat);
                lemma_admitted_step(n, q.len());
                assert(q.skip(t as int)[0] == q[t as int]);
                assert(q.skip(t as int).skip(1) =~= q.skip(t + 1));
            }
            let outgoing = app.outbox.remove(0);
            if self.pending.len() >= MAX_PENDING_MESSAGES {
                let ghost before = app.people@;
                mark_delivery(app, &outgoing, Delivery::Unconfirmed);
                proof {
                    let ghost lo = admitted_count(n, t as nat) as int;
                    lemma_marked_step(
                        old(app).people@,
                        before,
                        app.people@,
                        q.subrange(lo, t as int),
                        outgoing,
                        Delivery::Unconfirmed,
                    );
                    assert(q.subrange(lo, t as int).push(outgoing) =~= q.subrange(lo, t + 1));
                }
                t = t + 1;
                continue;
            }
            self.next_token_number = self.next_token_number + 1;
            let token = self.token_for(self.next_token_number);
            self.pending.push(
                PendingMessage { outgoing: outgoing, token: token, first_sent: now, next_send: now },
            );
            proof {
                assert(self.pending@.take(n as int) =~= old(self).pending@) by {
                    assert(self.pending@.take(n as int) =~= self.pending@.drop_last().take(n as int));
                }
                assert(q.subrange(admitted_count(n, (t + 1) as nat) as int, t + 1) =~= q.subrange(
                    admitted_count(n, t as nat) as int,
                    t as int,
                ));
            }
            t = t + 1;
        }
        proof {
            assert(t == q.len()) by {
                assert(q.skip(t as int).len() == 0);
            }
            assert(q.subrange(total as int, t as int) =~= q.skip(total as int));
        }
    }

    /// Send again the messages whose resend time has come, and give up on those that
    /// waited for `GIVE_UP_AFTER`.
    pub fn resend_pending_messages(&mut self, app: &mut App, now: u64, out: &mut Vec<String>)
        requires
            now <= u64::MAX - RESEND_EVERY,
        ensures
            resend_outcome(
                *old(self),
                *final(self),
                *old(app),
                *final(app),
                texts(old(out)@),
                texts(final(out)@),
                now,
            ),
    {
        let ghost p = old(self).pending@;
        let total = self.pending.len();
        let mut index: usize = 0;
        let mut j: usize = 0;
        proof {
            lemma_marked_none(old(app).people@, Delivery::Unconfirmed);
            assert(p.take(0) =~= Seq::<PendingMessage>::empty());
            assert(p.skip(0) =~= p);
            assert(texts(old(out)@) + resent(p.take(0), now) =~= texts(old(out)@));
        }
        while index < self.pending.len()
            invariant
                now <= u64::MAX - RESEND_EVERY,
                p == old(self).pending@,
                p.len() == total,
                j <= p.len(),
                index == kept_pending(p.take(j as int), now).len(),
                self.pending@ == kept_pending(p.take(j as int), now) + p.skip(j as int),
                network_kept(*old(self), *self, true, true, true, false, true),
                texts(out@) == texts(old(out)@) + resent(p.take(j as int), now),
                same_except_people(*app, *old(app)),
                deliveries_marked(
                    old(app).people@,
                    app.people@,
                    given_up(p.take(j as int), now),
                    Delivery::Unconfirmed,
                ),
            decreases p.len() - j,
        {
            proof {
                assert(j < p.len());
                assert(p.take(j + 1).drop_last() =~= p.take(j as int));
                assert(p.take(j + 1).last() == p[j as int]);
                assert(self.pending@[index as int] == p[j as int]);
                assert(p.skip(j as int).drop_first() =~= p.skip(j + 1));
            }
            let waited = now.saturating_sub(self.pending[index].first_sent);
            if waited >= GIVE_UP_AFTER {
                let given_up_message = self.pending.remove(index);
                let ghost before = app.people@;
                mark_delivery(app, &given_up_message.outgoing, Delivery::Unconfirmed);
                proof {
                    lemma_marked_step(
                        old(app).people@,
                        before,
                        app.people@,
                        given_up(p.take(j as int), now),
                        given_up_message.outgoing,
                        Delivery::Unconfirmed,
                    );
                    assert(self.pending@ =~= kept_pending(p.take(j + 1), now) + p.skip(j + 1));
                    assert(texts(old(out)@) + resent(p.take(j + 1), now) == texts(old(out)@)
                        + resent(p.take(j as int), now));
                }
                j = j + 1;
                continue;
            }
            if now >= self.pending[index].next_send {
                let mut packet = "RELAY ".to_owned();
                push_str(&mut packet, self.pending[index].outgoing.person_id.as_str());
                push_str(&mut packet, " ");
                push_str(&mut packet, self.pending[index].token.as_str());
                push_str(&mut packet, " CHAT ");
                push_str(&mut packet, self.pending[index].outgoing.text.as_str());
                let ghost before_out = texts(out@);
                out.push(packet);
                assert(texts(out@) =~= before_out.push(packet@));
                self.pending[index].next_send = now + RESEND_EVERY;
                assert(texts(out@) =~= texts(old(out)@) + resent(p.take(j + 1), now));
            } else {
                assert(texts(out@) =~= texts(old(out)@) + resent(p.take(j + 1), now));
            }
            assert(self.pending@ =~= kept_pending(p.take(j + 1), now) + p.skip(j + 1));
            index = index + 1;
            j = j + 1;
        }
        proof {
            assert(p.skip(j as int).len() == 0);
            assert(p.take(j as int) =~= p);
            assert(self.pending@ =~= kept_pending(p, now));
        }
    }

    /// Forget received messages older than `REMEMBER_RECEIVED_FOR`.
    pub fn forget_old_received_messages(&mut self, now: u64)
        ensures
            network_kept(*old(self), *final(self), true, true, true, true, false),
            final(self).received@ == remembered(old(self).received@, now),
    {
        let ghost r = old(self).received@;
        let total = self.received.len();
        let mut index: usize = 0;
        let mut j: usize = 0;
        proof {
            assert(r.take(0) =~= Seq::<ReceivedMessage>::empty());
            assert(r.skip(0) =~= r);
        }
        while index < self.received.len()
            invariant
                r == old(self).received@,
                r.len() == total,
                j <= r.len(),
                index == remembered(r.take(j as int), now).len(),
                self.received@ == remembered(r.take(j as int), now) + r.skip(j as int),
                network_kept(*old(self), *self, true, true, true, true, false),
            decreases r.len() - j,
        {
            proof {
                assert(j < r.len());
                assert(r.take(j + 1).drop_last() =~= r.take(j as int));
                assert(r.take(j + 1).last() == r[j as int]);
                assert(self.received@[index as int] == r[j as int]);
            }
            if now.saturating_sub(self.received[index].received_at) >= REMEMBER_RECEIVED_FOR {
                self.received.remove(index);
            } else {
                index = index + 1;
            }
            assert(self.received@ =~= remembered(r.take(j + 1), now) + r.skip(j + 1));
            j = j + 1;
        }
        proof {
            assert(r.skip(j as int).len() == 0);
            assert(r.take(j as int) =~= r);
            assert(self.received@ =~= remembered(r, now));
        }
    }

    /// Act on one datagram that the socket delivered.
    pub fn receive_datagram(
        &mut self,
        app: &mut App,
        datagram: &Datagram,
        now: u64,
        out: &mut Vec<String>,
    )
        ensures
            datagram_outcome(
                *old(self),
                *final(self),
                *old(app),
                *final(app),
                texts(old(out)@),
                texts(final(out)@),
                *datagram,
                now,
            ),
            ids_distinct(old(app).people@) ==> ids_distinct(final(app).people@),
    {
        // Only trust packets from the relay we registered with.
        if !datagram.from_server {
            return;
        }
        // A packet that fills the whole buffer may have been cut short.
        if datagram.bytes.len() >= RECEIVE_BUFFER_BYTES {
            return;
        }
        match crate::text::utf8_text(datagram.bytes.as_slice()) {
            Some(text) => {
                proof {
                    vstd::utf8::encode_utf8_decode_utf8(text@);
                }
                self.handle_packet(app, text, now, out);
            },
            None => {},
        }
    }

    /// Act on the datagrams, in order; at most `MAX_PACKETS_PER_UPDATE` of them, the rest
    /// are left for the next update.
    pub fn receive_packets(
        &mut self,
        app: &mut App,
        datagrams: &Vec<Datagram>,
        now: u64,
        out: &mut Vec<String>,
    )
        ensures
            datagrams_outcome(
                *old(self),
                *final(self),
                *old(app),
                *final(app),
                texts(old(out)@),
                texts(final(out)@),
                update_batch(datagrams@),
                now,
            ),
            ids_distinct(old(app).people@) ==> ids_distinct(final(app).people@),
    {
        let ghost ds = update_batch(datagrams@);
        let ghost mut states: Seq<(Network, App, Seq<Seq<char>>)> = seq![(*self, *app, texts(out@))];
        let mut i: usize = 0;
        while i < datagrams.len() && i < MAX_PACKETS_PER_UPDATE
            invariant
                ds == update_batch(datagrams@),
                i <= ds.len(),
                states.len() == i + 1,
                states[0] == (*old(self), *old(app), texts(old(out)@)),
                states.last() == (*self, *app, texts(out@)),
                forall|k: int|
                    0 <= k < i ==> datagram_outcome(
                        (#[trigger] states[k]).0,
                        states[k + 1].0,
                        states[k].1,
                        states[k + 1].1,
                        states[k].2,
                        states[k + 1].2,
                        ds[k],
                        now,
                    ),
                ids_distinct(old(app).people@) ==> ids_distinct(app.people@),
            decreases ds.len() - i,
        {
            let ghost before = states;
            self.receive_datagram(app, &datagrams[i], now, out);
            proof {
                states = states.push((*self, *app, texts(out@)));
                assert forall|k: int| 0 <= k < i + 1 implies datagram_outcome(
                    (#[trigger] states[k]).0,
                    states[k + 1].0,
                    states[k].1,
                    states[k + 1].1,
                    states[k].2,
                    states[k + 1].2,
                    ds[k],
                    now,
                ) by {
                    assert(states[k] == before[k]);
                    if k < i {
                        assert(states[k + 1] == before[k + 1]);
                    }
                }
            }
            i = i + 1;
        }
        assert(datagram_trace(states, ds, now));
    }

    /// One update of the relay protocol at `now`, after `datagrams` arrived. Returns the
    /// packets to send to the relay, in order.
    pub fn update(&mut self, app: &mut App, now: u64, datagrams: &Vec<Datagram>) -> (out: Vec<String>)
        requires
            now <= u64::MAX - REGISTER_EVERY,
            old(self).next_token_number + old(app).outbox@.len() <= u64::MAX,
        ensures
            update_outcome(*old(self), *old(app), datagrams@, now, *final(self), *final(app), texts(out@)),
            ids_distinct(old(app).people@) ==> ids_distinct(final(app).people@),
    {
        let mut out: Vec<String> = Vec::new();
        match self.register_if_due(now) {
            Some(packet) => out.push(packet),
            None => {},
        }
        let ghost net1 = *self;
        let ghost out1 = texts(out@);
        assert(register_step(*old(self), net1, out1, now)) by {
            if now >= old(self).next_register {
                assert(out1 =~= seq![register_packet(old(self).id@, old(self).name@)]);
            } else {
                assert(out1 =~= Seq::<Seq<char>>::empty());
            }
        }
        self.receive_packets(app, datagrams, now, &mut out);
        let ghost net2 = *self;
        let ghost app2 = *app;
        let ghost out2 = texts(out@);
        self.update_status(app, now);
        let ghost app3 = *app;
        mark_missing_people_offline(app, now);
        let ghost app4 = *app;
        proof {
            lemma_datagrams_keep_outbox(net1, net2, *old(app), app2, out1, out2, update_batch(datagrams@), now);
        }
        self.queue_outgoing_messages(app, now);
        let ghost net5 = *self;
        let ghost app5 = *app;
        self.resend_pending_messages(app, now, &mut out);
        let ghost net6 = *self;
        self.forget_old_received_messages(now);
        proof {
            assert(update_chain(
                *old(self),
                *old(app),
                datagrams@,
                now,
                *self,
                *app,
                texts(out@),
                net1,
                out1,
                net2,
                app2,
                out2,
                app3,
                app4,
                net5,
                app5,
                net6,
            ));
            lemma_marked_keeps_ids(app4.people@, app5.people@);
            lemma_marked_keeps_ids(app5.people@, app.people@);
        }
        out
    }
}

} // verus!
