//! The relay server: a list of registered people, and packet forwarding between them.
//! Messages, receipts, retries and conversations belong to the clients.
//!
//! | Packet from a client        | Server action |
//! | `REGISTER id display-name`  | Save or refresh that registration, answer `REGISTERED address`, list recent peers. |
//! | `RELAY recipient-id payload`| Forward `FROM sender-id payload`; the sender comes from the source address. |
//! | `GOODBYE id`                | Remove that source's registration and tell the remaining members. |
use vstd::prelude::*;
use vstd::utf8::encode_utf8;

use crate::presence::{elapsed, valid_name_chars, valid_name_spec};
use crate::search::{any_of, first_of, is_first, lemma_first_of, lemma_found_first};
use crate::text::{
    chars_eq, chars_of, push_str, same_text, splitn_chars, splitn_spec, text_of, utf8_len_within,
};

verus! {

broadcast use vstd::string::group_string_axioms;

/// A registration is removed this long after its last refresh (milliseconds).
pub const REGISTRATION_LIFETIME: u64 = 30000;

/// A registration refreshed less than this long ago appears in peer lists (milliseconds).
pub const PRESENCE_LIFETIME: u64 = 6000;

/// The most registrations the server keeps.
pub const MAX_MEMBERS: usize = 128;

/// The longest relayed payload, in UTF-8 bytes.
pub const MAX_PAYLOAD_BYTES: usize = 2100;

/// The longest member ID, in characters.
pub const MAX_ID_CHARACTERS: usize = 40;

/// A UDP address: the values that tell two socket addresses apart.
#[derive(Debug, PartialEq, Eq, Structural, Clone, Copy)]
pub enum Address {
    V4 { ip: u32, port: u16 },
    V6 { segments: u128, port: u16, flowinfo: u32, scope_id: u32 },
}

/// A UDP address together with the text that names it (such as `127.0.0.1:47002`).
#[derive(Debug, PartialEq, Eq)]
pub struct Endpoint {
    pub address: Address,
    pub text: String,
}

impl Endpoint {
    /// An equal copy of this endpoint.
    pub fn duplicate(&self) -> (e: Endpoint)
        ensures
            e == *self,
    {
        Endpoint { address: self.address, text: self.text.clone() }
    }
}

/// One registration: the ID, display name, observed address and last refresh time.
pub struct Member {
    pub id: String,
    pub name: String,
    pub address: Endpoint,
    pub last_seen: u64,
}

/// A packet for the server to send.
#[derive(Debug, PartialEq, Eq)]
pub struct Reply {
    pub address: Endpoint,
    pub text: String,
}

/// The relay's state: the registrations it knows.
pub struct Server {
    pub members: Vec<Member>,
}

/// A character allowed in an ID: an ASCII letter or digit, `-` or `_`.
pub open spec fn is_id_char(c: char) -> bool {
    let u = c as u32;
    ||| (48 <= u && u <= 57)
    ||| (65 <= u && u <= 90)
    ||| (97 <= u && u <= 122)
    ||| u == 45
    ||| u == 95
}

/// An ID: one to forty ASCII letters, digits, underscores or hyphens.
pub open spec fn valid_id_spec(id: Seq<char>) -> bool {
    &&& 0 < id.len() <= MAX_ID_CHARACTERS
    &&& forall|i: int| 0 <= i < id.len() ==> is_id_char(#[trigger] id[i])
}

/// Members with this ID.
pub open spec fn with_id(id: Seq<char>) -> spec_fn(Member) -> bool {
    |m: Member| m.id@ == id
}

/// Members registered from this address.
pub open spec fn at_address(a: Address) -> spec_fn(Member) -> bool {
    |m: Member| m.address.address == a
}

/// Members whose registration would clash with `id` claimed from `a`:
/// the ID from another address, or another ID from the address.
pub open spec fn clashing(id: Seq<char>, a: Address) -> spec_fn(Member) -> bool {
    |m: Member| (m.id@ == id && m.address.address != a) || (m.address.address == a && m.id@ != id)
}

/// No two members share an ID or an address, and there are at most `MAX_MEMBERS`.
pub open spec fn members_wf(ms: Seq<Member>) -> bool {
    &&& ms.len() <= MAX_MEMBERS
    &&& forall|i: int, j: int|
        0 <= i < ms.len() && 0 <= j < ms.len() && i != j ==> (#[trigger] ms[i]).id@
            != (#[trigger] ms[j]).id@ && ms[i].address.address != ms[j].address.address
}

/// The members whose registration has not expired at `now`, in order.
pub open spec fn live_members(ms: Seq<Member>, now: u64) -> Seq<Member>
    decreases ms.len(),
{
    if ms.len() == 0 {
        ms
    } else {
        let rest = live_members(ms.drop_last(), now);
        if elapsed(now, ms.last().last_seen) < REGISTRATION_LIFETIME {
            rest.push(ms.last())
        } else {
            rest
        }
    }
}

/// The members other than `id` refreshed recently enough to be listed, in order.
pub open spec fn recent_peers(ms: Seq<Member>, id: Seq<char>, now: u64) -> Seq<Member>
    decreases ms.len(),
{
    if ms.len() == 0 {
        ms
    } else {
        let rest = recent_peers(ms.drop_last(), id, now);
        let m = ms.last();
        if m.id@ != id && elapsed(now, m.last_seen) < PRESENCE_LIFETIME {
            rest.push(m)
        } else {
            rest
        }
    }
}

/// The four-line presence packet: protocol line, kind, ID and name.
pub open spec fn presence_text(kind: Seq<char>, id: Seq<char>, name: Seq<char>) -> Seq<char> {
    "bit-to-byte/1\n"@ + kind + "\n"@ + id + "\n"@ + name
}

/// A request's command, ID and body: the text split at its first two spaces.
/// `None` for fewer than two words or an invalid ID.
pub open spec fn request_parts(text: Seq<char>) -> Option<(Seq<char>, Seq<char>, Seq<char>)> {
    let w = splitn_spec(text, 3, ' ');
    if w.len() < 2 || !valid_id_spec(w[1]) {
        None
    } else {
        Some((w[0], w[1], if w.len() == 3 { w[2] } else { Seq::<char>::empty() }))
    }
}

/// The replies to a successful registration of `id` from `source`:
/// `REGISTERED <source>` and then a hello for each recent peer.
pub open spec fn registered_replies(
    ms: Seq<Member>,
    id: Seq<char>,
    source: Endpoint,
    now: u64,
    replies: Seq<Reply>,
) -> bool {
    let peers = recent_peers(ms, id, now);
    &&& replies.len() == peers.len() + 1
    &&& replies[0].address == source
    &&& replies[0].text@ == "REGISTERED "@ + source.text@
    &&& forall|k: int|
        0 <= k < peers.len() ==> (#[trigger] replies[k + 1]).address == source && replies[k
            + 1].text@ == presence_text("hello"@, peers[k].id@, peers[k].name@)
}

/// The effect of `REGISTER id name` from `source` at `now` on the members `ms`.
pub open spec fn register_outcome(
    ms: Seq<Member>,
    id: Seq<char>,
    name: Seq<char>,
    source: Endpoint,
    now: u64,
    new_ms: Seq<Member>,
    replies: Seq<Reply>,
) -> bool {
    if !valid_name_spec(name) {
        new_ms == ms && replies.len() == 0
    } else if any_of(ms, clashing(id, source.address)) {
        let k = first_of(ms, clashing(id, source.address));
        &&& new_ms == ms
        &&& replies.len() == 1
        &&& replies[0].address == source
        &&& replies[0].text@ == if ms[k].id@ == id {
            "ERROR id-in-use"@
        } else {
            "ERROR address-in-use"@
        }
    } else if any_of(ms, with_id(id)) {
        let i = first_of(ms, with_id(id));
        &&& new_ms.len() == ms.len()
        &&& forall|j: int| 0 <= j < ms.len() && j != i ==> new_ms[j] == ms[j]
        &&& new_ms[i].id == ms[i].id
        &&& new_ms[i].address == ms[i].address
        &&& new_ms[i].name@ == name
        &&& new_ms[i].last_seen == now
        &&& registered_replies(new_ms, id, source, now, replies)
    } else if ms.len() >= MAX_MEMBERS {
        new_ms == ms && replies.len() == 0
    } else {
        &&& new_ms.len() == ms.len() + 1
        &&& new_ms.take(ms.len() as int) == ms
        &&& new_ms.last().id@ == id
        &&& new_ms.last().name@ == name
        &&& new_ms.last().address == source
        &&& new_ms.last().last_seen == now
        &&& registered_replies(new_ms, id, source, now, replies)
    }
}

/// The effect of `GOODBYE id` from `source`: the member registered with that ID from
/// that address leaves, and every remaining member hears a goodbye packet.
pub open spec fn goodbye_outcome(
    ms: Seq<Member>,
    id: Seq<char>,
    source: Endpoint,
    new_ms: Seq<Member>,
    replies: Seq<Reply>,
) -> bool {
    if !any_of(ms, with_id(id)) || ms[first_of(ms, with_id(id))].address.address
        != source.address {
        new_ms == ms && replies.len() == 0
    } else {
        let i = first_of(ms, with_id(id));
        &&& new_ms == ms.remove(i)
        &&& replies.len() == new_ms.len()
        &&& forall|k: int|
            0 <= k < new_ms.len() ==> (#[trigger] replies[k]).address == new_ms[k].address
                && replies[k].text@ == presence_text("goodbye"@, ms[i].id@, ms[i].name@)
    }
}

/// The replies to `RELAY recipient payload` from `source`: the payload goes to a live
/// recipient at another address, prefixed with the sender's registered ID; an unknown
/// recipient or one at the sender's own address is reported to the sender.
pub open spec fn relay_outcome(
    ms: Seq<Member>,
    recipient: Seq<char>,
    payload: Seq<char>,
    source: Endpoint,
    replies: Seq<Reply>,
) -> bool {
    if payload.len() == 0 || encode_utf8(payload).len() > MAX_PAYLOAD_BYTES || !any_of(
        ms,
        at_address(source.address),
    ) {
        replies.len() == 0
    } else {
        let sender = ms[first_of(ms, at_address(source.address))];
        if any_of(ms, with_id(recipient)) && ms[first_of(
            ms,
            with_id(recipient),
        )].address.address != source.address {
            &&& replies.len() == 1
            &&& replies[0].address == ms[first_of(ms, with_id(recipient))].address
            &&& replies[0].text@ == "FROM "@ + sender.id@ + " "@ + payload
        } else {
            &&& replies.len() == 1
            &&& replies[0].address == source
            &&& replies[0].text@ == "ERROR peer-unavailable"@
        }
    }
}

/// The effect of one request `text` from `source` at `now`: expired registrations are
/// dropped first, then the command is carried out on the rest.
pub open spec fn handle_outcome(
    ms: Seq<Member>,
    text: Seq<char>,
    source: Endpoint,
    now: u64,
    new_ms: Seq<Member>,
    replies: Seq<Reply>,
) -> bool {
    let live = live_members(ms, now);
    match request_parts(text) {
        None => new_ms == live && replies.len() == 0,
        Some((command, id, body)) => if command == "REGISTER"@ {
            register_outcome(live, id, body, source, now, new_ms, replies)
        } else if command == "RELAY"@ {
            new_ms == live && relay_outcome(live, id, body, source, replies)
        } else if command == "GOODBYE"@ && body.len() == 0 {
            goodbye_outcome(live, id, source, new_ms, replies)
        } else {
            new_ms == live && replies.len() == 0
        },
    }
}

/// Every live member is one of the members, found at a position no earlier than its own.
proof fn lemma_live_members_from(ms: Seq<Member>, now: u64)
    ensures
        live_members(ms, now).len() <= ms.len(),
        forall|k: int|
            0 <= k < live_members(ms, now).len() ==> exists|j: int|
                k <= j < ms.len() && #[trigger] live_members(ms, now)[k] == ms[j],
    decreases ms.len(),
{
    if ms.len() > 0 {
        let rest = ms.drop_last();
        lemma_live_members_from(rest, now);
        let live = live_members(ms, now);
        assert forall|k: int| 0 <= k < live.len() implies exists|j: int|
            k <= j < ms.len() && #[trigger] live[k] == ms[j] by {
            if k < live_members(rest, now).len() {
                let j = choose|j: int|
                    k <= j < rest.len() && #[trigger] live_members(rest, now)[k] == rest[j];
                assert(live[k] == ms[j]);
            } else {
                assert(live[k] == ms[ms.len() - 1]);
            }
        }
    }
}

/// The live members of a well-formed list form a well-formed list.
proof fn lemma_live_members_wf(ms: Seq<Member>, now: u64)
    requires
        members_wf(ms),
    ensures
        members_wf(live_members(ms, now)),
    decreases ms.len(),
{
    if ms.len() > 0 {
        let rest = ms.drop_last();
        assert(members_wf(rest));
        lemma_live_members_wf(rest, now);
        lemma_live_members_from(rest, now);
        lemma_live_members_from(ms, now);
        let r = live_members(rest, now);
        let live = live_members(ms, now);
        if live.len() == r.len() + 1 {
            assert forall|a: int, b: int|
                0 <= a < live.len() && 0 <= b < live.len() && a != b implies (#[trigger] live[a]).id@
                != (#[trigger] live[b]).id@ && live[a].address.address != live[b].address.address by {
                if a < r.len() && b < r.len() {
                    assert(live[a] == r[a]);
                    assert(live[b] == r[b]);
                } else if a < r.len() {
                    let j = choose|j: int| a <= j < rest.len() && #[trigger] r[a] == rest[j];
                    assert(live[a] == ms[j]);
                    assert(live[b] == ms[ms.len() - 1]);
                } else {
                    let j = choose|j: int| b <= j < rest.len() && #[trigger] r[b] == rest[j];
                    assert(live[b] == ms[j]);
                    assert(live[a] == ms[ms.len() - 1]);
                }
            }
        }
    }
}

/// A live ID cannot be claimed from another address, and a live address cannot claim
/// another ID: such a registration changes nothing and is answered with one error.
pub proof fn law_live_registrations_cannot_be_claimed(
    ms: Seq<Member>,
    id: Seq<char>,
    name: Seq<char>,
    source: Endpoint,
    now: u64,
    new_ms: Seq<Member>,
    replies: Seq<Reply>,
    k: int,
)
    requires
        register_outcome(ms, id, name, source, now, new_ms, replies),
        valid_name_spec(name),
        0 <= k < ms.len(),
        (ms[k].id@ == id && ms[k].address.address != source.address) || (ms[k].address.address
            == source.address && ms[k].id@ != id),
    ensures
        new_ms == ms,
        replies.len() == 1,
        replies[0].address == source,
        replies[0].text@ == "ERROR id-in-use"@ || replies[0].text@ == "ERROR address-in-use"@,
{
    assert(clashing(id, source.address)(ms[k]));
}

/// After a goodbye from the address a member registered from, no member has that ID.
pub proof fn law_goodbye_removes_member(
    ms: Seq<Member>,
    id: Seq<char>,
    source: Endpoint,
    new_ms: Seq<Member>,
    replies: Seq<Reply>,
    k: int,
)
    requires
        members_wf(ms),
        goodbye_outcome(ms, id, source, new_ms, replies),
        0 <= k < ms.len(),
        ms[k].id@ == id,
        ms[k].address.address == source.address,
    ensures
        !any_of(new_ms, with_id(id)),
        new_ms.len() == ms.len() - 1,
        replies.len() == new_ms.len(),
{
    assert(with_id(id)(ms[k]));
    lemma_first_of(ms, with_id(id));
    let i = first_of(ms, with_id(id));
    assert(i == k) by {
        if i != k {
            assert(ms[i].id@ != ms[k].id@);
        }
    }
    if any_of(new_ms, with_id(id)) {
        let j = choose|j: int| 0 <= j < new_ms.len() && with_id(id)(#[trigger] new_ms[j]);
        let oj = if j < k { j } else { j + 1 };
        assert(new_ms[j] == ms[oj]);
        assert(ms[oj].id@ != ms[k].id@);
    }
}

/// A full server still refreshes a member that registers again from its own address:
/// the registration is answered and the list keeps its size.
pub proof fn law_full_server_refreshes_members(
    ms: Seq<Member>,
    id: Seq<char>,
    name: Seq<char>,
    source: Endpoint,
    now: u64,
    new_ms: Seq<Member>,
    replies: Seq<Reply>,
    k: int,
)
    requires
        members_wf(ms),
        register_outcome(ms, id, name, source, now, new_ms, replies),
        valid_name_spec(name),
        0 <= k < ms.len(),
        ms[k].id@ == id,
        ms[k].address.address == source.address,
    ensures
        new_ms.len() == ms.len(),
        replies.len() >= 1,
        replies[0].text@ == "REGISTERED "@ + source.text@,
        new_ms[k].last_seen == now,
        new_ms[k].name@ == name,
{
    assert(with_id(id)(ms[k]));
    lemma_first_of(ms, with_id(id));
    let i = first_of(ms, with_id(id));
    assert(i == k) by {
        if i != k {
            assert(ms[i].id@ != ms[k].id@);
        }
    }
    if any_of(ms, clashing(id, source.address)) {
        let j = choose|j: int| 0 <= j < ms.len() && clashing(id, source.address)(#[trigger] ms[j]);
        if j != k {
            assert(ms[j].id@ != ms[k].id@);
            assert(ms[j].address.address != ms[k].address.address);
        }
    }
}

/// A successful registration leaves exactly one member with that ID, registered from
/// the request's address.
pub proof fn law_registered_member_is_listed(
    ms: Seq<Member>,
    id: Seq<char>,
    name: Seq<char>,
    source: Endpoint,
    now: u64,
    new_ms: Seq<Member>,
    replies: Seq<Reply>,
)
    requires
        members_wf(ms),
        members_wf(new_ms),
        register_outcome(ms, id, name, source, now, new_ms, replies),
        valid_name_spec(name),
        !any_of(ms, clashing(id, source.address)),
        any_of(ms, with_id(id)) || ms.len() < MAX_MEMBERS,
    ensures
        any_of(new_ms, with_id(id)),
        new_ms[first_of(new_ms, with_id(id))].address.address == source.address,
        new_ms[first_of(new_ms, with_id(id))].last_seen == now,
{
    if any_of(ms, with_id(id)) {
        lemma_first_of(ms, with_id(id));
        let i = first_of(ms, with_id(id));
        assert(with_id(id)(new_ms[i]));
        lemma_first_of(new_ms, with_id(id));
        let f = first_of(new_ms, with_id(id));
        if f != i {
            assert(new_ms[f].id@ != new_ms[i].id@);
        }
        assert(!clashing(id, source.address)(ms[i]));
    } else {
        let n = ms.len() as int;
        assert(new_ms[n] == new_ms.last());
        assert(with_id(id)(new_ms[n]));
        lemma_first_of(new_ms, with_id(id));
        let f = first_of(new_ms, with_id(id));
        if f != n {
            assert(new_ms[f].id@ != new_ms[n].id@);
        }
    }
}

/// Whether `id` is a valid member ID.
pub fn valid_id(id: &Vec<char>) -> (valid: bool)
    ensures
        valid == valid_id_spec(id@),
{
    if id.len() == 0 || id.len() > MAX_ID_CHARACTERS {
        return false;
    }
    let mut i: usize = 0;
    while i < id.len()
        invariant
            i <= id@.len(),
            forall|j: int| 0 <= j < i ==> is_id_char(#[trigger] id@[j]),
        decreases id@.len() - i,
    {
        let u = id[i] as u32;
        let ok = (48 <= u && u <= 57) || (65 <= u && u <= 90) || (97 <= u && u <= 122) || u == 45
            || u == 95;
        if !ok {
            return false;
        }
        i = i + 1;
    }
    true
}

/// Whether `name` is a valid display name.
pub fn valid_name(name: &Vec<char>) -> (valid: bool)
    ensures
        valid == valid_name_spec(name@),
{
    valid_name_chars(name)
}

/// The presence packet text for `kind`, `id` and `name`.
pub fn presence_packet(kind: &str, id: &str, name: &str) -> (packet: String)
    ensures
        packet@ == presence_text(kind@, id@, name@),
{
    let mut packet = "bit-to-byte/1\n".to_owned();
    push_str(&mut packet, kind);
    push_str(&mut packet, "\n");
    push_str(&mut packet, id);
    push_str(&mut packet, "\n");
    push_str(&mut packet, name);
    packet
}

impl Server {
    /// The invariant of the member list.
    pub open spec fn wf(&self) -> bool {
        members_wf(self.members@)
    }

    /// A server with no registrations.
    pub fn new() -> (server: Server)
        ensures
            server.members@.len() == 0,
            server.wf(),
    {
        Server { members: Vec::new() }
    }

    /// The position of the member with this ID.
    pub fn member_index(&self, id: &str) -> (found: Option<usize>)
        ensures
            found is None <==> !any_of(self.members@, with_id(id@)),
            found matches Some(i) ==> i == first_of(self.members@, with_id(id@)) && is_first(
                self.members@,
                with_id(id@),
                i as int,
            ),
    {
        let mut index: usize = 0;
        while index < self.members.len()
            invariant
                index <= self.members@.len(),
                forall|j: int| 0 <= j < index ==> !with_id(id@)(#[trigger] self.members@[j]),
            decreases self.members@.len() - index,
        {
            if same_text(self.members[index].id.as_str(), id) {
                proof {
                    assert(is_first(self.members@, with_id(id@), index as int));
                    lemma_found_first(self.members@, with_id(id@), index as int);
                }
                return Some(index);
            }
            index = index + 1;
        }
        None
    }

    /// The position of the member registered from this address.
    pub fn member_at(&self, address: Address) -> (found: Option<usize>)
        ensures
            found is None <==> !any_of(self.members@, at_address(address)),
            found matches Some(i) ==> i == first_of(self.members@, at_address(address)) && is_first(
                self.members@,
                at_address(address),
                i as int,
            ),
    {
        let mut index: usize = 0;
        while index < self.members.len()
            invariant
                index <= self.members@.len(),
                forall|j: int| 0 <= j < index ==> !at_address(address)(#[trigger] self.members@[j]),
            decreases self.members@.len() - index,
        {
            if self.members[index].address.address == address {
                proof {
                    lemma_found_first(self.members@, at_address(address), index as int);
                }
                return Some(index);
            }
            index = index + 1;
        }
        None
    }

    /// Drop the registrations that have not been refreshed for `REGISTRATION_LIFETIME`.
    pub fn remove_expired_members(&mut self, now: u64)
        requires
            old(self).wf(),
        ensures
            final(self).members@ == live_members(old(self).members@, now),
            final(self).wf(),
    {
        let ghost original = self.members@;
        let total = self.members.len();
        let mut index: usize = 0;
        let mut j: usize = 0;
        while index < self.members.len()
            invariant
                original == old(self).members@,
                original.len() == total,
                j <= original.len(),
                index == live_members(original.take(j as int), now).len(),
                self.members@ == live_members(original.take(j as int), now) + original.skip(
                    j as int,
                ),
            decreases original.len() - j,
        {
            proof {
                assert(j < original.len());
                assert(original.take(j + 1).drop_last() =~= original.take(j as int));
                assert(original.take(j + 1).last() == original[j as int]);
                assert(self.members@[index as int] == original[j as int]);
            }
            let waited = now.saturating_sub(self.members[index].last_seen);
            if waited >= REGISTRATION_LIFETIME {
                self.members.remove(index);
                assert(self.members@ =~= live_members(original.take(j + 1), now) + original.skip(
                    j + 1,
                ));
            } else {
                assert(self.members@ =~= live_members(original.take(j + 1), now) + original.skip(
                    j + 1,
                ));
                index = index + 1;
            }
            j = j + 1;
        }
        proof {
            assert(original.skip(j as int).len() == 0);
            if j < original.len() {
                assert(false);
            }
            assert(original.take(j as int) =~= original);
            lemma_live_members_wf(original, now);
        }
    }

    /// The `REGISTERED` answer and a hello for each recent peer, all sent to `source`.
    fn registered_answers(&self, id: &String, source: &Endpoint, now: u64) -> (replies: Vec<Reply>)
        ensures
            registered_replies(self.members@, id@, *source, now, replies@),
    {
        let mut replies: Vec<Reply> = Vec::new();
        let mut first = "REGISTERED ".to_owned();
        push_str(&mut first, source.text.as_str());
        replies.push(Reply { address: source.duplicate(), text: first });
        let ghost ms = self.members@;
        let mut k: usize = 0;
        while k < self.members.len()
            invariant
                ms == self.members@,
                k <= ms.len(),
                replies@.len() == recent_peers(ms.take(k as int), id@, now).len() + 1,
                replies@[0].address == *source,
                replies@[0].text@ == "REGISTERED "@ + source.text@,
                forall|q: int|
                    0 <= q < recent_peers(ms.take(k as int), id@, now).len() ==> (#[trigger] replies@[q
                        + 1]).address == *source && replies@[q + 1].text@ == presence_text(
                        "hello"@,
                        recent_peers(ms.take(k as int), id@, now)[q].id@,
                        recent_peers(ms.take(k as int), id@, now)[q].name@,
                    ),
            decreases ms.len() - k,
        {
            assert(ms.take(k + 1).drop_last() =~= ms.take(k as int));
            let member = &self.members[k];
            let waited = now.saturating_sub(member.last_seen);
            if !same_text(member.id.as_str(), id.as_str()) && waited < PRESENCE_LIFETIME {
                let text = presence_packet("hello", member.id.as_str(), member.name.as_str());
                replies.push(Reply { address: source.duplicate(), text });
            }
            k = k + 1;
        }
        assert(ms.take(ms.len() as int) =~= ms);
        replies
    }

    /// Save or refresh the registration of `id` with `name` from `source`.
    pub fn register(&mut self, id: &Vec<char>, name: &Vec<char>, source: &Endpoint, now: u64) -> (replies: Vec<Reply>)
        requires
            old(self).wf(),
        ensures
            register_outcome(old(self).members@, id@, name@, *source, now, final(self).members@, replies@),
            final(self).wf(),
    {
        let mut replies: Vec<Reply> = Vec::new();
        if !valid_name(name) {
            return replies;
        }
        let id_text = text_of(id);
        let ghost clash = clashing(id@, source.address);
        let mut k: usize = 0;
        while k < self.members.len()
            invariant
                self.members@ == old(self).members@,
                members_wf(self.members@),
                valid_name_spec(name@),
                clash == clashing(id@, source.address),
                k <= self.members@.len(),
                id_text@ == id@,
                replies@.len() == 0,
                forall|j: int| 0 <= j < k ==> !clash(#[trigger] self.members@[j]),
            decreases self.members@.len() - k,
        {
            let member = &self.members[k];
            let same_id = same_text(member.id.as_str(), id_text.as_str());
            let same_address = member.address.address == source.address;
            if same_id && !same_address {
                proof {
                    lemma_found_first(self.members@, clash, k as int);
                }
                replies.push(Reply { address: source.duplicate(), text: "ERROR id-in-use".to_owned() });
                return replies;
            }
            if same_address && !same_id {
                proof {
                    lemma_found_first(self.members@, clash, k as int);
                }
                replies.push(
                    Reply { address: source.duplicate(), text: "ERROR address-in-use".to_owned() },
                );
                return replies;
            }
            k = k + 1;
        }
        assert(!any_of(self.members@, clash));
        match self.member_index(id_text.as_str()) {
            Some(index) => {
                self.members[index].name = text_of(name);
                self.members[index].last_seen = now;
                proof {
                    let ghost ms = self.members@;
                    let ghost om = old(self).members@;
                    assert forall|a: int, b: int|
                        0 <= a < ms.len() && 0 <= b < ms.len() && a != b implies (#[trigger] ms[a]).id@
                        != (#[trigger] ms[b]).id@ && ms[a].address.address != ms[b].address.address by {
                        assert(ms[a].id == om[a].id && ms[a].address == om[a].address);
                        assert(ms[b].id == om[b].id && ms[b].address == om[b].address);
                    }
                }
            },
            None => {
                if self.members.len() >= MAX_MEMBERS {
                    return replies;
                }
                let member = Member {
                    id: text_of(id),
                    name: text_of(name),
                    address: source.duplicate(),
                    last_seen: now,
                };
                self.members.push(member);
                proof {
                    let ghost ms = self.members@;
                    let ghost om = old(self).members@;
                    assert(ms.take(om.len() as int) =~= om);
                    assert forall|a: int, b: int|
                        0 <= a < ms.len() && 0 <= b < ms.len() && a != b implies (#[trigger] ms[a]).id@
                        != (#[trigger] ms[b]).id@ && ms[a].address.address != ms[b].address.address by {
                        if a == om.len() {
                            assert(ms[b] == om[b]);
                            assert(!clash(om[b]));
                            assert(!with_id(id@)(om[b]));
                        } else if b == om.len() {
                            assert(ms[a] == om[a]);
                            assert(!clash(om[a]));
                            assert(!with_id(id@)(om[a]));
                        } else {
                            assert(ms[a] == om[a]);
                            assert(ms[b] == om[b]);
                        }
                    }
                }
            },
        }
        self.registered_answers(&id_text, source, now)
    }

    /// Remove the registration of `id` when the request comes from its address,
    /// and tell every remaining member that the person left.
    pub fn goodbye(&mut self, id: &Vec<char>, source: &Endpoint) -> (replies: Vec<Reply>)
        requires
            old(self).wf(),
        ensures
            goodbye_outcome(old(self).members@, id@, *source, final(self).members@, replies@),
            final(self).wf(),
    {
        let mut replies: Vec<Reply> = Vec::new();
        let id_text = text_of(id);
        let index = match self.member_index(id_text.as_str()) {
            Some(index) => index,
            None => return replies,
        };
        if self.members[index].address.address != source.address {
            return replies;
        }
        let leaving = self.members.remove(index);
        let text = presence_packet("goodbye", leaving.id.as_str(), leaving.name.as_str());
        let mut k: usize = 0;
        while k < self.members.len()
            invariant
                self.members@ == old(self).members@.remove(index as int),
                k <= self.members@.len(),
                text@ == presence_text("goodbye"@, leaving.id@, leaving.name@),
                replies@.len() == k,
                forall|q: int|
                    0 <= q < k ==> (#[trigger] replies@[q]).address == self.members@[q].address
                        && replies@[q].text@ == text@,
            decreases self.members@.len() - k,
        {
            replies.push(Reply { address: self.members[k].address.duplicate(), text: text.clone() });
            k = k + 1;
        }
        proof {
            let ghost ms = self.members@;
            let ghost om = old(self).members@;
            assert forall|a: int, b: int|
                0 <= a < ms.len() && 0 <= b < ms.len() && a != b implies (#[trigger] ms[a]).id@
                != (#[trigger] ms[b]).id@ && ms[a].address.address != ms[b].address.address by {
                let oa = if a < index { a } else { a + 1 };
                let ob = if b < index { b } else { b + 1 };
                assert(ms[a] == om[oa]);
                assert(ms[b] == om[ob]);
            }
        }
        replies
    }

    /// Forward `payload` to `recipient` on behalf of the member registered at `source`.
    pub fn relay(&self, recipient: &Vec<char>, payload: &Vec<char>, source: &Endpoint) -> (replies: Vec<Reply>)
        ensures
            relay_outcome(self.members@, recipient@, payload@, *source, replies@),
    {
        let mut replies: Vec<Reply> = Vec::new();
        if payload.len() == 0 || !utf8_len_within(payload, MAX_PAYLOAD_BYTES) {
            return replies;
        }
        // The sender is identified by its registered address, not by a packet claim.
        let ghost from = at_address(source.address);
        let sender = self.member_at(source.address);
        let sender = match sender {
            Some(index) => index,
            None => {
                assert(!any_of(self.members@, from));
                return replies;
            },
        };
        let recipient_text = text_of(recipient);
        match self.member_index(recipient_text.as_str()) {
            Some(index) => {
                if self.members[index].address.address != source.address {
                    let mut text = "FROM ".to_owned();
                    push_str(&mut text, self.members[sender].id.as_str());
                    push_str(&mut text, " ");
                    let payload_text = text_of(payload);
                    push_str(&mut text, payload_text.as_str());
                    replies.push(Reply { address: self.members[index].address.duplicate(), text });
                    return replies;
                }
            },
            None => {},
        }
        replies.push(
            Reply { address: source.duplicate(), text: "ERROR peer-unavailable".to_owned() },
        );
        replies
    }

    /// Answer one request `text` that arrived from `source` at `now`.
    pub fn handle(&mut self, text: &str, source: Endpoint, now: u64) -> (replies: Vec<Reply>)
        requires
            old(self).wf(),
        ensures
            handle_outcome(old(self).members@, text@, source, now, final(self).members@, replies@),
            final(self).wf(),
    {
        self.remove_expired_members(now);
        // Keep spaces in display names and message bodies.
        let chars = chars_of(text);
        let words = splitn_chars(&chars, 3, ' ');
        if words.len() < 2 {
            return Vec::new();
        }
        let command = &words[0];
        let person_id = &words[1];
        let empty: Vec<char> = Vec::new();
        let body = if words.len() == 3 {
            &words[2]
        } else {
            &empty
        };
        if !valid_id(person_id) {
            return Vec::new();
        }
        assert(request_parts(text@) == Some((command@, person_id@, body@)));
        let register_word = chars_of("REGISTER");
        let relay_word = chars_of("RELAY");
        let goodbye_word = chars_of("GOODBYE");
        if chars_eq(command.as_slice(), register_word.as_slice()) {
            return self.register(person_id, body, &source, now);
        }
        if chars_eq(command.as_slice(), relay_word.as_slice()) {
            return self.relay(person_id, body, &source);
        }
        if chars_eq(command.as_slice(), goodbye_word.as_slice()) && body.len() == 0 {
            return self.goodbye(person_id, &source);
        }
        Vec::new()
    }
}

} // verus!
