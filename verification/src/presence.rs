//! Keep the people list up to date from hello and goodbye packets.
//!
//! A presence packet has four lines:
//!
//!     bit-to-byte/1
//!     hello            (or goodbye)
//!     <person id>
//!     <display name>
use vstd::prelude::*;
use vstd::utf8::*;

use crate::state::{
    App, Person, has_person, ids_distinct, is_first_with_id, lemma_person_index, person_index,
    same_except_people,
};
use crate::text::{
    all_whitespace, chars_eq, chars_of, decode_chars, has_control, is_control, is_control_spec,
    lemma_split_first_piece, split_chars, split_spec, starts_with_chars, text_of, trim_chars, utf8_len_within,
};

verus! {

broadcast use vstd::string::group_string_axioms;

/// Someone whose hello has not been repeated for this long is shown offline (milliseconds).
pub const OFFLINE_AFTER: u64 = 8000;

/// The longest display name, in characters.
pub const MAX_NAME_CHARACTERS: usize = 40;

/// The longest person ID, in UTF-8 bytes.
pub const MAX_ID_BYTES: usize = 64;

/// Milliseconds from `then` to `now`, or zero when `then` is later (`Instant::duration_since`).
pub open spec fn elapsed(now: u64, then: u64) -> int {
    if now >= then {
        now - then
    } else {
        0
    }
}

/// A display name: not blank, at most forty characters, no control characters.
pub open spec fn valid_name_spec(name: Seq<char>) -> bool {
    &&& !all_whitespace(name)
    &&& name.len() <= MAX_NAME_CHARACTERS
    &&& !has_control(name)
}

/// What a well-formed presence packet from someone else announces:
/// whether it is a hello, the person's ID and their name.
pub open spec fn presence_message(text: Seq<char>, own_id: Seq<char>) -> Option<
    (bool, Seq<char>, Seq<char>),
> {
    let lines = split_spec(text, '\n');
    if lines.len() == 4 && lines[0] == "bit-to-byte/1"@ && (lines[1] == "hello"@ || lines[1]
        == "goodbye"@) && lines[2].len() > 0 && encode_utf8(lines[2]).len() <= MAX_ID_BYTES
        && valid_name_spec(lines[3]) && lines[2] != own_id {
        Some((lines[1] == "hello"@, lines[2], lines[3]))
    } else {
        None
    }
}

/// A person after a hello (`online`) or goodbye (`!online`) heard at `now`.
pub open spec fn heard(p: Person, online: bool, now: u64) -> Person {
    Person { online: online, last_seen: now, ..p }
}

/// A newly listed person: online, seen now, with no messages and an empty draft.
pub open spec fn is_new_person(p: Person, id: Seq<char>, name: Seq<char>, now: u64) -> bool {
    &&& p.id@ == id
    &&& p.name@ == name
    &&& p.online
    &&& p.last_seen == now
    &&& p.messages@.len() == 0
    &&& p.draft@.len() == 0
}

/// `new` is `old` after the presence packet `text` arrived at `now`.
pub open spec fn presence_applied(
    old: App,
    new: App,
    text: Seq<char>,
    own_id: Seq<char>,
    now: u64,
) -> bool {
    &&& same_except_people(new, old)
    &&& match presence_message(text, own_id) {
        None => new.people@ == old.people@,
        Some((hello, id, name)) => if has_person(old.people@, id) {
            let i = person_index(old.people@, id);
            new.people@ == old.people@.update(i, heard(old.people@[i], hello, now))
        } else if hello {
            &&& new.people@.len() == old.people@.len() + 1
            &&& new.people@.take(old.people@.len() as int) == old.people@
            &&& is_new_person(new.people@.last(), id, name, now)
        } else {
            new.people@ == old.people@
        },
    }
}

/// `new` is `old` after the people not heard from for `OFFLINE_AFTER` were marked offline.
pub open spec fn offline_marked(old: App, new: App, now: u64) -> bool {
    &&& same_except_people(new, old)
    &&& new.people@.len() == old.people@.len()
    &&& forall|i: int|
        0 <= i < old.people@.len() ==> #[trigger] new.people@[i] == checked(old.people@[i], now)
}

/// A person after the offline check at `now`: offline once `OFFLINE_AFTER` has passed
/// since they were last heard, and otherwise unchanged.
pub open spec fn checked(p: Person, now: u64) -> Person {
    Person { online: p.online && elapsed(now, p.last_seen) < OFFLINE_AFTER, ..p }
}

/// A packet whose text does not start with the protocol line changes no one: every
/// presence packet starts with `bit-to-byte/1` and a line break.
pub proof fn law_non_presence_text_changes_nothing(
    old: App,
    new: App,
    text: Seq<char>,
    own_id: Seq<char>,
    now: u64,
)
    requires
        presence_applied(old, new, text, own_id, now),
        !"bit-to-byte/1\n"@.is_prefix_of(text),
    ensures
        presence_message(text, own_id) is None,
        new.people@ == old.people@,
        same_except_people(new, old),
{
    lemma_split_first_piece(text, '\n');
    let lines = split_spec(text, '\n');
    if presence_message(text, own_id) is Some {
        reveal_strlit("bit-to-byte/1");
        reveal_strlit("bit-to-byte/1\n");
        let first = lines[0];
        assert(first.len() == 13);
        assert(text.subrange(0, 14) =~= "bit-to-byte/1\n"@);
    }
}

/// The offline check never brings anyone online: a person is shown offline once
/// `OFFLINE_AFTER` has passed since they were last heard, keeps their status before
/// that, and keeps their ID, name, last-seen time, conversation and draft.
pub proof fn law_offline_check_only_takes_people_offline(old: App, new: App, now: u64)
    requires
        offline_marked(old, new, now),
    ensures
        new.people@.len() == old.people@.len(),
        forall|i: int|
            0 <= i < old.people@.len() ==> {
                let p = old.people@[i];
                let q = #[trigger] new.people@[i];
                &&& q.online ==> p.online
                &&& (now < p.last_seen || now - p.last_seen < OFFLINE_AFTER) ==> q.online
                    == p.online
                &&& (now >= p.last_seen && now - p.last_seen >= OFFLINE_AFTER) ==> !q.online
                &&& q.id == p.id
                &&& q.name == p.name
                &&& q.last_seen == p.last_seen
                &&& q.messages == p.messages
                &&& q.draft == p.draft
            },
{
}

/// Whether `name` may be shown as a display name.
pub fn is_valid_name(name: &str) -> (valid: bool)
    ensures
        valid == valid_name_spec(name@),
{
    let chars = chars_of(name);
    valid_name_chars(&chars)
}

/// Whether the characters form a valid display name.
pub fn valid_name_chars(name: &Vec<char>) -> (valid: bool)
    ensures
        valid == valid_name_spec(name@),
{
    let trimmed = trim_chars(name);
    if trimmed.len() == 0 {
        return false;
    }
    if name.len() > MAX_NAME_CHARACTERS {
        return false;
    }
    let mut i: usize = 0;
    while i < name.len()
        invariant
            i <= name@.len(),
            forall|j: int| 0 <= j < i ==> !is_control_spec(#[trigger] name@[j]),
        decreases name@.len() - i,
    {
        if is_control(name[i]) {
            return false;
        }
        i = i + 1;
    }
    true
}

/// Whether a packet is a presence packet: it starts with the protocol line.
pub fn is_presence_packet(text: &str) -> (r: bool)
    ensures
        r == "bit-to-byte/1\n"@.is_prefix_of(text@),
{
    let chars = chars_of(text);
    let prefix = chars_of("bit-to-byte/1\n");
    starts_with_chars(chars.as_slice(), prefix.as_slice())
}

/// Update the people list from a presence packet received at `now`.
/// Packets that are not valid UTF-8, malformed, or about ourselves change nothing.
pub fn receive_packet(app: &mut App, packet: &[u8], own_id: &str, now: u64)
    ensures
        !valid_utf8(packet@) ==> *final(app) == *old(app),
        valid_utf8(packet@) ==> presence_applied(
            *old(app),
            *final(app),
            decode_utf8(packet@),
            own_id@,
            now,
        ),
        ids_distinct(old(app).people@) ==> ids_distinct(final(app).people@),
{
    match decode_chars(packet) {
        Some(text) => receive_presence(app, &text, own_id, now),
        None => {},
    }
}

/// Update the people list from the text of a presence packet received at `now`.
pub fn receive_presence(app: &mut App, text: &Vec<char>, own_id: &str, now: u64)
    ensures
        presence_applied(*old(app), *final(app), text@, own_id@, now),
        ids_distinct(old(app).people@) ==> ids_distinct(final(app).people@),
{
    let lines = split_chars(text, '\n');
    if lines.len() != 4 {
        return;
    }
    let protocol = chars_of("bit-to-byte/1");
    if !chars_eq(lines[0].as_slice(), protocol.as_slice()) {
        return;
    }
    let hello_word = chars_of("hello");
    let goodbye_word = chars_of("goodbye");
    let is_hello = chars_eq(lines[1].as_slice(), hello_word.as_slice());
    if !is_hello && !chars_eq(lines[1].as_slice(), goodbye_word.as_slice()) {
        return;
    }
    let id_chars = &lines[2];
    if id_chars.len() == 0 || !utf8_len_within(id_chars, MAX_ID_BYTES) {
        return;
    }
    if !valid_name_chars(&lines[3]) {
        return;
    }
    let own = chars_of(own_id);
    // The relay may echo our own registration. We should not list ourselves.
    if chars_eq(id_chars.as_slice(), own.as_slice()) {
        return;
    }
    let id = text_of(id_chars);
    assert(presence_message(text@, own_id@) == Some((is_hello, id@, lines@[3]@)));
    match app.find_person_index(id.as_str()) {
        Some(i) => {
            app.people[i].online = is_hello;
            app.people[i].last_seen = now;
            assert(app.people@ =~= old(app).people@.update(
                i as int,
                heard(old(app).people@[i as int], is_hello, now),
            ));
            proof {
                let ghost p = app.people@;
                assert forall|a: int, b: int|
                    ids_distinct(old(app).people@) && 0 <= a < p.len() && 0 <= b < p.len() && a
                        != b implies (#[trigger] p[a]).id@ != (#[trigger] p[b]).id@ by {
                    assert(p[a].id == old(app).people@[a].id);
                    assert(p[b].id == old(app).people@[b].id);
                }
            }
        },
        None => {
            // A goodbye from someone we never saw should not create a conversation.
            if is_hello {
                let name = text_of(&lines[3]);
                let person = Person {
                    id,
                    name,
                    online: true,
                    last_seen: now,
                    messages: Vec::new(),
                    draft: String::new(),
                };
                app.people.push(person);
                assert(app.people@.take(old(app).people@.len() as int) =~= old(app).people@);
                proof {
                    let ghost p = app.people@;
                    let ghost n = old(app).people@.len();
                    assert forall|a: int, b: int|
                        ids_distinct(old(app).people@) && 0 <= a < p.len() && 0 <= b < p.len()
                            && a != b implies (#[trigger] p[a]).id@ != (#[trigger] p[b]).id@ by {
                        if a < n && b < n {
                            assert(p[a] == old(app).people@[a]);
                            assert(p[b] == old(app).people@[b]);
                        } else if a == n {
                            assert(p[b] == old(app).people@[b]);
                        } else {
                            assert(p[a] == old(app).people@[a]);
                        }
                    }
                }
            }
        },
    }
}

/// Show as offline everyone whose hello has not been repeated for `OFFLINE_AFTER`.
pub fn mark_missing_people_offline(app: &mut App, now: u64)
    ensures
        offline_marked(*old(app), *final(app), now),
        ids_distinct(old(app).people@) ==> ids_distinct(final(app).people@),
{
    let n = app.people.len();
    let mut i: usize = 0;
    while i < n
        invariant
            n == old(app).people@.len(),
            n == app.people@.len(),
            i <= n,
            same_except_people(*app, *old(app)),
            forall|k: int|
                0 <= k < i ==> #[trigger] app.people@[k] == checked(old(app).people@[k], now),
            forall|k: int| i <= k < n ==> #[trigger] app.people@[k] == old(app).people@[k],
        decreases n - i,
    {
        let waited = now.saturating_sub(app.people[i].last_seen);
        if waited >= OFFLINE_AFTER {
            app.people[i].online = false;
        }
        i = i + 1;
    }
    proof {
        let ghost p = app.people@;
        assert forall|a: int, b: int|
            ids_distinct(old(app).people@) && 0 <= a < p.len() && 0 <= b < p.len() && a
                != b implies (#[trigger] p[a]).id@ != (#[trigger] p[b]).id@ by {
            assert(p[a].id == old(app).people@[a].id);
            assert(p[b].id == old(app).people@[b].id);
        }
    }
}

/// A hello or goodbye for someone already listed changes only that person's online flag
/// and last-seen time: the list keeps its length, and their conversation and draft stay.
pub proof fn law_presence_keeps_conversations(
    old: App,
    new: App,
    text: Seq<char>,
    own_id: Seq<char>,
    now: u64,
)
    requires
        presence_applied(old, new, text, own_id, now),
        presence_message(text, own_id) matches Some((hello, id, name)) && has_person(old.people@, id),
    ensures
        ({
            let (hello, id, name) = presence_message(text, own_id)->0;
            let i = person_index(old.people@, id);
            &&& new.people@.len() == old.people@.len()
            &&& new.people@[i].online == hello
            &&& new.people@[i].last_seen == now
            &&& new.people@[i].messages == old.people@[i].messages
            &&& new.people@[i].draft == old.people@[i].draft
            &&& new.people@[i].name == old.people@[i].name
        }),
{
    let (hello, id, name) = presence_message(text, own_id)->0;
    lemma_person_index(old.people@, id);
}

/// Our own ID never names anyone in the list: a packet about ourselves changes nothing.
pub proof fn law_own_packets_ignored(old: App, new: App, text: Seq<char>, own_id: Seq<char>, now: u64)
    requires
        presence_applied(old, new, text, own_id, now),
        split_spec(text, '\n').len() == 4,
        split_spec(text, '\n')[2] == own_id,
    ensures
        new.people@ == old.people@,
{
}

/// Someone marked offline after missing their hellos is online again after a later hello.
pub proof fn law_later_hello_restores(
    a0: App,
    a1: App,
    a2: App,
    check_time: u64,
    text: Seq<char>,
    own_id: Seq<char>,
    now: u64,
)
    requires
        offline_marked(a0, a1, check_time),
        presence_applied(a1, a2, text, own_id, now),
        presence_message(text, own_id) matches Some((hello, id, name)) && hello,
    ensures
        ({
            let (hello, id, name) = presence_message(text, own_id)->0;
            &&& has_person(a2.people@, id)
            &&& a2.people@[person_index(a2.people@, id)].online
        }),
{
    let (hello, id, name) = presence_message(text, own_id)->0;
    if has_person(a1.people@, id) {
        lemma_person_index(a1.people@, id);
        let i = person_index(a1.people@, id);
        assert(a2.people@[i].id@ == id);
        assert(has_person(a2.people@, id));
        lemma_person_index(a2.people@, id);
        assert(is_first_with_id(a2.people@, id, i)) by {
            assert forall|j: int| 0 <= j < i implies (#[trigger] a2.people@[j]).id@ != id by {
                assert(a2.people@[j] == a1.people@[j]);
            }
        }
    } else {
        let n = a1.people@.len() as int;
        assert(a2.people@[n].id@ == id);
        assert(has_person(a2.people@, id));
        lemma_person_index(a2.people@, id);
        assert(is_first_with_id(a2.people@, id, n)) by {
            assert forall|j: int| 0 <= j < n implies (#[trigger] a2.people@[j]).id@ != id by {
                assert(a2.people@[j] == a2.people@.take(n)[j]);
            }
        }
    }
}

/// Only a hello adds someone, and at most one person at a time: people are never removed.
pub proof fn law_presence_adds_at_most_one(old: App, new: App, text: Seq<char>, own_id: Seq<char>, now: u64)
    requires
        presence_applied(old, new, text, own_id, now),
    ensures
        old.people@.len() <= new.people@.len() <= old.people@.len() + 1,
        new.people@.len() == old.people@.len() + 1 ==> (presence_message(text, own_id) matches Some(
            (hello, id, name),
        ) && hello && !has_person(old.people@, id)),
{
    if let Some((hello, id, name)) = presence_message(text, own_id) {
        if has_person(old.people@, id) {
            lemma_person_index(old.people@, id);
        }
    }
}

} // verus!
