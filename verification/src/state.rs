//! The application data: people, their conversations and drafts, and what the user sees.
use vstd::prelude::*;

use crate::tabs;
use crate::text::same_text;

verus! {

broadcast use vstd::string::group_string_axioms;

/// The longest message or draft, in characters.
pub const MAX_MESSAGE_CHARACTERS: usize = 500;

/// The most messages that may wait for delivery at once.
pub const MAX_PENDING_MESSAGES: usize = 64;

/// What we know about one of our own messages.
#[derive(Debug, PartialEq, Eq, Structural, Clone, Copy)]
pub enum Delivery {
    /// Queued or sent, still waiting for the other app to confirm.
    Sending,
    /// The other app confirmed that it received the message.
    Delivered,
    /// No confirmation arrived in time. The message may still have arrived.
    Unconfirmed,
}

impl Delivery {
    /// The word shown beside a message with this status.
    pub open spec fn label_spec(self) -> Seq<char> {
        match self {
            Delivery::Sending => "sending"@,
            Delivery::Delivered => "delivered"@,
            Delivery::Unconfirmed => "unconfirmed"@,
        }
    }

    /// The word shown beside a message with this status.
    pub fn label(&self) -> (label: &'static str)
        ensures
            label@ == self.label_spec(),
    {
        match self {
            Delivery::Sending => "sending",
            Delivery::Delivered => "delivered",
            Delivery::Unconfirmed => "unconfirmed",
        }
    }
}

/// One line in a conversation.
#[derive(Debug, PartialEq, Eq)]
pub struct Message {
    pub from_me: bool,
    pub text: String,
    /// Only our own messages have a delivery status.
    pub delivery: Option<Delivery>,
}

impl Message {
    /// A message that someone else sent us.
    pub fn received(text: &str) -> (m: Message)
        ensures
            !m.from_me,
            m.text@ == text@,
            m.delivery is None,
    {
        Message { from_me: false, text: text.to_owned(), delivery: None }
    }

    /// A message we sent, still waiting for confirmation.
    pub fn sent(text: &str) -> (m: Message)
        ensures
            m.from_me,
            m.text@ == text@,
            m.delivery == Some(Delivery::Sending),
    {
        Message { from_me: true, text: text.to_owned(), delivery: Some(Delivery::Sending) }
    }
}

/// Someone in the people list, with our conversation and our unsent draft for them.
pub struct Person {
    pub id: String,
    pub name: String,
    pub online: bool,
    /// When we last heard a hello or goodbye for this person, in milliseconds.
    pub last_seen: u64,
    pub messages: Vec<Message>,
    pub draft: String,
}

/// A message the user pressed Enter on. The network sends it later and
/// updates the delivery status of the message at `message_index`.
pub struct OutgoingMessage {
    pub person_id: String,
    pub text: String,
    pub message_index: usize,
}

/// Everything the screen shows and the keyboard changes.
pub struct App {
    pub name: String,
    pub network_status: String,
    pub outbox: Vec<OutgoingMessage>,
    pub running: bool,
    pub typing: bool,
    pub view: tabs::View,
    pub people: Vec<Person>,
    pub selected_person: usize,
    pub announcements: Vec<String>,
}

/// `i` is the first position in `people` of someone with this ID.
pub open spec fn is_first_with_id(people: Seq<Person>, id: Seq<char>, i: int) -> bool {
    &&& 0 <= i < people.len()
    &&& people[i].id@ == id
    &&& forall|j: int| 0 <= j < i ==> (#[trigger] people[j]).id@ != id
}

/// Someone in `people` has this ID.
pub open spec fn has_person(people: Seq<Person>, id: Seq<char>) -> bool {
    exists|i: int| 0 <= i < people.len() && (#[trigger] people[i]).id@ == id
}

/// The first position of someone with this ID (meaningful when `has_person`).
pub open spec fn person_index(people: Seq<Person>, id: Seq<char>) -> int {
    choose|i: int| is_first_with_id(people, id, i)
}

/// No two people share an ID.
pub open spec fn ids_distinct(people: Seq<Person>) -> bool {
    forall|i: int, j: int|
        0 <= i < people.len() && 0 <= j < people.len() && i != j ==> (#[trigger] people[i]).id@
            != (#[trigger] people[j]).id@
}

/// The two apps differ only in their people lists.
pub open spec fn same_except_people(a: App, b: App) -> bool {
    &&& a.name == b.name
    &&& a.network_status == b.network_status
    &&& a.outbox@ == b.outbox@
    &&& a.running == b.running
    &&& a.typing == b.typing
    &&& a.view == b.view
    &&& a.selected_person == b.selected_person
    &&& a.announcements@ == b.announcements@
}

pub proof fn lemma_person_index(people: Seq<Person>, id: Seq<char>)
    requires
        has_person(people, id),
    ensures
        is_first_with_id(people, id, person_index(people, id)),
        forall|k: int| is_first_with_id(people, id, k) ==> k == person_index(people, id),
{
    let w = choose|i: int| 0 <= i < people.len() && (#[trigger] people[i]).id@ == id;
    lemma_first_exists(people, id, w);
    let f = person_index(people, id);
    assert forall|k: int| is_first_with_id(people, id, k) implies k == f by {
        if k < f {
            assert(people[k].id@ != id);
        }
        if f < k {
            assert(people[f].id@ != id);
        }
    }
}

proof fn lemma_first_exists(people: Seq<Person>, id: Seq<char>, w: int)
    requires
        0 <= w < people.len(),
        people[w].id@ == id,
    ensures
        exists|i: int| is_first_with_id(people, id, i),
    decreases w,
{
    if forall|j: int| 0 <= j < w ==> (#[trigger] people[j]).id@ != id {
        assert(is_first_with_id(people, id, w));
    } else {
        let v = choose|j: int| 0 <= j < w && (#[trigger] people[j]).id@ == id;
        lemma_first_exists(people, id, v);
    }
}

/// The two lists hold people with the same IDs at the same positions.
pub open spec fn same_ids(a: Seq<Person>, b: Seq<Person>) -> bool {
    &&& a.len() == b.len()
    &&& forall|j: int| 0 <= j < a.len() ==> (#[trigger] a[j]).id == b[j].id
}

/// Lists with the same IDs find a person at the same position.
pub proof fn lemma_same_ids_index(a: Seq<Person>, b: Seq<Person>, id: Seq<char>)
    requires
        same_ids(a, b),
    ensures
        has_person(a, id) == has_person(b, id),
        has_person(a, id) ==> person_index(a, id) == person_index(b, id),
{
    if has_person(a, id) {
        let w = choose|i: int| 0 <= i < a.len() && (#[trigger] a[i]).id@ == id;
        assert(b[w].id@ == id);
        lemma_person_index(a, id);
        lemma_person_index(b, id);
        let i = person_index(a, id);
        assert(is_first_with_id(b, id, i)) by {
            assert forall|j: int| 0 <= j < i implies (#[trigger] b[j]).id@ != id by {
                assert(a[j].id == b[j].id);
            }
        }
    } else if has_person(b, id) {
        let w = choose|i: int| 0 <= i < b.len() && (#[trigger] b[i]).id@ == id;
        assert(a[w].id@ == id);
    }
}

/// `o` names message `k` of the person at position `j`.
pub open spec fn names_message(people: Seq<Person>, o: OutgoingMessage, j: int, k: int) -> bool {
    &&& has_person(people, o.person_id@)
    &&& person_index(people, o.person_id@) == j
    &&& o.message_index == k
}

/// Some message in `os` names message `k` of the person at position `j`.
pub open spec fn named_by_any(people: Seq<Person>, os: Seq<OutgoingMessage>, j: int, k: int) -> bool {
    exists|t: int| 0 <= t < os.len() && names_message(people, #[trigger] os[t], j, k)
}

/// A message with its delivery status set.
pub open spec fn with_delivery(m: Message, d: Delivery) -> Message {
    Message { delivery: Some(d), ..m }
}

/// `new` is `old` with the delivery status of every message that `os` names set to `d`;
/// nothing else changes. An outgoing message for an unknown person or a missing
/// message index changes nothing.
pub open spec fn deliveries_marked(
    old: Seq<Person>,
    new: Seq<Person>,
    os: Seq<OutgoingMessage>,
    d: Delivery,
) -> bool {
    &&& same_ids(old, new)
    &&& forall|j: int|
        0 <= j < old.len() ==> {
            &&& (#[trigger] new[j]).name == old[j].name
            &&& new[j].online == old[j].online
            &&& new[j].last_seen == old[j].last_seen
            &&& new[j].draft == old[j].draft
            &&& new[j].messages@.len() == old[j].messages@.len()
            &&& forall|k: int|
                0 <= k < old[j].messages@.len() ==> #[trigger] new[j].messages@[k] == if named_by_any(
                    old,
                    os,
                    j,
                    k,
                ) {
                    with_delivery(old[j].messages@[k], d)
                } else {
                    old[j].messages@[k]
                }
        }
}

/// Marking with no outgoing messages changes nothing.
pub proof fn lemma_marked_none(people: Seq<Person>, d: Delivery)
    ensures
        deliveries_marked(people, people, Seq::<OutgoingMessage>::empty(), d),
{
}

/// Marking `os` and then `o` marks `os` followed by `o`.
pub proof fn lemma_marked_step(
    a: Seq<Person>,
    b: Seq<Person>,
    c: Seq<Person>,
    os: Seq<OutgoingMessage>,
    o: OutgoingMessage,
    d: Delivery,
)
    requires
        deliveries_marked(a, b, os, d),
        deliveries_marked(b, c, seq![o], d),
    ensures
        deliveries_marked(a, c, os.push(o), d),
{
    lemma_same_ids_index(a, b, o.person_id@);
    let all = os.push(o);
    assert forall|j: int, k: int|
        0 <= j < a.len() && 0 <= k < a[j].messages@.len() implies named_by_any(a, all, j, k)
        == (named_by_any(a, os, j, k) || names_message(a, o, j, k)) by {
        if named_by_any(a, os, j, k) {
            let t = choose|t: int| 0 <= t < os.len() && names_message(a, #[trigger] os[t], j, k);
            assert(all[t] == os[t]);
        }
        if names_message(a, o, j, k) {
            assert(all[os.len() as int] == o);
        }
        if named_by_any(a, all, j, k) {
            let t = choose|t: int| 0 <= t < all.len() && names_message(a, #[trigger] all[t], j, k);
            if t < os.len() {
                assert(all[t] == os[t]);
            }
        }
    }
    assert forall|j: int, k: int|
        0 <= j < a.len() && 0 <= k < a[j].messages@.len() implies named_by_any(b, seq![o], j, k)
        == names_message(a, o, j, k) by {
        if named_by_any(b, seq![o], j, k) {
            let t = choose|t: int|
                0 <= t < seq![o].len() && names_message(b, #[trigger] seq![o][t], j, k);
            assert(t == 0);
        }
        if names_message(a, o, j, k) {
            assert(seq![o][0] == o);
        }
    }
    assert forall|j: int| 0 <= j < a.len() implies (#[trigger] c[j]).id == a[j].id by {
        assert(b[j].id == a[j].id);
    }
}

impl App {
    /// A fresh app: no people yet, showing the announcements.
    pub fn new() -> (app: App)
        ensures
            app.name@ == "Club member"@,
            app.network_status@ == "Connecting to relay"@,
            app.outbox@.len() == 0,
            app.running,
            !app.typing,
            app.view == tabs::View::Announcements,
            app.people@.len() == 0,
            app.selected_person == 0,
            app.announcements@.len() == 4,
            app.announcements@[0]@ == "Welcome to Bit to Byte."@,
            app.announcements@[1]@
                == "Open the app with internet access to join the people list."@,
            app.announcements@[2]@ == "People stay listed as offline when they leave."@,
            app.announcements@[3]@
                == "Demo chat is relayed without encryption. History lasts until you quit."@,
    {
        let mut announcements: Vec<String> = Vec::new();
        announcements.push("Welcome to Bit to Byte.".to_owned());
        announcements.push("Open the app with internet access to join the people list.".to_owned());
        announcements.push("People stay listed as offline when they leave.".to_owned());
        announcements.push(
            "Demo chat is relayed without encryption. History lasts until you quit.".to_owned(),
        );
        App {
            name: "Club member".to_owned(),
            network_status: "Connecting to relay".to_owned(),
            outbox: Vec::new(),
            running: true,
            typing: false,
            view: tabs::View::Announcements,
            people: Vec::new(),
            selected_person: 0,
            announcements,
        }
    }

    /// The position of the first person with this network ID.
    pub fn find_person_index(&self, id: &str) -> (found: Option<usize>)
        ensures
            found is None <==> !has_person(self.people@, id@),
            found matches Some(i) ==> is_first_with_id(self.people@, id@, i as int) && i
                == person_index(self.people@, id@),
    {
        let mut i: usize = 0;
        while i < self.people.len()
            invariant
                i <= self.people@.len(),
                forall|j: int| 0 <= j < i ==> (#[trigger] self.people@[j]).id@ != id@,
            decreases self.people@.len() - i,
        {
            if same_text(self.people[i].id.as_str(), id) {
                proof {
                    assert(is_first_with_id(self.people@, id@, i as int));
                    lemma_person_index(self.people@, id@);
                }
                return Some(i);
            }
            i = i + 1;
        }
        None
    }

    /// Find a person by their network ID.
    pub fn find_person(&mut self, id: &str) -> (found: Option<&mut Person>)
        ensures
            found is None <==> !has_person(old(self).people@, id@),
            found is None ==> *final(self) == *old(self),
            found matches Some(p) ==> {
                let i = person_index(old(self).people@, id@);
                &&& is_first_with_id(old(self).people@, id@, i)
                &&& *p == old(self).people@[i]
                &&& final(self).people@ == old(self).people@.update(i, *final(p))
                &&& same_except_people(*final(self), *old(self))
            },
    {
        match self.find_person_index(id) {
            Some(i) => Some(&mut self.people[i]),
            None => None,
        }
    }
}

} // verus!
