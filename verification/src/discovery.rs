//! Presence on the local network: every app joins the same UDP multicast group and
//! announces itself with hello packets, without a central server.
//! The sockets belong to the caller; these functions decide what to send and what
//! to make of what arrived.
use vstd::prelude::*;
use vstd::utf8::{decode_utf8, valid_utf8};

use crate::presence::{
    is_valid_name, mark_missing_people_offline, offline_marked, presence_applied, receive_packet,
    valid_name_spec,
};
use crate::relay::{presence_packet, presence_text};
use crate::state::{App, ids_distinct};
use crate::text::{push_decimal, push_str, decimal_spec, text_of};

verus! {

broadcast use vstd::string::group_string_axioms;

/// How often we say hello (milliseconds).
pub const HELLO_INTERVAL: u64 = 2000;

/// The size of the receive buffer; a packet that fills it may have been cut short.
pub const PACKET_BUFFER_SIZE: usize = 512;

/// The most packets read in one update.
pub const MAX_PACKETS_PER_UPDATE: usize = 64;

/// Why discovery could not start.
#[derive(Debug, PartialEq, Eq, Structural, Clone, Copy)]
pub enum StartError {
    /// The display name is blank, too long or holds control characters.
    InvalidName,
}

/// Our presence on the local network.
pub struct Discovery {
    pub id: String,
    pub name: String,
    pub next_hello: u64,
}

/// The ID of one launch: the start time in nanoseconds and the process ID, so two
/// people with the same name stay separate.
pub open spec fn launch_id_spec(started_nanos: u128, process_id: u32) -> Seq<char> {
    decimal_spec(started_nanos as nat) + "-"@ + decimal_spec(process_id as nat)
}

/// The ID of one launch.
pub fn launch_id(started_nanos: u128, process_id: u32) -> (id: String)
    ensures
        id@ == launch_id_spec(started_nanos, process_id),
{
    let mut digits: Vec<char> = Vec::new();
    push_decimal(&mut digits, started_nanos);
    let mut id = text_of(&digits);
    push_str(&mut id, "-");
    let mut pid_digits: Vec<char> = Vec::new();
    push_decimal(&mut pid_digits, process_id as u128);
    let pid_text = text_of(&pid_digits);
    push_str(&mut id, pid_text.as_str());
    assert(digits@ =~= decimal_spec(started_nanos as nat));
    assert(pid_digits@ =~= decimal_spec(process_id as nat));
    id
}

/// The effect of one received packet on the app.
pub open spec fn packet_received(old: App, new: App, packet: Seq<u8>, own_id: Seq<char>, now: u64) -> bool {
    if packet.len() >= PACKET_BUFFER_SIZE || !valid_utf8(packet) {
        new == old
    } else {
        presence_applied(old, new, decode_utf8(packet), own_id, now)
    }
}

/// The apps that receiving each packet in turn passes through.
pub open spec fn packet_trace(states: Seq<App>, packets: Seq<Vec<u8>>, own_id: Seq<char>, now: u64) -> bool {
    &&& states.len() == packets.len() + 1
    &&& forall|i: int|
        0 <= i < packets.len() ==> packet_received(
            #[trigger] states[i],
            states[i + 1],
            packets[i]@,
            own_id,
            now,
        )
}

impl Discovery {
    /// Start announcing `name` under the launch `id`; the first hello is due at once.
    pub fn start(name: &str, id: String, now: u64) -> (discovery: Result<Discovery, StartError>)
        ensures
            discovery is Ok <==> valid_name_spec(name@),
            discovery matches Ok(d) ==> d.id@ == id@ && d.name@ == name@ && d.next_hello == now,
    {
        if !is_valid_name(name) {
            return Err(StartError::InvalidName);
        }
        Ok(Discovery { id, name: name.to_owned(), next_hello: now })
    }

    /// The hello packet, when it is due at `now`; the next one is then due
    /// `HELLO_INTERVAL` later.
    pub fn hello_if_due(&mut self, now: u64) -> (packet: Option<String>)
        requires
            now <= u64::MAX - HELLO_INTERVAL,
        ensures
            now < old(self).next_hello ==> packet is None && *final(self) == *old(self),
            now >= old(self).next_hello ==> {
                &&& packet matches Some(p) && p@ == presence_text(
                    "hello"@,
                    old(self).id@,
                    old(self).name@,
                )
                &&& final(self).next_hello == now + HELLO_INTERVAL
                &&& final(self).id == old(self).id
                &&& final(self).name == old(self).name
            },
    {
        if now < self.next_hello {
            return None;
        }
        let packet = presence_packet("hello", self.id.as_str(), self.name.as_str());
        self.next_hello = now + HELLO_INTERVAL;
        Some(packet)
    }

    /// The packet that tells the others we are leaving.
    pub fn goodbye(&self) -> (packet: String)
        ensures
            packet@ == presence_text("goodbye"@, self.id@, self.name@),
    {
        presence_packet("goodbye", self.id.as_str(), self.name.as_str())
    }

    /// Act on one received packet: a packet that fills the buffer may have been cut
    /// short and is ignored; the rest are presence packets about other people.
    pub fn receive(&self, app: &mut App, packet: &[u8], now: u64)
        ensures
            packet@.len() >= PACKET_BUFFER_SIZE || !valid_utf8(packet@) ==> *final(app) == *old(app),
            packet@.len() < PACKET_BUFFER_SIZE && valid_utf8(packet@) ==> presence_applied(
                *old(app),
                *final(app),
                decode_utf8(packet@),
                self.id@,
                now,
            ),
            ids_distinct(old(app).people@) ==> ids_distinct(final(app).people@),
    {
        if packet.len() >= PACKET_BUFFER_SIZE {
            return;
        }
        receive_packet(app, packet, self.id.as_str(), now);
    }

    /// One update at `now` after `packets` arrived: say hello when due, act on the
    /// packets in order, and mark people not heard from for a while offline.
    /// Returns the hello packet to send, if one is due.
    pub fn update(&mut self, app: &mut App, now: u64, packets: &Vec<Vec<u8>>) -> (hello: Option<String>)
        requires
            now <= u64::MAX - HELLO_INTERVAL,
        ensures
            now < old(self).next_hello ==> hello is None && *final(self) == *old(self),
            now >= old(self).next_hello ==> {
                &&& hello matches Some(p) && p@ == presence_text(
                    "hello"@,
                    old(self).id@,
                    old(self).name@,
                )
                &&& final(self).next_hello == now + HELLO_INTERVAL
                &&& final(self).id == old(self).id
                &&& final(self).name == old(self).name
            },
            exists|states: Seq<App>|
                #[trigger] packet_trace(states, packets@, old(self).id@, now) && states[0]
                    == *old(app) && offline_marked(states.last(), *final(app), now),
            ids_distinct(old(app).people@) ==> ids_distinct(final(app).people@),
    {
        let hello = self.hello_if_due(now);
        let ghost mut states: Seq<App> = seq![*app];
        let mut i: usize = 0;
        while i < packets.len()
            invariant
                i <= packets@.len(),
                self.id == old(self).id,
                states.len() == i + 1,
                states[0] == *old(app),
                states.last() == *app,
                forall|k: int|
                    0 <= k < i ==> packet_received(
                        #[trigger] states[k],
                        states[k + 1],
                        packets@[k]@,
                        old(self).id@,
                        now,
                    ),
                ids_distinct(old(app).people@) ==> ids_distinct(app.people@),
            decreases packets@.len() - i,
        {
            let ghost before = states;
            self.receive(app, packets[i].as_slice(), now);
            proof {
                states = states.push(*app);
                assert forall|k: int| 0 <= k < i + 1 implies packet_received(
                    #[trigger] states[k],
                    states[k + 1],
                    packets@[k]@,
                    old(self).id@,
                    now,
                ) by {
                    assert(states[k] == before[k]);
                    if k < i {
                        assert(states[k + 1] == before[k + 1]);
                    }
                }
            }
            i = i + 1;
        }
        assert(packet_trace(states, packets@, old(self).id@, now));
        mark_missing_people_offline(app, now);
        hello
    }
}

} // verus!
