use bit_to_byte::relay::{
    Address, Endpoint, MAX_MEMBERS, MAX_PAYLOAD_BYTES, PRESENCE_LIFETIME, REGISTRATION_LIFETIME,
    Reply, Server,
};

fn address(port: u16) -> Endpoint {
    return Endpoint {
        address: Address::V4 {
            ip: 0x7f00_0001,
            port: port,
        },
        text: format!("127.0.0.1:{}", port),
    };
}

fn reply(address: &Endpoint, text: &str) -> Reply {
    return Reply {
        address: address.duplicate(),
        text: String::from(text),
    };
}

const START: u64 = 1_000_000;

#[test]
fn registration_lists_recent_people_and_goodbye_removes_them() {
    let alice = address(11001);
    let bob = address(11002);
    let now = START;
    let mut server = Server::new();

    server.handle("REGISTER alice Alice", alice.duplicate(), now);
    let replies = server.handle("REGISTER bob Bob Smith", bob.duplicate(), now);
    assert_eq!(replies.len(), 2);
    assert_eq!(replies[0], reply(&bob, &format!("REGISTERED {}", bob.text)));
    assert_eq!(replies[0].text, "REGISTERED 127.0.0.1:11002");
    assert_eq!(replies[1], reply(&bob, "bit-to-byte/1\nhello\nalice\nAlice"));

    let later = now + PRESENCE_LIFETIME;
    let replies = server.handle("REGISTER bob Bob Smith", bob.duplicate(), later);
    assert_eq!(replies.len(), 1);
    assert_eq!(server.members.len(), 2);
    assert!(server.handle("GOODBYE bob", alice.duplicate(), later).is_empty());
    assert_eq!(
        server.handle("GOODBYE bob", bob.duplicate(), later),
        vec![reply(&alice, "bit-to-byte/1\ngoodbye\nbob\nBob Smith")]
    );
    assert_eq!(server.member_index("bob"), None);
}

#[test]
fn routing_uses_only_live_registrations_and_the_observed_sender() {
    let alice = address(10001);
    let bob = address(10002);
    let outsider = address(10003);
    let now = START;
    let mut server = Server::new();
    server.handle("REGISTER alice Alice", alice.duplicate(), now);
    server.handle("REGISTER bob Bob", bob.duplicate(), now);

    assert_eq!(
        server.handle("RELAY bob token CHAT hello", alice.duplicate(), now),
        vec![reply(&bob, "FROM alice token CHAT hello")]
    );
    assert_eq!(
        server.handle("RELAY alice token RECEIPT", bob.duplicate(), now),
        vec![reply(&alice, "FROM bob token RECEIPT")]
    );
    assert!(server
        .handle("RELAY bob anything", outsider.duplicate(), now)
        .is_empty());
    assert_eq!(
        server.handle("REGISTER alice Alice", outsider.duplicate(), now),
        vec![reply(&outsider, "ERROR id-in-use")]
    );
    assert_eq!(
        server.handle("REGISTER alias Alias", alice.duplicate(), now),
        vec![reply(&alice, "ERROR address-in-use")]
    );

    let later = now + REGISTRATION_LIFETIME;
    server.handle("REGISTER alice Alice", alice.duplicate(), later);
    assert_eq!(
        server.handle("RELAY bob anything", alice.duplicate(), later),
        vec![reply(&alice, "ERROR peer-unavailable")]
    );
    // After expiry, the same ID can register from a new address.
    server.handle("REGISTER bob Bob", outsider.duplicate(), later);
    assert_eq!(
        server.handle("RELAY bob opaque payload", alice.duplicate(), later),
        vec![reply(&outsider, "FROM alice opaque payload")]
    );
}

#[test]
fn malformed_packets_do_not_change_members_or_forward_messages() {
    let alice = address(12001);
    let bob = address(12002);
    let now = START;
    let mut server = Server::new();

    for packet in [
        "",
        "REGISTER",
        "REGISTER  Alice",
        "REGISTER bad! Alice",
        "REGISTER alice",
        "REGISTER alice   ",
        "REGISTER alice Alice\nBob",
    ] {
        assert!(server.handle(packet, alice.duplicate(), now).is_empty());
        assert!(server.members.is_empty());
    }
    let long_name = format!("REGISTER alice {}", "a".repeat(41));
    assert!(server.handle(&long_name, alice.duplicate(), now).is_empty());

    server.handle("REGISTER alice Alice", alice.duplicate(), now);
    server.handle("REGISTER bob Bob", bob.duplicate(), now);
    for packet in [
        "RELAY bob",
        "RELAY bob ",
        "GOODBYE alice extra",
        "UNKNOWN bob",
    ] {
        assert!(server.handle(packet, alice.duplicate(), now).is_empty());
        assert_eq!(server.members.len(), 2);
    }
    let oversized = format!("RELAY bob {}", "x".repeat(MAX_PAYLOAD_BYTES + 1));
    assert!(server.handle(&oversized, alice.duplicate(), now).is_empty());
}

#[test]
fn a_full_server_still_refreshes_existing_members() {
    let now = START;
    let mut server = Server::new();
    for number in 0..MAX_MEMBERS {
        let packet = format!("REGISTER person-{} Person {}", number, number);
        server.handle(&packet, address(20000 + number as u16), now);
    }
    assert_eq!(server.members.len(), MAX_MEMBERS);
    assert!(server
        .handle("REGISTER extra Extra", address(21000), now)
        .is_empty());
    assert!(!server
        .handle("REGISTER person-0 Person 0", address(20000), now)
        .is_empty());
    assert_eq!(server.members.len(), MAX_MEMBERS);
}

#[test]
fn an_expired_registration_is_gone_before_the_request_is_handled() {
    let alice = address(13001);
    let bob = address(13002);
    let mut server = Server::new();
    server.handle("REGISTER alice Alice", alice.duplicate(), START);
    server.handle("REGISTER bob Bob", bob.duplicate(), START + REGISTRATION_LIFETIME - 1);
    let replies = server.handle("REGISTER bob Bob", bob.duplicate(), START + REGISTRATION_LIFETIME);
    assert_eq!(replies, vec![reply(&bob, "REGISTERED 127.0.0.1:13002")]);
    assert_eq!(server.members.len(), 1);
    assert_eq!(server.member_index("alice"), None);
}

#[test]
fn relaying_to_oneself_reports_the_peer_unavailable() {
    let alice = address(14001);
    let mut server = Server::new();
    server.handle("REGISTER alice Alice", alice.duplicate(), START);
    assert_eq!(
        server.handle("RELAY alice hi", alice.duplicate(), START),
        vec![reply(&alice, "ERROR peer-unavailable")]
    );
    let at_limit = format!("RELAY alice {}", "x".repeat(MAX_PAYLOAD_BYTES));
    assert_eq!(server.handle(&at_limit, alice.duplicate(), START).len(), 1);
}
