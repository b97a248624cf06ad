use bit_to_byte::network::{
    id_text, ConnectError, Datagram, Network, PendingMessage, GIVE_UP_AFTER, RECEIVE_BUFFER_BYTES,
    RELAY_SILENT_AFTER, RESEND_EVERY,
};
use bit_to_byte::presence;
use bit_to_byte::state::{App, Delivery, Message, OutgoingMessage};

const START: u64 = 1_000_000;

fn test_network() -> Network {
    match Network::connect(Some(String::from("Alice")), START) {
        Ok(network) => network,
        Err(error) => panic!("Could not connect: {:?}", error),
    }
}

fn pending_message(
    person_id: &str,
    text: &str,
    index: usize,
    token: &str,
    first_sent: u64,
) -> PendingMessage {
    return PendingMessage {
        outgoing: OutgoingMessage {
            person_id: String::from(person_id),
            text: String::from(text),
            message_index: index,
        },
        token: String::from(token),
        first_sent: first_sent,
        next_send: first_sent,
    };
}

fn from_server(text: &str) -> Datagram {
    Datagram {
        from_server: true,
        bytes: text.as_bytes().to_vec(),
    }
}

#[test]
fn default_name_uses_the_random_id() {
    let network = test_network();
    assert_eq!(network.name(), "Alice");
    assert_eq!(network.id.len(), 24);
    let unnamed = match Network::connect(None, START) {
        Ok(network) => network,
        Err(error) => panic!("Could not connect: {:?}", error),
    };
    assert!(unnamed.name().starts_with("Member "));
    assert_eq!(unnamed.name().len(), 13);
    assert_eq!(&unnamed.name()[7..], &unnamed.id[..6]);

    // An explicitly chosen name is never treated as a default-name marker.
    let named = match Network::connect(Some(String::from("Club member")), START) {
        Ok(network) => network,
        Err(error) => panic!("Could not connect: {:?}", error),
    };
    assert_eq!(named.name(), "Club member");
    assert!(Network::connect(Some(String::from("   ")), START).is_err());
}

#[test]
fn socket_traffic_covers_registration_retries_receipts_and_goodbye() {
    let mut network = test_network();
    let mut app = App::new();
    let sent = network.update(&mut app, START, &Vec::new());
    assert_eq!(sent, vec![format!("REGISTER {} Alice", network.id)]);
    let arrived = vec![
        from_server("REGISTERED 127.0.0.1:1234"),
        from_server("bit-to-byte/1\nhello\nbob\nBob"),
        Datagram {
            from_server: true,
            bytes: vec![255],
        },
    ];
    network.update(&mut app, START + 10, &arrived);
    assert_eq!(app.network_status, "Relay connected");
    assert_eq!(app.people.len(), 1);
    assert!(app.people[0].online);

    app.people[0].messages.push(Message::sent("hello 界"));
    app.outbox.push(OutgoingMessage {
        person_id: String::from("bob"),
        text: String::from("hello 界"),
        message_index: 0,
    });
    let sent = network.update(&mut app, START + 20, &Vec::new());
    let token = format!("{}-1", network.id);
    assert_eq!(sent, vec![format!("RELAY bob {} CHAT hello 界", token)]);
    let first_send = sent[0].clone();
    assert!(app.outbox.is_empty());

    // Advance the retry clock without making the test sleep.
    let retry_time = START + 20 + RESEND_EVERY;
    let mut retry = Vec::new();
    network.resend_pending_messages(&mut app, retry_time, &mut retry);
    assert_eq!(retry, vec![first_send]);
    let mut replies = Vec::new();
    network.receive_packets(
        &mut app,
        &vec![from_server(&format!("FROM bob {} RECEIPT", token))],
        retry_time,
        &mut replies,
    );
    assert!(network.pending.is_empty());
    assert_eq!(
        app.people[0].messages[0].delivery,
        Some(Delivery::Delivered)
    );

    for _repeat in 0..2 {
        let mut receipts = Vec::new();
        network.receive_packets(
            &mut app,
            &vec![from_server("FROM bob reply-1 CHAT You: hello")],
            retry_time,
            &mut receipts,
        );
        assert_eq!(receipts, vec![String::from("RELAY bob reply-1 RECEIPT")]);
    }
    assert_eq!(app.people[0].messages.len(), 2);
    assert_eq!(app.people[0].messages[1], Message::received("You: hello"));

    // A silent relay changes the status, but keeps conversations and drafts.
    app.people[0].draft = String::from("keep this");
    let later = retry_time + RELAY_SILENT_AFTER;
    network.update_status(&mut app, later);
    presence::mark_missing_people_offline(&mut app, later);
    assert_eq!(app.network_status, "Relay unavailable · retrying");
    assert!(!app.people[0].online);
    assert_eq!(app.people[0].draft, "keep this");
    assert_eq!(app.people[0].messages.len(), 2);
    assert_eq!(network.goodbye(), format!("GOODBYE {}", network.id));
}

#[test]
fn receipts_are_matched_and_repeated_messages_are_shown_once() {
    let mut network = test_network();
    let mut app = App::new();
    let now = START;
    let mut out = Vec::new();

    network.handle_packet(&mut app, "bit-to-byte/1\nhello\nbob\nBob", now, &mut out);
    network.handle_packet(&mut app, "FROM bob test CHAT hello", now, &mut out);
    network.handle_packet(&mut app, "FROM bob test CHAT hello", now, &mut out);
    assert_eq!(app.people[0].messages, vec![Message::received("hello")]);
    assert_eq!(
        out,
        vec![
            String::from("RELAY bob test RECEIPT"),
            String::from("RELAY bob test RECEIPT")
        ]
    );

    app.people[0].messages.push(Message::sent("reply"));
    network
        .pending
        .push(pending_message("bob", "reply", 1, "expected", now));
    network.handle_packet(&mut app, "FROM bob wrong RECEIPT", now, &mut out);
    network.handle_packet(&mut app, "FROM stranger expected RECEIPT", now, &mut out);
    assert_eq!(network.pending.len(), 1);
    network.handle_packet(&mut app, "FROM bob expected RECEIPT", now, &mut out);
    assert!(network.pending.is_empty());
    assert_eq!(
        app.people[0].messages[1].delivery,
        Some(Delivery::Delivered)
    );

    network.handle_packet(&mut app, "bit-to-byte/1\ngoodbye\nbob\nBob", now, &mut out);
    assert!(!app.people[0].online);
}

#[test]
fn other_sources_are_ignored_and_unanswered_messages_become_unconfirmed() {
    let mut network = test_network();
    let mut app = App::new();

    let attacker = Datagram {
        from_server: false,
        bytes: b"bit-to-byte/1\nhello\nevil\nEvil".to_vec(),
    };
    network.update(&mut app, START, &vec![attacker]);
    assert!(app.people.is_empty());

    let now = START + 20_000;
    let mut out = Vec::new();
    network.handle_packet(&mut app, "bit-to-byte/1\nhello\nbob\nBob", now, &mut out);
    app.people[0].messages.push(Message::sent("hello"));
    let long_ago = now - GIVE_UP_AFTER - 1000;
    network
        .pending
        .push(pending_message("bob", "hello", 0, "expected", long_ago));
    network.update(&mut app, now, &Vec::new());
    assert!(network.pending.is_empty());
    assert_eq!(
        app.people[0].messages[0].delivery,
        Some(Delivery::Unconfirmed)
    );
}

#[test]
fn ids_are_lowercase_hexadecimal() {
    let bytes = [0x00, 0x01, 0x0f, 0x10, 0x7f, 0x80, 0xab, 0xcd, 0xef, 0xff, 0x42, 0x99];
    assert_eq!(id_text(&bytes), "00010f107f80abcdefff4299");
    let unnamed = match Network::with_id(None, id_text(&bytes), START) {
        Ok(network) => network,
        Err(error) => panic!("Could not connect: {:?}", error),
    };
    assert_eq!(unnamed.name(), "Member 00010f");
    assert_eq!(
        Network::with_id(Some(String::from("a\u{7}")), id_text(&bytes), START).err(),
        Some(ConnectError::InvalidName)
    );
}

#[test]
fn full_or_cut_packets_and_bad_chats_are_ignored() {
    let mut network = test_network();
    let mut app = App::new();
    let mut out = Vec::new();
    network.handle_packet(&mut app, "bit-to-byte/1\nhello\nbob\nBob", START, &mut out);
    let mut full = b"FROM bob t CHAT ".to_vec();
    full.resize(RECEIVE_BUFFER_BYTES, b'x');
    network.receive_packets(
        &mut app,
        &vec![Datagram {
            from_server: true,
            bytes: full,
        }],
        START,
        &mut out,
    );
    for packet in [
        "FROM bob t CHAT ",
        "FROM bob t CHAT bad\u{7}",
        "FROM stranger t CHAT hello",
        "FROM bob  CHAT hello",
        "FROM bob t RECEIPT extra",
        "TO bob t CHAT hello",
        "FROM bob t",
    ] {
        network.handle_packet(&mut app, packet, START, &mut out);
    }
    let long = format!("FROM bob t CHAT {}", "x".repeat(501));
    network.handle_packet(&mut app, &long, START, &mut out);
    let long_token = format!("FROM bob {} CHAT hi", "t".repeat(65));
    network.handle_packet(&mut app, &long_token, START, &mut out);
    assert!(out.is_empty());
    assert!(app.people[0].messages.is_empty());
    let longest = format!("FROM bob t CHAT {}", "界".repeat(500));
    network.handle_packet(&mut app, &longest, START, &mut out);
    assert_eq!(app.people[0].messages.len(), 1);
}

#[test]
fn a_full_pending_list_marks_new_messages_unconfirmed() {
    let mut network = test_network();
    let mut app = App::new();
    let mut out = Vec::new();
    network.handle_packet(&mut app, "bit-to-byte/1\nhello\nbob\nBob", START, &mut out);
    for number in 0..65 {
        app.people[0].messages.push(Message::sent("hi"));
        app.outbox.push(OutgoingMessage {
            person_id: String::from("bob"),
            text: String::from("hi"),
            message_index: number,
        });
    }
    network.queue_outgoing_messages(&mut app, START);
    assert_eq!(network.pending.len(), 64);
    assert_eq!(network.next_token_number, 64);
    assert_eq!(network.pending[63].token, format!("{}-64", network.id));
    assert_eq!(app.people[0].messages[63].delivery, Some(Delivery::Sending));
    assert_eq!(
        app.people[0].messages[64].delivery,
        Some(Delivery::Unconfirmed)
    );
    assert!(app.outbox.is_empty());
}

#[test]
fn registration_is_repeated_every_two_seconds() {
    let mut network = test_network();
    assert!(network.register_if_due(START).is_some());
    assert!(network.register_if_due(START + 1999).is_none());
    assert_eq!(
        network.register_if_due(START + 2000),
        Some(String::from(format!("REGISTER {} Alice", network.id)))
    );
}

#[test]
fn old_received_messages_are_forgotten() {
    let mut network = test_network();
    let mut app = App::new();
    let mut out = Vec::new();
    network.handle_packet(&mut app, "bit-to-byte/1\nhello\nbob\nBob", START, &mut out);
    network.handle_packet(&mut app, "FROM bob a CHAT one", START, &mut out);
    network.handle_packet(&mut app, "FROM bob b CHAT two", START + 30_000, &mut out);
    network.forget_old_received_messages(START + 60_000);
    assert_eq!(network.received.len(), 1);
    assert_eq!(network.received[0].token, "b");
    assert!(network.already_received("bob", "b"));
    assert!(!network.already_received("bob", "a"));
}

#[test]
fn one_update_acts_on_at_most_256_datagrams() {
    let mut network = test_network();
    let mut app = App::new();
    let mut datagrams = Vec::new();
    for _number in 0..256 {
        datagrams.push(Datagram {
            from_server: false,
            bytes: b"REGISTERED 1.2.3.4:5".to_vec(),
        });
    }
    datagrams.push(from_server("REGISTERED 127.0.0.1:1234"));
    network.update(&mut app, START, &datagrams);
    assert_eq!(network.last_server_reply, None);

    let mut datagrams = Vec::new();
    for _number in 0..255 {
        datagrams.push(Datagram {
            from_server: false,
            bytes: b"REGISTERED 1.2.3.4:5".to_vec(),
        });
    }
    datagrams.push(from_server("REGISTERED 127.0.0.1:1234"));
    network.update(&mut app, START + 1, &datagrams);
    assert_eq!(network.last_server_reply, Some(START + 1));
}
