use bit_to_byte::presence::{
    is_presence_packet, is_valid_name, mark_missing_people_offline, receive_packet, OFFLINE_AFTER,
};
use bit_to_byte::screen::{screen, Content, Screen};
use bit_to_byte::state::{App, Message};
use bit_to_byte::tabs::View;

fn draw_screen(app: &App, width: u16, height: u16) -> String {
    let mut text = String::new();
    match screen(app, width, height) {
        Screen::TooSmall(notice) => text.push_str(&notice),
        Screen::Full(frame) => {
            text.push_str(&frame.title);
            text.push('\n');
            match frame.content {
                Content::Messages(panel) => {
                    for row in panel.people {
                        text.push_str(&format!("{} {}\n", row.name, row.status));
                    }
                    match panel.conversation {
                        Some(conversation) => {
                            for line in conversation.lines {
                                text.push_str(&format!("{}\n{}\n", line.author, line.body));
                            }
                            text.push_str(&conversation.input_text);
                        }
                        None => {
                            for line in panel.empty_notice {
                                text.push_str(&line);
                                text.push('\n');
                            }
                        }
                    }
                }
                Content::Announcements(lines) | Content::Files(lines) => {
                    for line in lines {
                        text.push_str(&line);
                        text.push('\n');
                    }
                }
            }
            text.push_str(&frame.status_line);
        }
    }
    return text;
}

const START: u64 = 1_000_000;

#[test]
fn hellos_update_one_person_and_goodbye_preserves_their_conversation() {
    let mut app = App::new();
    let now = START;
    let hello = b"bit-to-byte/1\nhello\nalice-1\nAlice";
    receive_packet(&mut app, hello, "self", now);
    assert_eq!(app.people.len(), 1);
    assert!(app.people[0].online);
    app.people[0].messages.push(Message::sent("Hello"));
    app.people[0].draft = String::from("Keep this draft");

    receive_packet(&mut app, hello, "self", now + 2000);
    assert_eq!(app.people.len(), 1);
    assert_eq!(app.people[0].last_seen, now + 2000);
    receive_packet(&mut app, b"bit-to-byte/1\nhello\nbob-1\nBob", "self", now);
    app.view = View::Messages;
    assert!(draw_screen(&app, 80, 24).contains("[online]"));

    receive_packet(
        &mut app,
        b"bit-to-byte/1\ngoodbye\nalice-1\nAlice",
        "self",
        now + 3000,
    );
    assert_eq!(app.people.len(), 2);
    assert!(!app.people[0].online);
    assert!(app.people[1].online);
    assert_eq!(app.people[0].messages, vec![Message::sent("Hello")]);
    assert_eq!(app.people[0].draft, "Keep this draft");
    let screen = draw_screen(&app, 80, 24);
    assert!(screen.contains("[offline]"));
    assert!(screen.contains("[online]"));
}

#[test]
fn missed_hellos_expire_and_a_later_hello_restores_the_person() {
    let mut app = App::new();
    let now = START;
    let hello = b"bit-to-byte/1\nhello\nalice-1\nAlice";
    receive_packet(&mut app, hello, "self", now);
    mark_missing_people_offline(&mut app, now + OFFLINE_AFTER - 1);
    assert!(app.people[0].online);
    mark_missing_people_offline(&mut app, now + OFFLINE_AFTER);
    assert!(!app.people[0].online);
    receive_packet(&mut app, hello, "self", now + OFFLINE_AFTER + 1000);
    assert_eq!(app.people.len(), 1);
    assert!(app.people[0].online);
}

#[test]
fn duplicate_names_are_separate_people_and_self_packets_are_ignored() {
    let mut app = App::new();
    let now = START;
    receive_packet(&mut app, b"bit-to-byte/1\nhello\nself\nAlex", "self", now);
    assert!(app.people.is_empty());
    receive_packet(&mut app, b"bit-to-byte/1\nhello\nalex-1\nAlex", "self", now);
    receive_packet(&mut app, b"bit-to-byte/1\nhello\nalex-2\nAlex", "self", now);
    receive_packet(
        &mut app,
        b"bit-to-byte/1\ngoodbye\nalex-1\nAlex",
        "self",
        now,
    );
    assert_eq!(app.people.len(), 2);
    assert!(!app.people[0].online);
    assert!(app.people[1].online);
}

#[test]
fn unrelated_and_malformed_packets_do_not_add_people() {
    let mut app = App::new();
    let now = START;
    for text in [
        "",
        "another-app/1\nhello\npeer\nAlice",
        "bit-to-byte/1\nhello",
        "bit-to-byte/1\nhello\npeer\nAlice\nextra",
        "bit-to-byte/1\nunknown\npeer\nAlice",
        "bit-to-byte/1\nhello\n\nAlice",
        "bit-to-byte/1\nhello\npeer\n   ",
        "bit-to-byte/1\nhello\npeer\nAlice\u{1b}",
        "bit-to-byte/1\ngoodbye\nunknown\nAlice",
    ] {
        receive_packet(&mut app, text.as_bytes(), "self", now);
    }
    receive_packet(&mut app, &[255], "self", now);
    assert!(app.people.is_empty());
    assert!(!is_valid_name(&"a".repeat(41)));
    assert!(is_valid_name("Alice 界"));
}

#[test]
fn a_hello_lists_the_person_with_an_empty_conversation() {
    let mut app = App::new();
    receive_packet(&mut app, "bit-to-byte/1\nhello\npeer-9\nZoë 界".as_bytes(), "self", START);
    assert_eq!(app.people.len(), 1);
    assert_eq!(app.people[0].id, "peer-9");
    assert_eq!(app.people[0].name, "Zoë 界");
    assert_eq!(app.people[0].last_seen, START);
    assert!(app.people[0].messages.is_empty());
    assert_eq!(app.people[0].draft, "");
}

#[test]
fn names_and_ids_at_their_limits() {
    let mut app = App::new();
    let id = "i".repeat(64);
    let name = "界".repeat(40);
    let packet = format!("bit-to-byte/1\nhello\n{}\n{}", id, name);
    receive_packet(&mut app, packet.as_bytes(), "self", START);
    assert_eq!(app.people.len(), 1);
    let long_id = "i".repeat(65);
    let packet = format!("bit-to-byte/1\nhello\n{}\nName", long_id);
    receive_packet(&mut app, packet.as_bytes(), "self", START);
    // A 22-character ID of three-byte characters is 66 bytes long.
    let wide_id = "界".repeat(22);
    let packet = format!("bit-to-byte/1\nhello\n{}\nName", wide_id);
    receive_packet(&mut app, packet.as_bytes(), "self", START);
    assert_eq!(app.people.len(), 1);
    assert!(is_valid_name(&name));
    assert!(!is_valid_name("\u{85}bad"));
    assert!(!is_valid_name("\u{3000}\u{a0}\t"));
}

#[test]
fn presence_packets_start_with_the_protocol_line() {
    assert!(is_presence_packet("bit-to-byte/1\nhello\na\nA"));
    assert!(!is_presence_packet("bit-to-byte/1"));
    assert!(!is_presence_packet("REGISTERED 1.2.3.4:5"));
}

#[test]
fn a_clock_that_goes_backwards_keeps_people_online() {
    let mut app = App::new();
    receive_packet(&mut app, b"bit-to-byte/1\nhello\na\nA", "self", START);
    mark_missing_people_offline(&mut app, START - 100_000);
    assert!(app.people[0].online);
}

#[test]
fn texts_without_the_protocol_line_change_no_one() {
    let mut app = App::new();
    receive_packet(&mut app, "bit-to-byte/1\nhello\npeer\nAlice".as_bytes(), "self", START);
    assert_eq!(app.people.len(), 1);
    for text in [
        "bit-to-byte/1",
        "bit-to-byte/2\nhello\npeer\nAlice",
        " bit-to-byte/1\nhello\npeer\nAlice",
        "hello\nbit-to-byte/1\npeer\nAlice",
        "bit-to-byte/1\rhello\npeer\nAlice",
    ] {
        assert!(!is_presence_packet(text));
        receive_packet(&mut app, text.as_bytes(), "self", START + 5000);
        assert_eq!(app.people.len(), 1);
        assert_eq!(app.people[0].last_seen, START);
        assert_eq!(app.people[0].name, "Alice");
    }
}
