use bit_to_byte::input::{
    append_text, handle_event, Event, KeyCode, KeyEvent, KeyEventKind, KeyModifiers,
};
use bit_to_byte::screen::{screen, Content, Screen};
use bit_to_byte::state::{App, Message, Person};
use bit_to_byte::tabs::View;

fn sample_app() -> App {
    let mut app = App::new();
    for name in ["Maya", "Alex", "Sam"] {
        app.people.push(Person {
            id: String::from(name),
            name: String::from(name),
            online: true,
            last_seen: 1_000_000,
            messages: vec![Message::received("This is a sample conversation.")],
            draft: String::new(),
        });
    }
    return app;
}

const NONE: KeyModifiers = KeyModifiers {
    control: false,
    alt: false,
    super_key: false,
};

fn press(app: &mut App, code: KeyCode) {
    let key = KeyEvent {
        code: code,
        modifiers: NONE,
        kind: KeyEventKind::Press,
    };
    handle_event(app, Event::Key(key));
}

fn draw_screen(app: &App, width: u16, height: u16) -> String {
    let mut text = String::new();
    match screen(app, width, height) {
        Screen::TooSmall(notice) => text.push_str(&notice),
        Screen::Full(frame) => {
            text.push_str(&frame.title);
            text.push('\n');
            match frame.content {
                Content::Messages(panel) => {
                    for row in panel.people {
                        text.push_str(&format!("{} {}\n", row.name, row.status));
                    }
                    match panel.conversation {
                        Some(conversation) => {
                            for line in conversation.lines {
                                text.push_str(&format!("{}\n{}\n", line.author, line.body));
                            }
                            text.push_str(&conversation.input_text);
                        }
                        None => {
                            for line in panel.empty_notice {
                                text.push_str(&line);
                                text.push('\n');
                            }
                        }
                    }
                }
                Content::Announcements(lines) | Content::Files(lines) => {
                    for line in lines {
                        text.push_str(&line);
                        text.push('\n');
                    }
                }
            }
            text.push_str(&frame.status_line);
        }
    }
    return text;
}

#[test]
fn typing_keeps_shortcuts_as_text_and_only_adds_nonempty_messages() {
    let mut app = sample_app();
    press(&mut app, KeyCode::Tab);
    press(&mut app, KeyCode::Enter);
    press(&mut app, KeyCode::Enter);
    assert_eq!(app.people[0].messages.len(), 1);
    press(&mut app, KeyCode::Char('q'));
    press(&mut app, KeyCode::Tab);
    assert!(app.running);
    assert_eq!(app.view, View::Messages);
    assert_eq!(app.people[0].draft, "q");
    press(&mut app, KeyCode::Enter);
    assert_eq!(app.people[0].messages[1], Message::sent("q"));
    assert_eq!(app.people[0].draft, "");
}

#[test]
fn changing_people_preserves_each_draft_and_message_recipient() {
    let mut app = sample_app();
    press(&mut app, KeyCode::Tab);
    press(&mut app, KeyCode::Enter);
    press(&mut app, KeyCode::Char('a'));
    press(&mut app, KeyCode::Esc);
    press(&mut app, KeyCode::Down);
    press(&mut app, KeyCode::Enter);
    press(&mut app, KeyCode::Char('b'));
    press(&mut app, KeyCode::Enter);
    assert_eq!(app.people[1].messages[1], Message::sent("b"));
    assert_eq!(app.people[0].messages.len(), 1);
    press(&mut app, KeyCode::Esc);
    press(&mut app, KeyCode::Up);
    assert_eq!(app.people[app.selected_person].draft, "a");
    assert_eq!(app.outbox.len(), 1);
    assert_eq!(app.outbox[0].person_id, "Alex");
    assert_eq!(app.outbox[0].text, "b");
    assert_eq!(app.outbox[0].message_index, 1);
}

#[test]
fn paste_is_bounded_and_cannot_submit_or_quit() {
    let mut app = sample_app();
    press(&mut app, KeyCode::Tab);
    handle_event(&mut app, Event::Paste(String::from("ignored")));
    assert_eq!(app.people[0].draft, "");
    press(&mut app, KeyCode::Enter);
    handle_event(&mut app, Event::Paste(String::from("q\n界\t\u{1b}")));
    assert_eq!(app.people[0].draft, "q 界 ");
    assert_eq!(app.people[0].messages.len(), 1);
    assert!(app.running);
    handle_event(&mut app, Event::Paste("x".repeat(1000)));
    assert_eq!(app.people[0].draft.chars().count(), 500);
}

#[test]
fn backspace_is_utf8_safe_and_key_releases_are_ignored() {
    let mut app = sample_app();
    press(&mut app, KeyCode::Tab);
    press(&mut app, KeyCode::Enter);
    press(&mut app, KeyCode::Char('界'));
    let released_key = KeyEvent {
        code: KeyCode::Char('界'),
        modifiers: NONE,
        kind: KeyEventKind::Release,
    };
    handle_event(&mut app, Event::Key(released_key));
    assert_eq!(app.people[0].draft, "界");
    press(&mut app, KeyCode::Backspace);
    press(&mut app, KeyCode::Backspace);
    assert_eq!(app.people[0].draft, "");
    let quit_key = KeyEvent {
        code: KeyCode::Char('c'),
        modifiers: KeyModifiers {
            control: true,
            alt: false,
            super_key: false,
        },
        kind: KeyEventKind::Press,
    };
    handle_event(&mut app, Event::Key(quit_key));
    assert!(!app.running);
}

#[test]
fn selection_handles_list_edges_and_an_empty_list() {
    let mut app = sample_app();
    press(&mut app, KeyCode::Tab);
    for _step in 0..10 {
        press(&mut app, KeyCode::Down);
    }
    assert_eq!(app.selected_person, 2);
    for _step in 0..10 {
        press(&mut app, KeyCode::Up);
    }
    assert_eq!(app.selected_person, 0);
    app.people.clear();
    press(&mut app, KeyCode::Up);
    press(&mut app, KeyCode::Down);
    press(&mut app, KeyCode::Enter);
    assert!(!app.typing);
    assert!(draw_screen(&app, 80, 24).contains("No conversations yet"));
}

#[test]
fn offline_people_and_a_full_outbox_keep_the_draft() {
    let mut app = sample_app();
    press(&mut app, KeyCode::Tab);
    press(&mut app, KeyCode::Enter);
    app.people[0].online = false;
    press(&mut app, KeyCode::Char('h'));
    press(&mut app, KeyCode::Enter);
    assert_eq!(app.people[0].draft, "h");
    assert!(app.outbox.is_empty());
    app.people[0].online = true;
    handle_event(&mut app, Event::Paste(String::from("   ")));
    press(&mut app, KeyCode::Enter);
    assert_eq!(app.outbox[0].text, "h");
    assert_eq!(app.people[0].draft, "");
}

#[test]
fn appending_stops_at_the_limit() {
    let mut draft = "a".repeat(499);
    append_text(&mut draft, "\u{7}bc");
    assert_eq!(draft.chars().count(), 500);
    assert!(draft.ends_with('b'));
    let mut long = "a".repeat(600);
    append_text(&mut long, "b");
    assert_eq!(long.chars().count(), 600);
}

#[test]
fn alt_keys_and_other_events_change_nothing() {
    let mut app = sample_app();
    let alt_q = KeyEvent {
        code: KeyCode::Char('q'),
        modifiers: KeyModifiers {
            control: false,
            alt: true,
            super_key: false,
        },
        kind: KeyEventKind::Press,
    };
    handle_event(&mut app, Event::Key(alt_q));
    handle_event(&mut app, Event::Other);
    assert!(app.running);
    press(&mut app, KeyCode::Tab);
    press(&mut app, KeyCode::Tab);
    assert_eq!(app.view, View::Files);
    press(&mut app, KeyCode::Tab);
    assert_eq!(app.view, View::Announcements);
}
