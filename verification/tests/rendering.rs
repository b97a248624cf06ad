use bit_to_byte::input::{handle_event, Event, KeyCode, KeyEvent, KeyEventKind, KeyModifiers};
use bit_to_byte::screen::{
    announcement_layout, cursor_column, draft_scroll, fitted_display_width, notice_label_text,
    screen, Content, Screen,
};
use bit_to_byte::state::{App, Delivery, Message, Person};
use bit_to_byte::tabs::View;

fn sample_app() -> App {
    let mut app = App::new();
    for name in ["Maya", "Alex", "Sam"] {
        app.people.push(Person {
            id: String::from(name),
            name: String::from(name),
            online: true,
            last_seen: 1_000_000,
            messages: vec![Message::received("This is a sample conversation.")],
            draft: String::new(),
        });
    }
    return app;
}

fn press(app: &mut App, code: KeyCode) {
    let key = KeyEvent {
        code: code,
        modifiers: KeyModifiers {
            control: false,
            alt: false,
            super_key: false,
        },
        kind: KeyEventKind::Press,
    };
    handle_event(app, Event::Key(key));
}

fn draw_screen(app: &App, width: u16, height: u16) -> String {
    let mut text = String::new();
    match screen(app, width, height) {
        Screen::TooSmall(notice) => text.push_str(&notice),
        Screen::Full(frame) => {
            text.push_str(&frame.title);
            text.push('\n');
            match frame.content {
                Content::Messages(panel) => {
                    for row in panel.people {
                        text.push_str(&format!("{} {}\n", row.name, row.status));
                    }
                    match panel.conversation {
                        Some(conversation) => {
                            for line in conversation.lines {
                                text.push_str(&format!("{}\n{}\n", line.author, line.body));
                            }
                            text.push_str(&conversation.input_text);
                        }
                        None => {
                            for line in panel.empty_notice {
                                text.push_str(&line);
                                text.push('\n');
                            }
                        }
                    }
                }
                Content::Announcements(lines) | Content::Files(lines) => {
                    for line in lines {
                        text.push_str(&line);
                        text.push('\n');
                    }
                }
            }
            text.push_str(&frame.status_line);
        }
    }
    return text;
}

#[test]
fn screens_handle_resizing_and_only_messages_allow_typing() {
    let mut app = sample_app();
    for _view in 0..3 {
        for (width, height) in [(0, 0), (1, 1), (40, 10), (64, 16), (100, 28)] {
            draw_screen(&app, width, height);
        }
        press(&mut app, KeyCode::Enter);
        assert_eq!(app.typing, app.view == View::Messages);
        press(&mut app, KeyCode::Esc);
        press(&mut app, KeyCode::Tab);
    }
    assert!(draw_screen(&app, 80, 24).contains("Bit to Byte"));
    assert!(draw_screen(&app, 40, 10).contains("Resize"));
    press(&mut app, KeyCode::Char('q'));
    assert!(!app.running);
}

#[test]
fn delivery_labels_are_drawn_without_treating_message_text_as_metadata() {
    let mut app = sample_app();
    app.view = View::Messages;
    app.people[0].messages.clear();
    app.people[0]
        .messages
        .push(Message::received("You: still Maya"));
    let screen = draw_screen(&app, 80, 24);
    assert!(screen.contains("You: still Maya"));

    app.people[0].messages.push(Message::sent("hello"));
    assert!(draw_screen(&app, 80, 24).contains("[sending] hello"));
    app.people[0].messages[1].delivery = Some(Delivery::Delivered);
    assert!(draw_screen(&app, 80, 24).contains("[delivered] hello"));
    app.people[0].messages[1].delivery = Some(Delivery::Unconfirmed);
    assert!(draw_screen(&app, 80, 24).contains("[unconfirmed] hello"));
}

#[test]
fn newest_message_and_end_of_long_draft_stay_visible() {
    let mut app = sample_app();
    app.view = View::Messages;
    app.typing = true;
    for number in 0..50 {
        app.people[0]
            .messages
            .push(Message::received(&format!("Message {}", number)));
    }
    app.people[0].draft = format!("{}END", "界".repeat(100));
    let drawn = draw_screen(&app, 64, 16);
    assert!(drawn.contains("Message 49"));
    assert!(drawn.contains("END"));

    let conversation = match screen(&app, 64, 16) {
        Screen::Full(frame) => match frame.content {
            Content::Messages(panel) => panel.conversation.unwrap(),
            _ => panic!("expected the messages screen"),
        },
        Screen::TooSmall(_) => panic!("expected a full screen"),
    };
    // The newest message is the one the two-row message panel keeps in view.
    assert_eq!(conversation.newest, Some(50));
    assert_eq!(conversation.lines[50].body, "Message 49");

    // At 64 x 16 the composer's inside is 34 columns wide: 62 columns of content, less
    // the people list (22) and the gap (2), less the composer's borders and padding (4).
    let inner_x: u16 = 1 + 22 + 2 + 2;
    let inner_width: u16 = 34;
    let text_width = conversation.input_width.unwrap();
    assert_eq!(text_width, 203);
    let scroll = draft_scroll(text_width, inner_width);
    assert_eq!(scroll, 170);
    // "END" takes the last three columns of the draft; they and the cursor after them
    // stay inside the box.
    let end_starts = text_width - 3 - scroll;
    let end_stops = text_width - scroll;
    assert_eq!((end_starts, end_stops), (30, 33));
    assert!(end_stops < inner_width);
    let cursor = cursor_column(inner_x, text_width, scroll);
    assert_eq!(cursor, inner_x + 33);
    assert!(cursor < inner_x + inner_width);
}

#[test]
fn draft_width_counts_wide_characters_twice() {
    assert_eq!(fitted_display_width("界界"), Some(4));
    assert_eq!(fitted_display_width("abc"), Some(3));
    assert_eq!(fitted_display_width(""), Some(0));
    let long = "a".repeat(70_000);
    assert_eq!(fitted_display_width(&long), None);
}

#[test]
fn short_drafts_do_not_scroll() {
    assert_eq!(draft_scroll(10, 34), 0);
    assert_eq!(draft_scroll(33, 34), 0);
    assert_eq!(draft_scroll(34, 34), 1);
    assert_eq!(draft_scroll(7, 0), 7);
    assert_eq!(cursor_column(5, 10, 0), 15);
}

#[test]
fn notices_are_laid_out_as_numbered_cards_when_they_fit() {
    let layout = announcement_layout(4, 8, 20);
    assert!(!layout.compact);
    let tops: Vec<u16> = layout.cards.iter().map(|card| card.top).collect();
    let heights: Vec<u16> = layout.cards.iter().map(|card| card.height).collect();
    let labels: Vec<&str> = layout.cards.iter().map(|card| card.label.as_str()).collect();
    assert_eq!(tops, vec![8, 12, 16, 20]);
    assert_eq!(heights, vec![3, 3, 3, 3]);
    assert_eq!(labels, vec!["NOTICE 01", "NOTICE 02", "NOTICE 03", "NOTICE 04"]);
}

#[test]
fn notices_use_a_compact_list_in_a_short_terminal() {
    let layout = announcement_layout(4, 8, 14);
    assert!(layout.compact);
    assert!(layout.cards.is_empty());
    // Exactly enough room: 4 cards of 3 rows with 3 gaps.
    let layout = announcement_layout(4, 8, 15);
    assert!(!layout.compact);
    assert_eq!(layout.cards.len(), 4);
    assert_eq!(layout.cards[3].top, 20);
    assert_eq!(layout.cards[3].height, 3);
    let layout = announcement_layout(2, 0, 6);
    assert!(layout.compact);
    let layout = announcement_layout(2, 0, 7);
    assert!(!layout.compact);
    assert_eq!(layout.cards.len(), 2);
    assert_eq!(layout.cards[1].top, 4);
    assert_eq!(layout.cards[1].height, 3);
    assert_eq!(announcement_layout(0, 3, 0).cards.len(), 0);
}

#[test]
fn notice_labels_have_two_digits_at_least() {
    assert_eq!(notice_label_text(1), "NOTICE 01");
    assert_eq!(notice_label_text(9), "NOTICE 09");
    assert_eq!(notice_label_text(10), "NOTICE 10");
    assert_eq!(notice_label_text(123), "NOTICE 123");
}

#[test]
fn the_newest_message_is_the_one_kept_visible() {
    let mut app = sample_app();
    app.view = View::Messages;
    app.people[0].messages.push(Message::received("latest"));
    match screen(&app, 80, 24) {
        Screen::Full(frame) => match frame.content {
            Content::Messages(panel) => {
                let conversation = panel.conversation.unwrap();
                assert_eq!(conversation.newest, Some(1));
                assert_eq!(conversation.lines[1].body, "latest");
                assert_eq!(conversation.lines[1].author, "Maya");
                assert!(conversation.placeholder);
                assert_eq!(conversation.input_title, " MESSAGE ");
                assert_eq!(panel.people_count, " 3 people ");
                assert_eq!(panel.people[0].status, "[online]");
            }
            _ => panic!("expected the messages screen"),
        },
        Screen::TooSmall(_) => panic!("expected a full screen"),
    }
    match screen(&app, 63, 24) {
        Screen::TooSmall(notice) => {
            assert_eq!(notice, "Resize to at least 64 x 16. Ctrl+C quits.")
        }
        Screen::Full(_) => panic!("expected the resize notice"),
    }
    match screen(&App::new(), 80, 24) {
        Screen::Full(frame) => {
            assert_eq!(frame.status_line, "Connecting to relay · You: Club member");
            assert_eq!(frame.selected_tab, 0);
        }
        Screen::TooSmall(_) => panic!("expected a full screen"),
    }
}
