//! Keyboard and paste handling: a terminal event changes the application data.
use vstd::prelude::*;

use crate::state::{
    ids_distinct, same_except_people, App, Message, OutgoingMessage, MAX_MESSAGE_CHARACTERS,
    MAX_PENDING_MESSAGES,
};
use crate::tabs;
use crate::text::{
    chars_of, is_control, is_control_spec, pop_char, push_char, text_of, trim_chars, trim_spec,
};

verus! {

broadcast use vstd::string::group_string_axioms;

/// The key that was pressed. Keys that the app does not use are `Other`.
#[derive(Debug, PartialEq, Eq, Structural, Clone, Copy)]
pub enum KeyCode {
    Char(char),
    Tab,
    Up,
    Down,
    Enter,
    Esc,
    Backspace,
    Other,
}

/// Whether a key went down, repeated or came up.
#[derive(Debug, PartialEq, Eq, Structural, Clone, Copy)]
pub enum KeyEventKind {
    Press,
    Repeat,
    Release,
}

/// The modifier keys held with a key.
#[derive(Debug, PartialEq, Eq, Structural, Clone, Copy)]
pub struct KeyModifiers {
    pub control: bool,
    pub alt: bool,
    pub super_key: bool,
}

/// One key event.
#[derive(Debug, PartialEq, Eq, Structural, Clone, Copy)]
pub struct KeyEvent {
    pub code: KeyCode,
    pub modifiers: KeyModifiers,
    pub kind: KeyEventKind,
}

/// A terminal event: a key, pasted text, or anything else (such as a resize).
#[derive(Debug, PartialEq, Eq)]
pub enum Event {
    Key(KeyEvent),
    Paste(String),
    Other,
}

/// How one pasted or typed character enters a draft: newlines and tabs become spaces,
/// other control characters are dropped.
pub open spec fn cleaned(text: Seq<char>) -> Seq<char>
    decreases text.len(),
{
    if text.len() == 0 {
        text
    } else {
        let rest = cleaned(text.drop_last());
        let c = text.last();
        if c == '\n' || c == '\r' || c == '\t' {
            rest.push(' ')
        } else if is_control_spec(c) {
            rest
        } else {
            rest.push(c)
        }
    }
}

/// `draft` with `text` added, keeping at most `MAX_MESSAGE_CHARACTERS` characters.
pub open spec fn appended(draft: Seq<char>, text: Seq<char>) -> Seq<char> {
    let c = cleaned(text);
    if draft.len() >= MAX_MESSAGE_CHARACTERS {
        draft
    } else if c.len() <= MAX_MESSAGE_CHARACTERS - draft.len() {
        draft + c
    } else {
        draft + c.take(MAX_MESSAGE_CHARACTERS - draft.len())
    }
}

/// `new` is `old` with the draft of person `i` replaced by `draft`.
pub open spec fn draft_set(old: App, new: App, i: int, draft: Seq<char>) -> bool {
    &&& same_except_people(new, old)
    &&& new.people@.len() == old.people@.len()
    &&& forall|j: int| 0 <= j < old.people@.len() && j != i ==> new.people@[j] == old.people@[j]
    &&& new.people@[i].id == old.people@[i].id
    &&& new.people@[i].name == old.people@[i].name
    &&& new.people@[i].online == old.people@[i].online
    &&& new.people@[i].last_seen == old.people@[i].last_seen
    &&& new.people@[i].messages@ == old.people@[i].messages@
    &&& new.people@[i].draft@ == draft
}

/// `new` is `old` after the draft `text` of person `i` was sent: the message joins the
/// outbox and the conversation as sending, and the draft is cleared.
pub open spec fn message_sent(old: App, new: App, i: int, text: Seq<char>) -> bool {
    let p = old.people@[i];
    let q = new.people@[i];
    &&& new.name == old.name
    &&& new.network_status == old.network_status
    &&& new.running == old.running
    &&& new.typing == old.typing
    &&& new.view == old.view
    &&& new.selected_person == old.selected_person
    &&& new.announcements@ == old.announcements@
    &&& new.outbox@.len() == old.outbox@.len() + 1
    &&& new.outbox@.take(old.outbox@.len() as int) == old.outbox@
    &&& new.outbox@.last().person_id@ == p.id@
    &&& new.outbox@.last().text@ == text
    &&& new.outbox@.last().message_index == p.messages@.len()
    &&& new.people@.len() == old.people@.len()
    &&& forall|j: int| 0 <= j < old.people@.len() && j != i ==> new.people@[j] == old.people@[j]
    &&& q.id == p.id && q.name == p.name && q.online == p.online && q.last_seen == p.last_seen
    &&& q.messages@.len() == p.messages@.len() + 1
    &&& q.messages@.take(p.messages@.len() as int) == p.messages@
    &&& q.messages@.last().from_me
    &&& q.messages@.last().text@ == text
    &&& q.messages@.last().delivery == Some(crate::state::Delivery::Sending)
    &&& q.draft@.len() == 0
}

/// The effect of a key while typing a message.
pub open spec fn typing_outcome(old: App, new: App, code: KeyCode) -> bool {
    if code == KeyCode::Esc {
        new == App { typing: false, ..old }
    } else if old.selected_person >= old.people@.len() {
        new == old
    } else {
        let i = old.selected_person as int;
        let p = old.people@[i];
        match code {
            KeyCode::Char(c) => draft_set(old, new, i, appended(p.draft@, seq![c])),
            KeyCode::Backspace => draft_set(
                old,
                new,
                i,
                if p.draft@.len() > 0 {
                    p.draft@.drop_last()
                } else {
                    p.draft@
                },
            ),
            KeyCode::Enter => {
                let text = trim_spec(p.draft@);
                if text.len() == 0 || !p.online || old.outbox@.len() >= MAX_PENDING_MESSAGES {
                    new == old
                } else {
                    message_sent(old, new, i, text)
                }
            },
            _ => new == old,
        }
    }
}

/// The view after `view` in the Tab order.
pub open spec fn next_view(view: tabs::View) -> tabs::View {
    match view {
        tabs::View::Announcements => tabs::View::Messages,
        tabs::View::Messages => tabs::View::Files,
        tabs::View::Files => tabs::View::Announcements,
    }
}

/// The effect of a key event.
pub open spec fn key_outcome(old: App, new: App, key: KeyEvent) -> bool {
    if key.kind != KeyEventKind::Press {
        new == old
    } else if key.modifiers.control {
        if key.code == KeyCode::Char('c') {
            new == App { running: false, ..old }
        } else {
            new == old
        }
    } else if key.modifiers.alt || key.modifiers.super_key {
        new == old
    } else if old.typing {
        typing_outcome(old, new, key.code)
    } else {
        match key.code {
            KeyCode::Char(c) => if c == 'q' {
                new == App { running: false, ..old }
            } else {
                new == old
            },
            KeyCode::Tab => new == App { view: next_view(old.view), ..old },
            KeyCode::Up => if old.view == tabs::View::Messages && old.selected_person > 0 {
                new == App { selected_person: (old.selected_person - 1) as usize, ..old }
            } else {
                new == old
            },
            KeyCode::Down => if old.view == tabs::View::Messages && old.selected_person + 1
                < old.people@.len() {
                new == App { selected_person: (old.selected_person + 1) as usize, ..old }
            } else {
                new == old
            },
            KeyCode::Enter => if old.view == tabs::View::Messages && old.selected_person
                < old.people@.len() {
                new == App { typing: true, ..old }
            } else {
                new == old
            },
            _ => new == old,
        }
    }
}

/// The effect of a terminal event.
pub open spec fn event_outcome(old: App, new: App, event: Event) -> bool {
    match event {
        Event::Key(key) => key_outcome(old, new, key),
        Event::Paste(text) => if old.typing && old.selected_person < old.people@.len() {
            draft_set(
                old,
                new,
                old.selected_person as int,
                appended(old.people@[old.selected_person as int].draft@, text@),
            )
        } else {
            new == old
        },
        Event::Other => new == old,
    }
}

/// Backspace while typing removes exactly the last character of the selected person's
/// draft, and nothing when the draft is empty; everyone else is left as they were.
pub proof fn law_backspace_removes_last_character(old: App, new: App, key: KeyEvent)
    requires
        key_outcome(old, new, key),
        key.code == KeyCode::Backspace,
        key.kind == KeyEventKind::Press,
        !key.modifiers.control && !key.modifiers.alt && !key.modifiers.super_key,
        old.typing,
        old.selected_person < old.people@.len(),
    ensures
        new.people@.len() == old.people@.len(),
        ({
            let i = old.selected_person as int;
            let before = old.people@[i].draft@;
            let after = new.people@[i].draft@;
            &&& before.len() > 0 ==> after.len() + 1 == before.len() && after.push(before.last())
                == before
            &&& before.len() == 0 ==> after.len() == 0
            &&& new.people@[i].messages@ == old.people@[i].messages@
        }),
        forall|j: int|
            0 <= j < old.people@.len() && j != old.selected_person ==> #[trigger] new.people@[j]
                == old.people@[j],
        new.outbox@ == old.outbox@,
        new.typing == old.typing && new.running == old.running,
{
    let i = old.selected_person as int;
    let before = old.people@[i].draft@;
    if before.len() > 0 {
        assert(before.drop_last().push(before.last()) =~= before);
    }
}

/// Every draft holds at most `MAX_MESSAGE_CHARACTERS` characters.
pub open spec fn drafts_bounded(app: App) -> bool {
    forall|i: int|
        0 <= i < app.people@.len() ==> (#[trigger] app.people@[i]).draft@.len()
            <= MAX_MESSAGE_CHARACTERS
}

/// Adding text never makes a draft longer than `MAX_MESSAGE_CHARACTERS`, unless it was
/// already longer; it then stays as it is.
pub proof fn law_appended_bounded(draft: Seq<char>, text: Seq<char>)
    ensures
        draft.len() <= MAX_MESSAGE_CHARACTERS ==> appended(draft, text).len()
            <= MAX_MESSAGE_CHARACTERS,
        draft.len() > MAX_MESSAGE_CHARACTERS ==> appended(draft, text) == draft,
        draft.is_prefix_of(appended(draft, text)),
{
    let r = appended(draft, text);
    assert(r.take(draft.len() as int) =~= draft);
}

/// No event makes a draft longer than `MAX_MESSAGE_CHARACTERS`.
pub proof fn law_events_keep_drafts_bounded(old: App, new: App, event: Event)
    requires
        event_outcome(old, new, event),
        drafts_bounded(old),
    ensures
        drafts_bounded(new),
{
    if old.selected_person < old.people@.len() {
        let i = old.selected_person as int;
        law_appended_bounded(old.people@[i].draft@, seq![' ']);
        match event {
            Event::Paste(text) => {
                law_appended_bounded(old.people@[i].draft@, text@);
            },
            Event::Key(key) => {
                match key.code {
                    KeyCode::Char(c) => {
                        law_appended_bounded(old.people@[i].draft@, seq![c]);
                    },
                    _ => {},
                }
            },
            _ => {},
        }
        assert forall|j: int| 0 <= j < new.people@.len() implies (#[trigger] new.people@[j]).draft@.len()
            <= MAX_MESSAGE_CHARACTERS by {
            assert(old.people@[j].draft@.len() <= MAX_MESSAGE_CHARACTERS);
        }
    }
}

/// No event changes anyone's ID or the length of the people list, so IDs stay distinct.
pub proof fn law_events_keep_people(old: App, new: App, event: Event)
    requires
        event_outcome(old, new, event),
    ensures
        new.people@.len() == old.people@.len(),
        forall|j: int| 0 <= j < old.people@.len() ==> (#[trigger] new.people@[j]).id == old.people@[j].id,
        ids_distinct(old.people@) ==> ids_distinct(new.people@),
{
    assert forall|a: int, b: int|
        ids_distinct(old.people@) && 0 <= a < new.people@.len() && 0 <= b < new.people@.len() && a
            != b implies (#[trigger] new.people@[a]).id@ != (#[trigger] new.people@[b]).id@ by {
        assert(new.people@[a].id == old.people@[a].id);
        assert(new.people@[b].id == old.people@[b].id);
    }
}

/// While typing, letters are text: no key without Control quits or changes the view.
pub proof fn law_typing_keeps_shortcuts_as_text(old: App, new: App, key: KeyEvent)
    requires
        key_outcome(old, new, key),
        old.typing,
        !key.modifiers.control,
    ensures
        new.running == old.running,
        new.view == old.view,
        new.selected_person == old.selected_person,
{
}

/// Pasting only edits the selected draft: it never sends a message or quits.
pub proof fn law_paste_cannot_submit_or_quit(old: App, new: App, text: String)
    requires
        event_outcome(old, new, Event::Paste(text)),
    ensures
        new.running == old.running,
        new.typing == old.typing,
        new.outbox@ == old.outbox@,
        forall|j: int|
            0 <= j < old.people@.len() ==> (#[trigger] new.people@[j]).messages@
                == old.people@[j].messages@,
{
}

/// Moving through the list keeps the selection on someone in it, and leaves every
/// draft as it was.
pub proof fn law_selection_stays_in_list(old: App, new: App, key: KeyEvent)
    requires
        key_outcome(old, new, key),
        !old.typing,
        key.code == KeyCode::Up || key.code == KeyCode::Down,
        old.selected_person < old.people@.len(),
    ensures
        new.selected_person < new.people@.len(),
        new.people@ == old.people@,
{
}

/// Sending puts the trimmed draft in the outbox with the position of the new message
/// in the conversation, so its delivery status can be updated later.
pub proof fn law_outbox_names_sent_message(old: App, new: App, key: KeyEvent)
    requires
        key_outcome(old, new, key),
        old.typing,
        key.kind == KeyEventKind::Press,
        !key.modifiers.control && !key.modifiers.alt && !key.modifiers.super_key,
        key.code == KeyCode::Enter,
        new.outbox@.len() > old.outbox@.len(),
    ensures
        ({
            let o = new.outbox@.last();
            let i = old.selected_person as int;
            &&& 0 <= i < new.people@.len()
            &&& o.person_id@ == new.people@[i].id@
            &&& o.message_index < new.people@[i].messages@.len()
            &&& new.people@[i].messages@[o.message_index as int].text@ == o.text@
            &&& new.people@[i].messages@[o.message_index as int].from_me
            &&& o.text@.len() > 0
        }),
{
}

proof fn lemma_cleaned_prefix(text: Seq<char>, i: int)
    requires
        0 <= i <= text.len(),
    ensures
        cleaned(text.take(i)).len() <= cleaned(text).len(),
        cleaned(text).take(cleaned(text.take(i)).len() as int) == cleaned(text.take(i)),
    decreases text.len() - i,
{
    if i == text.len() {
        assert(text.take(i) =~= text);
        assert(cleaned(text).take(cleaned(text).len() as int) =~= cleaned(text));
    } else {
        lemma_cleaned_prefix(text, i + 1);
        assert(text.take(i + 1).drop_last() =~= text.take(i));
        let a = cleaned(text.take(i));
        let b = cleaned(text.take(i + 1));
        assert(b.take(a.len() as int) =~= a);
        assert(cleaned(text).take(a.len() as int) =~= cleaned(text).take(b.len() as int).take(
            a.len() as int,
        ));
    }
}

/// Add typed or pasted text to a draft, up to `MAX_MESSAGE_CHARACTERS` characters.
/// Pasted newlines become spaces, rather than submitting the message.
pub fn append_text(draft: &mut String, text: &str)
    ensures
        final(draft)@ == appended(old(draft)@, text@),
{
    let chars = chars_of(text);
    let mut character_count = chars_of(draft.as_str()).len();
    let mut i: usize = 0;
    assert(chars@.take(0) =~= Seq::<char>::empty());
    while i < chars.len()
        invariant
            chars@ == text@,
            i <= chars@.len(),
            character_count == draft@.len(),
            draft@ == old(draft)@ + cleaned(chars@.take(i as int)),
            old(draft)@.len() >= MAX_MESSAGE_CHARACTERS ==> i == 0,
            old(draft)@.len() < MAX_MESSAGE_CHARACTERS ==> character_count
                <= MAX_MESSAGE_CHARACTERS,
        decreases chars@.len() - i,
    {
        if character_count >= MAX_MESSAGE_CHARACTERS {
            proof {
                lemma_cleaned_prefix(chars@, i as int);
                if i == 0 {
                    assert(draft@ =~= old(draft)@);
                }
            }
            return;
        }
        assert(chars@.take(i + 1).drop_last() =~= chars@.take(i as int));
        let character = chars[i];
        if character == '\n' || character == '\r' || character == '\t' {
            push_char(draft, ' ');
        } else if !is_control(character) {
            push_char(draft, character);
        } else {
            i = i + 1;
            continue;
        }
        character_count = character_count + 1;
        i = i + 1;
    }
    proof {
        assert(chars@.take(i as int) =~= chars@);
    }
}

/// Apply a terminal event to the app.
pub fn handle_event(app: &mut App, event: Event)
    ensures
        event_outcome(*old(app), *final(app), event),
{
    match event {
        Event::Key(key) => {
            handle_key(app, key);
        },
        Event::Paste(text) => {
            if app.typing && app.selected_person < app.people.len() {
                let index = app.selected_person;
                append_text(&mut app.people[index].draft, text.as_str());
            }
        },
        Event::Other => {},  // Resize events cause a redraw on the next loop iteration.
    }
}

/// Apply a key event to the app.
pub fn handle_key(app: &mut App, key: KeyEvent)
    ensures
        key_outcome(*old(app), *final(app), key),
{
    // Ignore release events so a key does not get handled twice on Windows.
    if key.kind != KeyEventKind::Press {
        return;
    }
    if key.modifiers.control {
        if key.code == KeyCode::Char('c') {
            app.running = false;
        }
        return;
    }
    if key.modifiers.alt || key.modifiers.super_key {
        return;
    }
    if app.typing {
        handle_typing(app, key.code);
        return;
    }
    match key.code {
        KeyCode::Char(c) => {
            if c == 'q' {
                app.running = false;
            }
        },
        KeyCode::Tab => {
            app.view = match app.view {
                tabs::View::Announcements => tabs::View::Messages,
                tabs::View::Messages => tabs::View::Files,
                tabs::View::Files => tabs::View::Announcements,
            };
        },
        KeyCode::Up => {
            if app.view == tabs::View::Messages && app.selected_person > 0 {
                app.selected_person = app.selected_person - 1;
            }
        },
        KeyCode::Down => {
            if app.view == tabs::View::Messages && app.selected_person < app.people.len()
                && app.selected_person + 1 < app.people.len() {
                app.selected_person = app.selected_person + 1;
            }
        },
        KeyCode::Enter => {
            if app.view == tabs::View::Messages && app.selected_person < app.people.len() {
                app.typing = true;
            }
        },
        _ => {},
    }
}

/// Apply a key pressed while typing a message to the selected person.
pub fn handle_typing(app: &mut App, key: KeyCode)
    ensures
        typing_outcome(*old(app), *final(app), key),
{
    if key == KeyCode::Esc {
        app.typing = false;
        return;
    }
    if app.selected_person >= app.people.len() {
        return;
    }
    let index = app.selected_person;
    match key {
        KeyCode::Char(character) => {
            let mut typed = String::new();
            push_char(&mut typed, character);
            append_text(&mut app.people[index].draft, typed.as_str());
            assert(typed@ =~= seq![character]);
        },
        KeyCode::Backspace => {
            pop_char(&mut app.people[index].draft);
        },
        KeyCode::Enter => {
            let draft = chars_of(app.people[index].draft.as_str());
            let trimmed = trim_chars(&draft);
            if trimmed.len() > 0 {
                if !app.people[index].online || app.outbox.len() >= MAX_PENDING_MESSAGES {
                    return;
                }
                let message = text_of(&trimmed);
                let outgoing = OutgoingMessage {
                    person_id: app.people[index].id.clone(),
                    text: message.clone(),
                    message_index: app.people[index].messages.len(),
                };
                app.outbox.push(outgoing);
                app.people[index].messages.push(Message::sent(message.as_str()));
                app.people[index].draft = String::new();
                assert(app.outbox@.take(old(app).outbox@.len() as int) =~= old(app).outbox@);
                assert(app.people@[index as int].messages@.take(
                    old(app).people@[index as int].messages@.len() as int,
                ) =~= old(app).people@[index as int].messages@);
            }
        },
        _ => {},
    }
}

} // verus!
