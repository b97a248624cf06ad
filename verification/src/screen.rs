//! What the screen shows: every text of a frame, decided from the application data.
//! Laying the texts out and styling them is the terminal's part.
use vstd::prelude::*;

use crate::state::{App, Message, Person};
use crate::tabs;
use crate::text::{decimal_spec, push_decimal, push_str, text_of};

verus! {

broadcast use vstd::string::group_string_axioms;

/// The smallest terminal width the layout needs.
pub const MIN_WIDTH: u16 = 64;

/// The smallest terminal height the layout needs.
pub const MIN_HEIGHT: u16 = 16;

/// One entry of the people list.
pub struct PersonRow {
    pub name: String,
    pub status: String,
    pub online: bool,
}

/// One message of a conversation: who wrote it and the line shown under the author.
pub struct MessageLine {
    pub author: String,
    pub from_me: bool,
    pub body: String,
}

/// The conversation with the selected person and the message composer.
pub struct Conversation {
    pub name: String,
    pub description: String,
    pub lines: Vec<MessageLine>,
    /// The message kept visible: the newest one.
    pub newest: Option<usize>,
    pub input_title: String,
    /// The draft, or a placeholder when there is no draft and the user is not typing.
    pub input_text: String,
    pub placeholder: bool,
    pub typing: bool,
    /// The width of `input_text` in terminal columns, or `None` when it does not fit
    /// in a `u16`; the composer then draws no text.
    pub input_width: Option<u16>,
}

/// The Messages screen.
pub struct MessagesPanel {
    pub people: Vec<PersonRow>,
    pub selected: usize,
    pub people_count: String,
    pub conversation: Option<Conversation>,
    /// Shown instead of a conversation when nobody is selected.
    pub empty_notice: Vec<String>,
}

/// The main area of the screen.
pub enum Content {
    Announcements(Vec<String>),
    Messages(MessagesPanel),
    Files(Vec<String>),
}

/// A frame large enough for the layout.
pub struct Frame {
    pub title: String,
    pub subtitle: String,
    pub mode: String,
    pub tabs: Vec<String>,
    pub selected_tab: usize,
    pub content: Content,
    /// Pairs of a key and what it does.
    pub shortcuts: Vec<(String, String)>,
    pub status_line: String,
}

/// What the screen shows.
pub enum Screen {
    /// The terminal is too small; only a notice is shown.
    TooSmall(String),
    Full(Frame),
}

/// The text under a message's author: the delivery status in brackets, then the text.
pub open spec fn body_text(m: Message) -> Seq<char> {
    match m.delivery {
        Some(d) => "["@ + d.label_spec() + "] "@ + m.text@,
        None => m.text@,
    }
}

/// The status shown beside a person.
pub open spec fn status_label(online: bool) -> Seq<char> {
    if online {
        "[online]"@
    } else {
        "[offline]"@
    }
}

/// The index of a view's tab.
pub open spec fn tab_index(view: tabs::View) -> usize {
    match view {
        tabs::View::Announcements => 0,
        tabs::View::Messages => 1,
        tabs::View::Files => 2,
    }
}

/// The rows of the people list show each person's name and status, in order.
pub open spec fn rows_match(rows: Seq<PersonRow>, people: Seq<Person>) -> bool {
    &&& rows.len() == people.len()
    &&& forall|i: int|
        0 <= i < people.len() ==> (#[trigger] rows[i]).name@ == people[i].name@ && rows[i].online
            == people[i].online && rows[i].status@ == status_label(people[i].online)
}

/// The lines of a conversation show each message in order, under "You" or the person's name.
pub open spec fn lines_match(lines: Seq<MessageLine>, p: Person) -> bool {
    &&& lines.len() == p.messages@.len()
    &&& forall|i: int|
        0 <= i < lines.len() ==> (#[trigger] lines[i]).from_me == p.messages@[i].from_me
            && lines[i].author@ == (if p.messages@[i].from_me {
            "You"@
        } else {
            p.name@
        }) && lines[i].body@ == body_text(p.messages@[i])
}

/// Our own messages are shown under "You", and the other person's under their name.
pub proof fn law_own_messages_are_by_you(c: Conversation, p: Person, typing: bool)
    requires
        conversation_matches(c, p, typing),
    ensures
        c.lines@.len() == p.messages@.len(),
        forall|i: int|
            0 <= i < p.messages@.len() ==> {
                &&& (#[trigger] p.messages@[i]).from_me ==> c.lines@[i].author@ == "You"@
                &&& !p.messages@[i].from_me ==> c.lines@[i].author@ == p.name@
                &&& c.lines@[i].from_me == p.messages@[i].from_me
            },
{
    assert forall|i: int| 0 <= i < p.messages@.len() implies c.lines@[i].from_me
        == (#[trigger] p.messages@[i]).from_me by {
        assert(c.lines@[i].from_me == p.messages@[i].from_me);
    }
}

/// The conversation panel for person `p`.
pub open spec fn conversation_matches(c: Conversation, p: Person, typing: bool) -> bool {
    &&& c.name@ == p.name@
    &&& c.description@ == "Relayed chat \u{b7} unencrypted demo"@
    &&& lines_match(c.lines@, p)
    &&& c.newest == if p.messages@.len() == 0 {
        None
    } else {
        Some((p.messages@.len() - 1) as usize)
    }
    &&& c.typing == typing
    &&& c.input_title@ == if typing {
        " WRITING "@
    } else {
        " MESSAGE "@
    }
    &&& c.placeholder == (p.draft@.len() == 0 && !typing)
    &&& c.input_text@ == if c.placeholder {
        "Enter to start a message"@
    } else {
        p.draft@
    }
    &&& c.input_width == fitted_width(display_width_spec(c.input_text@))
}

/// The number of terminal columns that a line of text takes, as Ratatui counts them
/// (`ratatui::text::Line::width`, which depends on the text alone).
pub uninterp spec fn display_width_spec(text: Seq<char>) -> nat;

/// A width as a `u16`, or `None` when it does not fit.
pub open spec fn fitted_width(width: nat) -> Option<u16> {
    if width <= u16::MAX {
        Some(width as u16)
    } else {
        None
    }
}

/// How far the composer scrolls a draft `text_width` columns wide in a box with
/// `inner_width` columns inside: one column stays free for the cursor, and the end
/// of the draft stays visible.
pub open spec fn scroll_spec(text_width: u16, inner_width: u16) -> int {
    if inner_width == 0 {
        text_width as int
    } else if text_width + 1 <= inner_width {
        0
    } else {
        text_width - (inner_width - 1)
    }
}

/// The lines of the Files placeholder.
pub open spec fn files_text(lines: Seq<String>) -> bool {
    &&& lines.len() == 5
    &&& lines[0]@ == "[ + ]"@
    &&& lines[1]@ == ""@
    &&& lines[2]@ == "A shared shelf for your club"@
    &&& lines[3]@ == ""@
    &&& lines[4]@ == "File sharing will be added later."@
}

/// The shortcut hints: keys and what they do, while typing or while browsing.
pub open spec fn shortcuts_match(shortcuts: Seq<(String, String)>, typing: bool) -> bool {
    if typing {
        &&& shortcuts.len() == 3
        &&& shortcuts[0].0@ == "Enter"@ && shortcuts[0].1@ == " send   "@
        &&& shortcuts[1].0@ == "Esc"@ && shortcuts[1].1@ == " keep draft   "@
        &&& shortcuts[2].0@ == "Ctrl+C"@ && shortcuts[2].1@ == " quit"@
    } else {
        &&& shortcuts.len() == 4
        &&& shortcuts[0].0@ == "Tab"@ && shortcuts[0].1@ == " views   "@
        &&& shortcuts[1].0@ == "\u{2191} \u{2193}"@ && shortcuts[1].1@ == " people   "@
        &&& shortcuts[2].0@ == "Enter"@ && shortcuts[2].1@ == " write   "@
        &&& shortcuts[3].0@ == "q"@ && shortcuts[3].1@ == " quit"@
    }
}

/// One notice card of the noticeboard: its top row, its height, and its label.
pub struct NoticeCard {
    pub top: u16,
    pub height: u16,
    pub label: String,
}

/// How the noticeboard lays out its notices: a compact list when the cards do not fit,
/// otherwise one card per notice while there is room.
pub struct AnnouncementLayout {
    pub compact: bool,
    pub cards: Vec<NoticeCard>,
}

/// The top row of card `k`: each card takes up to three rows and one row of space.
pub open spec fn card_top(y: int, bottom: int, k: nat) -> int
    decreases k,
{
    if k == 0 {
        y
    } else {
        let t = card_top(y, bottom, (k - 1) as nat);
        t + min_int(3, bottom - t) + 1
    }
}

/// The smaller of two integers.
pub open spec fn min_int(a: int, b: int) -> int {
    if a <= b {
        a
    } else {
        b
    }
}

/// The label of notice `n`: `NOTICE ` and the number, with at least two digits.
pub open spec fn notice_label(n: nat) -> Seq<char> {
    "NOTICE "@ + if n < 10 {
        "0"@ + decimal_spec(n)
    } else {
        decimal_spec(n)
    }
}

/// Card `k` of a noticeboard whose notices start at row `y` and end before row `bottom`.
pub open spec fn card_matches(card: NoticeCard, y: int, bottom: int, k: int) -> bool {
    &&& card.top == card_top(y, bottom, k as nat)
    &&& card.top < bottom
    &&& card.height == min_int(3, bottom - card.top)
    &&& card.label@ == notice_label((k + 1) as nat)
}

/// The layout of `count` notices in rows `y` to `y + height`.
pub open spec fn layout_matches(l: AnnouncementLayout, count: nat, y: u16, height: u16) -> bool {
    let bottom = y + height;
    &&& l.compact == (height + 1 < 4 * count)
    &&& l.compact ==> l.cards@.len() == 0
    &&& !l.compact ==> {
        &&& l.cards@.len() <= count
        &&& forall|k: int|
            0 <= k < l.cards@.len() ==> card_matches(#[trigger] l.cards@[k], y as int, bottom, k)
        &&& l.cards@.len() == count || card_top(y as int, bottom, l.cards@.len()) >= bottom
    }
}

/// The screen for `app` on a terminal of `width` by `height` cells.
pub open spec fn screen_matches(s: Screen, app: App, width: u16, height: u16) -> bool {
    if width < MIN_WIDTH || height < MIN_HEIGHT {
        s matches Screen::TooSmall(notice) && notice@ == "Resize to at least 64 x 16. Ctrl+C quits."@
    } else {
        &&& s matches Screen::Full(f)
        &&& {
            let f = s->Full_0;
            &&& f.title@ == "Bit to Byte"@
            &&& f.subtitle@ == "Your club, one terminal."@
            &&& f.mode@ == " CLUB CHAT "@
            &&& f.selected_tab == tab_index(app.view)
            &&& f.tabs@.len() == 3
            &&& f.tabs@[0]@ == "Announcements"@
            &&& f.tabs@[1]@ == "Messages"@
            &&& f.tabs@[2]@ == "Files"@
            &&& shortcuts_match(f.shortcuts@, app.typing)
            &&& f.status_line@ == app.network_status@ + " \u{b7} You: "@ + app.name@
            &&& match app.view {
                tabs::View::Announcements => f.content matches Content::Announcements(a) && a@.len()
                    == app.announcements@.len() && forall|i: int|
                    0 <= i < a@.len() ==> (#[trigger] a@[i])@ == app.announcements@[i]@,
                tabs::View::Files => f.content matches Content::Files(lines) && files_text(lines@),
                tabs::View::Messages => {
                    &&& f.content is Messages
                    &&& {
                        let m = f.content->Messages_0;
                        &&& rows_match(m.people@, app.people@)
                        &&& m.people_count@ == " "@ + decimal_spec(app.people@.len()) + " people "@
                        &&& m.selected == app.selected_person
                        &&& if app.selected_person < app.people@.len() {
                            m.conversation matches Some(c) && conversation_matches(
                                c,
                                app.people@[app.selected_person as int],
                                app.typing,
                            )
                        } else {
                            &&& m.conversation is None
                            &&& m.empty_notice@.len() == 3
                            &&& m.empty_notice@[0]@ == "No conversations yet"@
                            &&& m.empty_notice@[1]@ == ""@
                            &&& m.empty_notice@[2]@
                                == "Open Bit to Byte on another device or in another terminal."@
                        }
                    }
                },
            }
        }
    }
}

/// The number of terminal columns a line of text takes (`ratatui::text::Line::width`).
/// Claimed: the result is the value of `display_width_spec` for the text; nothing more
/// about how columns are counted.
#[verifier::external_body]
pub(crate) fn display_width(text: &str) -> (width: usize)
    ensures
        width == display_width_spec(text@),
{
    ratatui::text::Line::raw(text).width()
}

/// The width of a text as a `u16`, or `None` when it does not fit.
pub fn fitted_display_width(text: &str) -> (width: Option<u16>)
    ensures
        width == fitted_width(display_width_spec(text@)),
{
    let columns = display_width(text);
    if columns <= 65535 {
        Some(columns as u16)
    } else {
        None
    }
}

/// How far the composer scrolls a draft `text_width` columns wide inside a box with
/// `inner_width` columns, so that the end of the draft and the cursor after it show.
pub fn draft_scroll(text_width: u16, inner_width: u16) -> (scroll: u16)
    ensures
        scroll == scroll_spec(text_width, inner_width),
        scroll <= text_width,
        inner_width > 0 ==> text_width - scroll <= inner_width - 1,
{
    let available_width = inner_width.saturating_sub(1);
    text_width.saturating_sub(available_width)
}

/// The column of the cursor after a draft `text_width` columns wide, scrolled by
/// `scroll`, in a box whose inside starts at column `inner_x`.
pub fn cursor_column(inner_x: u16, text_width: u16, scroll: u16) -> (cursor_x: u16)
    requires
        scroll <= text_width,
        inner_x + text_width <= u16::MAX,
    ensures
        cursor_x == inner_x + text_width - scroll,
{
    inner_x + text_width - scroll
}

/// The label of notice `number`.
pub fn notice_label_text(number: usize) -> (label: String)
    ensures
        label@ == notice_label(number as nat),
{
    let mut label = owned("NOTICE ");
    if number < 10 {
        push_str(&mut label, "0");
    }
    let mut digits: Vec<char> = Vec::new();
    push_decimal(&mut digits, number as u128);
    assert(digits@ =~= decimal_spec(number as nat));
    let digits_text = text_of(&digits);
    push_str(&mut label, digits_text.as_str());
    label
}

/// How `count` notices are laid out in the rows from `y` to `y + height`.
pub fn announcement_layout(count: usize, y: u16, height: u16) -> (l: AnnouncementLayout)
    requires
        count <= usize::MAX / 4,
        y + height < u16::MAX,
    ensures
        layout_matches(l, count as nat, y, height),
{
    let mut cards: Vec<NoticeCard> = Vec::new();
    // Use a compact list to fit the notices in a short terminal.
    if (height as usize) + 1 < count * 4 {
        return AnnouncementLayout { compact: true, cards };
    }
    let bottom = y + height;
    let mut top = y;
    let mut k: usize = 0;
    while k < count && top < bottom
        invariant
            !(height + 1 < 4 * count),
            bottom == y + height,
            bottom < u16::MAX,
            k <= count,
            top == card_top(y as int, bottom as int, k as nat),
            cards@.len() == k,
            forall|j: int|
                0 <= j < k ==> card_matches(#[trigger] cards@[j], y as int, bottom as int, j),
        decreases count - k,
    {
        let card_height = if bottom - top < 3 {
            bottom - top
        } else {
            3
        };
        cards.push(NoticeCard { top, height: card_height, label: notice_label_text(k + 1) });
        top = top + card_height + 1;
        k = k + 1;
    }
    AnnouncementLayout { compact: false, cards }
}

fn owned(s: &str) -> (t: String)
    ensures
        t@ == s@,
{
    s.to_owned()
}

/// The line under a message's author.
pub fn message_body(message: &Message) -> (body: String)
    ensures
        body@ == body_text(*message),
{
    match &message.delivery {
        Some(delivery) => {
            let mut body = owned("[");
            push_str(&mut body, delivery.label());
            push_str(&mut body, "] ");
            push_str(&mut body, message.text.as_str());
            body
        },
        None => message.text.clone(),
    }
}

/// The rows of the people list.
pub fn people_rows(people: &Vec<Person>) -> (rows: Vec<PersonRow>)
    ensures
        rows_match(rows@, people@),
{
    let mut rows: Vec<PersonRow> = Vec::new();
    let mut i: usize = 0;
    while i < people.len()
        invariant
            i <= people@.len(),
            rows@.len() == i,
            forall|k: int|
                0 <= k < i ==> (#[trigger] rows@[k]).name@ == people@[k].name@ && rows@[k].online
                    == people@[k].online && rows@[k].status@ == status_label(people@[k].online),
        decreases people@.len() - i,
    {
        let person = &people[i];
        let status = if person.online {
            owned("[online]")
        } else {
            owned("[offline]")
        };
        rows.push(PersonRow { name: person.name.clone(), status, online: person.online });
        i = i + 1;
    }
    rows
}

/// The conversation panel for a person.
pub fn conversation(person: &Person, typing: bool) -> (c: Conversation)
    ensures
        conversation_matches(c, *person, typing),
{
    let mut lines: Vec<MessageLine> = Vec::new();
    let mut i: usize = 0;
    while i < person.messages.len()
        invariant
            i <= person.messages@.len(),
            lines@.len() == i,
            forall|k: int|
                0 <= k < i ==> (#[trigger] lines@[k]).from_me == person.messages@[k].from_me
                    && lines@[k].author@ == (if person.messages@[k].from_me {
                    "You"@
                } else {
                    person.name@
                }) && lines@[k].body@ == body_text(person.messages@[k]),
        decreases person.messages@.len() - i,
    {
        let message = &person.messages[i];
        let author = if message.from_me {
            owned("You")
        } else {
            person.name.clone()
        };
        lines.push(MessageLine { author, from_me: message.from_me, body: message_body(message) });
        i = i + 1;
    }
    let newest = if person.messages.len() == 0 {
        None
    } else {
        Some(person.messages.len() - 1)
    };
    let placeholder = person.draft.as_str().is_empty() && !typing;
    let input_text = if placeholder {
        owned("Enter to start a message")
    } else {
        person.draft.clone()
    };
    let input_title = if typing {
        owned(" WRITING ")
    } else {
        owned(" MESSAGE ")
    };
    let input_width = fitted_display_width(input_text.as_str());
    Conversation {
        name: person.name.clone(),
        description: owned("Relayed chat \u{b7} unencrypted demo"),
        lines,
        newest,
        input_title,
        input_text,
        placeholder,
        typing,
        input_width,
    }
}

/// What the screen shows for `app` on a terminal of `width` by `height` cells.
pub fn screen(app: &App, width: u16, height: u16) -> (s: Screen)
    ensures
        screen_matches(s, *app, width, height),
{
    if width < MIN_WIDTH || height < MIN_HEIGHT {
        return Screen::TooSmall(owned("Resize to at least 64 x 16. Ctrl+C quits."));
    }
    let mut tab_names: Vec<String> = Vec::new();
    tab_names.push(owned("Announcements"));
    tab_names.push(owned("Messages"));
    tab_names.push(owned("Files"));
    let selected_tab: usize = match app.view {
        tabs::View::Announcements => 0,
        tabs::View::Messages => 1,
        tabs::View::Files => 2,
    };
    let content = match app.view {
        tabs::View::Announcements => {
            let mut notices: Vec<String> = Vec::new();
            let mut i: usize = 0;
            while i < app.announcements.len()
                invariant
                    i <= app.announcements@.len(),
                    notices@.len() == i,
                    forall|k: int| 0 <= k < i ==> (#[trigger] notices@[k])@ == app.announcements@[k]@,
                decreases app.announcements@.len() - i,
            {
                notices.push(app.announcements[i].clone());
                i = i + 1;
            }
            Content::Announcements(notices)
        },
        tabs::View::Messages => {
            let rows = people_rows(&app.people);
            let mut count = owned(" ");
            let mut digits: Vec<char> = Vec::new();
            push_decimal(&mut digits, app.people.len() as u128);
            assert(digits@ =~= decimal_spec(app.people@.len()));
            let digits_text = text_of(&digits);
            push_str(&mut count, digits_text.as_str());
            push_str(&mut count, " people ");
            let mut empty_notice: Vec<String> = Vec::new();
            let panel = if app.selected_person < app.people.len() {
                MessagesPanel {
                    people: rows,
                    selected: app.selected_person,
                    people_count: count,
                    conversation: Some(conversation(&app.people[app.selected_person], app.typing)),
                    empty_notice,
                }
            } else {
                empty_notice.push(owned("No conversations yet"));
                empty_notice.push(owned(""));
                empty_notice.push(
                    owned("Open Bit to Byte on another device or in another terminal."),
                );
                MessagesPanel {
                    people: rows,
                    selected: app.selected_person,
                    people_count: count,
                    conversation: None,
                    empty_notice,
                }
            };
            Content::Messages(panel)
        },
        tabs::View::Files => {
            let mut lines: Vec<String> = Vec::new();
            lines.push(owned("[ + ]"));
            lines.push(owned(""));
            lines.push(owned("A shared shelf for your club"));
            lines.push(owned(""));
            lines.push(owned("File sharing will be added later."));
            Content::Files(lines)
        },
    };
    let mut shortcuts: Vec<(String, String)> = Vec::new();
    if app.typing {
        shortcuts.push((owned("Enter"), owned(" send   ")));
        shortcuts.push((owned("Esc"), owned(" keep draft   ")));
        shortcuts.push((owned("Ctrl+C"), owned(" quit")));
    } else {
        shortcuts.push((owned("Tab"), owned(" views   ")));
        shortcuts.push((owned("\u{2191} \u{2193}"), owned(" people   ")));
        shortcuts.push((owned("Enter"), owned(" write   ")));
        shortcuts.push((owned("q"), owned(" quit")));
    }
    let mut status_line = app.network_status.clone();
    push_str(&mut status_line, " \u{b7} You: ");
    push_str(&mut status_line, app.name.as_str());
    Screen::Full(
        Frame {
            title: owned("Bit to Byte"),
            subtitle: owned("Your club, one terminal."),
            mode: owned(" CLUB CHAT "),
            tabs: tab_names,
            selected_tab,
            content,
            shortcuts,
            status_line,
        },
    )
}

} // verus!
