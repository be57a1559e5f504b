//! What the canvas shows of each card, of the toast and of the other clients.
use vstd::prelude::*;

use crate::agent::{agent_badge, badge_of, needs_human, waits, AgentSource, Badge};
use crate::canvas::doc::{CanvasItem, Item, ItemKind, Looker, Looking, Rect};
use crate::canvas::msg::{ClientMsg, Effect};
use crate::canvas::screens::stream_on;
use crate::canvas::titles::{
    at_most, device, device_name, first_said, kind_name, kind_of, note_summary, NOTE_SUMMARY_CHARS,
};
use crate::canvas::view::{Canvas, CanvasView, ToastKind};
use crate::text::{decimal, held, lines, push_decimal, same_text};
use crate::theme::{Alpha, Shade, Swatch};

verus! {

/// What a card's view says of itself at a frame.
#[derive(Debug, PartialEq, Eq)]
pub struct Live<T> {
    /// The canvas is zoomed out so far that terminals, notes and files are summary cards.
    pub card: bool,
    /// The view has the keyboard.
    pub focused: bool,
    /// The note's editor has the keyboard.
    pub editing: bool,
    /// This client's size rules the shell.
    pub driving: bool,
    /// The stream is silenced here.
    pub muted: bool,
    pub has_audio: bool,
    /// The shell's size.
    pub cols: u16,
    pub rows: u16,
    /// What a zoomed-out file card says.
    pub summary: T,
}

impl DeepView for Live<String> {
    type V = Live<Seq<char>>;

    open spec fn deep_view(&self) -> Live<Seq<char>> {
        Live {
            card: self.card,
            focused: self.focused,
            editing: self.editing,
            driving: self.driving,
            muted: self.muted,
            has_audio: self.has_audio,
            cols: self.cols,
            rows: self.rows,
            summary: self.summary@,
        }
    }
}

/// A pill of a title bar.
#[derive(Clone, Copy, PartialEq, Eq, Structural, Debug)]
pub enum Pill {
    /// Take the shell's size.
    Take,
    /// Silence the window, or let it be heard again.
    Mute { muted: bool },
    /// Point the others at the card.
    Point,
    Find,
    Edit,
    Reload,
    /// Install the agent's hooks.
    Hooks,
}

impl Pill {
    /// What the pill says, what a screen reader reads, and its tone.
    pub open spec fn wears(self) -> (Seq<char>, Seq<char>, Swatch) {
        match self {
            Pill::Take => ("take"@, "take over"@, Swatch::Accent),
            Pill::Mute { muted } => if muted {
                ("muted"@, "unmute"@, Swatch::Warn)
            } else {
                ("mute"@, "mute"@, Swatch::Accent)
            },
            Pill::Point => ("point"@, "Point the others at this card"@, Swatch::TextSecondary),
            Pill::Find => ("find"@, "Find in the file"@, Swatch::TextSecondary),
            Pill::Edit => ("edit"@, "Open the file in the editor"@, Swatch::TextSecondary),
            Pill::Reload => ("reload"@, "Read the file again"@, Swatch::TextSecondary),
            Pill::Hooks => ("hooks"@, "install hooks"@, Swatch::Warn),
        }
    }

    /// What the pill says, what a screen reader reads, and its tone.
    pub fn look(self) -> (r: (&'static str, &'static str, Swatch))
        ensures
            (r.0@, r.1@, r.2) == self.wears(),
    {
        match self {
            Pill::Take => ("take", "take over", Swatch::Accent),
            Pill::Mute { muted } => if muted {
                ("muted", "unmute", Swatch::Warn)
            } else {
                ("mute", "mute", Swatch::Accent)
            },
            Pill::Point => ("point", "Point the others at this card", Swatch::TextSecondary),
            Pill::Find => ("find", "Find in the file", Swatch::TextSecondary),
            Pill::Edit => ("edit", "Open the file in the editor", Swatch::TextSecondary),
            Pill::Reload => ("reload", "Read the file again", Swatch::TextSecondary),
            Pill::Hooks => ("hooks", "install hooks", Swatch::Warn),
        }
    }
}

impl Canvas {
    /// A pill of a card was pressed: `place` is where a shell taken over goes, `command` what opens
    /// the file in the editor.
    pub open spec fn then_pill(
        self,
        id: u128,
        pill: Pill,
        place: Option<Rect>,
        command: Seq<char>,
    ) -> Canvas {
        match pill {
            Pill::Take => self.then_take_over(id, place),
            Pill::Mute { .. } => if stream_on(self.screens.open, id) is Some {
                self.say(Effect::ToggleMute(id))
            } else {
                self
            },
            Pill::Point => self.then_point(id),
            Pill::Find => if self.files.contains(id) {
                self.then_activate(id)
            } else {
                self
            },
            Pill::Edit => match self.doc.get(id) {
                Some(item) => if item.kind is File {
                    self.then_run(command)
                } else {
                    self
                },
                None => self,
            },
            Pill::Reload => self.then_request(id),
            Pill::Hooks => Canvas { hooks_offered: true, ..self }.send(ClientMsg::InstallHooks),
        }
    }
}

impl CanvasView {
    /// A pill of a card was pressed: `place` is where a shell taken over goes, where its size is to
    /// change, and `command` what opens the file in the editor. Says whether the file card's find
    /// bar is to open.
    pub fn pill_pressed(
        &mut self,
        id: u128,
        pill: Pill,
        place: Option<Rect>,
        command: String,
    ) -> (r: bool)
        ensures
            final(self).deep_view() == old(self).deep_view().then_pill(
                id,
                pill,
                place,
                command@,
            ),
            r == (pill == Pill::Find && old(self).deep_view().files.contains(id)),
    {
        match pill {
            Pill::Take => self.take_over(id, place),
            Pill::Mute { .. } => {
                if self.screens().on(id).is_some() {
                    self.say(Effect::ToggleMute(id));
                }
            },
            Pill::Point => self.point_at(id),
            Pill::Find => {
                if self.has_file(id) {
                    self.activate(id);
                    return true;
                }
            },
            Pill::Edit => self.edit_file(id, command),
            Pill::Reload => self.request_file(id),
            Pill::Hooks => self.install_hooks(),
        }
        false
    }
}

/// What fills a card.
#[derive(Debug, PartialEq, Eq)]
pub enum Body<T> {
    /// Its view.
    View,
    /// A line in place of it.
    Text(T),
}

impl DeepView for Body<String> {
    type V = Body<Seq<char>>;

    open spec fn deep_view(&self) -> Body<Seq<char>> {
        match *self {
            Body::View => Body::View,
            Body::Text(text) => Body::Text(text@),
        }
    }
}

/// What is shown of a card.
#[derive(Debug, PartialEq, Eq)]
pub struct ItemFace<T, P> {
    pub title: T,
    /// What a screen reader reads of the title bar.
    pub heading: T,
    pub border: Swatch,
    /// The dot before the title.
    pub dot: Swatch,
    pub title_tone: Swatch,
    /// The name field stands in the title's place.
    pub renaming: bool,
    /// The pill left of the title, reachable on a phone when the card is wider than the screen.
    pub before: Option<Pill>,
    /// The pills right of the title.
    pub after: P,
    /// A long command that ended unwatched: its badge, and its tone.
    pub finished: Option<(T, Swatch)>,
    pub badge: Option<Badge<T>>,
    pub body: Body<T>,
}

/// A badge's words and tone.
pub open spec fn badge_in(o: Option<(String, Swatch)>) -> Option<(Seq<char>, Swatch)> {
    match o {
        Some((text, tone)) => Some((text@, tone)),
        None => None,
    }
}

impl DeepView for ItemFace<String, Vec<Pill>> {
    type V = ItemFace<Seq<char>, Seq<Pill>>;

    open spec fn deep_view(&self) -> ItemFace<Seq<char>, Seq<Pill>> {
        ItemFace {
            title: self.title@,
            heading: self.heading@,
            border: self.border,
            dot: self.dot,
            title_tone: self.title_tone,
            renaming: self.renaming,
            before: self.before,
            after: self.after@,
            finished: badge_in(self.finished),
            badge: self.badge.deep_view(),
            body: self.body.deep_view(),
        }
    }
}

/// A pill where there is one.
pub open spec fn pill_if(show: bool, pill: Pill) -> Seq<Pill> {
    if show {
        seq![pill]
    } else {
        Seq::empty()
    }
}

impl Canvas {
    /// The card's view has the keyboard.
    pub open spec fn has_keyboard(self, item: Item<Seq<char>>, live: Live<Seq<char>>) -> bool {
        match item.kind {
            ItemKind::Terminal { session } => self.shells.drawn(session) && live.focused,
            ItemKind::Window { .. } => stream_on(self.screens.open, item.id) is Some && live.focused,
            ItemKind::Display { .. } => stream_on(self.screens.open, item.id) is Some
                && live.focused,
            ItemKind::Note { .. } => self.notes.contains(item.id) && live.editing,
            ItemKind::File { .. } => false,
        }
    }

    /// The agent of a card.
    pub open spec fn agent_on(self, item: Item<Seq<char>>) -> Option<
        crate::agent::Agent<Seq<char>>,
    > {
        match item.kind {
            ItemKind::Terminal { session } => if self.shells.agents.contains_key(session) {
                Some(self.shells.agents[session])
            } else {
                None
            },
            _ => None,
        }
    }

    /// The card's agent waits on the human.
    pub open spec fn waits_on(self, item: Item<Seq<char>>) -> bool {
        self.agent_on(item) matches Some(agent) && waits(agent)
    }

    /// The pill left of the title: a shell another client's size rules offers to be taken, on the
    /// active card only; a window with sound offers mute, and a muted one always shows it, so a
    /// silenced card is never mistaken for one whose sound simply stopped.
    pub open spec fn pill_before(self, item: Item<Seq<char>>, live: Live<Seq<char>>) -> Option<
        Pill,
    > {
        let active = self.active == Some(item.id);
        match item.kind {
            ItemKind::Terminal { session } => if active && self.shells.drawn(session)
                && !live.driving {
                Some(Pill::Take)
            } else {
                None
            },
            ItemKind::Window { .. } => self.mute_pill(item, live),
            ItemKind::Display { .. } => self.mute_pill(item, live),
            _ => None,
        }
    }

    /// The mute pill of a window or display.
    pub open spec fn mute_pill(self, item: Item<Seq<char>>, live: Live<Seq<char>>) -> Option<Pill> {
        if stream_on(self.screens.open, item.id) is Some && (live.muted || (self.active == Some(
            item.id,
        ) && live.has_audio)) {
            Some(Pill::Mute { muted: live.muted })
        } else {
            None
        }
    }

    /// The pills right of the title: the active card offers to point the others at it while
    /// somebody else is here; a file card offers its find bar, the editor where there is a shell
    /// for it, and reading it again; an agent the host had to guess at offers the hooks, once.
    pub open spec fn pills_after(self, item: Item<Seq<char>>) -> Seq<Pill> {
        let file = item.kind is File;
        pill_if(
            self.active == Some(item.id) && self.doc.lookers.len() > 0,
            Pill::Point,
        ) + pill_if(file, Pill::Find) + pill_if(
            file && self.shells.run_target() is Some,
            Pill::Edit,
        ) + pill_if(file, Pill::Reload) + pill_if(
            self.agent_on(item) matches Some(agent) && agent.source != AgentSource::Hook
                && !self.hooks_offered,
            Pill::Hooks,
        )
    }

    /// The badge of a long command that ended unwatched.
    pub open spec fn ended_badge(self, item: Item<Seq<char>>) -> Option<(Seq<char>, Swatch)> {
        match item.kind {
            ItemKind::Terminal { session } => if self.shells.finished.contains_key(session) {
                let done = self.shells.finished[session];
                Some(
                    (
                        done.says(),
                        if done.well() {
                            Swatch::Success
                        } else {
                            Swatch::Warn
                        },
                    ),
                )
            } else {
                None
            },
            _ => None,
        }
    }

    /// What fills a card: its view, or a line in place of it.
    pub open spec fn body_of(self, item: Item<Seq<char>>, live: Live<Seq<char>>) -> Body<
        Seq<char>,
    > {
        match item.kind {
            ItemKind::Terminal { session } => if !self.shells.drawn(session) {
                Body::Text(
                    if self.shells.alive(session) {
                        "attaching…"@
                    } else {
                        "session ended"@
                    },
                )
            } else if live.card {
                Body::Text(decimal(live.cols as nat) + "×"@ + decimal(live.rows as nat))
            } else {
                Body::View
            },
            ItemKind::Window { .. } => self.stream_body(item),
            ItemKind::Display { .. } => self.stream_body(item),
            ItemKind::Note { text } => if !live.card && self.notes.contains(item.id) {
                Body::View
            } else {
                Body::Text(at_most(first_said(lines(text)), NOTE_SUMMARY_CHARS as int))
            },
            ItemKind::File { .. } => if !self.files.contains(item.id) {
                Body::Text("reading…"@)
            } else if live.card {
                Body::Text(live.summary)
            } else {
                Body::View
            },
        }
    }

    /// What fills a window or display card; video paints at every zoom.
    pub open spec fn stream_body(self, item: Item<Seq<char>>) -> Body<Seq<char>> {
        if stream_on(self.screens.open, item.id) is Some {
            Body::View
        } else {
            Body::Text(
                if item.sleeping {
                    "sleeping"@
                } else {
                    "opening…"@
                },
            )
        }
    }

    /// The tone of a card's border: it warns while its agent waits on the human.
    pub open spec fn border_of(self, item: Item<Seq<char>>, live: Live<Seq<char>>) -> Swatch {
        if self.waits_on(item) {
            Swatch::Warn
        } else if self.has_keyboard(item, live) || self.active == Some(item.id) {
            Swatch::Accent
        } else {
            Swatch::Border
        }
    }

    /// What a screen reader reads of a card's title bar: what it is and what it is called, once
    /// where both are the same word.
    pub open spec fn heading_of(self, item: Item<Seq<char>>) -> Seq<char> {
        let title = self.card_title(item);
        if kind_of(item) == title {
            title
        } else {
            kind_of(item) + " "@ + title
        }
    }

    /// What is shown of a card.
    pub open spec fn face_of(self, item: Item<Seq<char>>, live: Live<Seq<char>>) -> ItemFace<
        Seq<char>,
        Seq<Pill>,
    > {
        ItemFace {
            title: self.card_title(item),
            heading: self.heading_of(item),
            border: self.border_of(item, live),
            dot: if self.has_keyboard(item, live) {
                Swatch::Accent
            } else {
                Swatch::TextMuted
            },
            title_tone: if self.active == Some(item.id) {
                Swatch::Text
            } else {
                Swatch::TextMuted
            },
            renaming: self.rename matches Some(r) && r.id == item.id,
            before: self.pill_before(item, live),
            after: self.pills_after(item),
            finished: self.ended_badge(item),
            badge: match self.agent_on(item) {
                Some(agent) => badge_of(agent),
                None => None,
            },
            body: self.body_of(item, live),
        }
    }
}

impl CanvasView {
    /// Whether the card's view has the keyboard.
    fn keyboard_in(&self, item: &CanvasItem, live: &Live<String>) -> (r: bool)
        ensures
            r == self.deep_view().has_keyboard(item.deep_view(), live.deep_view()),
    {
        match &item.kind {
            ItemKind::Terminal { session } => self.shells().drawn(*session) && live.focused,
            ItemKind::Window { .. } => self.screens().on(item.id).is_some() && live.focused,
            ItemKind::Display { .. } => self.screens().on(item.id).is_some() && live.focused,
            ItemKind::Note { .. } => self.has_note(item.id) && live.editing,
            ItemKind::File { .. } => false,
        }
    }

    /// Whether the card is the active one.
    fn is_active(&self, id: u128) -> (r: bool)
        ensures
            r == (self.deep_view().active == Some(id)),
    {
        match self.active_item() {
            Some(a) => a == id,
            None => false,
        }
    }

    /// The pill left of the title.
    fn first_pill(&self, item: &CanvasItem, live: &Live<String>) -> (r: Option<Pill>)
        ensures
            r == self.deep_view().pill_before(item.deep_view(), live.deep_view()),
    {
        let active = self.is_active(item.id);
        let screen = match &item.kind {
            ItemKind::Terminal { session } => {
                return if active && self.shells().drawn(*session) && !live.driving {
                    Some(Pill::Take)
                } else {
                    None
                };
            },
            ItemKind::Window { .. } => true,
            ItemKind::Display { .. } => true,
            _ => false,
        };
        if screen && self.screens().on(item.id).is_some() && (live.muted || (active
            && live.has_audio)) {
            Some(Pill::Mute { muted: live.muted })
        } else {
            None
        }
    }

    /// The pills right of the title.
    fn later_pills(&self, item: &CanvasItem) -> (r: Vec<Pill>)
        ensures
            r@ == self.deep_view().pills_after(item.deep_view()),
    {
        let mut out: Vec<Pill> = Vec::new();
        let file = match &item.kind {
            ItemKind::File { .. } => true,
            _ => false,
        };
        let guessed = match &item.kind {
            ItemKind::Terminal { session } => match self.shells().agent(*session) {
                Some(agent) => match agent.source {
                    AgentSource::Hook => false,
                    _ => true,
                },
                None => false,
            },
            _ => false,
        };
        if self.is_active(item.id) && self.doc().looker_count() > 0 {
            out.push(Pill::Point);
        }
        if file {
            out.push(Pill::Find);
        }
        if file && self.shells().run_target().is_some() {
            out.push(Pill::Edit);
        }
        if file {
            out.push(Pill::Reload);
        }
        if guessed && !self.hooks_offered() {
            out.push(Pill::Hooks);
        }
        assert(out@ =~= self.deep_view().pills_after(item.deep_view()));
        out
    }

    /// The badge for a long shell command that ended unwatched: its status and how long it took,
    /// in the success or warn tone.
    fn finished_badge(&self, item: &CanvasItem) -> (r: Option<(String, Swatch)>)
        ensures
            badge_in(r) == self.deep_view().ended_badge(item.deep_view()),
    {
        match &item.kind {
            ItemKind::Terminal { session } => match self.shells().finished(*session) {
                Some(done) => {
                    let well = match done.exit {
                        Some(code) => code == 0,
                        None => true,
                    };
                    let tone = if well {
                        Swatch::Success
                    } else {
                        Swatch::Warn
                    };
                    Some((done.label(), tone))
                },
                None => None,
            },
            _ => None,
        }
    }

    /// What fills a card.
    fn body(&self, item: &CanvasItem, live: &Live<String>) -> (r: Body<String>)
        ensures
            r.deep_view() == self.deep_view().body_of(item.deep_view(), live.deep_view()),
    {
        match &item.kind {
            ItemKind::Terminal { session } => if !self.shells().drawn(*session) {
                if self.shells().alive(*session) {
                    Body::Text("attaching…".to_owned())
                } else {
                    Body::Text("session ended".to_owned())
                }
            } else if live.card {
                let mut text = String::new();
                push_decimal(&mut text, live.cols as u128);
                text.append("×");
                push_decimal(&mut text, live.rows as u128);
                assert(text@ =~= decimal(live.cols as nat) + "×"@ + decimal(live.rows as nat));
                Body::Text(text)
            } else {
                Body::View
            },
            ItemKind::Note { text } => if !live.card && self.has_note(item.id) {
                Body::View
            } else {
                Body::Text(note_summary(text.as_str()))
            },
            ItemKind::File { .. } => if !self.has_file(item.id) {
                Body::Text("reading…".to_owned())
            } else if live.card {
                Body::Text(live.summary.clone())
            } else {
                Body::View
            },
            _ => if self.screens().on(item.id).is_some() {
                Body::View
            } else if item.sleeping {
                Body::Text("sleeping".to_owned())
            } else {
                Body::Text("opening…".to_owned())
            },
        }
    }

    /// What is shown of a card, from what the canvas knows and what its view says of itself.
    pub fn face(&self, item: &CanvasItem, live: &Live<String>) -> (r: ItemFace<String, Vec<Pill>>)
        ensures
            r.deep_view() == self.deep_view().face_of(item.deep_view(), live.deep_view()),
    {
        let active = self.is_active(item.id);
        let focused = self.keyboard_in(item, live);
        let title = self.card_title(item);
        let kind = kind_name(item);
        let mut heading = String::new();
        if !same_text(kind, title.as_str()) {
            heading.append(kind);
            heading.append(" ");
        }
        heading.append(title.as_str());
        assert(heading@ =~= self.deep_view().heading_of(item.deep_view()));
        let renaming = match self.renaming() {
            Some(r) => r.id == item.id,
            None => false,
        };
        let mut waiting = false;
        let mut badge: Option<Badge<String>> = None;
        if let ItemKind::Terminal { session } = &item.kind {
            if let Some(agent) = self.shells().agent(*session) {
                waiting = needs_human(agent);
                badge = agent_badge(agent);
            }
        }
        let border = if waiting {
            Swatch::Warn
        } else if focused || active {
            Swatch::Accent
        } else {
            Swatch::Border
        };
        let before = self.first_pill(item, live);
        let after = self.later_pills(item);
        let finished = self.finished_badge(item);
        let body = self.body(item, live);
        ItemFace {
            title,
            heading,
            border,
            dot: if focused {
                Swatch::Accent
            } else {
                Swatch::TextMuted
            },
            title_tone: if active {
                Swatch::Text
            } else {
                Swatch::TextMuted
            },
            renaming,
            before,
            after,
            finished,
            badge,
            body,
        }
    }
}

/// What is shown of the toast.
#[derive(Debug, PartialEq, Eq)]
pub struct ToastFace<T> {
    pub text: T,
    /// What a screen reader reads.
    pub label: T,
    /// What a click does, in a word; a status line has none and is no button.
    pub hint: Option<T>,
}

impl DeepView for ToastFace<String> {
    type V = ToastFace<Seq<char>>;

    open spec fn deep_view(&self) -> ToastFace<Seq<char>> {
        ToastFace { text: self.text@, label: self.label@, hint: held(self.hint) }
    }
}

/// A colour for another client, stable across frames and clients: from its identity.
pub open spec fn client_colour(client: u128) -> Swatch {
    if client % 4 == 0 {
        Swatch::Accent
    } else if client % 4 == 1 {
        Swatch::Success
    } else if client % 4 == 2 {
        Swatch::Warn
    } else {
        Swatch::Error
    }
}

/// A colour for another client, stable across frames and clients: from its identity.
pub fn looker_colour(client: u128) -> (r: Swatch)
    ensures
        r == client_colour(client),
{
    let hue: u128 = client % 4;
    if hue == 0 {
        Swatch::Accent
    } else if hue == 1 {
        Swatch::Success
    } else if hue == 2 {
        Swatch::Warn
    } else {
        Swatch::Error
    }
}

/// Another client's pill: who they are, and whether the camera keeps up with them.
#[derive(Debug, PartialEq, Eq)]
pub struct HereFace<T> {
    pub client: u128,
    pub name: T,
    /// What a screen reader reads of the pill at the top.
    pub label: T,
    /// What a screen reader reads of the tag on their outline.
    pub tag: T,
    pub following: bool,
    pub colour: Swatch,
    pub fill: Shade,
    pub text: Swatch,
    pub view: Rect,
}

impl DeepView for HereFace<String> {
    type V = HereFace<Seq<char>>;

    open spec fn deep_view(&self) -> HereFace<Seq<char>> {
        HereFace {
            client: self.client,
            name: self.name@,
            label: self.label@,
            tag: self.tag@,
            following: self.following,
            colour: self.colour,
            fill: self.fill,
            text: self.text,
            view: self.view,
        }
    }
}

/// Another client's pill.
pub open spec fn here_of(l: Looking<Seq<char>>, following: bool) -> HereFace<Seq<char>> {
    let verb = if following {
        "following "@
    } else {
        "follow "@
    };
    let colour = client_colour(l.client);
    HereFace {
        client: l.client,
        name: l.name,
        label: verb + l.name + ", "@ + device(l.kind),
        tag: verb + l.name,
        following,
        colour,
        fill: if following {
            Shade { swatch: colour, alpha: Alpha::Opaque }
        } else {
            Shade { swatch: Swatch::Panel, alpha: Alpha::Minimap }
        },
        text: if following {
            Swatch::AccentFg
        } else {
            Swatch::Text
        },
        view: l.view,
    }
}

/// A block of the overview.
#[derive(Clone, Copy, PartialEq, Eq, Structural, Debug)]
pub struct Block {
    pub rect: Rect,
    pub shade: Shade,
    /// An outline rather than a filled block.
    pub outline: bool,
}

/// A card's block in the overview.
pub open spec fn card_block(item: Item<Seq<char>>, active: Option<u128>) -> Block {
    Block {
        rect: item.rect,
        shade: Shade {
            swatch: if active == Some(item.id) {
                Swatch::Accent
            } else {
                Swatch::TextMuted
            },
            alpha: Alpha::MinimapItem,
        },
        outline: false,
    }
}

/// Another client's outline in the overview: where they look is in the box even when it is off
/// this screen.
pub open spec fn looker_block(l: Looking<Seq<char>>) -> Block {
    Block {
        rect: l.view,
        shade: Shade { swatch: client_colour(l.client), alpha: Alpha::MinimapLooker },
        outline: true,
    }
}

impl Canvas {
    /// What is shown of the toast; a pointing at a card that has gone since is shown no more.
    pub open spec fn toast_face(self) -> Option<ToastFace<Seq<char>>> {
        match self.toast {
            None => None,
            Some(toast) => match toast.what {
                ToastKind::Pointed { name, item } => match self.doc.get(item) {
                    Some(card) => {
                        let text = name + " points at "@ + self.card_title(card);
                        Some(
                            ToastFace { text, label: text + ", go there"@, hint: Some("· go"@) },
                        )
                    },
                    None => None,
                },
                ToastKind::Closed { seq, title } => {
                    let text = "closed "@ + title;
                    Some(
                        ToastFace {
                            text,
                            label: text + ", take it back"@,
                            hint: Some("· take back ⌘Z"@),
                        },
                    )
                },
                ToastKind::Said(text) => Some(ToastFace { text, label: text, hint: None }),
            },
        }
    }

    /// The toast's button: a pointing goes to the card, a closing takes it back.
    pub open spec fn then_toast_pressed(self) -> Canvas {
        match self.toast {
            Some(toast) => match toast.what {
                ToastKind::Pointed { item, .. } => if self.doc.has(item) {
                    Canvas { toast: None, ..self }.then_go_to(item)
                } else {
                    self
                },
                ToastKind::Closed { seq, .. } => self.then_take_back(Some(seq)),
                ToastKind::Said(_) => self,
            },
            None => self,
        }
    }

    /// A click on another client's pill follows them, a second stops.
    pub open spec fn then_follow_pressed(self, client: u128) -> Canvas {
        if self.following == Some(client) {
            Canvas { following: None, ..self }
        } else {
            self.then_follow(client)
        }
    }

    /// The overview: every card as a block, the others' viewports as outlines.
    pub open spec fn overview(self) -> Seq<Block> {
        self.doc.items.map_values(|i: Item<Seq<char>>| card_block(i, self.active))
            + self.doc.lookers.map_values(|l: Looking<Seq<char>>| looker_block(l))
    }

    /// The other clients' pills.
    pub open spec fn here(self) -> Seq<HereFace<Seq<char>>> {
        self.doc.lookers.map_values(
            |l: Looking<Seq<char>>| here_of(l, self.following == Some(l.client)),
        )
    }
}

impl CanvasView {
    /// What is shown of the toast: a pointing is a button that goes to the card, a closing one that
    /// takes it back, a word to this client a status line.
    pub fn toast_face(&self) -> (r: Option<ToastFace<String>>)
        ensures
            r.deep_view() == self.deep_view().toast_face(),
    {
        let toast = match self.toast() {
            Some(t) => t,
            None => {
                return None;
            },
        };
        match &toast.what {
            ToastKind::Pointed { name, item } => match self.doc().get(*item) {
                Some(card) => {
                    let mut text = name.clone();
                    text.append(" points at ");
                    let title = self.card_title(card);
                    text.append(title.as_str());
                    let mut label = text.clone();
                    label.append(", go there");
                    Some(ToastFace { text, label, hint: Some("· go".to_owned()) })
                },
                None => None,
            },
            ToastKind::Closed { title, .. } => {
                let mut text = "closed ".to_owned();
                text.append(title.as_str());
                let mut label = text.clone();
                label.append(", take it back");
                Some(ToastFace { text, label, hint: Some("· take back ⌘Z".to_owned()) })
            },
            ToastKind::Said(text) => Some(
                ToastFace { text: text.clone(), label: text.clone(), hint: None },
            ),
        }
    }

    /// The toast's button was pressed.
    pub fn toast_pressed(&mut self)
        ensures
            final(self).deep_view() == old(self).deep_view().then_toast_pressed(),
    {
        let (item, seq): (Option<u128>, Option<u64>) = match self.toast() {
            Some(t) => match &t.what {
                ToastKind::Pointed { item, .. } => (Some(*item), None),
                ToastKind::Closed { seq, .. } => (None, Some(*seq)),
                ToastKind::Said(_) => (None, None),
            },
            None => (None, None),
        };
        if let Some(id) = item {
            if self.doc().has(id) {
                self.drop_toast();
                self.go_to(id);
            }
        } else if let Some(seq) = seq {
            self.take_back(Some(seq));
        }
    }

    /// A click on another client's pill or tag: follow them, or stop.
    pub fn follow_pressed(&mut self, client: u128)
        ensures
            final(self).deep_view() == old(self).deep_view().then_follow_pressed(client),
    {
        let following = match self.following() {
            Some(f) => f == client,
            None => false,
        };
        if following {
            self.take_camera();
        } else {
            self.follow(client);
        }
    }

    /// Who else is on this canvas: one pill per other client, named and tinted like their outline,
    /// whether or not their viewport is on this screen.
    pub fn here(&self) -> (r: Vec<HereFace<String>>)
        ensures
            r.deep_view() == self.deep_view().here(),
    {
        let ghost all = self.deep_view().doc.lookers;
        let ghost following = self.deep_view().following;
        let n: usize = self.doc().looker_count();
        let mut out: Vec<HereFace<String>> = Vec::new();
        let mut i: usize = 0;
        assert(out.deep_view() =~= all.take(0).map_values(
            |l: Looking<Seq<char>>| here_of(l, following == Some(l.client)),
        ));
        while i < n
            invariant
                i <= n == all.len(),
                all == self.deep_view().doc.lookers,
                following == self.deep_view().following,
                out.deep_view() == all.take(i as int).map_values(
                    |l: Looking<Seq<char>>| here_of(l, following == Some(l.client)),
                ),
            decreases n - i,
        {
            let l = self.doc().looker_at(i);
            let follows = match self.following() {
                Some(f) => f == l.client,
                None => false,
            };
            let one = here_face(l, follows);
            let ghost want = out.deep_view().push(one.deep_view());
            out.push(one);
            proof {
                assert(out.deep_view() =~= want);
                assert(all.take(i + 1).map_values(
                    |l: Looking<Seq<char>>| here_of(l, following == Some(l.client)),
                ) =~= all.take(i as int).map_values(
                    |l: Looking<Seq<char>>| here_of(l, following == Some(l.client)),
                ).push(here_of(all[i as int], following == Some(all[i as int].client))));
            }
            i += 1;
        }
        assert(all.take(i as int) == all);
        out
    }

    /// The overview in the corner: every card as a block, the other clients' viewports as
    /// outlines. The viewport's own outline is drawn over them.
    pub fn minimap(&self) -> (r: Vec<Block>)
        ensures
            r@ == self.deep_view().overview(),
    {
        let ghost items = self.deep_view().doc.items;
        let ghost lookers = self.deep_view().doc.lookers;
        let ghost active = self.deep_view().active;
        let mut out: Vec<Block> = Vec::new();
        let n: usize = self.doc().count();
        let mut i: usize = 0;
        assert(out@ =~= items.take(0).map_values(|i: Item<Seq<char>>| card_block(i, active)));
        while i < n
            invariant
                i <= n == items.len(),
                items == self.deep_view().doc.items,
                active == self.deep_view().active,
                out@ == items.take(i as int).map_values(
                    |i: Item<Seq<char>>| card_block(i, active),
                ),
            decreases n - i,
        {
            let item = self.doc().item_at(i);
            let swatch = if self.is_active(item.id) {
                Swatch::Accent
            } else {
                Swatch::TextMuted
            };
            out.push(
                Block {
                    rect: item.rect,
                    shade: Shade { swatch, alpha: Alpha::MinimapItem },
                    outline: false,
                },
            );
            assert(items.take(i + 1).map_values(|i: Item<Seq<char>>| card_block(i, active))
                =~= items.take(i as int).map_values(
                |i: Item<Seq<char>>| card_block(i, active),
            ).push(card_block(items[i as int], active)));
            i += 1;
        }
        assert(items.take(i as int) == items);
        let ghost first = out@;
        let m: usize = self.doc().looker_count();
        let mut j: usize = 0;
        assert(out@ =~= first + lookers.take(0).map_values(
            |l: Looking<Seq<char>>| looker_block(l),
        ));
        while j < m
            invariant
                j <= m == lookers.len(),
                lookers == self.deep_view().doc.lookers,
                out@ == first + lookers.take(j as int).map_values(
                    |l: Looking<Seq<char>>| looker_block(l),
                ),
            decreases m - j,
        {
            let l = self.doc().looker_at(j);
            out.push(
                Block {
                    rect: l.view,
                    shade: Shade { swatch: looker_colour(l.client), alpha: Alpha::MinimapLooker },
                    outline: true,
                },
            );
            assert(first + lookers.take(j + 1).map_values(
                |l: Looking<Seq<char>>| looker_block(l),
            ) =~= (first + lookers.take(j as int).map_values(
                |l: Looking<Seq<char>>| looker_block(l),
            )).push(looker_block(lookers[j as int])));
            j += 1;
        }
        assert(lookers.take(j as int) == lookers);
        out
    }

    /// What an empty canvas says.
    pub fn empty_text(&self) -> (r: Option<&'static str>)
        ensures
            match r {
                Some(text) => self.deep_view().doc.items.len() == 0 && text@
                    == "⌘T opens a shell on the host · ⌘O adds a window"@,
                None => self.deep_view().doc.items.len() > 0,
            },
    {
        if self.is_empty() {
            Some("⌘T opens a shell on the host · ⌘O adds a window")
        } else {
            None
        }
    }
}

/// Another client's pill.
fn here_face(l: &Looker, following: bool) -> (r: HereFace<String>)
    ensures
        r.deep_view() == here_of(l.deep_view(), following),
{
    let mut tag = if following {
        "following ".to_owned()
    } else {
        "follow ".to_owned()
    };
    tag.append(l.name.as_str());
    let mut label = tag.clone();
    label.append(", ");
    label.append(device_name(l.kind));
    let colour = looker_colour(l.client);
    let fill = if following {
        Shade { swatch: colour, alpha: Alpha::Opaque }
    } else {
        Shade { swatch: Swatch::Panel, alpha: Alpha::Minimap }
    };
    let text = if following {
        Swatch::AccentFg
    } else {
        Swatch::Text
    };
    HereFace {
        client: l.client,
        name: l.name.clone(),
        label,
        tag,
        following,
        colour,
        fill,
        text,
        view: l.view,
    }
}

} // verus!
