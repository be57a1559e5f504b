//! What the human does with the cards: opens, closes, names, walks and arranges them.
use vstd::prelude::*;

use crate::canvas::doc::{
    highest, over, reading_ids, rect_same, same_rect, stacked_ids, CanvasItem, Doc, Item, ItemKind,
    Looking, Op, Rect,
};
use crate::canvas::msg::{Aim, CaptureTarget, ClientMsg, Effect, ScreenRequest, TermRequest};
use crate::canvas::screens::screen_req;
use crate::canvas::titles::{unslashed, without_slashes};
use crate::canvas::view::{
    after_seq, Canvas, CanvasView, ClosedCard, Heading, Keeper, Pending, Rename, ToastKind,
    POINT_FOR, UNDO_CLOSE,
};
use crate::list::{first_index, holds_id, position};
use crate::sorted::{all_inserted, insert_all, same_texts};
use crate::text::{
    chars_of, decimal, held, last_at, part, past_last, push_decimal, same_text, string_of,
    trim, trimmed,
};

verus! {

/// Where the closing `seq` stands among those that can be taken back.
pub open spec fn closing_at(closed: Seq<ClosedCard<Seq<char>>>, seq: u64) -> int
    decreases closed.len(),
{
    if closed.len() == 0 {
        0
    } else if closed[0].seq == seq {
        0
    } else {
        1 + closing_at(closed.drop_first(), seq)
    }
}

/// The closing that is to be taken back: the one asked for, or the latest.
pub open spec fn chosen_closing(closed: Seq<ClosedCard<Seq<char>>>, seq: Option<u64>) -> int {
    match seq {
        Some(seq) => closing_at(closed, seq),
        None => closed.len() - 1,
    }
}

/// A path made absolute against a directory.
pub open spec fn path_in(cwd: Option<Seq<char>>, path: Seq<char>) -> Seq<char> {
    if path.len() > 0 && path[0] == '/' {
        path
    } else {
        match cwd {
            Some(dir) => unslashed(dir) + "/"@ + path,
            None => path,
        }
    }
}

/// The directory of a path spelled from the root.
pub open spec fn dir_of(path: Seq<char>) -> Option<Seq<char>> {
    if path.len() > 0 && path[0] == '/' {
        let at = last_at(path, '/');
        Some(
            if at <= 0 {
                "/"@
            } else {
                path.take(at)
            },
        )
    } else {
        None
    }
}

/// What pointing the others at a card says.
pub open spec fn pointed_text(lookers: Seq<Looking<Seq<char>>>, title: Seq<char>) -> Seq<char> {
    if lookers.len() == 0 {
        "nobody else is here"@
    } else if lookers.len() == 1 {
        "pointed "@ + lookers[0].name + " at "@ + title
    } else {
        "pointed "@ + decimal(lookers.len()) + " others at "@ + title
    }
}

/// The card after (or before) the active one in `order`, wrapping; nothing active starts at the
/// first (or the last).
pub open spec fn stepped(order: Seq<u128>, active: Option<u128>, forward: bool) -> Option<u128> {
    if order.len() == 0 {
        None
    } else {
        let last = order.len() - 1;
        let at = match active {
            Some(id) => first_index(order, id),
            None => order.len() as int,
        };
        Some(
            if at > last {
                if forward {
                    order[0]
                } else {
                    order[last]
                }
            } else if forward {
                if at == last {
                    order[0]
                } else {
                    order[at + 1]
                }
            } else if at == 0 {
                order[last]
            } else {
                order[at - 1]
            },
        )
    }
}

/// The first file card for a path.
pub open spec fn file_card(items: Seq<Item<Seq<char>>>, path: Seq<char>) -> Option<u128>
    decreases items.len(),
{
    if items.len() == 0 {
        None
    } else if items[0].kind matches ItemKind::File { path: p } && p == path {
        Some(items[0].id)
    } else {
        file_card(items.drop_first(), path)
    }
}

/// The file cards, and their paths.
pub open spec fn file_cards(items: Seq<Item<Seq<char>>>) -> Seq<(u128, Seq<char>)>
    decreases items.len(),
{
    if items.len() == 0 {
        Seq::empty()
    } else {
        let rest = file_cards(items.drop_last());
        match items.last().kind {
            ItemKind::File { path } => rest.push((items.last().id, path)),
            _ => rest,
        }
    }
}

/// The paths of file cards.
pub open spec fn paths_of(cards: Seq<(u128, Seq<char>)>) -> Seq<Seq<char>> {
    cards.map_values(|c: (u128, Seq<char>)| c.1)
}

/// The card is among the file cards.
pub open spec fn is_file_card(cards: Seq<(u128, Seq<char>)>, id: u128) -> bool {
    exists|i: int| 0 <= i < cards.len() && (#[trigger] cards[i]).0 == id
}

/// The views whose file card is still there.
pub open spec fn still_files(files: Seq<u128>, cards: Seq<(u128, Seq<char>)>) -> Seq<u128>
    decreases files.len(),
{
    if files.len() == 0 {
        Seq::empty()
    } else if is_file_card(cards, files.last()) {
        still_files(files.drop_last(), cards).push(files.last())
    } else {
        still_files(files.drop_last(), cards)
    }
}

/// The note cards.
pub open spec fn note_cards(items: Seq<Item<Seq<char>>>) -> Seq<u128>
    decreases items.len(),
{
    if items.len() == 0 {
        Seq::empty()
    } else if items.last().kind is Note {
        note_cards(items.drop_last()).push(items.last().id)
    } else {
        note_cards(items.drop_last())
    }
}

/// A card the host is to place nowhere: it is put where this client found room.
pub open spec fn new_card(id: u128, kind: ItemKind<Seq<char>>, slot: Rect, doc: Doc) -> Item<
    Seq<char>,
> {
    Item { id, kind, rect: slot, z: over(highest(doc.items)), sleeping: false, name: None }
}

/// A new file view, and the line it is to land on.
#[derive(Clone, Copy, PartialEq, Eq, Structural, Debug)]
pub struct NewFile {
    pub id: u128,
    pub line: Option<u32>,
}

/// What the phone key bar drives.
#[derive(Clone, Copy, PartialEq, Eq, Structural, Debug)]
pub enum KeyTarget {
    /// A terminal: keys go through the grid and the predictor.
    Terminal(u128),
    /// A remote window: keys are injected on the host.
    Screen(u128),
}

/// A card as arranging by repository reads it.
#[derive(Debug, PartialEq, Eq)]
pub struct Arrangeable<T> {
    pub id: u128,
    pub rect: Rect,
    pub cwd: Option<T>,
    pub repo: Option<T>,
    /// The order of the cards is the recency the canvas already keeps: raising a card on focus is
    /// what makes it the most recent.
    pub activity: u32,
}

impl DeepView for Arrangeable<String> {
    type V = Arrangeable<Seq<char>>;

    open spec fn deep_view(&self) -> Arrangeable<Seq<char>> {
        Arrangeable {
            id: self.id,
            rect: self.rect,
            cwd: held(self.cwd),
            repo: held(self.repo),
            activity: self.activity,
        }
    }
}

impl Canvas {
    /// The directory of a card: a terminal's is where its session is, a file's the one it is in.
    pub open spec fn cwd_of(self, item: Item<Seq<char>>) -> Option<Seq<char>> {
        match item.kind {
            ItemKind::Terminal { session } => self.shells.cwd(session),
            ItemKind::File { path } => dir_of(path),
            _ => None,
        }
    }

    /// The repository of a card's session, as the host resolved it.
    pub open spec fn repo_of(self, item: Item<Seq<char>>) -> Option<Seq<char>> {
        match item.kind {
            ItemKind::Terminal { session } => self.shells.repo(session),
            _ => None,
        }
    }

    /// The active card.
    pub open spec fn active_card(self) -> Option<Item<Seq<char>>> {
        match self.active {
            Some(id) => self.doc.get(id),
            None => None,
        }
    }

    /// Where a session opened from the keyboard starts.
    pub open spec fn active_cwd(self) -> Option<Seq<char>> {
        match self.active_card() {
            Some(item) => self.cwd_of(item),
            None => None,
        }
    }

    /// The shell of the active card.
    pub open spec fn active_session(self) -> Option<u128> {
        match self.active {
            Some(id) => self.doc.session_of(id),
            None => None,
        }
    }

    /// A path made absolute against the active shell's directory; `~` is left for the host, whose
    /// home it names.
    pub open spec fn path_here(self, path: Seq<char>) -> Seq<char> {
        match self.active_session() {
            Some(session) => if path.len() > 0 && path[0] == '~' {
                path
            } else {
                path_in(self.shells.cwd(session), path)
            },
            None => path,
        }
    }

    /// A session is opened on the host.
    pub open spec fn then_open(
        self,
        cwd: Option<Seq<char>>,
        command: Seq<Seq<char>>,
        title: Option<Seq<char>>,
    ) -> Canvas {
        self.send(ClientMsg::OpenSession { cwd, command, title })
    }

    /// A shell is opened where the active card is.
    pub open spec fn then_new_terminal(self) -> Canvas {
        self.then_open(self.active_cwd(), Seq::empty(), None)
    }

    /// An agent is opened where the active card is, under its own name.
    pub open spec fn then_new_agent(self, agent: Seq<char>) -> Canvas {
        self.then_open(self.active_cwd(), seq![agent], Some(agent))
    }

    /// A command is run in a session of its own where the active card is, called by its first word.
    pub open spec fn then_command(self, command: Seq<Seq<char>>) -> Canvas {
        self.then_open(
            self.active_cwd(),
            command,
            if command.len() > 0 {
                Some(command[0])
            } else {
                None
            },
        )
    }

    /// Where a reset of the zoom takes the camera.
    pub open spec fn reset_aim(self) -> Aim {
        match self.active_card() {
            Some(item) => Aim::Centre(self.active->0),
            None => Aim::FullSize,
        }
    }

    /// The camera goes to the active card.
    pub open spec fn then_zoom_to_item(self) -> Canvas {
        match self.active_card() {
            Some(item) => self.then_fly(Aim::Item(self.active->0)),
            None => self,
        }
    }

    /// The active card's stream is silenced, or heard again.
    pub open spec fn then_toggle_mute(self) -> Canvas {
        match self.active_stream() {
            Some(item) => self.say(Effect::ToggleMute(item)),
            None => self,
        }
    }

    /// The host is asked what can be shown, to pick from it.
    pub open spec fn then_add_window(self) -> Canvas {
        Canvas { picker_wanted: true, ..self }.say(screen_req(ScreenRequest::List))
    }

    /// The host is asked what can be shown, to add its first display.
    pub open spec fn then_add_display(self) -> Canvas {
        Canvas { display_wanted: true, ..self }.say(screen_req(ScreenRequest::List))
    }

    /// The active shell, where it is drawn.
    pub open spec fn active_drawn(self) -> Option<u128> {
        match self.active_session() {
            Some(session) => if self.shells.drawn(session) {
                Some(session)
            } else {
                None
            },
            None => None,
        }
    }

    /// The others are pointed at the active card.
    pub open spec fn then_point_active(self) -> Canvas {
        match self.active {
            Some(id) => self.then_point(id),
            None => self,
        }
    }

    /// A file is opened in the human's editor, by a command in a shell.
    pub open spec fn then_edit(self, id: u128, command: Seq<char>) -> Canvas {
        match self.doc.get(id) {
            Some(item) => if item.kind is File {
                self.then_run(command)
            } else {
                self
            },
            None => self,
        }
    }

    /// A new card is put on the canvas, active and brought into view.
    pub open spec fn then_add(self, item: Item<Seq<char>>) -> Canvas {
        let next = self.propose(Op::Upsert(item));
        Canvas {
            active: Some(item.id),
            pending: Pending { reveal: Some(item.id), ..next.pending },
            ..next
        }
    }

    /// An empty note, the caret in it.
    pub open spec fn then_new_note(self, id: u128, slot: Rect) -> Canvas {
        let next = self.then_add(
            new_card(id, ItemKind::Note { text: Seq::empty() }, slot, self.doc),
        );
        Canvas { pending: Pending { note: Some(id), ..next.pending }, ..next }
    }

    /// A note's text is written into the document.
    pub open spec fn then_commit(self, id: u128, text: Seq<char>) -> Canvas {
        match self.doc.get(id) {
            Some(item) => self.propose(
                Op::Upsert(Item { kind: ItemKind::Note { text }, ..item }),
            ),
            None => self,
        }
    }

    /// The host is asked for a file card's text.
    pub open spec fn then_request(self, id: u128) -> Canvas {
        match self.doc.get(id) {
            Some(item) => match item.kind {
                ItemKind::File { path } => self.send(ClientMsg::ReadFile { path }),
                _ => self,
            },
            None => self,
        }
    }

    /// A file card for a path: the one there is, read again, or a new one.
    pub open spec fn then_file(self, path: Seq<char>, line: Option<u32>, id: u128, slot: Rect) -> (
        Canvas,
        u128,
    ) {
        let (next, card) = match file_card(self.doc.items, path) {
            Some(old) => (self.then_request(old), old),
            None => (
                self.propose(
                    Op::Upsert(new_card(id, ItemKind::File { path }, slot, self.doc)),
                ),
                id,
            ),
        };
        let focus = match line {
            Some(l) => if next.files.contains(card) {
                next.file_focus
            } else {
                next.file_focus.insert(card, l)
            },
            None => next.file_focus,
        };
        (
            Canvas {
                file_focus: focus,
                active: Some(card),
                pending: Pending { reveal: Some(card), ..next.pending },
                ..next
            },
            card,
        )
    }

    /// A window or display card, whose stream is opened when the canvas is reconciled.
    pub open spec fn then_screen(
        self,
        target: CaptureTarget,
        title: Seq<char>,
        id: u128,
        slot: Rect,
    ) -> Canvas {
        let kind = match target {
            CaptureTarget::Window(window) => ItemKind::Window { window },
            CaptureTarget::Display(display) => ItemKind::Display { display },
        };
        let titled = Canvas { screens: self.screens.then_titled(id, title), ..self };
        let next = titled.propose(Op::Upsert(new_card(id, kind, slot, self.doc)));
        Canvas { active: Some(id), ..next }
    }

    /// A card leaves the canvas and is offered back for a while.
    pub open spec fn then_remember(self, item: Item<Seq<char>>, session: Option<u128>) -> Canvas {
        let seq = after_seq(self.closed_seq);
        let title = self.card_title(item);
        Canvas {
            closed_seq: seq,
            closed: self.closed.push(ClosedCard { item, session, seq }),
            ..self
        }.propose(Op::Remove(item.id)).then_reconcile().then_toast(
            ToastKind::Closed { seq, title },
            UNDO_CLOSE,
        ).say(Effect::CloseTimer { seq, millis: UNDO_CLOSE })
    }

    /// A live shell leaves the canvas, its session kept for a while; one without a view has
    /// nothing to keep and closes at once.
    pub open spec fn then_close_shell(self, session: u128) -> Canvas {
        match self.doc.for_session(session) {
            Some(item) => if self.shells.drawn(session) {
                self.then_remember(item, Some(session))
            } else {
                self.term(session, TermRequest::Close)
            },
            None => self.term(session, TermRequest::Close),
        }
    }

    /// The active card is closed. A live session's view may have asked first; an ended one has
    /// nothing to keep; a note is kept with what its editor holds.
    pub open spec fn then_close(self, asked: bool, live_text: Option<Seq<char>>) -> Canvas {
        match self.active_card() {
            None => self,
            Some(item) => match item.kind {
                ItemKind::Terminal { session } => if self.shells.alive(session) {
                    if self.shells.drawn(session) && asked {
                        self
                    } else {
                        self.then_close_shell(session)
                    }
                } else {
                    self.propose(Op::Remove(item.id))
                },
                ItemKind::Note { .. } => match live_text {
                    Some(text) => if self.notes.contains(item.id) {
                        self.then_remember(Item { kind: ItemKind::Note { text }, ..item }, None)
                    } else {
                        self.then_remember(item, None)
                    },
                    None => self.then_remember(item, None),
                },
                _ => self.then_remember(item, None),
            },
        }
    }

    /// The wait is over for a closing: a shell's session is closed and its view goes.
    pub open spec fn then_forget(self, seq: u64) -> Canvas {
        let at = closing_at(self.closed, seq);
        if at >= self.closed.len() {
            self
        } else {
            let card = self.closed[at];
            let first = Canvas { closed: self.closed.remove(at), ..self };
            let ended = match card.session {
                Some(session) => {
                    let told = if first.shells.alive(session) {
                        first.term(session, TermRequest::Close)
                    } else {
                        first
                    };
                    Canvas { shells: told.shells.then_undrawn(session), ..told }
                },
                None => first,
            };
            if ended.toast matches Some(t) && t.what matches ToastKind::Closed { seq: s, .. } && s
                == seq {
                Canvas { toast: None, ..ended }
            } else {
                ended
            }
        }
    }

    /// A closed card comes back where it was, active and in view.
    pub open spec fn then_take_back(self, seq: Option<u64>) -> Canvas {
        let at = chosen_closing(self.closed, seq);
        if at < 0 || at >= self.closed.len() {
            self
        } else {
            let card = self.closed[at];
            let first = Canvas {
                closed: self.closed.remove(at),
                toast: if self.toast matches Some(t) && t.what is Closed {
                    None
                } else {
                    self.toast
                },
                ..self
            }.propose(Op::Upsert(card.item)).then_reconcile();
            match card.session {
                Some(session) => first.then_reveal_session(session),
                None => first.then_reveal_item(card.item.id),
            }
        }
    }

    /// The other clients are pointed at a card.
    pub open spec fn then_point(self, id: u128) -> Canvas {
        match self.doc.get(id) {
            Some(item) => {
                let said = pointed_text(self.doc.lookers, self.card_title(item));
                let sent = if self.doc.lookers.len() > 0 {
                    self.send(ClientMsg::Point { item: id })
                } else {
                    self
                };
                sent.then_toast(ToastKind::Said(said), POINT_FOR)
            },
            None => self,
        }
    }

    /// The card after (or before) the active one in reading order.
    pub open spec fn then_step(self, forward: bool) -> Canvas {
        match stepped(reading_ids(self.doc.items), self.active, forward) {
            Some(id) => self.then_go_to(id),
            None => self,
        }
    }

    /// The nearest card in a direction; nothing active starts at the first in reading order.
    pub open spec fn then_towards(self, nearest: Option<u128>) -> Canvas {
        if self.active_card() is None {
            let order = reading_ids(self.doc.items);
            if order.len() > 0 {
                self.then_go_to(order[0])
            } else {
                self
            }
        } else {
            match nearest {
                Some(id) => self.then_go_to(id),
                None => self,
            }
        }
    }

    /// The field naming a card opens in its title bar.
    pub open spec fn then_rename(self, id: u128, focused: Option<u64>) -> Canvas {
        if self.doc.has(id) {
            let next = self.then_activate(id);
            Canvas {
                rename: Some(Rename { id, return_to: focused }),
                pending: Pending { rename: true, ..next.pending },
                ..next
            }
        } else {
            self
        }
    }

    /// The name field closes: its text is the card's name where it is kept, blank clears it.
    pub open spec fn then_renamed(self, keep: bool, back: bool, text: Seq<char>) -> Canvas {
        match self.rename {
            None => self,
            Some(rename) => {
                let closed = Canvas { rename: None, ..self };
                let named = match closed.doc.get(rename.id) {
                    Some(item) => if keep {
                        closed.propose(
                            Op::Upsert(
                                Item {
                                    name: if trim(text).len() > 0 {
                                        Some(trim(text))
                                    } else {
                                        None
                                    },
                                    ..item
                                },
                            ),
                        )
                    } else {
                        closed
                    },
                    None => closed,
                };
                if back {
                    Canvas {
                        rename_return: Some(
                            match rename.return_to {
                                Some(e) => Keeper::Element(e),
                                None => Keeper::Canvas,
                            },
                        ),
                        ..named
                    }
                } else {
                    named
                }
            },
        }
    }

    /// The human took the camera, or it goes somewhere on this client's own account: it follows no
    /// one.
    pub open spec fn then_fly(self, aim: Aim) -> Canvas {
        Canvas { following: None, ..self }.say(Effect::Fly(aim))
    }

    /// A card has its own place after arranging.
    pub open spec fn then_place(self, id: u128, rect: Rect) -> Canvas {
        match self.doc.get(id) {
            Some(item) => if !rect_same(item.rect, rect) {
                self.propose(Op::Place { id, rect })
            } else {
                self
            },
            None => self,
        }
    }

    /// The cards take their places, one after the other.
    pub open spec fn then_place_all(self, places: Seq<(u128, Rect)>) -> Canvas
        decreases places.len(),
    {
        if places.len() == 0 {
            self
        } else {
            self.then_place_all(places.drop_last()).then_place(places.last().0, places.last().1)
        }
    }

    /// One block of cards per repository, and the camera opened out to show them.
    pub open spec fn then_arranged(
        self,
        places: Seq<(u128, Rect)>,
        headings: Seq<Heading<Seq<char>, Seq<u128>>>,
    ) -> Canvas {
        if self.doc.items.len() == 0 {
            self
        } else {
            Canvas { headings, ..self.then_place_all(places) }.then_fly(Aim::Arranged)
        }
    }

    /// A terminal is driven from here.
    pub open spec fn then_take_over(self, id: u128, place: Option<Rect>) -> Canvas {
        match self.doc.session_of(id) {
            None => self,
            Some(session) => {
                let placed = match place {
                    Some(rect) => self.propose(Op::Place { id, rect }),
                    None => self,
                };
                let driven = if placed.shells.drawn(session) {
                    placed.say(Effect::Drive(session))
                } else {
                    placed
                };
                Canvas {
                    shells: driven.shells.then_touched(session),
                    active: Some(id),
                    pending: Pending { focus: Some(session), reveal: Some(id), ..driven.pending },
                    ..driven
                }
            },
        }
    }

    /// The stream of the active card.
    pub open spec fn active_stream(self) -> Option<u128> {
        match self.active_card() {
            Some(item) => if (item.kind is Window || item.kind is Display)
                && crate::canvas::screens::stream_on(self.screens.open, item.id) is Some {
                Some(item.id)
            } else {
                None
            },
            None => None,
        }
    }

    /// What the phone key bar drives.
    pub open spec fn key_target(self) -> Option<KeyTarget> {
        match self.active_session() {
            Some(session) => if self.shells.drawn(session) {
                Some(KeyTarget::Terminal(session))
            } else {
                None
            },
            None => match self.active_stream() {
                Some(item) => Some(KeyTarget::Screen(item)),
                None => None,
            },
        }
    }

    /// A file card gets its view, and the host is asked for its text.
    pub open spec fn then_file_view(self, card: (u128, Seq<char>)) -> Canvas {
        if self.files.contains(card.0) {
            self
        } else {
            Canvas {
                files: self.files.push(card.0),
                file_focus: self.file_focus.remove(card.0),
                ..self
            }.send(ClientMsg::ReadFile { path: card.1 })
        }
    }

    /// The file cards get their views, one after the other.
    pub open spec fn then_file_views(self, cards: Seq<(u128, Seq<char>)>) -> Canvas
        decreases cards.len(),
    {
        if cards.len() == 0 {
            self
        } else {
            self.then_file_views(cards.drop_last()).then_file_view(cards.last())
        }
    }

    /// Views for the file cards, none for those that are gone, and the host watches the set behind
    /// them.
    pub open spec fn then_files(self) -> Canvas {
        let cards = file_cards(self.doc.items);
        let viewed = self.then_file_views(cards);
        let kept = Canvas { files: still_files(viewed.files, cards), ..viewed };
        let paths = all_inserted(Seq::empty(), paths_of(cards));
        if paths == kept.watched {
            kept
        } else {
            Canvas { watched: paths, ..kept }.send(ClientMsg::WatchFiles { paths })
        }
    }
}

impl CanvasView {
    /// The directory of a card, for grouping: a terminal's is where its session is, a file card's
    /// the one it is in when the path is spelled from the root.
    pub fn cwd_of(&self, item: &CanvasItem) -> (r: Option<String>)
        ensures
            held(r) == self.deep_view().cwd_of(item.deep_view()),
    {
        match &item.kind {
            ItemKind::Terminal { session } => self.shells.cwd(*session),
            ItemKind::File { path } => {
                let chars = chars_of(path.as_str());
                if chars.len() == 0 || chars[0] != '/' {
                    return None;
                }
                let at: usize = past_last(chars.as_slice(), '/');
                if at <= 1 {
                    Some("/".to_owned())
                } else {
                    let dir = part(chars.as_slice(), 0, at - 1);
                    assert(dir@ == path@.take(at - 1));
                    Some(string_of(dir))
                }
            },
            _ => None,
        }
    }

    /// The repository of a card's session, as the host resolved it.
    pub fn repo_of(&self, item: &CanvasItem) -> (r: Option<String>)
        ensures
            held(r) == self.deep_view().repo_of(item.deep_view()),
    {
        match &item.kind {
            ItemKind::Terminal { session } => self.shells.repo(*session),
            _ => None,
        }
    }

    /// The active card.
    pub fn active_card(&self) -> (r: Option<&CanvasItem>)
        ensures
            match r {
                Some(item) => self.deep_view().active_card() == Some(item.deep_view()),
                None => self.deep_view().active_card() is None,
            },
    {
        match self.active {
            Some(id) => self.doc.get(id),
            None => None,
        }
    }

    /// Where a session opened from the keyboard starts: the active terminal's directory when there
    /// is one (a shell beside a shell belongs to the same work), else the host's default.
    pub fn active_cwd(&self) -> (r: Option<String>)
        ensures
            held(r) == self.deep_view().active_cwd(),
    {
        match self.active_card() {
            Some(item) => self.cwd_of(item),
            None => None,
        }
    }

    /// The shell of the active card.
    pub fn active_session(&self) -> (r: Option<u128>)
        ensures
            r == self.deep_view().active_session(),
    {
        match self.active {
            Some(id) => self.doc.session_of(id),
            None => None,
        }
    }

    /// `path` made absolute against the session's directory as the host last reported it; a path
    /// with no directory known stays as it is.
    pub fn absolute_in_session(&self, session: u128, path: &str) -> (r: String)
        ensures
            r@ == path_in(self.deep_view().shells.cwd(session), path@),
    {
        let chars = chars_of(path);
        if chars.len() > 0 && chars[0] == '/' {
            return path.to_owned();
        }
        match self.shells.cwd(session) {
            Some(cwd) => {
                let dir = chars_of(cwd.as_str());
                let mut out = string_of(without_slashes(dir.as_slice()));
                out.append("/");
                out.append(path);
                out
            },
            None => path.to_owned(),
        }
    }

    /// `path` made absolute against the active shell's directory, when it is a shell; `~` is left
    /// for the host, whose home it names.
    pub fn absolute_in_active_shell(&self, path: &str) -> (r: String)
        ensures
            r@ == self.deep_view().path_here(path@),
    {
        let chars = chars_of(path);
        match self.active_session() {
            Some(session) => if chars.len() > 0 && chars[0] == '~' {
                path.to_owned()
            } else {
                self.absolute_in_session(session, path)
            },
            None => path.to_owned(),
        }
    }

    /// Open a session in `cwd` (the host's default when `None`; `~` is the host's home); the host
    /// places it.
    pub fn open_session_in(
        &mut self,
        cwd: Option<String>,
        command: Vec<String>,
        title: Option<String>,
    )
        ensures
            final(self).deep_view() == old(self).deep_view().then_open(
                held(cwd),
                command.deep_view(),
                held(title),
            ),
    {
        assert(cwd.deep_view() == held(cwd));
        assert(title.deep_view() == held(title));
        self.send(ClientMsg::OpenSession { cwd, command, title });
    }

    /// Open a new shell; the host places it.
    pub fn new_terminal(&mut self)
        ensures
            final(self).deep_view() == old(self).deep_view().then_new_terminal(),
            final(self).deep_view() == old(self).deep_view().then_open(
                old(self).deep_view().active_cwd(),
                Seq::empty(),
                None,
            ),
    {
        let cwd = self.active_cwd();
        let command: Vec<String> = Vec::new();
        assert(command.deep_view() =~= Seq::<Seq<char>>::empty());
        self.open_session_in(cwd, command, None);
    }

    /// A terminal running a coding agent. The bare name resolves on the host through the user's
    /// login shell.
    pub fn new_agent(&mut self, agent: String)
        ensures
            final(self).deep_view() == old(self).deep_view().then_new_agent(agent@),
            final(self).deep_view() == old(self).deep_view().then_open(
                old(self).deep_view().active_cwd(),
                seq![agent@],
                Some(agent@),
            ),
    {
        let cwd = self.active_cwd();
        self.open_agent_in(cwd, agent);
    }

    /// A terminal running a coding agent, in a directory.
    pub fn open_agent_in(&mut self, cwd: Option<String>, agent: String)
        ensures
            final(self).deep_view() == old(self).deep_view().then_open(
                held(cwd),
                seq![agent@],
                Some(agent@),
            ),
    {
        let mut command: Vec<String> = Vec::new();
        command.push(agent.clone());
        assert(command.deep_view() =~= seq![agent@]);
        self.open_session_in(cwd, command, Some(agent));
    }

    /// Open a session running `command` (the login shell when empty), titled after its program;
    /// the host places it.
    pub fn open_command(&mut self, command: Vec<String>)
        ensures
            final(self).deep_view() == old(self).deep_view().then_command(command.deep_view()),
            final(self).deep_view() == old(self).deep_view().then_open(
                old(self).deep_view().active_cwd(),
                command.deep_view(),
                if command@.len() > 0 {
                    Some(command.deep_view()[0])
                } else {
                    None
                },
            ),
    {
        let cwd = self.active_cwd();
        let title: Option<String> = if command.len() > 0 {
            Some(command[0].clone())
        } else {
            None
        };
        self.open_session_in(cwd, command, title);
    }

    /// A card over all the others, put where there is room.
    pub(crate) fn card(&self, id: u128, kind: ItemKind<String>, slot: Rect) -> (r: CanvasItem)
        ensures
            r.deep_view() == new_card(id, kind.deep_view(), slot, self.deep_view().doc),
    {
        let z: u32 = self.doc.top_z();
        Item {
            id,
            kind,
            rect: slot,
            z: if z == u32::MAX {
                z
            } else {
                z + 1
            },
            sleeping: false,
            name: None,
        }
    }

    /// Put a new card on the canvas, active and brought into view.
    fn add(&mut self, item: CanvasItem)
        ensures
            final(self).deep_view() == old(self).deep_view().then_add(item.deep_view()),
    {
        let id: u128 = item.id;
        self.propose(Op::Upsert(item));
        self.active = Some(id);
        self.pending.reveal = Some(id);
    }

    /// An empty note in a free slot, revealed and focused right away.
    pub fn new_note(&mut self, id: u128, slot: Rect)
        ensures
            final(self).deep_view() == old(self).deep_view().then_new_note(id, slot),
    {
        let text = String::new();
        assert(text@ =~= Seq::<char>::empty());
        let item = self.card(id, ItemKind::Note { text }, slot);
        self.add(item);
        self.pending.note = Some(id);
    }

    /// A block saved as a note: active and revealed but not editing, since its content is what was
    /// saved, not what is about to be typed. `slot` is beside the shell's card where there is room.
    pub fn note_beside(&mut self, text: String, id: u128, slot: Rect)
        ensures
            final(self).deep_view() == old(self).deep_view().then_add(
                new_card(id, ItemKind::Note { text: text@ }, slot, old(self).deep_view().doc),
            ),
    {
        let item = self.card(id, ItemKind::Note { text }, slot);
        self.add(item);
    }

    /// A note's editor settled: write its text into the document.
    pub fn commit_note(&mut self, id: u128, text: String)
        ensures
            final(self).deep_view() == old(self).deep_view().then_commit(id, text@),
    {
        let mut item = match self.doc.get(id) {
            Some(item) => item.copy(),
            None => {
                return;
            },
        };
        item.kind = ItemKind::Note { text };
        self.propose(Op::Upsert(item));
    }

    /// Ask the host for a file card's text (again).
    pub fn request_file(&mut self, id: u128)
        ensures
            final(self).deep_view() == old(self).deep_view().then_request(id),
    {
        let path: String = match self.doc.get(id) {
            Some(item) => match &item.kind {
                ItemKind::File { path } => path.clone(),
                _ => {
                    return;
                },
            },
            None => {
                return;
            },
        };
        self.send(ClientMsg::ReadFile { path });
    }

    /// The first file card for a path.
    pub(crate) fn card_for_file(&self, path: &str) -> (r: Option<u128>)
        ensures
            r == file_card(self.deep_view().doc.items, path@),
    {
        let ghost all = self.deep_view().doc.items;
        let n: usize = self.doc.count();
        let mut i: usize = 0;
        assert(all.skip(0) == all);
        while i < n
            invariant
                i <= n == all.len(),
                all == self.doc.deep_view().items,
                file_card(all, path@) == file_card(all.skip(i as int), path@),
            decreases n - i,
        {
            let item = self.doc.item_at(i);
            proof {
                assert(all.skip(i as int)[0] == all[i as int]);
                assert(all.skip(i as int).drop_first() == all.skip(i + 1));
            }
            if let ItemKind::File { path: p } = &item.kind {
                if same_text(p.as_str(), path) {
                    return Some(item.id);
                }
            }
            i += 1;
        }
        None
    }

    /// The card's "edit" pill: the editor's command typed into the shell the human was last in.
    pub fn edit_file(&mut self, id: u128, command: String)
        ensures
            final(self).deep_view() == old(self).deep_view().then_edit(id, command@),
            final(self).deep_view() == (match old(self).deep_view().doc.get(id) {
                Some(item) => if item.kind is File {
                    old(self).deep_view().then_run(command@)
                } else {
                    old(self).deep_view()
                },
                None => old(self).deep_view(),
            }),
    {
        let is_file = match self.doc.get(id) {
            Some(item) => match &item.kind {
                ItemKind::File { .. } => true,
                _ => false,
            },
            None => false,
        };
        if is_file {
            self.run_in_shell(command);
        }
    }

    /// Put a window or display card on the canvas; reconciling opens its stream.
    pub fn add_screen_item(
        &mut self,
        target: CaptureTarget,
        title: String,
        id: u128,
        slot: Rect,
    )
        ensures
            final(self).deep_view() == old(self).deep_view().then_screen(target, title@, id, slot),
    {
        let kind: ItemKind<String> = match target {
            CaptureTarget::Window(window) => ItemKind::Window { window },
            CaptureTarget::Display(display) => ItemKind::Display { display },
        };
        let item = self.card(id, kind, slot);
        self.screens.set_title(id, title);
        self.propose(Op::Upsert(item));
        self.active = Some(id);
    }

    /// A card that leaves is kept, to be taken back; its closing's number.
    pub(crate) fn note_closing(&mut self, item: CanvasItem, session: Option<u128>) -> (r: u64)
        ensures
            r == after_seq(old(self).deep_view().closed_seq),
            final(self).deep_view() == (Canvas {
                closed_seq: r,
                closed: old(self).deep_view().closed.push(
                    ClosedCard { item: item.deep_view(), session, seq: r },
                ),
                ..old(self).deep_view()
            }),
    {
        let seq: u64 = if self.closed_seq == u64::MAX {
            0
        } else {
            self.closed_seq + 1
        };
        self.closed_seq = seq;
        let one = ClosedCard { item, session, seq };
        let ghost want = self.closed.deep_view().push(one.deep_view());
        self.closed.push(one);
        assert(self.closed.deep_view() =~= want);
        seq
    }

    /// Take a live shell off the canvas, its session kept for a while. A shell without a view has
    /// nothing to keep and closes at once.
    pub fn close_shell(&mut self, session: u128)
        ensures
            final(self).deep_view() == old(self).deep_view().then_close_shell(session),
    {
        let drawn = self.shells.drawn(session);
        let item: Option<CanvasItem> = match self.doc.item_for_session(session) {
            Some(item) => if drawn {
                Some(item.copy())
            } else {
                None
            },
            None => None,
        };
        match item {
            Some(item) => self.remember_closed(item, Some(session)),
            None => self.out.term(session, TermRequest::Close),
        }
    }

    /// Close the active item. `asked` says the active shell's view put its question up, because a
    /// command still runs; `live_text` is what the active note's editor holds, whose last
    /// keystrokes may not be in the document yet.
    pub fn close_item(&mut self, asked: bool, live_text: Option<String>)
        ensures
            final(self).deep_view() == old(self).deep_view().then_close(asked, held(live_text)),
    {
        let mut item = match self.active_card() {
            Some(item) => item.copy(),
            None => {
                return;
            },
        };
        let id: u128 = item.id;
        let session: Option<u128> = match &item.kind {
            ItemKind::Terminal { session } => Some(*session),
            _ => None,
        };
        let note = match &item.kind {
            ItemKind::Note { .. } => true,
            _ => false,
        };
        match session {
            Some(session) => {
                if self.shells.alive(session) {
                    if !(self.shells.drawn(session) && asked) {
                        self.close_shell(session);
                    }
                } else {
                    self.propose(Op::Remove(id));
                }
            },
            None => {
                if note && holds_id(&self.notes, id) {
                    if let Some(text) = live_text {
                        item.kind = ItemKind::Note { text };
                    }
                }
                self.remember_closed(item, None);
            },
        }
    }

    /// Where the closing `seq` stands among those that can be taken back.
    fn closing(&self, seq: u64) -> (r: usize)
        ensures
            r == closing_at(self.deep_view().closed, seq),
            r <= self.closed@.len(),
    {
        let ghost all = self.deep_view().closed;
        let mut i: usize = 0;
        assert(all.skip(0) == all);
        while i < self.closed.len()
            invariant
                i <= self.closed@.len(),
                all == self.closed.deep_view(),
                closing_at(all, seq) == i + closing_at(all.skip(i as int), seq),
            decreases self.closed.len() - i,
        {
            proof {
                assert(all[i as int] == self.closed@[i as int].deep_view());
                assert(all.skip(i as int)[0] == all[i as int]);
                assert(all.skip(i as int).drop_first() == all.skip(i + 1));
            }
            if self.closed[i].seq == seq {
                return i;
            }
            i += 1;
        }
        i
    }

    /// The closing `seq`, or the latest, which can be taken back no more.
    pub(crate) fn take_closing(&mut self, seq: Option<u64>) -> (r: Option<ClosedCard<String>>)
        ensures
            ({
                let was = old(self).deep_view();
                let at = chosen_closing(was.closed, seq);
                if 0 <= at < was.closed.len() {
                    &&& r matches Some(card) && card.deep_view() == was.closed[at]
                    &&& final(self).deep_view() == Canvas { closed: was.closed.remove(at), ..was }
                } else {
                    r is None && final(self).deep_view() == was
                }
            }),
    {
        let at: usize = match seq {
            Some(seq) => self.closing(seq),
            None => {
                if self.closed.len() == 0 {
                    return None;
                }
                self.closed.len() - 1
            },
        };
        if at >= self.closed.len() {
            return None;
        }
        let ghost was = self.closed.deep_view();
        let card = self.closed.remove(at);
        assert(self.closed.deep_view() =~= was.remove(at as int));
        assert(card.deep_view() == was[at as int]);
        Some(card)
    }

    /// A shell is drawn no more.
    pub(crate) fn undraw(&mut self, session: u128)
        ensures
            final(self).deep_view() == (Canvas {
                shells: old(self).deep_view().shells.then_undrawn(session),
                ..old(self).deep_view()
            }),
    {
        self.shells.undraw(session);
    }

    /// Point the other clients at `id`, and say who was pointed, or that nobody else is here, in
    /// which case nothing is sent.
    pub fn point_at(&mut self, id: u128)
        ensures
            final(self).deep_view() == old(self).deep_view().then_point(id),
    {
        let title = match self.doc.get(id) {
            Some(item) => self.card_title(item),
            None => {
                return;
            },
        };
        let n: usize = self.doc.looker_count();
        let mut said = String::new();
        if n == 0 {
            said.append("nobody else is here");
        } else {
            said.append("pointed ");
            if n == 1 {
                let name = &self.doc.looker_at(0).name;
                said.append(name.as_str());
                said.append(" at ");
            } else {
                push_decimal(&mut said, n as u128);
                said.append(" others at ");
            }
            said.append(title.as_str());
        }
        assert(said@ =~= pointed_text(self.deep_view().doc.lookers, title@));
        if n > 0 {
            self.send(ClientMsg::Point { item: id });
        }
        self.show_toast_for(ToastKind::Said(said), POINT_FOR);
    }

    /// Point the other clients at the active card. Nothing active is nothing to point at.
    pub fn point_others(&mut self)
        ensures
            final(self).deep_view() == old(self).deep_view().then_point_active(),
            final(self).deep_view() == (match old(self).deep_view().active {
                Some(id) => old(self).deep_view().then_point(id),
                None => old(self).deep_view(),
            }),
    {
        if let Some(id) = self.active {
            self.point_at(id);
        }
    }

    /// Go to the card after (or before) the active one in reading order, wrapping; nothing active
    /// starts at the first (or the last).
    pub fn step_card(&mut self, forward: bool)
        ensures
            final(self).deep_view() == old(self).deep_view().then_step(forward),
    {
        let order = self.doc.reading_order();
        if order.len() == 0 {
            return;
        }
        let last: usize = order.len() - 1;
        let at: Option<usize> = match self.active {
            Some(id) => position(&order, id),
            None => None,
        };
        let next: usize = match at {
            None => if forward {
                0
            } else {
                last
            },
            Some(i) => if forward {
                if i == last {
                    0
                } else {
                    i + 1
                }
            } else if i == 0 {
                last
            } else {
                i - 1
            },
        };
        self.go_to(order[next]);
    }

    /// The nearest card in a direction; nothing there leaves the focus where it is. Nothing active
    /// starts at the first card in reading order.
    pub fn step_towards(&mut self, nearest: Option<u128>)
        ensures
            final(self).deep_view() == old(self).deep_view().then_towards(nearest),
    {
        if self.active_card().is_none() {
            let order = self.doc.reading_order();
            if order.len() > 0 {
                self.go_to(order[0]);
            }
            return;
        }
        if let Some(id) = nearest {
            self.go_to(id);
        }
    }

    /// The name field opens in a card's title bar and takes the keyboard on the next frame.
    pub(crate) fn open_name_field(&mut self, id: u128, focused: Option<u64>)
        ensures
            final(self).deep_view() == (Canvas {
                rename: Some(Rename { id, return_to: focused }),
                pending: Pending { rename: true, ..old(self).deep_view().pending },
                ..old(self).deep_view()
            }),
    {
        self.rename = Some(Rename { id, return_to: focused });
        self.pending.rename = true;
    }

    /// The name field closes. `keep` writes its text into the document as the card's name (blank
    /// clears it); `back` gives the keyboard back to whoever had it before the field.
    pub fn finish_rename(&mut self, keep: bool, back: bool, text: &str)
        ensures
            final(self).deep_view() == old(self).deep_view().then_renamed(keep, back, text@),
    {
        let rename = match self.rename {
            Some(rename) => rename,
            None => {
                return;
            },
        };
        self.rename = None;
        if keep {
            let found: Option<CanvasItem> = match self.doc.get(rename.id) {
                Some(item) => Some(item.copy()),
                None => None,
            };
            if let Some(mut item) = found {
                let chars = chars_of(text);
                let said = trimmed(chars.as_slice());
                item.name = if said.len() > 0 {
                    Some(string_of(said))
                } else {
                    None
                };
                self.propose(Op::Upsert(item));
            }
        }
        if back {
            self.rename_return = Some(
                match rename.return_to {
                    Some(e) => Keeper::Element(e),
                    None => Keeper::Canvas,
                },
            );
        }
    }

    /// The human took the camera: any pan, zoom, pinch or scrub stops following.
    pub fn take_camera(&mut self)
        ensures
            final(self).deep_view() == (Canvas { following: None, ..old(self).deep_view() }),
    {
        self.following = None;
    }

    /// Back to full size, keeping the active item in the middle (or, with nothing active, whatever
    /// the viewport is centred on).
    pub fn zoom_reset(&mut self)
        ensures
            final(self).deep_view() == old(self).deep_view().then_fly(
                old(self).deep_view().reset_aim(),
            ),
            final(self).deep_view() == old(self).deep_view().then_fly(
                match old(self).deep_view().active_card() {
                    Some(item) => Aim::Centre(old(self).deep_view().active->0),
                    None => Aim::FullSize,
                },
            ),
    {
        let aim = match self.active {
            Some(id) => if self.doc.has(id) {
                Aim::Centre(id)
            } else {
                Aim::FullSize
            },
            None => Aim::FullSize,
        };
        self.following = None;
        self.out.push(Effect::Fly(aim));
    }

    /// Every card and heading in view.
    pub fn fit_all(&mut self)
        ensures
            final(self).deep_view() == old(self).deep_view().then_fly(Aim::All),
    {
        self.following = None;
        self.out.push(Effect::Fly(Aim::All));
    }

    /// Fit the active item. Nothing active is nothing to do.
    pub fn zoom_to_item(&mut self)
        ensures
            final(self).deep_view() == old(self).deep_view().then_zoom_to_item(),
            final(self).deep_view() == (match old(self).deep_view().active_card() {
                Some(item) => old(self).deep_view().then_fly(
                    Aim::Item(old(self).deep_view().active->0),
                ),
                None => old(self).deep_view(),
            }),
    {
        if let Some(id) = self.active {
            if self.doc.has(id) {
                self.following = None;
                self.out.push(Effect::Fly(Aim::Item(id)));
            }
        }
    }

    /// The cards bottom to top, as arranging by repository reads them.
    pub fn arrangeable(&self) -> (r: Vec<Arrangeable<String>>)
        ensures
            r.deep_view() == stacked_ids(self.deep_view().doc.items).map_values(
                |id: u128| arranged_row(self.deep_view(), id),
            ),
    {
        let ids = self.doc.by_z();
        let ghost all = ids@;
        let ghost canvas = self.deep_view();
        let mut out: Vec<Arrangeable<String>> = Vec::new();
        let mut i: usize = 0;
        assert(out.deep_view() =~= Seq::<Arrangeable<Seq<char>>>::empty());
        while i < ids.len()
            invariant
                i <= ids@.len(),
                all == ids@,
                canvas == self.deep_view(),
                out.deep_view() == all.take(i as int).map_values(
                    |id: u128| arranged_row(canvas, id),
                ),
            decreases ids.len() - i,
        {
            let id: u128 = ids[i];
            let one = match self.doc.get(id) {
                Some(item) => Arrangeable {
                    id,
                    rect: item.rect,
                    cwd: self.cwd_of(item),
                    repo: self.repo_of(item),
                    activity: item.z,
                },
                None => Arrangeable {
                    id,
                    rect: Rect { x: 0, y: 0, w: 0, h: 0 },
                    cwd: None,
                    repo: None,
                    activity: 0,
                },
            };
            assert(one.deep_view() == arranged_row(canvas, id));
            let ghost want = out.deep_view().push(one.deep_view());
            out.push(one);
            proof {
                assert(out.deep_view() =~= want);
                assert(all.take(i + 1).map_values(|id: u128| arranged_row(canvas, id))
                    =~= all.take(i as int).map_values(|id: u128| arranged_row(canvas, id)).push(
                    arranged_row(canvas, id),
                ));
            }
            i += 1;
        }
        assert(all.take(i as int) == all);
        out
    }

    /// One block of cards per repository, the most recently used on the left: the cards take the
    /// places they were given, and the camera opens out to show the result. An empty canvas is
    /// left alone.
    pub fn arranged(
        &mut self,
        places: &Vec<(u128, Rect)>,
        headings: Vec<Heading<String, Vec<u128>>>,
    )
        ensures
            final(self).deep_view() == old(self).deep_view().then_arranged(
                places@,
                headings.deep_view(),
            ),
    {
        if self.doc.count() == 0 {
            return;
        }
        let ghost first = self.deep_view();
        let mut i: usize = 0;
        assert(places@.take(0) =~= Seq::<(u128, Rect)>::empty());
        while i < places.len()
            invariant
                i <= places@.len(),
                self.deep_view() == first.then_place_all(places@.take(i as int)),
            decreases places.len() - i,
        {
            let (id, rect) = places[i];
            proof {
                assert(places@.take(i + 1).drop_last() == places@.take(i as int));
                assert(places@.take(i + 1).last() == places@[i as int]);
            }
            let moved = match self.doc.get(id) {
                Some(item) => !same_rect(item.rect, rect),
                None => false,
            };
            if moved {
                self.propose(Op::Place { id, rect });
            }
            i += 1;
        }
        assert(places@.take(i as int) == places@);
        self.headings = headings;
        self.following = None;
        self.out.push(Effect::Fly(Aim::Arranged));
    }

    /// The card of the active stream, if the active card is a window or display with one open.
    pub fn active_screen(&self) -> (r: Option<u128>)
        ensures
            r == self.deep_view().active_stream(),
    {
        match self.active_card() {
            Some(item) => {
                let screen = match &item.kind {
                    ItemKind::Window { .. } => true,
                    ItemKind::Display { .. } => true,
                    _ => false,
                };
                if screen && self.screens.on(item.id).is_some() {
                    Some(item.id)
                } else {
                    None
                }
            },
            None => None,
        }
    }

    /// The shell of the active card, if it is drawn here.
    pub fn active_terminal(&self) -> (r: Option<u128>)
        ensures
            r == self.deep_view().active_drawn(),
            r == (match self.deep_view().active_session() {
                Some(session) => if self.deep_view().shells.drawn(session) {
                    Some(session)
                } else {
                    None
                },
                None => None,
            }),
    {
        match self.active_session() {
            Some(session) => if self.shells.drawn(session) {
                Some(session)
            } else {
                None
            },
            None => None,
        }
    }

    /// What the phone key bar drives: the active terminal, or the active remote window.
    pub fn active_key_target(&self) -> (r: Option<KeyTarget>)
        ensures
            r == self.deep_view().key_target(),
    {
        match self.active_terminal() {
            Some(session) => Some(KeyTarget::Terminal(session)),
            None => match self.active_screen() {
                Some(item) => Some(KeyTarget::Screen(item)),
                None => None,
            },
        }
    }

    /// The stats overlay on every remote window.
    pub fn toggle_stats(&mut self)
        ensures
            final(self).deep_view() == (Canvas {
                show_stats: !old(self).deep_view().show_stats,
                ..old(self).deep_view()
            }).say(Effect::Stats(!old(self).deep_view().show_stats)),
    {
        self.show_stats = !self.show_stats;
        self.out.push(Effect::Stats(self.show_stats));
    }

    /// Silence or resume the active remote window's audio (this client only).
    pub fn toggle_mute(&mut self)
        ensures
            final(self).deep_view() == old(self).deep_view().then_toggle_mute(),
            final(self).deep_view() == (match old(self).deep_view().active_stream() {
                Some(item) => old(self).deep_view().say(Effect::ToggleMute(item)),
                None => old(self).deep_view(),
            }),
    {
        if let Some(item) = self.active_screen() {
            self.out.push(Effect::ToggleMute(item));
        }
    }

    /// Ask the host for its windows, then show the picker.
    pub fn add_window(&mut self)
        ensures
            final(self).deep_view() == old(self).deep_view().then_add_window(),
            final(self).deep_view() == (Canvas {
                picker_wanted: true,
                ..old(self).deep_view()
            }).say(screen_req(ScreenRequest::List)),
    {
        self.picker_wanted = true;
        self.send(ClientMsg::Screen(ScreenRequest::List));
    }

    /// Add the host's first display as an item, as picking it in the picker would.
    pub fn add_first_display(&mut self)
        ensures
            final(self).deep_view() == old(self).deep_view().then_add_display(),
            final(self).deep_view() == (Canvas {
                display_wanted: true,
                ..old(self).deep_view()
            }).say(screen_req(ScreenRequest::List)),
    {
        self.display_wanted = true;
        self.send(ClientMsg::Screen(ScreenRequest::List));
    }

    /// The terminals' colours changed: every shell hears the new ones.
    pub fn colors_changed(&mut self)
        ensures
            final(self).deep_view() == old(self).deep_view().then_colors(
                old(self).deep_view().shells.terminals.len() as int,
            ),
    {
        let n: usize = self.shells.drawn_count();
        let mut i: usize = 0;
        while i < n
            invariant
                i <= n == old(self).deep_view().shells.terminals.len(),
                self.deep_view() == old(self).deep_view().then_colors(i as int),
                self.deep_view().shells == old(self).deep_view().shells,
            decreases n - i,
        {
            let session: u128 = self.shells.drawn_at(i);
            self.out.term(session, TermRequest::Colors);
            i += 1;
        }
    }

    /// The file cards, and their paths.
    fn file_list(&self) -> (r: Vec<(u128, String)>)
        ensures
            r@.map_values(|c: (u128, String)| (c.0, c.1@)) == file_cards(
                self.deep_view().doc.items,
            ),
    {
        let ghost all = self.deep_view().doc.items;
        let n: usize = self.doc.count();
        let mut out: Vec<(u128, String)> = Vec::new();
        let mut i: usize = 0;
        assert(out@.map_values(|c: (u128, String)| (c.0, c.1@)) =~= Seq::<
            (u128, Seq<char>),
        >::empty());
        while i < n
            invariant
                i <= n == all.len(),
                all == self.doc.deep_view().items,
                out@.map_values(|c: (u128, String)| (c.0, c.1@)) == file_cards(
                    all.take(i as int),
                ),
            decreases n - i,
        {
            let item = self.doc.item_at(i);
            proof {
                assert(all.take(i + 1).drop_last() == all.take(i as int));
                assert(all.take(i + 1).last() == all[i as int]);
            }
            if let ItemKind::File { path } = &item.kind {
                let ghost was = out@.map_values(|c: (u128, String)| (c.0, c.1@));
                out.push((item.id, path.clone()));
                assert(out@.map_values(|c: (u128, String)| (c.0, c.1@)) =~= was.push(
                    (item.id, path@),
                ));
            }
            i += 1;
        }
        assert(all.take(i as int) == all);
        out
    }

    /// Create views for file cards and ask the host for their text; drop the views whose cards are
    /// gone. The host watches the set behind the cards and re-reads one that changes on disk. The
    /// views to make come back, each with the line it is to land on.
    pub fn reconcile_files(&mut self) -> (r: Vec<NewFile>)
        ensures
            final(self).deep_view() == old(self).deep_view().then_files(),
            r@ == new_files(old(self).deep_view(), file_cards(old(self).deep_view().doc.items)),
    {
        let cards = self.file_list();
        let ghost all = file_cards(self.deep_view().doc.items);
        let ghost first = self.deep_view();
        let mut made: Vec<NewFile> = Vec::new();
        let mut paths: Vec<String> = Vec::new();
        let mut i: usize = 0;
        proof {
            assert(all.len() == cards@.len());
            assert(all.take(0) =~= Seq::<(u128, Seq<char>)>::empty());
            assert(paths.deep_view() =~= paths_of(all.take(0)));
        }
        while i < cards.len()
            invariant
                i <= cards@.len() == all.len(),
                all == cards@.map_values(|c: (u128, String)| (c.0, c.1@)),
                self.deep_view() == first.then_file_views(all.take(i as int)),
                made@ == new_files(first, all.take(i as int)),
                paths.deep_view() == paths_of(all.take(i as int)),
            decreases cards.len() - i,
        {
            let id: u128 = cards[i].0;
            let path = cards[i].1.clone();
            proof {
                assert(all[i as int] == (id, path@));
                assert(all.take(i + 1).drop_last() == all.take(i as int));
                assert(all.take(i + 1).last() == all[i as int]);
            }
            let ghost want = paths.deep_view().push(path@);
            paths.push(path.clone());
            proof {
                assert(paths.deep_view() =~= want);
                assert(paths_of(all.take(i + 1)) =~= paths_of(all.take(i as int)).push(path@));
            }
            if !holds_id(&self.files, id) {
                let line: Option<u32> = match self.file_focus.get(id) {
                    Some(l) => Some(*l),
                    None => None,
                };
                self.file_focus.take_out(id);
                self.files.push(id);
                made.push(NewFile { id, line });
                self.send(ClientMsg::ReadFile { path });
            }
            i += 1;
        }
        assert(all.take(i as int) == all);
        self.keep_files(&cards);
        let mut sorted_paths: Vec<String> = Vec::new();
        assert(sorted_paths.deep_view() =~= Seq::<Seq<char>>::empty());
        insert_all(&mut sorted_paths, &paths);
        if !same_texts(&sorted_paths, &self.watched) {
            let mut told: Vec<String> = Vec::new();
            let mut k: usize = 0;
            assert(told.deep_view() =~= sorted_paths.deep_view().take(0));
            while k < sorted_paths.len()
                invariant
                    k <= sorted_paths@.len(),
                    told.deep_view() == sorted_paths.deep_view().take(k as int),
                decreases sorted_paths.len() - k,
            {
                let one = sorted_paths[k].clone();
                let ghost want = told.deep_view().push(one@);
                told.push(one);
                proof {
                    assert(told.deep_view() =~= want);
                    assert(sorted_paths.deep_view().take(k + 1) =~= sorted_paths.deep_view().take(
                        k as int,
                    ).push(sorted_paths@[k as int]@));
                }
                k += 1;
            }
            assert(sorted_paths.deep_view().take(k as int) =~= sorted_paths.deep_view());
            self.watched = sorted_paths;
            self.send(ClientMsg::WatchFiles { paths: told });
        }
        made
    }

    /// Keep the views whose file card is still there.
    fn keep_files(&mut self, cards: &Vec<(u128, String)>)
        ensures
            final(self).deep_view() == (Canvas {
                files: still_files(
                    old(self).deep_view().files,
                    cards@.map_values(|c: (u128, String)| (c.0, c.1@)),
                ),
                ..old(self).deep_view()
            }),
    {
        let ghost all = cards@.map_values(|c: (u128, String)| (c.0, c.1@));
        let ghost files = self.files@;
        let mut kept: Vec<u128> = Vec::new();
        let mut i: usize = 0;
        while i < self.files.len()
            invariant
                i <= self.files@.len(),
                files == self.files@,
                all == cards@.map_values(|c: (u128, String)| (c.0, c.1@)),
                kept@ == still_files(files.take(i as int), all),
            decreases self.files.len() - i,
        {
            let id: u128 = self.files[i];
            proof {
                assert(files.take(i + 1).drop_last() == files.take(i as int));
                assert(files.take(i + 1).last() == files[i as int]);
            }
            let mut found = false;
            let mut k: usize = 0;
            while k < cards.len() && !found
                invariant
                    k <= cards@.len() == all.len(),
                    all == cards@.map_values(|c: (u128, String)| (c.0, c.1@)),
                    found ==> is_file_card(all, id),
                    !found ==> forall|m: int| 0 <= m < k ==> (#[trigger] all[m]).0 != id,
                decreases cards.len() - k,
            {
                assert(all[k as int].0 == cards@[k as int].0);
                if cards[k].0 == id {
                    found = true;
                }
                k += 1;
            }
            if found {
                kept.push(id);
            }
            i += 1;
        }
        assert(files.take(i as int) == files);
        self.files = kept;
    }

    /// Create editors for note cards and drop the ones whose cards are gone: which to make comes
    /// back, in order.
    pub fn reconcile_notes(&mut self) -> (r: Vec<u128>)
        ensures
            final(self).deep_view() == (Canvas {
                notes: kept_notes(
                    old(self).deep_view().notes + r@,
                    note_cards(old(self).deep_view().doc.items),
                ),
                ..old(self).deep_view()
            }),
            r@ == new_notes(
                old(self).deep_view().notes,
                note_cards(old(self).deep_view().doc.items),
            ),
    {
        let ghost all = self.deep_view().doc.items;
        let n: usize = self.doc.count();
        let mut cards: Vec<u128> = Vec::new();
        let mut i: usize = 0;
        while i < n
            invariant
                i <= n == all.len(),
                all == self.doc.deep_view().items,
                cards@ == note_cards(all.take(i as int)),
            decreases n - i,
        {
            let item = self.doc.item_at(i);
            proof {
                assert(all.take(i + 1).drop_last() == all.take(i as int));
                assert(all.take(i + 1).last() == all[i as int]);
            }
            if let ItemKind::Note { .. } = &item.kind {
                cards.push(item.id);
            }
            i += 1;
        }
        assert(all.take(i as int) == all);
        let ghost notes = self.notes@;
        let mut made: Vec<u128> = Vec::new();
        let mut j: usize = 0;
        assert(notes + made@ =~= notes);
        while j < cards.len()
            invariant
                j <= cards@.len(),
                self.notes@ == notes + made@,
                self.deep_view() == (Canvas {
                    notes: self.notes@,
                    ..old(self).deep_view()
                }),
                made@ == new_notes(notes, cards@.take(j as int)),
            decreases cards.len() - j,
        {
            let id: u128 = cards[j];
            proof {
                assert(cards@.take(j + 1).drop_last() == cards@.take(j as int));
                assert(cards@.take(j + 1).last() == cards@[j as int]);
            }
            if !holds_id(&self.notes, id) {
                self.notes.push(id);
                made.push(id);
                assert(self.notes@ =~= notes + made@);
            }
            j += 1;
        }
        assert(cards@.take(j as int) == cards@);
        let ghost grown = self.notes@;
        let mut kept: Vec<u128> = Vec::new();
        let mut k: usize = 0;
        while k < self.notes.len()
            invariant
                k <= self.notes@.len(),
                grown == self.notes@,
                kept@ == kept_notes(grown.take(k as int), cards@),
            decreases self.notes.len() - k,
        {
            proof {
                assert(grown.take(k + 1).drop_last() == grown.take(k as int));
                assert(grown.take(k + 1).last() == grown[k as int]);
            }
            if holds_id(&cards, self.notes[k]) {
                kept.push(self.notes[k]);
            }
            k += 1;
        }
        assert(grown.take(k as int) == grown);
        self.notes = kept;
        made
    }
}

/// A card as arranging by repository reads it.
pub open spec fn arranged_row(canvas: Canvas, id: u128) -> Arrangeable<Seq<char>> {
    match canvas.doc.get(id) {
        Some(item) => Arrangeable {
            id,
            rect: item.rect,
            cwd: canvas.cwd_of(item),
            repo: canvas.repo_of(item),
            activity: item.z,
        },
        None => Arrangeable {
            id,
            rect: Rect { x: 0, y: 0, w: 0, h: 0 },
            cwd: None,
            repo: None,
            activity: 0,
        },
    }
}

/// The file views to make, each with the line it is to land on.
pub open spec fn new_files(canvas: Canvas, cards: Seq<(u128, Seq<char>)>) -> Seq<NewFile>
    decreases cards.len(),
{
    if cards.len() == 0 {
        Seq::empty()
    } else {
        let before = canvas.then_file_views(cards.drop_last());
        let rest = new_files(canvas, cards.drop_last());
        let id = cards.last().0;
        if before.files.contains(id) {
            rest
        } else {
            rest.push(
                NewFile {
                    id,
                    line: if before.file_focus.contains_key(id) {
                        Some(before.file_focus[id])
                    } else {
                        None
                    },
                },
            )
        }
    }
}

/// The note cards that have no editor yet.
pub open spec fn new_notes(notes: Seq<u128>, cards: Seq<u128>) -> Seq<u128>
    decreases cards.len(),
{
    if cards.len() == 0 {
        Seq::empty()
    } else {
        let rest = new_notes(notes, cards.drop_last());
        if (notes + rest).contains(cards.last()) {
            rest
        } else {
            rest.push(cards.last())
        }
    }
}

/// The editors whose card is still there.
pub open spec fn kept_notes(notes: Seq<u128>, cards: Seq<u128>) -> Seq<u128>
    decreases notes.len(),
{
    if notes.len() == 0 {
        Seq::empty()
    } else if cards.contains(notes.last()) {
        kept_notes(notes.drop_last(), cards).push(notes.last())
    } else {
        kept_notes(notes.drop_last(), cards)
    }
}

impl Canvas {
    /// The first `n` shells hear the colours this client paints with.
    pub open spec fn then_colors(self, n: int) -> Canvas
        decreases n,
    {
        if n <= 0 {
            self
        } else {
            self.then_colors(n - 1).term(
                self.shells.terminals[n - 1].session,
                TermRequest::Colors,
            )
        }
    }
}

/// Whether a note's editor takes the document's text: not while it is edited, and not what it
/// holds already.
pub fn note_takes_text(editing: bool, synced: &str, text: &str) -> (r: bool)
    ensures
        r == (!editing && synced@ != text@),
{
    !editing && !same_text(synced, text)
}

} // verus!
