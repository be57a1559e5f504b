//! The command palette, the find in every card, and the picker.
use vstd::prelude::*;

use crate::agent::{agent_status_text, needs_human, status_line, waits};
use crate::canvas::actions::{lines_of, listed, palette_items, Action};
use crate::canvas::doc::{
    order_key, reading_ids, reading_key, CanvasItem, Item, ItemKind, Looking, Rect,
};
use crate::canvas::msg::{CaptureTarget, ClientMsg, Effect, PaletteEvent, PaletteRun, TermRequest};

use crate::canvas::titles::{device, device_name, kind_name, kind_of};
use crate::canvas::view::{Canvas, CanvasView, Finding, Hit, Pending};
use crate::file::{borrowed, find_hits, hits_of, line_texts};
use crate::order::{order_of, sorted_order};
use crate::text::{
    chars_of, copy_of, held, line_spans, lines, part, same_text, string_of, trim, trimmed,
};

verus! {

/// How many of a shell's last commands the palette offers to run again.
pub const RERUN_LINES: usize = 5;

/// A line of the palette.
#[derive(Debug, PartialEq, Eq)]
pub struct Line<T> {
    pub title: T,
    pub detail: T,
    pub run: PaletteRun<T>,
}

impl DeepView for Line<String> {
    type V = Line<Seq<char>>;

    open spec fn deep_view(&self) -> Line<Seq<char>> {
        Line { title: self.title@, detail: self.detail@, run: self.run.deep_view() }
    }
}

/// A line of the find in every card.
#[derive(Debug, PartialEq, Eq)]
pub struct HitLine<T> {
    pub title: T,
    pub total: u32,
    pub run: PaletteRun<T>,
}

impl DeepView for HitLine<String> {
    type V = HitLine<Seq<char>>;

    open spec fn deep_view(&self) -> HitLine<Seq<char>> {
        HitLine { title: self.title@, total: self.total, run: self.run.deep_view() }
    }
}

/// A shell as the picker and the palette list it.
#[derive(Debug, PartialEq, Eq)]
pub struct Row<T> {
    pub session: u128,
    pub title: T,
    pub status: Option<T>,
    pub needs_you: bool,
}

/// A shell as it is listed.
pub type SessionRow = Row<String>;

impl DeepView for Row<String> {
    type V = Row<Seq<char>>;

    open spec fn deep_view(&self) -> Row<Seq<char>> {
        Row {
            session: self.session,
            title: self.title@,
            status: held(self.status),
            needs_you: self.needs_you,
        }
    }
}

/// What the picker reports.
#[derive(Debug, PartialEq, Eq)]
pub enum PickerEvent<T> {
    /// A window or display was chosen.
    Pick { target: CaptureTarget, title: T },
    /// A shell was chosen.
    Jump(u128),
    /// It was closed.
    Dismiss,
}

impl DeepView for PickerEvent<String> {
    type V = PickerEvent<Seq<char>>;

    open spec fn deep_view(&self) -> PickerEvent<Seq<char>> {
        match *self {
            PickerEvent::Pick { target, title } => PickerEvent::Pick { target, title: title@ },
            PickerEvent::Jump(session) => PickerEvent::Jump(session),
            PickerEvent::Dismiss => PickerEvent::Dismiss,
        }
    }
}

/// The lines of the file cards that have a view.
pub open spec fn shown_lines(files: Seq<(u128, Vec<String>)>, id: u128) -> Option<Seq<Seq<char>>>
    decreases files.len(),
{
    if files.len() == 0 {
        None
    } else if files[0].0 == id {
        Some(files[0].1.deep_view())
    } else {
        shown_lines(files.drop_first(), id)
    }
}

/// What is sought in the find bar of `id`; nothing with no bar open.
pub open spec fn sought_in(bars: Seq<(u128, String)>, id: u128) -> Seq<char>
    decreases bars.len(),
{
    if bars.len() == 0 {
        Seq::empty()
    } else if bars[0].0 == id {
        bars[0].1@
    } else {
        sought_in(bars.drop_first(), id)
    }
}

/// How a card answers a find, and what choosing its line does.
pub open spec fn counted(total: nat, run: PaletteRun<Seq<char>>) -> Option<Hit<Seq<char>>> {
    if total <= u32::MAX {
        Some(Hit { total: total as u32, run })
    } else {
        None
    }
}

/// A terminal card's row.
pub open spec fn row_of(canvas: Canvas, item: Item<Seq<char>>) -> Row<Seq<char>> {
    let session = match item.kind {
        ItemKind::Terminal { session } => session,
        _ => 0,
    };
    let known = canvas.shells.agents.contains_key(session);
    Row {
        session,
        title: canvas.card_title(item),
        status: if known {
            Some(status_line(canvas.shells.agents[session]))
        } else {
            None
        },
        needs_you: known && waits(canvas.shells.agents[session]),
    }
}

/// The rank of a row: agents waiting on the human first, then other agents, then plain shells.
pub open spec fn rank_of(row: Row<Seq<char>>) -> int {
    if row.needs_you {
        0
    } else if row.status is Some {
        1
    } else {
        2
    }
}

/// A terminal card's place among the rows: by rank, then in reading order.
pub open spec fn row_key(canvas: Canvas, item: Item<Seq<char>>) -> int {
    rank_of(row_of(canvas, item)) * 0x1_0000_0000_0000_0000 + reading_key(item.rect)
}

/// The terminal cards.
pub open spec fn terminal_cards(items: Seq<Item<Seq<char>>>) -> Seq<Item<Seq<char>>>
    decreases items.len(),
{
    if items.len() == 0 {
        Seq::empty()
    } else if items.last().kind is Terminal {
        terminal_cards(items.drop_last()).push(items.last())
    } else {
        terminal_cards(items.drop_last())
    }
}

/// The places of cards among the rows.
pub open spec fn row_keys(canvas: Canvas, cards: Seq<Item<Seq<char>>>) -> Seq<i128> {
    cards.map_values(|i: Item<Seq<char>>| row_key(canvas, i) as i128)
}

/// The cards that the palette lists besides the shells: every file, and every other the human
/// named.
pub open spec fn card_lines(canvas: Canvas, items: Seq<Item<Seq<char>>>) -> Seq<Line<Seq<char>>>
    decreases items.len(),
{
    if items.len() == 0 {
        Seq::empty()
    } else {
        let rest = card_lines(canvas, items.drop_last());
        let item = items.last();
        match item.kind {
            ItemKind::Terminal { .. } => rest,
            ItemKind::File { .. } => rest.push(
                Line {
                    title: canvas.card_title(item),
                    detail: "file"@,
                    run: PaletteRun::Item(item.id),
                },
            ),
            _ => match item.name {
                Some(name) => rest.push(
                    Line { title: name, detail: kind_of(item), run: PaletteRun::Item(item.id) },
                ),
                None => rest,
            },
        }
    }
}

/// The line of a row.
pub open spec fn row_line(row: Row<Seq<char>>) -> Line<Seq<char>> {
    Line {
        title: row.title,
        detail: match row.status {
            Some(s) => s,
            None => Seq::empty(),
        },
        run: PaletteRun::Session(row.session),
    }
}

/// The line of another client.
pub open spec fn looker_line(l: Looking<Seq<char>>) -> Line<Seq<char>> {
    Line { title: l.name, detail: device(l.kind), run: PaletteRun::Follow(l.client) }
}

/// The line of an action.
pub open spec fn action_line(l: (Seq<char>, Action, bool)) -> Line<Seq<char>> {
    Line { title: l.0, detail: Seq::empty(), run: PaletteRun::Action(l.1) }
}

/// The lines of the find in every card, of the cards `ids`.
pub open spec fn hit_lines(canvas: Canvas, ids: Seq<u128>) -> Seq<HitLine<Seq<char>>>
    decreases ids.len(),
{
    if ids.len() == 0 {
        Seq::empty()
    } else {
        let rest = hit_lines(canvas, ids.drop_last());
        let id = ids.last();
        let hits = canvas.find.hits;
        match canvas.doc.get(id) {
            Some(item) => if hits.contains_key(id) && hits[id].total > 0 {
                rest.push(
                    HitLine {
                        title: canvas.card_title(item),
                        total: hits[id].total,
                        run: hits[id].run,
                    },
                )
            } else {
                rest
            },
            None => rest,
        }
    }
}

impl Canvas {
    /// The rows of the shells, agents waiting on the human first.
    pub open spec fn rows(self) -> Seq<Row<Seq<char>>> {
        let cards = terminal_cards(self.doc.items);
        order_of(row_keys(self, cards)).map_values(|i: usize| row_of(self, cards[i as int]))
    }

    /// The commands a "run" would go to run again.
    pub open spec fn rerun_lines(self, recent: Seq<Seq<char>>) -> Seq<Line<Seq<char>>> {
        match self.shells.run_target() {
            Some(shell) => recent.map_values(
                |c: Seq<char>|
                    Line {
                        title: c,
                        detail: Seq::<char>::empty(),
                        run: PaletteRun::Rerun { session: shell, command: c },
                    },
            ),
            None => Seq::empty(),
        }
    }

    /// Every line the palette offers.
    pub open spec fn palette_lines(self, recent: Seq<Seq<char>>) -> Seq<Line<Seq<char>>> {
        self.rows().map_values(|r: Row<Seq<char>>| row_line(r)) + card_lines(self, self.doc.items)
            + self.doc.lookers.map_values(|l: Looking<Seq<char>>| looker_line(l))
            + self.rerun_lines(recent) + lines_of().map_values(
            |l: (Seq<char>, Action, bool)| action_line(l),
        )
    }

    /// How a card answers a find: a shell is asked, a note and a file card with a view are counted
    /// here.
    pub open spec fn then_sought(
        self,
        id: u128,
        needle: Seq<char>,
        files: Seq<(u128, Vec<String>)>,
    ) -> Canvas {
        match self.doc.get(id) {
            None => self,
            Some(item) => match item.kind {
                ItemKind::Terminal { session } => if self.shells.drawn(session) {
                    self.term(session, TermRequest::Search { needle, max: 1, regex: false })
                } else {
                    self
                },
                ItemKind::Note { text } => self.then_hit(
                    id,
                    counted(hits_of(lines(text), needle).len(), PaletteRun::Item(id)),
                ),
                ItemKind::File { .. } => match shown_lines(files, id) {
                    Some(all) => self.then_hit(
                        id,
                        counted(
                            hits_of(all, needle).len(),
                            PaletteRun::FindInFile { item: id, needle },
                        ),
                    ),
                    None => self,
                },
                _ => self,
            },
        }
    }

    /// A card's answer is kept.
    pub open spec fn then_hit(self, id: u128, hit: Option<Hit<Seq<char>>>) -> Canvas {
        match hit {
            Some(h) => Canvas {
                find: Finding { hits: self.find.hits.insert(id, h), ..self.find },
                ..self
            },
            None => self,
        }
    }

    /// The cards `ids` answer, one after the other.
    pub open spec fn then_sought_all(
        self,
        ids: Seq<u128>,
        needle: Seq<char>,
        files: Seq<(u128, Vec<String>)>,
    ) -> Canvas
        decreases ids.len(),
    {
        if ids.len() == 0 {
            self
        } else {
            self.then_sought_all(ids.drop_last(), needle, files).then_sought(
                ids.last(),
                needle,
                files,
            )
        }
    }

    /// The field of the find in every card changed: every card is asked anew.
    pub open spec fn then_find(self, text: Seq<char>, files: Seq<(u128, Vec<String>)>) -> Canvas {
        let needle = trim(text);
        let first = Canvas {
            find: Finding { needle: Some(needle), hits: Map::empty(), ..self.find },
            ..self
        };
        if needle.len() == 0 {
            first
        } else {
            Canvas {
                find: Finding { last: needle, ..first.find },
                ..first
            }.then_sought_all(reading_ids(self.doc.items), needle, files)
        }
    }

    /// A shell answered what is sought.
    pub open spec fn then_answered(self, session: u128, needle: Seq<char>, total: u32) -> Canvas {
        if self.find.needle != Some(needle) || needle.len() == 0 || !self.shells.drawn(session) {
            self
        } else {
            match self.doc.for_session(session) {
                Some(item) => self.then_hit(
                    item.id,
                    Some(Hit { total, run: PaletteRun::FindIn { session, needle } }),
                ),
                None => self,
            }
        }
    }

    /// The active card's own find-bar needle: that of a shell or of a file card with a view, and
    /// nothing for any other card.
    pub open spec fn active_needle(
        self,
        shells: Seq<(u128, String)>,
        files: Seq<(u128, String)>,
    ) -> Seq<char> {
        match self.active {
            Some(id) => match self.doc.get(id) {
                Some(item) => match item.kind {
                    ItemKind::Terminal { session } => if self.shells.drawn(session) {
                        sought_in(shells, session)
                    } else {
                        Seq::empty()
                    },
                    ItemKind::File { .. } => if self.files.contains(id) {
                        sought_in(files, id)
                    } else {
                        Seq::empty()
                    },
                    _ => Seq::empty(),
                },
                None => Seq::empty(),
            },
            None => Seq::empty(),
        }
    }

    /// The find in every card starts, from the active card's own needle or else the last one.
    pub open spec fn then_find_everywhere(
        self,
        own: Seq<char>,
        focused: Option<u64>,
        files: Seq<(u128, Vec<String>)>,
    ) -> Canvas {
        if self.palette {
            self
        } else {
            let seed = self.seed(own);
            let shown = Canvas {
                find: Finding { needle: Some(Seq::empty()), hits: Map::empty(), ..self.find },
                ..self
            }.then_show_palette(focused);
            if seed.len() > 0 {
                shown.then_find(seed, files)
            } else {
                shown
            }
        }
    }

    /// What a find in every card starts from.
    pub open spec fn seed(self, own: Seq<char>) -> Seq<char> {
        if own.len() == 0 {
            self.find.last
        } else {
            own
        }
    }

    /// A line of the palette was chosen, once it is gone.
    pub open spec fn then_chosen(
        self,
        run: PaletteRun<Seq<char>>,
        id: u128,
        slot: Rect,
    ) -> Canvas {
        let kept = Canvas { palette_return: None, ..self };
        match run {
            PaletteRun::Action(action) => Canvas { palette_action: Some(action), ..self },
            PaletteRun::Session(session) => kept.then_reveal_session(session),
            PaletteRun::Item(item) => self.then_go_to(item),
            PaletteRun::Follow(client) => self.then_follow(client),
            PaletteRun::OpenFile { path, line } => self.then_file(
                self.path_here(path),
                line,
                id,
                slot,
            ).0,
            PaletteRun::OpenShell { cwd } => self.then_open(Some(cwd), Seq::empty(), None),
            PaletteRun::OpenAgent { cwd, command } => self.then_open(
                Some(cwd),
                seq![command],
                Some(command),
            ),
            PaletteRun::FindIn { session, needle } => {
                let next = kept.then_reveal_session(session);
                Canvas { pending: Pending { find: Some((session, needle)), ..next.pending }, ..next }
            },
            PaletteRun::Rerun { session, command } => {
                let next = kept.then_reveal_session(session);
                if next.shells.drawn(session) {
                    next.say(Effect::RunText { session, text: command })
                } else {
                    next
                }
            },
            PaletteRun::FindInFile { item, needle } => {
                let next = kept.then_go_to(item);
                Canvas {
                    pending: Pending { find_file: Some((item, needle)), ..next.pending },
                    ..next
                }
            },
        }
    }

    /// The palette is gone, and the find with it.
    pub open spec fn then_palette_gone(self) -> Canvas {
        Canvas {
            palette: false,
            find: Finding { needle: None, hits: Map::empty(), ..self.find },
            ..self
        }
    }

    /// A word worth a lookup is asked of the host's files.
    pub open spec fn then_query(self, query: Option<Seq<char>>) -> Canvas {
        match query {
            Some(query) => {
                let root = match self.active_cwd() {
                    Some(cwd) => cwd,
                    None => "~"@,
                };
                self.send(ClientMsg::FindFiles { root, query })
            },
            None => self,
        }
    }

    /// The palette reports. While a find is up its field is what is sought; else a word of it may
    /// be worth a lookup, `query`.
    pub open spec fn then_palette(
        self,
        event: PaletteEvent<Seq<char>>,
        query: Option<Seq<char>>,
        files: Seq<(u128, Vec<String>)>,
        id: u128,
        slot: Rect,
    ) -> Canvas {
        match event {
            PaletteEvent::Changed(text) => if self.find.needle is Some {
                self.then_find(text, files)
            } else {
                self.then_query(query)
            },
            PaletteEvent::Run(run) => self.then_palette_gone().then_chosen(run, id, slot),
            PaletteEvent::Dismiss => self.then_palette_gone(),
        }
    }

    /// The picker reports; a jump focuses its terminal, every other outcome hands the keyboard
    /// back to the canvas.
    pub open spec fn then_picker(
        self,
        event: PickerEvent<Seq<char>>,
        id: u128,
        slot: Rect,
    ) -> Canvas {
        let next = match event {
            PickerEvent::Pick { target, title } => self.then_screen(target, title, id, slot),
            PickerEvent::Jump(session) => self.then_reveal_session(session),
            PickerEvent::Dismiss => self,
        };
        Canvas {
            picker: false,
            pending: Pending { canvas: !(event is Jump), ..next.pending },
            ..next
        }
    }
}

/// How many lines of a text hold the needle.
fn hits_in(text: &str, needle: &str) -> (r: usize)
    ensures
        r == hits_of(lines(text@), needle@).len(),
{
    let chars = chars_of(text);
    let spans = line_spans(chars.as_slice());
    let ghost all = lines(text@);
    let mut found: Vec<String> = Vec::new();
    let mut i: usize = 0;
    while i < spans.len()
        invariant
            i <= spans@.len(),
            all == lines(text@),
            chars@ == text@,
            spans@.len() == all.len(),
            found@.len() == i,
            forall|k: int|
                0 <= k < spans@.len() ==> {
                    &&& (#[trigger] spans@[k]).0 <= spans@[k].1 <= chars@.len()
                    &&& chars@.subrange(spans@[k].0 as int, spans@[k].1 as int) == all[k]
                },
            forall|k: int| 0 <= k < i ==> (#[trigger] found@[k])@ == all[k],
        decreases spans.len() - i,
    {
        let (from, to) = spans[i];
        found.push(string_of(part(chars.as_slice(), from, to)));
        i += 1;
    }
    count_hits(&found, needle, Ghost(all))
}

/// How many of the lines hold the needle.
fn count_hits(all: &Vec<String>, needle: &str, Ghost(said): Ghost<Seq<Seq<char>>>) -> (r: usize)
    requires
        said.len() == all@.len(),
        forall|k: int| 0 <= k < all@.len() ==> (#[trigger] all@[k])@ == said[k],
    ensures
        r == hits_of(said, needle@).len(),
{
    let lent = borrowed(all);
    assert(line_texts(lent@) =~= said);
    find_hits(lent.as_slice(), needle).len()
}

impl CanvasView {
    /// The lines of a file card's view.
    fn lines_shown<'a>(files: &'a Vec<(u128, Vec<String>)>, id: u128) -> (r: Option<
        &'a Vec<String>,
    >)
        ensures
            match r {
                Some(all) => shown_lines(files@, id) == Some(all.deep_view()),
                None => shown_lines(files@, id) is None,
            },
    {
        let mut i: usize = 0;
        assert(files@.skip(0) == files@);
        while i < files.len()
            invariant
                i <= files@.len(),
                shown_lines(files@, id) == shown_lines(files@.skip(i as int), id),
            decreases files.len() - i,
        {
            proof {
                assert(files@.skip(i as int)[0] == files@[i as int]);
                assert(files@.skip(i as int).drop_first() == files@.skip(i + 1));
            }
            if files[i].0 == id {
                return Some(&files[i].1);
            }
            i += 1;
        }
        None
    }

    /// Keep a card's answer.
    fn keep_hit(&mut self, id: u128, total: usize, run: PaletteRun<String>)
        ensures
            final(self).deep_view() == old(self).deep_view().then_hit(
                id,
                counted(total as nat, run.deep_view()),
            ),
    {
        if total <= 0xffff_ffff {
            self.put_hit(id, Hit { total: total as u32, run });
        }
    }

    /// How a card answers a find.
    fn seek_in(&mut self, id: u128, needle: &str, files: &Vec<(u128, Vec<String>)>)
        ensures
            final(self).deep_view() == old(self).deep_view().then_sought(id, needle@, files@),
    {
        let kind: ItemKind<String> = match self.doc().get(id) {
            Some(item) => item.kind.copy(),
            None => {
                return;
            },
        };
        match kind {
            ItemKind::Terminal { session } => {
                if self.shells().drawn(session) {
                    self.send(
                        ClientMsg::Term {
                            session,
                            req: TermRequest::Search {
                                needle: needle.to_owned(),
                                max: 1,
                                regex: false,
                            },
                        },
                    );
                }
            },
            ItemKind::Note { text } => {
                let total: usize = hits_in(text.as_str(), needle);
                self.keep_hit(id, total, PaletteRun::Item(id));
            },
            ItemKind::File { .. } => {
                if let Some(all) = CanvasView::lines_shown(files, id) {
                    let total: usize = count_hits(all, needle, Ghost(all.deep_view()));
                    self.keep_hit(
                        id,
                        total,
                        PaletteRun::FindInFile { item: id, needle: needle.to_owned() },
                    );
                }
            },
            _ => {},
        }
    }

    /// The find-everywhere field changed: every live shell is asked for the needle (one hit each
    /// is enough: the count is what the line says); the notes and file cards are counted here,
    /// where their text is; and the lines start over. `files` are the lines of the file cards that
    /// have a view.
    pub fn find_changed(&mut self, text: &str, files: &Vec<(u128, Vec<String>)>)
        ensures
            final(self).deep_view() == old(self).deep_view().then_find(text@, files@),
    {
        let chars = chars_of(text);
        let needle = string_of(trimmed(chars.as_slice()));
        let blank = chars_of(needle.as_str()).len() == 0;
        let ghost start = self.deep_view();
        self.set_needle(Some(needle.clone()));
        if blank {
            return;
        }
        self.set_last_find(needle.clone());
        let ids = self.doc().reading_order();
        let ghost first = self.deep_view();
        let mut i: usize = 0;
        assert(ids@.take(0) =~= Seq::<u128>::empty());
        while i < ids.len()
            invariant
                i <= ids@.len(),
                self.deep_view() == first.then_sought_all(ids@.take(i as int), needle@, files@),
            decreases ids.len() - i,
        {
            proof {
                assert(ids@.take(i + 1).drop_last() == ids@.take(i as int));
                assert(ids@.take(i + 1).last() == ids@[i as int]);
            }
            self.seek_in(ids[i], needle.as_str(), files);
            i += 1;
        }
        assert(ids@.take(i as int) == ids@);
    }

    /// A shell answered the find-everywhere needle: its line says how many hits it holds.
    pub fn find_answered(&mut self, session: u128, needle: &str, total: u32)
        ensures
            final(self).deep_view() == old(self).deep_view().then_answered(
                session,
                needle@,
                total,
            ),
    {
        let current = match self.needle() {
            Some(n) => same_text(n.as_str(), needle),
            None => false,
        };
        if !current || chars_of(needle).len() == 0 || !self.shells().drawn(session) {
            return;
        }
        let id: u128 = match self.doc().item_for_session(session) {
            Some(item) => item.id,
            None => {
                return;
            },
        };
        let run: PaletteRun<String> = PaletteRun::FindIn { session, needle: needle.to_owned() };
        self.put_hit(id, Hit { total, run });
    }

    /// The find-everywhere lines: the cards with a hit, in reading order, as they are known; none
    /// while no find is up.
    pub fn find_lines(&self) -> (r: Option<Vec<HitLine<String>>>)
        ensures
            match r {
                Some(all) => self.deep_view().find.needle is Some && all.deep_view() == hit_lines(
                    self.deep_view(),
                    reading_ids(self.deep_view().doc.items),
                ),
                None => self.deep_view().find.needle is None,
            },
    {
        if self.needle().is_none() {
            return None;
        }
        let ids = self.doc().reading_order();
        let mut out: Vec<HitLine<String>> = Vec::new();
        let mut i: usize = 0;
        assert(ids@.take(0) =~= Seq::<u128>::empty());
        assert(out.deep_view() =~= Seq::<HitLine<Seq<char>>>::empty());
        while i < ids.len()
            invariant
                i <= ids@.len(),
                out.deep_view() == hit_lines(self.deep_view(), ids@.take(i as int)),
            decreases ids.len() - i,
        {
            let id: u128 = ids[i];
            proof {
                assert(ids@.take(i + 1).drop_last() == ids@.take(i as int));
                assert(ids@.take(i + 1).last() == ids@[i as int]);
            }
            if let Some(hit) = self.hit(id) {
                if let Some(item) = self.doc().get(id) {
                    if hit.total > 0 {
                        let one = HitLine {
                            title: self.card_title(item),
                            total: hit.total,
                            run: hit.run.copy(),
                        };
                        let ghost want = out.deep_view().push(one.deep_view());
                        out.push(one);
                        assert(out.deep_view() =~= want);
                    }
                }
            }
            i += 1;
        }
        assert(ids@.take(i as int) == ids@);
        Some(out)
    }

    /// The command palette over whatever has the keyboard; the choice runs once it is gone and the
    /// focus is back. Whether it went up.
    pub fn open_palette(&mut self, focused: Option<u64>) -> (r: bool)
        ensures
            r == !old(self).deep_view().palette,
            final(self).deep_view() == (if old(self).deep_view().palette {
                old(self).deep_view()
            } else {
                old(self).deep_view().then_show_palette(focused)
            }),
    {
        if self.palette_open() {
            return false;
        }
        self.show_palette(focused);
        true
    }

    /// What is sought in the find bar of `id`; nothing with no bar open.
    fn bar_of(bars: &Vec<(u128, String)>, id: u128) -> (r: String)
        ensures
            r@ == sought_in(bars@, id),
    {
        let mut i: usize = 0;
        assert(bars@.skip(0) == bars@);
        while i < bars.len()
            invariant
                i <= bars@.len(),
                sought_in(bars@, id) == sought_in(bars@.skip(i as int), id),
            decreases bars.len() - i,
        {
            proof {
                assert(bars@.skip(i as int)[0] == bars@[i as int]);
                assert(bars@.skip(i as int).drop_first() == bars@.skip(i + 1));
            }
            if bars[i].0 == id {
                return bars[i].1.clone();
            }
            i += 1;
        }
        let none = String::new();
        assert(none@ =~= Seq::<char>::empty());
        none
    }

    /// The active card's own find-bar needle, to start a find in every card from: what was sought
    /// in one card is what is sought in all of them. Empty with no bar open (the last find in
    /// every card stands in then). `shells` are the needles of the shells whose bar is open, by
    /// session; `files` those of the file cards, by card.
    pub fn active_needle(
        &self,
        shells: &Vec<(u128, String)>,
        files: &Vec<(u128, String)>,
    ) -> (r: String)
        ensures
            r@ == self.deep_view().active_needle(shells@, files@),
    {
        if let Some(id) = self.active_item() {
            if let Some(item) = self.doc().get(id) {
                match item.kind {
                    ItemKind::Terminal { session } => {
                        if self.shells().drawn(session) {
                            return CanvasView::bar_of(shells, session);
                        }
                    },
                    ItemKind::File { .. } => {
                        if self.has_file(id) {
                            return CanvasView::bar_of(files, id);
                        }
                    },
                    _ => {},
                }
            }
        }
        let none = String::new();
        assert(none@ =~= Seq::<char>::empty());
        none
    }

    /// The palette as a find in every card, started from the active card's own needle, among the
    /// find bars open on `shells` and on `bars` of file cards, or else from the last one. What is
    /// typed goes to every live terminal as a search; the cards it is found in are the lines. What
    /// it starts from comes back where it goes up.
    pub fn find_everywhere(
        &mut self,
        shells: &Vec<(u128, String)>,
        bars: &Vec<(u128, String)>,
        focused: Option<u64>,
        files: &Vec<(u128, Vec<String>)>,
    ) -> (r: Option<String>)
        ensures
            final(self).deep_view() == old(self).deep_view().then_find_everywhere(
                old(self).deep_view().active_needle(shells@, bars@),
                focused,
                files@,
            ),
            held(r) == (if old(self).deep_view().palette {
                None
            } else {
                Some(old(self).deep_view().seed(old(self).deep_view().active_needle(shells@, bars@)))
            }),
    {
        if self.palette_open() {
            return None;
        }
        let own = self.active_needle(shells, bars);
        let seed: String = if chars_of(own.as_str()).len() == 0 {
            self.last_find().clone()
        } else {
            own
        };
        let blank = String::new();
        assert(blank@ =~= Seq::<char>::empty());
        self.set_needle(Some(blank));
        self.show_palette(focused);
        if chars_of(seed.as_str()).len() > 0 {
            self.find_changed(seed.as_str(), files);
        }
        Some(seed)
    }

    /// A line of the palette was chosen. A new file card takes the identity `id` and the place
    /// `slot`.
    fn run_line(&mut self, run: PaletteRun<String>, id: u128, slot: Rect)
        ensures
            final(self).deep_view() == old(self).deep_view().then_chosen(run.deep_view(), id, slot),
    {
        match run {
            PaletteRun::Action(action) => self.set_palette_action(action),
            PaletteRun::Session(session) => {
                self.keep_keyboard();
                self.reveal_session(session);
            },
            PaletteRun::Item(item) => self.go_to(item),
            PaletteRun::Follow(client) => self.follow(client),
            PaletteRun::OpenFile { path, line } => {
                let here = self.absolute_in_active_shell(path.as_str());
                self.open_file(here.as_str(), line, id, slot);
            },
            PaletteRun::OpenShell { cwd } => {
                let command: Vec<String> = Vec::new();
                assert(command.deep_view() =~= Seq::<Seq<char>>::empty());
                self.open_session_in(Some(cwd), command, None);
            },
            PaletteRun::OpenAgent { cwd, command } => self.open_agent_in(Some(cwd), command),
            PaletteRun::FindIn { session, needle } => {
                self.keep_keyboard();
                self.reveal_session(session);
                self.pend_find(session, needle);
            },
            PaletteRun::Rerun { session, command } => {
                self.keep_keyboard();
                self.reveal_session(session);
                if self.shells().drawn(session) {
                    self.say(Effect::RunText { session, text: command });
                }
            },
            PaletteRun::FindInFile { item, needle } => {
                self.keep_keyboard();
                self.go_to(item);
                self.pend_find_file(item, needle);
            },
        }
    }

    /// The palette's field changed: a word worth a lookup is asked of the host's files under the
    /// active shell's directory, or the host's home when no shell is active.
    pub fn palette_changed(&mut self, query: Option<String>)
        ensures
            final(self).deep_view() == old(self).deep_view().then_query(held(query)),
    {
        if let Some(query) = query {
            let root = match self.active_cwd() {
                Some(cwd) => cwd,
                None => "~".to_owned(),
            };
            self.send(ClientMsg::FindFiles { root, query });
        }
    }

    /// The palette reports: its field changed, a line was chosen, or it was closed.
    pub fn palette_event(
        &mut self,
        event: PaletteEvent<String>,
        query: Option<String>,
        files: &Vec<(u128, Vec<String>)>,
        id: u128,
        slot: Rect,
    )
        ensures
            final(self).deep_view() == old(self).deep_view().then_palette(
                event.deep_view(),
                held(query),
                files@,
                id,
                slot,
            ),
    {
        match event {
            PaletteEvent::Changed(text) => {
                if self.needle().is_some() {
                    self.find_changed(text.as_str(), files);
                } else {
                    self.palette_changed(query);
                }
            },
            PaletteEvent::Run(run) => {
                self.close_palette();
                self.set_needle(None);
                self.run_line(run, id, slot);
            },
            PaletteEvent::Dismiss => {
                self.close_palette();
                self.set_needle(None);
            },
        }
    }

    /// The picker reports. A new card takes the identity `id` and the place `slot`.
    pub fn picker_event(&mut self, event: PickerEvent<String>, id: u128, slot: Rect)
        ensures
            final(self).deep_view() == old(self).deep_view().then_picker(
                event.deep_view(),
                id,
                slot,
            ),
    {
        match event {
            PickerEvent::Pick { target, title } => {
                self.add_screen_item(target, title, id, slot);
                self.close_picker(true);
            },
            PickerEvent::Jump(session) => {
                self.reveal_session(session);
                self.close_picker(false);
            },
            PickerEvent::Dismiss => self.close_picker(true),
        }
    }

    /// A terminal card's row.
    fn row(&self, item: &CanvasItem) -> (r: SessionRow)
        ensures
            r.deep_view() == row_of(self.deep_view(), item.deep_view()),
    {
        let session: u128 = match &item.kind {
            ItemKind::Terminal { session } => *session,
            _ => 0,
        };
        let title = self.card_title(item);
        match self.shells().agent(session) {
            Some(agent) => Row {
                session,
                title,
                status: Some(agent_status_text(agent)),
                needs_you: needs_human(agent),
            },
            None => Row { session, title, status: None, needs_you: false },
        }
    }

    /// The terminal sessions on the canvas for the picker: agents waiting on the human first, then
    /// other agents, then plain shells; ties in reading order.
    pub fn session_rows(&self) -> (r: Vec<SessionRow>)
        ensures
            r.deep_view() == self.deep_view().rows(),
    {
        let ghost all = self.deep_view().doc.items;
        let ghost canvas = self.deep_view();
        let n: usize = self.doc().count();
        let mut cards: Vec<CanvasItem> = Vec::new();
        let mut keys: Vec<i128> = Vec::new();
        let mut i: usize = 0;
        assert(cards.deep_view() =~= Seq::<Item<Seq<char>>>::empty());
        while i < n
            invariant
                i <= n == all.len(),
                canvas == self.deep_view(),
                all == canvas.doc.items,
                cards.deep_view() == terminal_cards(all.take(i as int)),
                keys@ == row_keys(canvas, cards.deep_view()),
            decreases n - i,
        {
            let item = self.doc().item_at(i);
            proof {
                assert(all.take(i + 1).drop_last() == all.take(i as int));
                assert(all.take(i + 1).last() == all[i as int]);
            }
            if let ItemKind::Terminal { .. } = &item.kind {
                let row = self.row(item);
                let rank: i128 = if row.needs_you {
                    0
                } else if row.status.is_some() {
                    1
                } else {
                    2
                };
                keys.push(rank * 0x1_0000_0000_0000_0000 + order_key(item.rect));
                let one = item.copy();
                let ghost was = cards.deep_view();
                cards.push(one);
                proof {
                    assert(cards.deep_view() =~= was.push(one.deep_view()));
                    assert(row_keys(canvas, cards.deep_view()) =~= row_keys(canvas, was).push(
                        row_key(canvas, one.deep_view()) as i128,
                    ));
                }
            }
            i += 1;
        }
        assert(all.take(i as int) == all);
        let order = sorted_order(&keys);
        let ghost found = cards.deep_view();
        let mut out: Vec<SessionRow> = Vec::new();
        let mut j: usize = 0;
        assert(out.deep_view() =~= Seq::<Row<Seq<char>>>::empty());
        while j < order.len()
            invariant
                j <= order@.len(),
                canvas == self.deep_view(),
                found == cards.deep_view(),
                forall|k: int| 0 <= k < order@.len() ==> #[trigger] order@[k] < cards@.len(),
                out.deep_view() == order@.take(j as int).map_values(
                    |i: usize| row_of(canvas, found[i as int]),
                ),
            decreases order.len() - j,
        {
            let at: usize = order[j];
            assert(found[at as int] == cards@[at as int].deep_view());
            let one = self.row(&cards[at]);
            let ghost want = out.deep_view().push(one.deep_view());
            out.push(one);
            proof {
                assert(out.deep_view() =~= want);
                assert(order@.take(j + 1).map_values(|i: usize| row_of(canvas, found[i as int]))
                    =~= order@.take(j as int).map_values(
                    |i: usize| row_of(canvas, found[i as int]),
                ).push(row_of(canvas, found[at as int])));
            }
            j += 1;
        }
        assert(order@.take(j as int) == order@);
        out
    }

    /// Every line the palette offers: the canvas's sessions to go to (agents waiting on the human
    /// first), its file cards and the cards the human named, the other clients to follow, the last
    /// few commands of the shell a "run" would go to, then every action, then the app's own.
    pub fn palette_lines(&self, recent: &Vec<String>, extra: Vec<Line<String>>) -> (r: Vec<
        Line<String>,
    >)
        ensures
            r.deep_view() == self.deep_view().palette_lines(recent.deep_view())
                + extra.deep_view(),
    {
        let ghost canvas = self.deep_view();
        let mut out: Vec<Line<String>> = Vec::new();
        assert(out.deep_view() =~= Seq::<Line<Seq<char>>>::empty());
        self.push_rows(&mut out);
        self.push_cards(&mut out);
        self.push_lookers(&mut out);
        self.push_reruns(&mut out, recent);
        push_actions(&mut out);
        assert(out.deep_view() =~= canvas.palette_lines(recent.deep_view()));
        let mut extra = extra;
        let ghost both = out@ + extra@;
        let ghost said = out.deep_view() + extra.deep_view();
        out.append(&mut extra);
        assert(out@ == both);
        assert(out.deep_view() =~= said);
        out
    }

    /// The lines of the shells.
    fn push_rows(&self, out: &mut Vec<Line<String>>)
        ensures
            final(out).deep_view() == old(out).deep_view() + self.deep_view().rows().map_values(
                |r: Row<Seq<char>>| row_line(r),
            ),
    {
        let rows = self.session_rows();
        let ghost all = rows.deep_view();
        let ghost was = out.deep_view();
        let mut i: usize = 0;
        assert(was + all.take(0).map_values(|r: Row<Seq<char>>| row_line(r)) =~= was);
        while i < rows.len()
            invariant
                i <= rows@.len(),
                all == rows.deep_view(),
                out.deep_view() == was + all.take(i as int).map_values(
                    |r: Row<Seq<char>>| row_line(r),
                ),
            decreases rows.len() - i,
        {
            let row = &rows[i];
            let detail = match copy_of(&row.status) {
                Some(s) => s,
                None => {
                    let blank = String::new();
                    assert(blank@ =~= Seq::<char>::empty());
                    blank
                },
            };
            let one = Line {
                title: row.title.clone(),
                detail,
                run: PaletteRun::Session(row.session),
            };
            proof {
                assert(all[i as int] == row.deep_view());
                assert(one.deep_view() == row_line(row.deep_view()));
            }
            push_line(out, one);
            assert(was + all.take(i + 1).map_values(|r: Row<Seq<char>>| row_line(r)) =~= (was
                + all.take(i as int).map_values(|r: Row<Seq<char>>| row_line(r))).push(
                row_line(all[i as int]),
            ));
            i += 1;
        }
        assert(all.take(i as int) == all);
    }

    /// The lines of the file cards and the cards the human named: a name is a wish to find it
    /// again.
    fn push_cards(&self, out: &mut Vec<Line<String>>)
        ensures
            final(out).deep_view() == old(out).deep_view() + card_lines(
                self.deep_view(),
                self.deep_view().doc.items,
            ),
    {
        let ghost all = self.deep_view().doc.items;
        let ghost canvas = self.deep_view();
        let ghost was = out.deep_view();
        let n: usize = self.doc().count();
        let mut i: usize = 0;
        proof {
            assert(all.take(0) =~= Seq::<Item<Seq<char>>>::empty());
            assert(was + card_lines(canvas, all.take(0)) =~= was);
        }
        while i < n
            invariant
                i <= n == all.len(),
                canvas == self.deep_view(),
                all == canvas.doc.items,
                out.deep_view() == was + card_lines(canvas, all.take(i as int)),
            decreases n - i,
        {
            let item = self.doc().item_at(i);
            let ghost before = card_lines(canvas, all.take(i as int));
            proof {
                assert(all.take(i + 1).drop_last() == all.take(i as int));
                assert(all.take(i + 1).last() == all[i as int]);
            }
            match &item.kind {
                ItemKind::Terminal { .. } => {},
                ItemKind::File { .. } => {
                    let one = Line {
                        title: self.card_title(item),
                        detail: "file".to_owned(),
                        run: PaletteRun::Item(item.id),
                    };
                    let ghost l = one.deep_view();
                    push_line(out, one);
                    assert((was + before).push(l) =~= was + before.push(l));
                },
                _ => {
                    if let Some(name) = &item.name {
                        let one = Line {
                            title: name.clone(),
                            detail: kind_name(item).to_owned(),
                            run: PaletteRun::Item(item.id),
                        };
                        let ghost l = one.deep_view();
                        push_line(out, one);
                        assert((was + before).push(l) =~= was + before.push(l));
                    }
                },
            }
            i += 1;
        }
        assert(all.take(i as int) == all);
    }

    /// The lines of the other clients.
    fn push_lookers(&self, out: &mut Vec<Line<String>>)
        ensures
            final(out).deep_view() == old(out).deep_view()
                + self.deep_view().doc.lookers.map_values(
                |l: Looking<Seq<char>>| looker_line(l),
            ),
    {
        let ghost all = self.deep_view().doc.lookers;
        let ghost was = out.deep_view();
        let n: usize = self.doc().looker_count();
        let mut i: usize = 0;
        assert(was + all.take(0).map_values(|l: Looking<Seq<char>>| looker_line(l)) =~= was);
        while i < n
            invariant
                i <= n == all.len(),
                all == self.deep_view().doc.lookers,
                out.deep_view() == was + all.take(i as int).map_values(
                    |l: Looking<Seq<char>>| looker_line(l),
                ),
            decreases n - i,
        {
            let looker = self.doc().looker_at(i);
            let one = Line {
                title: looker.name.clone(),
                detail: device_name(looker.kind).to_owned(),
                run: PaletteRun::Follow(looker.client),
            };
            assert(one.deep_view() == looker_line(all[i as int]));
            push_line(out, one);
            assert(was + all.take(i + 1).map_values(|l: Looking<Seq<char>>| looker_line(l)) =~= (
            was + all.take(i as int).map_values(|l: Looking<Seq<char>>| looker_line(l))).push(
                looker_line(all[i as int]),
            ));
            i += 1;
        }
        assert(all.take(i as int) == all);
    }

    /// The lines of the commands to run again.
    fn push_reruns(&self, out: &mut Vec<Line<String>>, recent: &Vec<String>)
        ensures
            final(out).deep_view() == old(out).deep_view() + self.deep_view().rerun_lines(
                recent.deep_view(),
            ),
    {
        let ghost was = out.deep_view();
        let shell: u128 = match self.shells().run_target() {
            Some(shell) => shell,
            None => {
                assert(was + Seq::<Line<Seq<char>>>::empty() =~= was);
                return;
            },
        };
        let ghost all = recent.deep_view();
        let ghost f = |c: Seq<char>|
            Line {
                title: c,
                detail: Seq::<char>::empty(),
                run: PaletteRun::Rerun { session: shell, command: c },
            };
        let mut i: usize = 0;
        assert(was + all.take(0).map_values(f) =~= was);
        while i < recent.len()
            invariant
                i <= recent@.len(),
                all == recent.deep_view(),
                f == (|c: Seq<char>|
                    Line {
                        title: c,
                        detail: Seq::<char>::empty(),
                        run: PaletteRun::Rerun { session: shell, command: c },
                    }),
                out.deep_view() == was + all.take(i as int).map_values(f),
            decreases recent.len() - i,
        {
            let blank = String::new();
            assert(blank@ =~= Seq::<char>::empty());
            let one = Line {
                title: recent[i].clone(),
                detail: blank,
                run: PaletteRun::Rerun { session: shell, command: recent[i].clone() },
            };
            proof {
                assert(all[i as int] == recent@[i as int]@);
                assert(one.deep_view() == f(all[i as int]));
            }
            push_line(out, one);
            assert(was + all.take(i + 1).map_values(f) =~= (was + all.take(i as int).map_values(
                f,
            )).push(f(all[i as int])));
            i += 1;
        }
        assert(all.take(i as int) == all);
    }
}

/// The lines of the actions.
fn push_actions(out: &mut Vec<Line<String>>)
    ensures
        final(out).deep_view() == old(out).deep_view() + lines_of().map_values(
            |l: (Seq<char>, Action, bool)| action_line(l),
        ),
{
    let items = palette_items();
    let ghost all = lines_of();
    let ghost was = out.deep_view();
    let mut i: usize = 0;
    proof {
        assert(all.len() == items@.len()) by {
            assert(listed(items@).len() == items@.len());
        }
        assert(was + all.take(0).map_values(|l: (Seq<char>, Action, bool)| action_line(l)) =~= was);
    }
    while i < items.len()
        invariant
            i <= items@.len() == all.len(),
            all == listed(items@),
            out.deep_view() == was + all.take(i as int).map_values(
                |l: (Seq<char>, Action, bool)| action_line(l),
            ),
        decreases items.len() - i,
    {
        let blank = String::new();
        assert(blank@ =~= Seq::<char>::empty());
        let one = Line {
            title: items[i].label.to_owned(),
            detail: blank,
            run: PaletteRun::Action(items[i].action),
        };
        proof {
            assert(all[i as int] == (
                items@[i as int].label@,
                items@[i as int].action,
                items@[i as int].terminal,
            ));
            assert(one.deep_view() == action_line(all[i as int]));
        }
        push_line(out, one);
        assert(was + all.take(i + 1).map_values(|l: (Seq<char>, Action, bool)| action_line(l))
            =~= (was + all.take(i as int).map_values(
            |l: (Seq<char>, Action, bool)| action_line(l),
        )).push(action_line(all[i as int])));
        i += 1;
    }
    assert(all.take(i as int) == all);
}

/// Adds a line.
fn push_line(out: &mut Vec<Line<String>>, one: Line<String>)
    ensures
        final(out).deep_view() == old(out).deep_view().push(one.deep_view()),
{
    let ghost want = out.deep_view().push(one.deep_view());
    out.push(one);
    assert(out.deep_view() =~= want);
}

} // verus!
