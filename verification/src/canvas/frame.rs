//! What a frame settles: who gets the keyboard, what is drawn, and when the picture is exact.
use vstd::prelude::*;

use crate::canvas::actions::Action;
use crate::canvas::doc::{rect_same, same_rect, ItemKind, Rect};
use crate::canvas::msg::{Aim, ClientMsg};
use crate::canvas::view::{Canvas, CanvasView, Keeper, Pending};

verus! {

/// How long after the last zoom change the settled frame is asked for, in milliseconds. A gesture
/// reports every few; a frame per report and one more after the pause.
pub const SETTLE: u64 = 80;

/// How long a moved viewport waits before the host is told where this client looks, in
/// milliseconds: a pan reports every frame, and the other clients only need the places the camera
/// rests.
pub const LOOK_EVERY: u64 = 100;

/// What a frame does with the keyboard.
#[derive(Debug, PartialEq, Eq)]
pub enum Step<T> {
    /// A shell takes it.
    Terminal(u128),
    /// A shell's find bar takes it, on a needle, once the card is drawn.
    FindIn(u128, T),
    /// A file card's find bar takes it, on a needle, once the card is drawn.
    FindInFile(u128, T),
    Picker,
    Palette,
    /// The name field takes it, its text selected.
    Rename,
    /// It goes to the canvas or back to whoever had it.
    Back(Keeper),
    /// What the palette chose runs, from whoever has it then.
    Dispatch(Action),
}

impl DeepView for Step<String> {
    type V = Step<Seq<char>>;

    open spec fn deep_view(&self) -> Step<Seq<char>> {
        match *self {
            Step::Terminal(session) => Step::Terminal(session),
            Step::FindIn(session, needle) => Step::FindIn(session, needle@),
            Step::FindInFile(item, needle) => Step::FindInFile(item, needle@),
            Step::Picker => Step::Picker,
            Step::Palette => Step::Palette,
            Step::Rename => Step::Rename,
            Step::Back(keeper) => Step::Back(keeper),
            Step::Dispatch(action) => Step::Dispatch(action),
        }
    }
}

/// A step where there is one.
pub open spec fn maybe(step: Option<Step<Seq<char>>>) -> Seq<Step<Seq<char>>> {
    match step {
        Some(s) => seq![s],
        None => Seq::empty(),
    }
}

impl Canvas {
    /// The shell that gets the keyboard, where it is drawn.
    pub open spec fn focus_step(self) -> Option<Step<Seq<char>>> {
        match self.pending.focus {
            Some(s) => if self.shells.drawn(s) {
                Some(Step::Terminal(s))
            } else {
                None
            },
            None => None,
        }
    }

    /// The shell whose find bar opens, where it is drawn.
    pub open spec fn find_step(self) -> Option<Step<Seq<char>>> {
        match self.pending.find {
            Some((s, needle)) => if self.shells.drawn(s) {
                Some(Step::FindIn(s, needle))
            } else {
                None
            },
            None => None,
        }
    }

    /// The file card whose find bar opens, where it has a view.
    pub open spec fn find_file_step(self) -> Option<Step<Seq<char>>> {
        match self.pending.find_file {
            Some((item, needle)) => if self.files.contains(item) {
                Some(Step::FindInFile(item, needle))
            } else {
                None
            },
            None => None,
        }
    }

    /// What the cards get.
    pub open spec fn card_steps(self) -> Seq<Step<Seq<char>>> {
        maybe(self.focus_step()) + maybe(self.find_step()) + maybe(self.find_file_step())
    }

    /// What waited for the cards is settled.
    pub open spec fn then_cards_settled(self) -> Canvas {
        Canvas {
            pending: Pending { focus: None, find: None, find_file: None, ..self.pending },
            ..self
        }
    }

    /// A step that waits on a condition.
    pub open spec fn step_if(pending: bool, now: bool, step: Step<Seq<char>>) -> Seq<
        Step<Seq<char>>,
    > {
        if pending && now {
            seq![step]
        } else {
            Seq::empty()
        }
    }

    /// What the overlays and the canvas itself get.
    pub open spec fn overlay_steps(self) -> Seq<Step<Seq<char>>> {
        Canvas::step_if(self.pending.picker, self.picker, Step::Picker) + Canvas::step_if(
            self.pending.canvas,
            true,
            Step::Back(Keeper::Canvas),
        ) + Canvas::step_if(self.pending.palette, self.palette, Step::Palette) + Canvas::step_if(
            self.pending.rename,
            self.rename is Some,
            Step::Rename,
        )
    }

    /// What waited for the overlays is settled.
    pub open spec fn then_overlays_settled(self) -> Canvas {
        Canvas {
            pending: Pending {
                picker: false,
                canvas: false,
                palette: false,
                rename: false,
                ..self.pending
            },
            ..self
        }
    }

    /// What a closed overlay hands back, and what the palette chose.
    pub open spec fn return_steps(self) -> Seq<Step<Seq<char>>> {
        maybe(
            match self.rename_return {
                Some(keeper) => if self.rename is None {
                    Some(Step::Back(keeper))
                } else {
                    None
                },
                None => None,
            },
        ) + match self.palette_return {
            Some(e) => if !self.palette {
                seq![Step::Back(Keeper::Element(e))] + maybe(
                    match self.palette_action {
                        Some(action) => Some(Step::Dispatch(action)),
                        None => None,
                    },
                )
            } else {
                Seq::empty()
            },
            None => Seq::empty(),
        }
    }

    /// What a closed overlay kept is handed back.
    pub open spec fn then_returned(self) -> Canvas {
        Canvas {
            rename_return: if self.rename is None {
                None
            } else {
                self.rename_return
            },
            palette_return: if self.palette {
                self.palette_return
            } else {
                None
            },
            palette_action: if !self.palette && self.palette_return is Some {
                None
            } else {
                self.palette_action
            },
            ..self
        }
    }

    /// What waited for the keyboard is settled by this frame.
    pub open spec fn then_frame(self) -> Canvas {
        self.then_cards_settled().then_overlays_settled().then_returned()
    }

    /// What this frame does with the keyboard, in order: a find bar and an action wait until it is
    /// drawn, and of the rest the last one wins.
    pub open spec fn steps(self) -> Seq<Step<Seq<char>>> {
        self.card_steps() + self.overlay_steps() + self.return_steps()
    }

    /// Where the keyboard must go to sit on something drawn: off a shell that is a summary card,
    /// and back to the active shell once it is a live grid again.
    pub open spec fn kept_drawn(
        self,
        card: bool,
        terminal_focused: bool,
        canvas_focused: bool,
    ) -> Option<Step<Seq<char>>> {
        if card {
            if terminal_focused {
                Some(Step::Back(Keeper::Canvas))
            } else {
                None
            }
        } else if canvas_focused {
            match self.active_session() {
                Some(session) => if self.shells.drawn(session) {
                    Some(Step::Terminal(session))
                } else {
                    None
                },
                None => None,
            }
        } else {
            None
        }
    }

    /// The cards that wait for the viewport are sized to it, one after the other.
    pub open spec fn then_fit_all(self, ids: Seq<u128>) -> Canvas
        decreases ids.len(),
    {
        if ids.len() == 0 {
            self
        } else {
            self.then_fit_all(ids.drop_last()).then_fit(ids.last())
        }
    }

    /// The viewport is measured, and the cards that wait for it are sized.
    pub open spec fn then_sized(self, known: bool) -> Canvas {
        Canvas { measured: known, fit_items: Seq::empty(), ..self }.then_fit_all(self.fit_items)
    }

    /// The frame measured the viewport: what waited for it happens.
    pub open spec fn then_measured(self, known: bool) -> Canvas {
        let fitted = self.then_sized(known);
        let taken = Canvas {
            pending: Pending { fit: false, reveal: None, ..fitted.pending },
            ..fitted
        };
        if self.pending.fit && self.doc.items.len() > 0 {
            taken.then_fly(Aim::All)
        } else {
            taken
        }
    }
}

impl CanvasView {
    /// The shell that gets the keyboard.
    fn next_focus(&mut self) -> (r: Option<Step<String>>)
        ensures
            r.deep_view() == old(self).deep_view().focus_step(),
            final(self).deep_view() == (Canvas {
                pending: Pending { focus: None, ..old(self).deep_view().pending },
                ..old(self).deep_view()
            }),
    {
        match self.take_focus() {
            Some(session) => if self.shells().drawn(session) {
                Some(Step::Terminal(session))
            } else {
                None
            },
            None => None,
        }
    }

    /// The shell whose find bar opens.
    fn next_find(&mut self) -> (r: Option<Step<String>>)
        ensures
            r.deep_view() == old(self).deep_view().find_step(),
            final(self).deep_view() == (Canvas {
                pending: Pending { find: None, ..old(self).deep_view().pending },
                ..old(self).deep_view()
            }),
    {
        match self.take_find() {
            Some((session, needle)) => if self.shells().drawn(session) {
                Some(Step::FindIn(session, needle))
            } else {
                None
            },
            None => None,
        }
    }

    /// The file card whose find bar opens.
    fn next_find_file(&mut self) -> (r: Option<Step<String>>)
        ensures
            r.deep_view() == old(self).deep_view().find_file_step(),
            final(self).deep_view() == (Canvas {
                pending: Pending { find_file: None, ..old(self).deep_view().pending },
                ..old(self).deep_view()
            }),
    {
        match self.take_find_file() {
            Some((item, needle)) => if self.has_file(item) {
                Some(Step::FindInFile(item, needle))
            } else {
                None
            },
            None => None,
        }
    }

    /// What the cards get of the keyboard.
    fn settle_cards(&mut self, out: &mut Vec<Step<String>>)
        ensures
            final(self).deep_view() == old(self).deep_view().then_cards_settled(),
            final(out).deep_view() == old(out).deep_view() + old(self).deep_view().card_steps(),
    {
        let ghost before = out.deep_view();
        let focus = self.next_focus();
        let find = self.next_find();
        let find_file = self.next_find_file();
        push_maybe(out, focus);
        push_maybe(out, find);
        push_maybe(out, find_file);
        assert(out.deep_view() =~= before + old(self).deep_view().card_steps());
    }

    /// What the overlays and the canvas itself get of the keyboard.
    fn settle_overlays(&mut self, out: &mut Vec<Step<String>>)
        ensures
            final(self).deep_view() == old(self).deep_view().then_overlays_settled(),
            final(out).deep_view() == old(out).deep_view() + old(self).deep_view().overlay_steps(),
    {
        let ghost before = out.deep_view();
        let picker = self.take_picker() && self.picker_open();
        let canvas = self.take_canvas();
        let palette = self.take_palette() && self.palette_open();
        let rename = self.take_rename() && self.renaming().is_some();
        push_if(out, picker, Step::Picker);
        push_if(out, canvas, Step::Back(Keeper::Canvas));
        push_if(out, palette, Step::Palette);
        push_if(out, rename, Step::Rename);
        assert(out.deep_view() =~= before + old(self).deep_view().overlay_steps());
    }

    /// What a closed overlay hands back, and what the palette chose.
    fn settle_returns(&mut self, out: &mut Vec<Step<String>>)
        ensures
            final(self).deep_view() == old(self).deep_view().then_returned(),
            final(out).deep_view() == old(out).deep_view() + old(self).deep_view().return_steps(),
    {
        let ghost first = self.deep_view();
        let ghost before = out.deep_view();
        if self.renaming().is_none() {
            if let Some(keeper) = self.take_rename_return() {
                push_step(out, Step::Back(keeper));
            }
        }
        if !self.palette_open() {
            if let Some(e) = self.take_palette_return() {
                push_step(out, Step::Back(Keeper::Element(e)));
                if let Some(action) = self.take_palette_action() {
                    push_step(out, Step::Dispatch(action));
                }
            }
        }
        assert(out.deep_view() =~= before + first.return_steps());
    }

    /// What a frame does with the keyboard, in order: a find bar and an action wait until it is
    /// drawn, and of the rest the last one wins.
    pub fn frame(&mut self) -> (r: Vec<Step<String>>)
        ensures
            final(self).deep_view() == old(self).deep_view().then_frame(),
            r.deep_view() == old(self).deep_view().steps(),
    {
        let mut out: Vec<Step<String>> = Vec::new();
        assert(out.deep_view() =~= Seq::<Step<Seq<char>>>::empty());
        let ghost first = self.deep_view();
        self.settle_cards(&mut out);
        self.settle_overlays(&mut out);
        self.settle_returns(&mut out);
        assert(out.deep_view() =~= first.steps());
        out
    }

    /// Keyboard focus must sit on an element that is drawn. A zoomed-out terminal is a summary
    /// card, and a focus left on it would drop every keystroke: cards hand the keyboard to the
    /// canvas; coming back to live grids hands it to the active terminal.
    pub fn keep_focus_rendered(
        &self,
        card: bool,
        terminal_focused: bool,
        canvas_focused: bool,
    ) -> (r: Option<Step<String>>)
        ensures
            r.deep_view() == self.deep_view().kept_drawn(card, terminal_focused, canvas_focused),
    {
        if card {
            if terminal_focused {
                Some(Step::Back(Keeper::Canvas))
            } else {
                None
            }
        } else if canvas_focused {
            match self.active_terminal() {
                Some(session) => Some(Step::Terminal(session)),
                None => None,
            }
        } else {
            None
        }
    }

    /// The note to put the caret in on this frame, where it has an editor.
    pub fn focus_note(&mut self) -> (r: Option<u128>)
        ensures
            r == old(self).deep_view().note_to_focus(),
            final(self).deep_view() == (Canvas {
                pending: Pending { note: None, ..old(self).deep_view().pending },
                ..old(self).deep_view()
            }),
            r == (match old(self).deep_view().pending.note {
                Some(id) => if old(self).deep_view().notes.contains(id) {
                    Some(id)
                } else {
                    None
                },
                None => None,
            }),
    {
        match self.take_note() {
            Some(id) => if self.has_note(id) {
                Some(id)
            } else {
                None
            },
            None => None,
        }
    }

    /// The cards that wait for the viewport are sized to it.
    fn fit_waiting(&mut self, ids: &Vec<u128>)
        ensures
            final(self).deep_view() == old(self).deep_view().then_fit_all(ids@),
    {
        let ghost start = self.deep_view();
        let mut i: usize = 0;
        assert(ids@.take(0) =~= Seq::<u128>::empty());
        while i < ids.len()
            invariant
                i <= ids@.len(),
                self.deep_view() == start.then_fit_all(ids@.take(i as int)),
            decreases ids.len() - i,
        {
            proof {
                assert(ids@.take(i + 1).drop_last() == ids@.take(i as int));
                assert(ids@.take(i + 1).last() == ids@[i as int]);
            }
            self.fit_to_viewport(ids[i]);
            i += 1;
        }
        assert(ids@.take(i as int) == ids@);
    }

    /// The viewport is measured, and the cards that wait for it are sized.
    fn size_waiting(&mut self, known: bool)
        ensures
            final(self).deep_view() == old(self).deep_view().then_sized(known),
            final(self).deep_view().pending == old(self).deep_view().pending,
            final(self).deep_view().doc == old(self).deep_view().doc,
    {
        self.set_measured(known);
        let ids = self.take_fit_items();
        proof {
            lemma_fit_all(self.deep_view(), ids@);
        }
        self.fit_waiting(&ids);
    }

    /// The frame measured the viewport (`known` says it has a size): cards the host placed are
    /// sized to it, everything is fitted where that was asked for, and the card to bring into view
    /// comes back.
    pub fn viewport_measured(&mut self, known: bool) -> (r: Option<u128>)
        ensures
            r == old(self).deep_view().card_to_reveal(),
            final(self).deep_view() == old(self).deep_view().then_measured(known),
            r == (match old(self).deep_view().pending.reveal {
                Some(id) => if old(self).deep_view().doc.has(id) {
                    Some(id)
                } else {
                    None
                },
                None => None,
            }),
    {
        self.size_waiting(known);
        let reveal: Option<u128> = self.take_reveal();
        let fit = self.take_fit();
        if fit && !self.is_empty() {
            self.fit_all();
        }
        match reveal {
            Some(id) => if self.doc().has(id) {
                Some(id)
            } else {
                None
            },
            None => None,
        }
    }

    /// Whether a card gets an element this frame: it is the active one, the one under a drag, or
    /// it touches the viewport.
    pub fn draws(&self, id: u128, dragged: Option<u128>, on_screen: bool) -> (r: bool)
        ensures
            r == self.deep_view().draws_card(id, dragged, on_screen),
            r == (self.deep_view().active == Some(id) || dragged == Some(id) || on_screen),
    {
        let active = match self.active_item() {
            Some(a) => a == id,
            None => false,
        };
        let held_id = match dragged {
            Some(d) => d == id,
            None => false,
        };
        active || held_id || on_screen
    }

    /// Whether the active card is a file card, whose reading line then takes the arrows.
    pub fn file_card_active(&self) -> (r: bool)
        ensures
            r == (self.deep_view().active_card() matches Some(item) && item.kind is File),
    {
        match self.active_card() {
            Some(item) => match &item.kind {
                ItemKind::File { .. } => true,
                _ => false,
            },
            None => false,
        }
    }

    /// The file card whose reading line moves: the active one with a view, while no overlay has
    /// the keys.
    pub fn line_target(&self) -> (r: Option<u128>)
        ensures
            r == self.deep_view().line_card(),
            r == (if self.deep_view().palette || self.deep_view().picker {
                None
            } else {
                match self.deep_view().active {
                    Some(id) => if self.deep_view().files.contains(id) {
                        Some(id)
                    } else {
                        None
                    },
                    None => None,
                }
            }),
    {
        if self.palette_open() || self.picker_open() {
            return None;
        }
        self.find_target()
    }

    /// The active card's view, where it is a file card with one.
    fn find_target(&self) -> (r: Option<u128>)
        ensures
            r == (match self.deep_view().active {
                Some(id) => if self.deep_view().files.contains(id) {
                    Some(id)
                } else {
                    None
                },
                None => None,
            }),
    {
        match self.active_item() {
            Some(id) => if self.has_file(id) {
                Some(id)
            } else {
                None
            },
            None => None,
        }
    }

    /// Where a find with the canvas focused goes: the active terminal, else the active file card.
    pub fn find_in_active(&self) -> (r: Option<Step<String>>)
        ensures
            r.deep_view() == self.deep_view().find_goes(),
    {
        let blank = String::new();
        assert(blank@ =~= Seq::<char>::empty());
        match self.active_terminal() {
            Some(session) => Some(Step::FindIn(session, blank)),
            None => match self.find_target() {
                Some(id) => Some(Step::FindInFile(id, blank)),
                None => None,
            },
        }
    }
}

impl Canvas {
    /// The note whose editor gets the caret.
    pub open spec fn note_to_focus(self) -> Option<u128> {
        match self.pending.note {
            Some(id) => if self.notes.contains(id) {
                Some(id)
            } else {
                None
            },
            None => None,
        }
    }

    /// The card to bring into view.
    pub open spec fn card_to_reveal(self) -> Option<u128> {
        match self.pending.reveal {
            Some(id) => if self.doc.has(id) {
                Some(id)
            } else {
                None
            },
            None => None,
        }
    }

    /// The card is drawn in full.
    pub open spec fn draws_card(self, id: u128, dragged: Option<u128>, on_screen: bool) -> bool {
        self.active == Some(id) || dragged == Some(id) || on_screen
    }

    /// The file card whose reading line moves.
    pub open spec fn line_card(self) -> Option<u128> {
        if self.palette || self.picker {
            None
        } else {
            match self.active {
                Some(id) => if self.files.contains(id) {
                    Some(id)
                } else {
                    None
                },
                None => None,
            }
        }
    }

    /// Where a find with the canvas focused goes.
    pub open spec fn find_goes(self) -> Option<Step<Seq<char>>> {
        match self.active_session() {
            Some(session) if self.shells.drawn(session) => Some(
                Step::FindIn(session, Seq::empty()),
            ),
            _ => match self.active {
                Some(id) => if self.files.contains(id) {
                    Some(Step::FindInFile(id, Seq::empty()))
                } else {
                    None
                },
                None => None,
            },
        }
    }
}

proof fn lemma_fit_all(canvas: Canvas, ids: Seq<u128>)
    ensures
        canvas.then_fit_all(ids).pending == canvas.pending,
        canvas.then_fit_all(ids).doc == canvas.doc,
    decreases ids.len(),
{
    if ids.len() > 0 {
        lemma_fit_all(canvas, ids.drop_last());
    }
}

/// Adds a step.
fn push_step(out: &mut Vec<Step<String>>, one: Step<String>)
    ensures
        final(out).deep_view() == old(out).deep_view().push(one.deep_view()),
{
    let ghost want = out.deep_view().push(one.deep_view());
    out.push(one);
    assert(out.deep_view() =~= want);
}

/// Adds a step where there is one.
fn push_maybe(out: &mut Vec<Step<String>>, one: Option<Step<String>>)
    ensures
        final(out).deep_view() == old(out).deep_view() + maybe(one.deep_view()),
{
    if let Some(step) = one {
        push_step(out, step);
    }
    assert(out.deep_view() =~= old(out).deep_view() + maybe(one.deep_view()));
}

/// Adds a step where it is due.
fn push_if(out: &mut Vec<Step<String>>, due: bool, one: Step<String>)
    ensures
        final(out).deep_view() == old(out).deep_view() + Canvas::step_if(
            due,
            true,
            one.deep_view(),
        ),
{
    let ghost want = old(out).deep_view() + Canvas::step_if(due, true, one.deep_view());
    if due {
        push_step(out, one);
    }
    assert(out.deep_view() =~= want);
}

/// Whether the zoom is in motion: text then paints from rasters at hand, and one more frame is
/// asked for so the settled zoom paints exact.
#[derive(Clone, Copy, PartialEq, Eq, Structural, Debug)]
pub struct Settling {
    /// The zoom the last frame drew, as the bits of a single-precision number.
    pub drawn: Option<u32>,
    /// Counts the frames in motion; the settle timer that finds it unchanged asks for the frame.
    pub generation: u64,
    /// A settled frame is owed.
    pub owed: bool,
}

impl Settling {
    /// No frame was drawn yet.
    pub open spec fn blank() -> Settling {
        Settling { drawn: None, generation: 0, owed: false }
    }

    /// A frame draws at `zoom`.
    pub open spec fn then_frame(self, zoom: u32) -> Settling {
        if self.drawn matches Some(was) && was != zoom {
            Settling {
                drawn: Some(zoom),
                generation: crate::canvas::view::after_seq(self.generation),
                owed: true,
            }
        } else {
            Settling { drawn: Some(zoom), ..self }
        }
    }

    /// The timer of a frame in motion fired.
    pub open spec fn then_fired(self, generation: u64) -> Settling {
        if self.generation == generation {
            Settling { owed: false, ..self }
        } else {
            self
        }
    }

    /// No frame was drawn yet.
    pub fn new() -> (r: Settling)
        ensures
            r == Settling::blank(),
    {
        Settling { drawn: None, generation: 0, owed: false }
    }

    /// A frame draws at `zoom`: the generation of the settle timer to set, where the zoom is not
    /// the one drawn last. Asking for the settled frame right away would double the frames of a
    /// gesture.
    pub fn frame(&mut self, zoom: u32) -> (r: Option<u64>)
        ensures
            *final(self) == old(self).then_frame(zoom),
            r == (if old(self).drawn matches Some(was) && was != zoom {
                Some(final(self).generation)
            } else {
                None
            }),
    {
        let changed = match self.drawn {
            Some(was) => was != zoom,
            None => false,
        };
        self.drawn = Some(zoom);
        if !changed {
            return None;
        }
        self.owed = true;
        self.generation = if self.generation == u64::MAX {
            0
        } else {
            self.generation + 1
        };
        Some(self.generation)
    }

    /// The settle timer fired: whether the settled frame is to be drawn now.
    pub fn fired(&mut self, generation: u64) -> (r: bool)
        ensures
            *final(self) == old(self).then_fired(generation),
            r == (old(self).generation == generation),
    {
        if self.generation != generation {
            return false;
        }
        self.owed = false;
        true
    }
}

/// A zoom step is a frame in motion, and once nothing more changes its timer brings the settled
/// one; the timer of an earlier step brings none.
pub proof fn law_a_zoom_settles_after_its_last_step(s: Settling, a: u32, b: u32)
    requires
        s.drawn matches Some(was) && was != a,
        a != b,
        s.generation < u64::MAX - 1,
    ensures
        s.then_frame(a).owed,
        s.then_frame(a).then_frame(b).owed,
        s.then_frame(a).then_frame(b).then_fired(s.then_frame(a).generation).owed,
        !s.then_frame(a).then_frame(b).then_fired(s.then_frame(a).then_frame(b).generation).owed,
{
}

/// A frame at the zoom drawn last owes no more than was owed.
pub proof fn law_a_still_zoom_owes_nothing(s: Settling, zoom: u32)
    requires
        s.drawn is None || s.drawn == Some(zoom),
    ensures
        s.then_frame(zoom) == (Settling { drawn: Some(zoom), ..s }),
{
}

/// Where this client looks, as the host was last told.
#[derive(Clone, Copy, PartialEq, Eq, Structural, Debug)]
pub struct Looks {
    pub told: Option<Rect>,
    /// The telling is scheduled.
    pub scheduled: bool,
}

/// Two views that are the same.
pub open spec fn view_same(a: Option<Rect>, b: Option<Rect>) -> bool {
    match (a, b) {
        (Some(x), Some(y)) => rect_same(x, y),
        (None, None) => true,
        _ => false,
    }
}

/// Whether two views are the same.
fn same_view(a: Option<Rect>, b: Option<Rect>) -> (r: bool)
    ensures
        r == view_same(a, b),
{
    match (a, b) {
        (Some(x), Some(y)) => same_rect(x, y),
        (None, None) => true,
        _ => false,
    }
}

impl Looks {
    /// The host was told nothing.
    pub fn new() -> (r: Looks)
        ensures
            r == (Looks { told: None, scheduled: false }),
    {
        Looks { told: None, scheduled: false }
    }

    /// A frame shows `view`: whether the telling is to be scheduled. A frame that shows the same
    /// viewport as the last message costs nothing.
    pub fn seen(&mut self, view: Option<Rect>) -> (r: bool)
        ensures
            r == old(self).schedules(view),
            r == (!old(self).scheduled && !view_same(view, old(self).told)),
            *final(self) == (Looks { scheduled: old(self).scheduled || r, ..*old(self) }),
    {
        if self.scheduled || same_view(view, self.told) {
            return false;
        }
        self.scheduled = true;
        true
    }

    /// The scheduled telling is due, and the viewport is `view` now: what to tell the host, if it
    /// does not know it.
    pub fn due(&mut self, view: Option<Rect>) -> (r: Option<ClientMsg<String, Vec<String>>>)
        ensures
            r.deep_view() == old(self).tells(view),
            *final(self) == old(self).then_due(view),
            r.deep_view() == (if view_same(view, old(self).told) {
                None::<ClientMsg<Seq<char>, Seq<Seq<char>>>>
            } else {
                Some(ClientMsg::Look { view })
            }),
    {
        self.scheduled = false;
        if same_view(view, self.told) {
            return None;
        }
        self.told = view;
        Some(ClientMsg::Look { view })
    }

    /// The telling is to be scheduled for a frame that shows `view`.
    pub open spec fn schedules(self, view: Option<Rect>) -> bool {
        !self.scheduled && !view_same(view, self.told)
    }

    /// What the host is told once the telling is due, of a viewport at `view`.
    pub open spec fn tells(self, view: Option<Rect>) -> Option<ClientMsg<Seq<char>, Seq<Seq<char>>>> {
        if view_same(view, self.told) {
            None
        } else {
            Some(ClientMsg::Look { view })
        }
    }

    /// The scheduled telling is due.
    pub open spec fn then_due(self, view: Option<Rect>) -> Looks {
        Looks {
            told: if view_same(view, self.told) {
                self.told
            } else {
                view
            },
            scheduled: false,
        }
    }
}

/// A resting viewport is told once: after the telling neither a frame nor a timer tells it again.
pub proof fn law_a_resting_viewport_is_told_once(looks: Looks, view: Option<Rect>)
    requires
        view matches Some(r) ==> rect_same(r, r),
    ensures
        view_same(view, looks.then_due(view).told),
        looks.then_due(view).then_due(view) == looks.then_due(view),
{
}

} // verus!
