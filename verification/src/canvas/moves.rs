//! Larger moves of the canvas, made of smaller ones.
use vstd::prelude::*;

use crate::canvas::closing_laws::lemma_closing_at;
use crate::canvas::doc::{CanvasDoc, CanvasItem, ItemKind, Op, Rect};
use crate::canvas::msg::{ClientMsg, Effect, TermRequest};
use crate::canvas::view::live::{created_for, CanvasSync};
use crate::canvas::view::{CanvasView, ToastKind, POINT_FOR, UNDO_CLOSE};
use crate::text::copy_of;

verus! {

impl CanvasView {
    /// Take a card off the canvas and offer it back for a while: the toast's button or the key
    /// puts it where it was, and the timer forgets it.
    pub(crate) fn remember_closed(&mut self, item: CanvasItem, session: Option<u128>)
        ensures
            final(self).deep_view() == old(self).deep_view().then_remember(
                item.deep_view(),
                session,
            ),
    {
        let title = self.card_title(&item);
        let id: u128 = item.id;
        let seq: u64 = self.note_closing(item, session);
        self.propose(Op::Remove(id));
        self.reconcile();
        self.show_toast_for(ToastKind::Closed { seq, title }, UNDO_CLOSE);
        self.say(Effect::CloseTimer { seq, millis: UNDO_CLOSE });
    }

    /// The wait passed for closing `seq`: a shell's session is closed by the host and its view
    /// goes; every other card was already off the canvas and is simply forgotten.
    pub fn forget_closed(&mut self, seq: u64)
        ensures
            final(self).deep_view() == old(self).deep_view().then_forget(seq),
    {
        proof {
            lemma_closing_at(self.deep_view().closed, seq);
        }
        let card = match self.take_closing(Some(seq)) {
            Some(card) => card,
            None => {
                return;
            },
        };
        if let Some(session) = card.session {
            if self.shells().alive(session) {
                self.send(ClientMsg::Term { session, req: TermRequest::Close });
            }
            self.undraw(session);
        }
        let mine = match self.toast() {
            Some(t) => match &t.what {
                ToastKind::Closed { seq: s, .. } => *s == seq,
                _ => false,
            },
            None => false,
        };
        if mine {
            self.drop_toast();
        }
    }

    /// The card closed last comes back where it was, active and focused, a shell's session
    /// untouched. Nothing to take back is nothing.
    pub fn undo_close(&mut self)
        ensures
            final(self).deep_view() == old(self).deep_view().then_take_back(None),
    {
        self.take_back(None);
    }

    /// Put back the closing `seq` (the toast's), or the latest.
    pub fn take_back(&mut self, seq: Option<u64>)
        ensures
            final(self).deep_view() == old(self).deep_view().then_take_back(seq),
    {
        let card = match self.take_closing(seq) {
            Some(card) => card,
            None => {
                return;
            },
        };
        let closing = match self.toast() {
            Some(t) => match &t.what {
                ToastKind::Closed { .. } => true,
                _ => false,
            },
            None => false,
        };
        if closing {
            self.drop_toast();
        }
        let id: u128 = card.item.id;
        let session: Option<u128> = card.session;
        self.propose(Op::Upsert(card.item));
        self.reconcile();
        match session {
            Some(session) => self.reveal_session(session),
            None => self.reveal_item(id),
        }
    }

    /// A card takes a click or a key.
    pub fn activate(&mut self, id: u128)
        ensures
            final(self).deep_view() == old(self).deep_view().then_activate(id),
    {
        let top = self.doc().is_top(id);
        if let Some(session) = self.doc().session_of(id) {
            self.touch(session);
            self.see(session);
        }
        self.set_active(Some(id));
        if !top {
            self.propose(Op::Raise(id));
        }
    }

    /// Name a card: the field in its title bar starts with the current name and shows the derived
    /// title as its placeholder, both handed back. `focused` is who has the keyboard.
    pub fn start_rename(&mut self, id: u128, focused: Option<u64>) -> (r: Option<(String, String)>)
        ensures
            final(self).deep_view() == old(self).deep_view().then_rename(id, focused),
            match (r, old(self).deep_view().doc.get(id)) {
                (Some((placeholder, value)), Some(item)) => {
                    &&& placeholder@ == old(self).deep_view().derived_title(item)
                    &&& value@ == (match item.name {
                        Some(name) => name,
                        None => Seq::empty(),
                    })
                },
                (None, None) => true,
                _ => false,
            },
    {
        let (placeholder, value) = match self.doc().get(id) {
            Some(item) => {
                let value = match copy_of(&item.name) {
                    Some(name) => name,
                    None => {
                        let blank = String::new();
                        assert(blank@ =~= Seq::<char>::empty());
                        blank
                    },
                };
                (self.derived_title(item), value)
            },
            None => {
                return None;
            },
        };
        self.activate(id);
        self.open_name_field(id, focused);
        Some((placeholder, value))
    }

    /// The next card in reading order.
    pub fn next_card(&mut self)
        ensures
            final(self).deep_view() == old(self).deep_view().then_step(true),
    {
        self.step_card(true);
    }

    /// The previous card in reading order.
    pub fn prev_card(&mut self)
        ensures
            final(self).deep_view() == old(self).deep_view().then_step(false),
    {
        self.step_card(false);
    }

    /// Name the active card: the field's placeholder and what it starts with, where one is active.
    pub fn rename_item(&mut self, focused: Option<u64>) -> (r: Option<(String, String)>)
        ensures
            final(self).deep_view() == (match old(self).deep_view().active {
                Some(id) => old(self).deep_view().then_rename(id, focused),
                None => old(self).deep_view(),
            }),
            match (r, old(self).deep_view().active_card()) {
                (Some((placeholder, value)), Some(item)) => {
                    &&& placeholder@ == old(self).deep_view().derived_title(item)
                    &&& value@ == (match item.name {
                        Some(name) => name,
                        None => Seq::empty(),
                    })
                },
                (None, None) => true,
                _ => false,
            },
    {
        match self.active_item() {
            Some(id) => self.start_rename(id, focused),
            None => None,
        }
    }

    /// Escape in the name field: it closes without a change and the keyboard goes back. Says
    /// whether there was one.
    pub fn leave_rename(&mut self) -> (r: bool)
        ensures
            r == old(self).deep_view().rename is Some,
            final(self).deep_view() == old(self).deep_view().then_renamed(
                false,
                true,
                Seq::empty(),
            ),
    {
        proof {
            reveal_strlit("");
            assert(""@ =~= Seq::<char>::empty());
        }
        let open = self.renaming().is_some();
        self.finish_rename(false, true, "");
        open
    }

    /// Bring a card into view and make it active, without asking for the keyboard: only a terminal
    /// can take it before its view exists.
    pub fn reveal_item(&mut self, id: u128)
        ensures
            final(self).deep_view() == old(self).deep_view().then_reveal_item(id),
    {
        self.activate(id);
        self.pend_reveal(id);
    }

    /// Bring a session's terminal into view, make it active and give it the keyboard.
    pub fn reveal_session(&mut self, session: u128)
        ensures
            final(self).deep_view() == old(self).deep_view().then_reveal_session(session),
    {
        let id: u128 = match self.doc().item_for_session(session) {
            Some(item) => item.id,
            None => {
                return;
            },
        };
        self.reveal_item(id);
        self.pend_focus(session);
    }

    /// Activate and reveal `id`; a terminal takes the keyboard too.
    pub fn go_to(&mut self, id: u128)
        ensures
            final(self).deep_view() == old(self).deep_view().then_go_to(id),
    {
        match self.doc().session_of(id) {
            Some(session) => self.reveal_session(session),
            None => self.reveal_item(id),
        }
    }

    /// A file card for `path` on the host: an existing card for it is revealed, else a new one
    /// opens and the host is asked for the text. `line` (from one) is where the card lands: which
    /// card it is comes back, for a view that is there to move to the line at once.
    pub fn open_file(&mut self, path: &str, line: Option<u32>, id: u128, slot: Rect) -> (r: u128)
        ensures
            (final(self).deep_view(), r) == old(self).deep_view().then_file(path@, line, id, slot),
    {
        let card: u128 = match self.card_for_file(path) {
            Some(old_id) => {
                self.request_file(old_id);
                old_id
            },
            None => {
                let item = self.card(id, ItemKind::File { path: path.to_owned() }, slot);
                self.propose(Op::Upsert(item));
                id
            },
        };
        if let Some(l) = line {
            if !self.has_file(card) {
                self.set_file_focus(card, l);
            }
        }
        self.set_active(Some(card));
        self.pend_reveal(card);
        card
    }

    /// Drive the terminal in `id` from here: at `place`, where its size is to change, and with the
    /// size of this viewport.
    pub fn take_over(&mut self, id: u128, place: Option<Rect>)
        ensures
            final(self).deep_view() == old(self).deep_view().then_take_over(id, place),
    {
        let session: u128 = match self.doc().session_of(id) {
            Some(session) => session,
            None => {
                return;
            },
        };
        if let Some(rect) = place {
            self.propose(Op::Place { id, rect });
        }
        if self.shells().drawn(session) {
            self.say(Effect::Drive(session));
        }
        self.touch(session);
        self.set_active(Some(id));
        self.pend_focus(session);
        self.pend_reveal(id);
    }

    /// A canvas snapshot or delta from the host: what was said, and the document after it.
    pub fn apply_sync(&mut self, sync: CanvasSync<String>, doc: CanvasDoc)
        ensures
            final(self).deep_view() == old(self).deep_view().then_sync(
                sync.deep_view(),
                doc.deep_view(),
            ),
    {
        let me: u128 = self.me();
        let ours: Option<(u128, u128)> = match &sync {
            CanvasSync::Delta { by, op: Op::Upsert(item) } => match &item.kind {
                ItemKind::Terminal { session } => if *by == me {
                    Some((item.id, *session))
                } else {
                    None
                },
                _ => None,
            },
            _ => None,
        };
        assert(ours == created_for(sync.deep_view(), me));
        if let CanvasSync::Pointed { client, name, item } = &sync {
            if *client != me && self.doc().has(*item) {
                self.show_toast_for(
                    ToastKind::Pointed { name: name.clone(), item: *item },
                    POINT_FOR,
                );
            }
        }
        self.set_doc(doc);
        if let CanvasSync::Presence(client) = &sync {
            let client: u128 = *client;
            let following = match self.following() {
                Some(f) => f == client,
                None => false,
            };
            if following {
                self.follow(client);
            }
        }
        self.reconcile();
        self.resume();
        if let Some((id, session)) = ours {
            self.fit_to_viewport(id);
            self.set_active(Some(id));
            self.pend_focus(session);
            self.pend_reveal(id);
        }
    }
}

} // verus!
