//! What the host answers for a shell or a file.
use vstd::prelude::*;

use crate::canvas::doc::{Doc, ItemKind, Rect};
use crate::canvas::msg::{CanvasEvent, ClientMsg, Effect, TermRequest};
use crate::canvas::titles::Finished;
use crate::canvas::view::cards::{new_card, path_in};
use crate::canvas::view::{Canvas, CanvasView, Pending};
use crate::text::{held, same_text};

verus! {

/// An event of a session's stream, as the canvas reads it.
#[derive(Debug, PartialEq, Eq)]
pub enum TermEvent<T> {
    /// How often the session holds a needle.
    Matches { needle: T, total: u32 },
    /// Anything else: it is for the shell's view alone.
    Other,
}

/// What a shell's view reports.
#[derive(Debug)]
pub enum ShellEvent<T> {
    /// Its terminal rang the bell.
    Bell,
    /// A program in it asked for a notification.
    Notification { title: T, body: T },
    /// Its program ended.
    Exited,
    /// Its command may be ended: it was asked and confirmed.
    CloseConfirmed,
    /// Its program changed the title.
    Title(Option<T>),
    /// It changed directory, and which repository that is in.
    Cwd { path: T, repo: Option<T> },
    /// Something the human should read for a moment.
    Notice(T),
    CommandFinished(Finished),
    /// A block of it is to be a note.
    NoteBlock(T),
    /// A file named in it is to be shown, at a line.
    ViewFile { path: T, line: Option<u32> },
}

/// The card is a file card for the path.
pub open spec fn shows_path(doc: Doc, id: u128, path: Seq<char>) -> bool {
    doc.get(id) matches Some(item) && item.kind matches ItemKind::File { path: p } && p == path
}

/// The cards among `files` that show the path.
pub open spec fn showing(files: Seq<u128>, doc: Doc, path: Seq<char>) -> Seq<u128>
    decreases files.len(),
{
    if files.len() == 0 {
        Seq::empty()
    } else if shows_path(doc, files.last(), path) {
        showing(files.drop_last(), doc, path).push(files.last())
    } else {
        showing(files.drop_last(), doc, path)
    }
}

impl Canvas {
    /// A session-stream event: an answer to what is sought counts.
    pub open spec fn then_term_event(self, session: u128, event: TermEvent<String>) -> Canvas {
        match event {
            TermEvent::Matches { needle, total } => self.then_answered(session, needle@, total),
            TermEvent::Other => self,
        }
    }

    /// A shell's view reports. A card it opens takes the identity `id` and the place `slot`.
    pub open spec fn then_shell_event(
        self,
        session: u128,
        event: ShellEvent<String>,
        looking: bool,
        id: u128,
        slot: Rect,
    ) -> Canvas {
        match event {
            ShellEvent::Bell => self.say(Effect::Emit(CanvasEvent::Bell(session))),
            ShellEvent::Notification { title, body } => self.then_program(
                session,
                title@,
                body@,
                looking,
            ),
            ShellEvent::Exited => self.term(session, TermRequest::Close),
            ShellEvent::CloseConfirmed => self.then_close_shell(session),
            ShellEvent::Title(title) => Canvas {
                shells: self.shells.then_titled(session, held(title)),
                ..self
            },
            ShellEvent::Cwd { path, repo } => Canvas {
                shells: self.shells.then_moved(session, path@, held(repo)),
                ..self
            },
            ShellEvent::Notice(text) => self.say(Effect::Emit(CanvasEvent::Notice(text@))),
            ShellEvent::CommandFinished(done) => Canvas {
                shells: self.shells.then_finished(
                    session,
                    done.deep_view(),
                    self.watches(session),
                ),
                ..self
            },
            ShellEvent::NoteBlock(text) => self.then_add(
                new_card(id, ItemKind::Note { text: text@ }, slot, self.doc),
            ),
            ShellEvent::ViewFile { path, line } => self.then_file(
                path_in(self.shells.cwd(session), path@),
                line,
                id,
                slot,
            ).0,
        }
    }
}

impl CanvasView {
    /// Whether `session` is a terminal on this canvas.
    pub fn has_session(&self, session: u128) -> (r: bool)
        ensures
            r == self.deep_view().shells.drawn(session),
    {
        self.shells().drawn(session)
    }

    /// What a terminal's title bar says: the program's title, else the session's, else "shell".
    pub fn terminal_title(&self, session: u128) -> (r: String)
        ensures
            r@ == self.deep_view().shells.title(session),
    {
        self.shells().title(session)
    }

    /// A session-stream event. Says whether there is a view to hand it on to.
    pub fn term_event(&mut self, session: u128, event: TermEvent<String>) -> (r: bool)
        ensures
            final(self).deep_view() == old(self).deep_view().then_term_event(session, event),
            r == old(self).deep_view().shells.drawn(session),
    {
        let drawn = self.shells().drawn(session);
        if let TermEvent::Matches { needle, total } = event {
            self.find_answered(session, needle.as_str(), total);
        }
        drawn
    }

    /// A shell's view reports: what becomes of its bell, its notifications, its end, its directory,
    /// its commands and what is to be shown of it. `looking` says the human looks at the app; a
    /// card it opens takes the identity `id` and the place `slot`.
    pub fn shell_event(
        &mut self,
        session: u128,
        event: ShellEvent<String>,
        looking: bool,
        id: u128,
        slot: Rect,
    )
        ensures
            final(self).deep_view() == old(self).deep_view().then_shell_event(
                session,
                event,
                looking,
                id,
                slot,
            ),
    {
        match event {
            ShellEvent::Bell => self.say(Effect::Emit(CanvasEvent::Bell(session))),
            ShellEvent::Notification { title, body } => self.notify_program(
                session,
                title.as_str(),
                body.as_str(),
                looking,
            ),
            ShellEvent::Exited => self.send(
                ClientMsg::Term { session, req: TermRequest::Close },
            ),
            ShellEvent::CloseConfirmed => self.close_shell(session),
            ShellEvent::Title(title) => self.terminal_titled(session, title),
            ShellEvent::Cwd { path, repo } => self.session_moved(session, path, repo),
            ShellEvent::Notice(text) => self.say(Effect::Emit(CanvasEvent::Notice(text))),
            ShellEvent::CommandFinished(done) => self.command_finished(session, done),
            ShellEvent::NoteBlock(text) => self.note_beside(text, id, slot),
            ShellEvent::ViewFile { path, line } => {
                let whole = self.absolute_in_session(session, path.as_str());
                let _card: u128 = self.open_file(whole.as_str(), line, id, slot);
            },
        }
    }

    /// A file card's find bar closed: the canvas takes the keyboard back.
    pub fn find_closed(&mut self)
        ensures
            final(self).deep_view() == (Canvas {
                pending: Pending { canvas: true, ..old(self).deep_view().pending },
                ..old(self).deep_view()
            }),
    {
        self.pend_canvas();
    }

    /// The host read a file: every card with a view for that path shows it.
    pub fn file_read(&self, path: &str) -> (r: Vec<u128>)
        ensures
            r@ == showing(self.deep_view().files, self.deep_view().doc, path@),
    {
        let files = self.file_cards();
        let ghost all = files@;
        let mut out: Vec<u128> = Vec::new();
        let mut i: usize = 0;
        assert(all.take(0) =~= Seq::<u128>::empty());
        while i < files.len()
            invariant
                i <= files@.len(),
                all == files@,
                out@ == showing(all.take(i as int), self.deep_view().doc, path@),
            decreases files.len() - i,
        {
            let id: u128 = files[i];
            proof {
                assert(all.take(i + 1).drop_last() == all.take(i as int));
                assert(all.take(i + 1).last() == id);
            }
            let shows = match self.doc().get(id) {
                Some(item) => match &item.kind {
                    ItemKind::File { path: p } => same_text(p.as_str(), path),
                    _ => false,
                },
                None => false,
            };
            if shows {
                out.push(id);
            }
            i += 1;
        }
        assert(all.take(i as int) == all);
        out
    }
}

} // verus!
