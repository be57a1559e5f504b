//! What a card promises to show: its view, its tones, its pills and what they do.
use vstd::prelude::*;

use crate::agent::{badge_of, AgentSource};
use crate::canvas::choice_laws::{blocked_on_you, has_agent};
use crate::canvas::doc::{Item, ItemKind, Op, Rect};
use crate::canvas::face::{pill_if, Body, Live, Pill};
use crate::canvas::msg::{ClientMsg, Effect};
use crate::canvas::terms::{
    lemma_card, lemma_shell_shown, lemma_stream_shown, shell_shown, stream_shown,
};
use crate::canvas::view::Canvas;
use crate::text::decimal;
use crate::theme::Swatch;

verus! {

/// The card has a view on this canvas: a terminal its shell, a window or display its stream, a note
/// its editor, a file its text.
pub open spec fn has_view(canvas: Canvas, item: Item<Seq<char>>) -> bool {
    match item.kind {
        ItemKind::Terminal { session } => shell_shown(canvas, session),
        ItemKind::Window { .. } => stream_shown(canvas, item.id),
        ItemKind::Display { .. } => stream_shown(canvas, item.id),
        ItemKind::Note { .. } => canvas.notes.contains(item.id),
        ItemKind::File { .. } => canvas.files.contains(item.id),
    }
}

/// The card is a window or a display of the host.
pub open spec fn is_screen(item: Item<Seq<char>>) -> bool {
    item.kind is Window || item.kind is Display
}

proof fn lemma_views(canvas: Canvas, item: Item<Seq<char>>)
    ensures
        item.kind matches ItemKind::Terminal { session } ==> canvas.shells.drawn(session)
            == has_view(canvas, item),
        is_screen(item) ==> (crate::canvas::screens::stream_on(canvas.screens.open, item.id) is Some)
            == has_view(canvas, item),
{
    if let ItemKind::Terminal { session } = item.kind {
        lemma_shell_shown(canvas, session);
    }
    lemma_stream_shown(canvas, item.id);
}

/// A card is filled by its view as soon as it has one, but for terminals, notes and files while the
/// canvas is zoomed out so far that they are summaries. Video paints at every zoom.
pub proof fn law_a_card_is_filled_by_its_view(
    canvas: Canvas,
    item: Item<Seq<char>>,
    live: Live<Seq<char>>,
)
    ensures
        canvas.face_of(item, live).body is View <==> has_view(canvas, item) && (is_screen(item)
            || !live.card),
{
    lemma_views(canvas, item);
}

/// A card that is not filled by its view says why: what it waits for, that its session ended, or, as
/// a summary, the size of its shell or what its file says.
pub proof fn law_a_card_without_its_view_says_why(
    canvas: Canvas,
    item: Item<Seq<char>>,
    live: Live<Seq<char>>,
)
    ensures
        ({
            let body = canvas.face_of(item, live).body;
            let seen = has_view(canvas, item);
            match item.kind {
                ItemKind::Terminal { session } => {
                    &&& !seen && canvas.shells.sessions.contains_key(session) ==> body
                        == Body::Text("attaching…"@)
                    &&& !seen && !canvas.shells.sessions.contains_key(session) ==> body
                        == Body::Text("session ended"@)
                    &&& seen && live.card ==> body == Body::Text(
                        decimal(live.cols as nat) + "×"@ + decimal(live.rows as nat),
                    )
                },
                ItemKind::File { .. } => {
                    &&& !seen ==> body == Body::Text("reading…"@)
                    &&& seen && live.card ==> body == Body::Text(live.summary)
                },
                ItemKind::Note { .. } => true,
                _ => {
                    &&& !seen && item.sleeping ==> body == Body::Text("sleeping"@)
                    &&& !seen && !item.sleeping ==> body == Body::Text("opening…"@)
                },
            }
        }),
{
    lemma_views(canvas, item);
}

/// The keyboard is in the card's view.
pub open spec fn typed_into(canvas: Canvas, item: Item<Seq<char>>, live: Live<Seq<char>>) -> bool {
    match item.kind {
        ItemKind::Note { .. } => has_view(canvas, item) && live.editing,
        ItemKind::File { .. } => false,
        _ => has_view(canvas, item) && live.focused,
    }
}

/// A card's tones tell how it stands: its border warns while its agent waits on the human, else it is
/// lit where the card is active or typed into; its dot is lit exactly where it is typed into, its
/// title where it is active. The name field stands on the card that is being named.
pub proof fn law_a_cards_tones_tell_how_it_stands(
    canvas: Canvas,
    item: Item<Seq<char>>,
    live: Live<Seq<char>>,
)
    ensures
        ({
            let face = canvas.face_of(item, live);
            let active = canvas.active == Some(item.id);
            &&& face.border == Swatch::Warn <==> blocked_on_you(canvas, item)
            &&& face.border == Swatch::Accent <==> !blocked_on_you(canvas, item) && (active
                || typed_into(canvas, item, live))
            &&& face.border == Swatch::Border <==> !blocked_on_you(canvas, item) && !active
                && !typed_into(canvas, item, live)
            &&& face.dot == Swatch::Accent <==> typed_into(canvas, item, live)
            &&& face.dot == Swatch::TextMuted <==> !typed_into(canvas, item, live)
            &&& face.title_tone == Swatch::Text <==> active
            &&& face.title_tone == Swatch::TextMuted <==> !active
            &&& face.renaming <==> canvas.rename is Some && canvas.rename->0.id == item.id
        }),
{
    lemma_views(canvas, item);
}

/// What a card is called and what badges it wears: its title as it is, its heading behind the word
/// for what it is unless that is all it is called; a badge for the agent in its session, and one for
/// a long command that ended unwatched, which warns where the command failed.
pub proof fn law_a_cards_heading_and_badges(
    canvas: Canvas,
    item: Item<Seq<char>>,
    live: Live<Seq<char>>,
)
    ensures
        ({
            let face = canvas.face_of(item, live);
            let word = match item.kind {
                ItemKind::Terminal { .. } => "terminal"@,
                ItemKind::Window { .. } => "window"@,
                ItemKind::Display { .. } => "display"@,
                ItemKind::Note { .. } => "note"@,
                ItemKind::File { .. } => "file"@,
            };
            &&& item.name matches Some(name) ==> face.title == name
            &&& word != face.title ==> face.heading == word + " "@ + face.title
            &&& word == face.title ==> face.heading == face.title
            &&& face.badge == (if has_agent(canvas, item) {
                badge_of(canvas.shells.agents[item.kind->session])
            } else {
                None
            })
            &&& face.finished is Some <==> item.kind is Terminal
                && canvas.shells.finished.contains_key(item.kind->session)
            &&& face.finished matches Some((text, tone)) ==> {
                let done = canvas.shells.finished[item.kind->session];
                let failed = done.exit is Some && done.exit->0 != 0;
                &&& text == done.says()
                &&& tone == Swatch::Warn <==> failed
                &&& tone == Swatch::Success <==> !failed
            }
        }),
{
}

/// There is a plain shell to run something in: drawn here, alive, a terminal, and without an agent.
pub open spec fn a_shell_is_free(canvas: Canvas) -> bool {
    exists|i: int|
        0 <= i < canvas.shells.recency.len() && free_shell(
            canvas,
            #[trigger] canvas.shells.recency[i],
        )
}

/// The session is a plain shell: drawn here, alive, a terminal, and without an agent.
pub open spec fn free_shell(canvas: Canvas, session: u128) -> bool {
    &&& shell_shown(canvas, session)
    &&& !canvas.shells.agents.contains_key(session)
    &&& canvas.shells.sessions.contains_key(session)
    &&& canvas.shells.sessions[session].kind is Terminal
}

/// The command goes to the last of the plain shells used.
pub open spec fn goes_to(canvas: Canvas, session: u128) -> bool {
    exists|i: int| #[trigger] last_free(canvas, canvas.shells.recency, i, session)
}

/// The session stands at the place `i` of `all`, is a plain shell, and none behind it is.
pub open spec fn last_free(canvas: Canvas, all: Seq<u128>, i: int, session: u128) -> bool {
    &&& 0 <= i < all.len()
    &&& all[i] == session
    &&& free_shell(canvas, session)
    &&& forall|j: int| i < j < all.len() ==> !free_shell(canvas, #[trigger] all[j])
}

pub proof fn lemma_goes_to(canvas: Canvas)
    ensures
        canvas.shells.run_target() is Some <==> a_shell_is_free(canvas),
        canvas.shells.run_target() matches Some(session) ==> goes_to(canvas, session),
{
    let all = canvas.shells.recency;
    let i = lemma_last_shell(canvas, all);
    if let Some(session) = canvas.shells.run_target() {
        assert(last_free(canvas, canvas.shells.recency, i, session));
        assert(free_shell(canvas, canvas.shells.recency[i]));
    }
}

/// The place of the last plain shell of `all`.
proof fn lemma_last_shell(canvas: Canvas, all: Seq<u128>) -> (at: int)
    ensures
        canvas.shells.last_shell(all) matches Some(session) ==> last_free(canvas, all, at, session),
        canvas.shells.last_shell(all) is None ==> forall|j: int|
            0 <= j < all.len() ==> !free_shell(canvas, #[trigger] all[j]),
    decreases all.len(),
{
    if all.len() == 0 {
        0
    } else {
        let init = all.drop_last();
        let at = lemma_last_shell(canvas, init);
        lemma_shell_shown(canvas, all.last());
        assert(canvas.shells.is_shell(all.last()) == free_shell(canvas, all.last()));
        assert forall|j: int| 0 <= j < init.len() implies init[j] == #[trigger] all[j] by {}
        if canvas.shells.is_shell(all.last()) {
            all.len() - 1
        } else {
            at
        }
    }
}

/// Where a pill stands among those right of the title.
pub open spec fn pill_place(pill: Pill) -> int {
    match pill {
        Pill::Point => 0,
        Pill::Find => 1,
        Pill::Edit => 2,
        Pill::Reload => 3,
        Pill::Hooks => 4,
        _ => 5,
    }
}

/// A card offers exactly the pills that would do something: taking a shell another client sizes, on
/// the active card; silencing a stream that sounds or is silenced; pointing the others at the active
/// card while somebody is here; finding, editing (where a shell is free for it) and reading again on
/// a file; the hooks for an agent that was guessed at, until they were offered. Each once, in one
/// order.
pub proof fn law_a_card_offers_what_would_do_something(
    canvas: Canvas,
    item: Item<Seq<char>>,
    live: Live<Seq<char>>,
)
    ensures
        ({
            let face = canvas.face_of(item, live);
            let active = canvas.active == Some(item.id);
            let file = item.kind is File;
            &&& face.before == Some(Pill::Take) <==> item.kind is Terminal && active && has_view(
                canvas,
                item,
            ) && !live.driving
            &&& face.before is Some && face.before != Some(Pill::Take) <==> is_screen(item)
                && has_view(canvas, item) && (live.muted || (active && live.has_audio))
            &&& face.before is Some && face.before != Some(Pill::Take) ==> face.before == Some(
                Pill::Mute { muted: live.muted },
            )
            &&& face.after.contains(Pill::Point) <==> active && canvas.doc.lookers.len() > 0
            &&& face.after.contains(Pill::Find) <==> file
            &&& face.after.contains(Pill::Edit) <==> file && a_shell_is_free(canvas)
            &&& face.after.contains(Pill::Reload) <==> file
            &&& face.after.contains(Pill::Hooks) <==> has_agent(canvas, item)
                && !(canvas.shells.agents[item.kind->session].source is Hook)
                && !canvas.hooks_offered
            &&& forall|i: int, j: int|
                0 <= i < j < face.after.len() ==> pill_place(#[trigger] face.after[i]) < pill_place(
                    #[trigger] face.after[j],
                )
            &&& forall|i: int| 0 <= i < face.after.len() ==> pill_place(#[trigger] face.after[i]) < 5
        }),
{
    lemma_views(canvas, item);
    lemma_goes_to(canvas);
    let active = canvas.active == Some(item.id);
    let file = item.kind is File;
    let a = pill_if(active && canvas.doc.lookers.len() > 0, Pill::Point);
    let b = pill_if(file, Pill::Find);
    let c = pill_if(file && canvas.shells.run_target() is Some, Pill::Edit);
    let d = pill_if(file, Pill::Reload);
    let hooks = canvas.agent_on(item) matches Some(agent) && agent.source != AgentSource::Hook
        && !canvas.hooks_offered;
    let e = pill_if(hooks, Pill::Hooks);
    let after = canvas.face_of(item, live).after;
    assert(after =~= a + b + c + d + e);
    lemma_pills(
        active && canvas.doc.lookers.len() > 0,
        file,
        file && canvas.shells.run_target() is Some,
        hooks,
    );
}

proof fn lemma_pills(point: bool, file: bool, edit: bool, hooks: bool)
    ensures
        ({
            let all = pill_if(point, Pill::Point) + pill_if(file, Pill::Find) + pill_if(
                edit,
                Pill::Edit,
            ) + pill_if(file, Pill::Reload) + pill_if(hooks, Pill::Hooks);
            &&& all.contains(Pill::Point) == point
            &&& all.contains(Pill::Find) == file
            &&& all.contains(Pill::Edit) == edit
            &&& all.contains(Pill::Reload) == file
            &&& all.contains(Pill::Hooks) == hooks
            &&& forall|i: int, j: int|
                0 <= i < j < all.len() ==> pill_place(#[trigger] all[i]) < pill_place(
                    #[trigger] all[j],
                )
            &&& forall|i: int| 0 <= i < all.len() ==> pill_place(#[trigger] all[i]) < 5
        }),
{
    let (a, b, c, d, e) = (
        pill_if(point, Pill::Point),
        pill_if(file, Pill::Find),
        pill_if(edit, Pill::Edit),
        pill_if(file, Pill::Reload),
        pill_if(hooks, Pill::Hooks),
    );
    let all = a + b + c + d + e;
    if point {
        assert(all[0] == Pill::Point);
    }
    if file {
        assert(all[a.len() as int] == Pill::Find);
        assert(all[(a.len() + b.len() + c.len()) as int] == Pill::Reload);
    }
    if edit {
        assert(all[(a.len() + b.len()) as int] == Pill::Edit);
    }
    if hooks {
        assert(all[(a.len() + b.len() + c.len() + d.len()) as int] == Pill::Hooks);
    }
}

/// What the pills do: a stream is silenced or heard again, a file card's find bar takes its card, a
/// file is read again, opened in the editor of the shell that is free for it, and the hooks are asked
/// for and offered no more.
pub proof fn law_a_pill_does_what_it_says(
    canvas: Canvas,
    item: Item<Seq<char>>,
    place: Option<Rect>,
    command: Seq<char>,
    muted: bool,
)
    requires
        canvas.doc.sound(),
        canvas.doc.items.contains(item),
    ensures
        ({
            let next = canvas.then_pill(item.id, Pill::Mute { muted }, place, command);
            &&& stream_shown(canvas, item.id) ==> next == canvas.say(Effect::ToggleMute(item.id))
            &&& !stream_shown(canvas, item.id) ==> next == canvas
        }),
        ({
            let next = canvas.then_pill(item.id, Pill::Find, place, command);
            &&& canvas.files.contains(item.id) ==> next.active == Some(item.id)
            &&& !canvas.files.contains(item.id) ==> next == canvas
        }),
        ({
            let next = canvas.then_pill(item.id, Pill::Reload, place, command);
            &&& item.kind matches ItemKind::File { path } ==> next == canvas.send(
                ClientMsg::ReadFile { path },
            )
            &&& !(item.kind is File) ==> next == canvas
        }),
        ({
            let next = canvas.then_pill(item.id, Pill::Edit, place, command);
            &&& item.kind is File && a_shell_is_free(canvas) ==> next.out.len() > 0
                && next.out.last() is RunText && goes_to(canvas, next.out.last()->RunText_session)
                && next.out.last()->RunText_text == command
            &&& !(item.kind is File) || !a_shell_is_free(canvas) ==> next == canvas
        }),
        ({
            let next = canvas.then_pill(item.id, Pill::Hooks, place, command);
            &&& next.hooks_offered
            &&& next.out == canvas.out.push(Effect::Send(ClientMsg::InstallHooks))
        }),
{
    lemma_card(canvas.doc, item);
    lemma_stream_shown(canvas, item.id);
    lemma_goes_to(canvas);
}

/// Taking a shell over drives it from here: its card is active and in view, the shell has the
/// keyboard and this client's size, and is the one last used; where its size is to change the card
/// takes the place it is given.
pub proof fn law_a_shell_taken_over_is_driven_from_here(
    canvas: Canvas,
    item: Item<Seq<char>>,
    session: u128,
    rect: Rect,
)
    requires
        canvas.doc.sound(),
        canvas.doc.items.contains(item),
        crate::canvas::terms::runs(item, session),
        canvas.shells.recency.contains(session),
    ensures
        ({
            let next = canvas.then_take_over(item.id, Some(rect));
            &&& next.active == Some(item.id)
            &&& next.pending.focus == Some(session)
            &&& next.pending.reveal == Some(item.id)
            &&& next.shells.recency.last() == session
            &&& next.doc.items.contains(Item { rect, ..item })
            &&& shell_shown(canvas, session) ==> next.out.last() == Effect::<
                Seq<char>,
                Seq<Seq<char>>,
            >::Drive(session)
            &&& next.out[canvas.out.len() as int] == Effect::<Seq<char>, Seq<Seq<char>>>::Send(
                ClientMsg::Canvas(Op::Place { id: item.id, rect }),
            )
        }),
        ({
            let next = canvas.then_take_over(item.id, None);
            &&& next.active == Some(item.id)
            &&& next.pending.focus == Some(session)
            &&& next.doc == canvas.doc
            &&& next.out == (if shell_shown(canvas, session) {
                canvas.out.push(Effect::Drive(session))
            } else {
                canvas.out
            })
        }),
{
    lemma_card(canvas.doc, item);
    lemma_shell_shown(canvas, session);
    crate::canvas::doc::lemma_place_of(canvas.doc.items, item.id);
    let at = crate::canvas::doc::place_of(canvas.doc.items, item.id);
    let next = canvas.then_take_over(item.id, Some(rect));
    assert(next.doc.items[at] == (Item { rect, ..item }));
    crate::list::lemma_first_index(canvas.shells.recency, session);
}

} // verus!
