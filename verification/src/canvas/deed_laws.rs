//! What the human's deeds on the canvas promise: new cards, closing, walking, pointing and naming.
use vstd::prelude::*;

use crate::canvas::doc::{
    highest, lemma_place_of, over, place_of, law_reading_goes_by_rows, reading_ids, reading_key,
    reading_keys, Doc, Item, ItemKind, Op, Rect,
};
use crate::canvas::choice_laws::reads_before;
use crate::canvas::doc_laws::{
    law_a_change_is_about_one_card, law_a_raised_card_is_on_top, lemma_get,
};
use crate::canvas::face_laws::{a_shell_is_free, goes_to, lemma_goes_to};
use crate::canvas::msg::{Aim, CaptureTarget, ClientMsg, Done, Effect, ScreenRequest, TermRequest};
use crate::canvas::terms::{
    first_for, lemma_card, lemma_first_is, lemma_shell_shown, lemma_someone_looks,
    lemma_stream_shown, runs, shell_shown, someone_looks, stream_shown,
};
use crate::canvas::titles::unslashed;
use crate::canvas::title_laws::slashes;
use crate::canvas::view::cards::{dir_of, file_card, new_card, path_in, stepped, KeyTarget};
use crate::canvas::view::{Canvas, Keeper, Rename, ToastKind};
use crate::list::{first_index, lemma_first_index};
use crate::order::{before, lemma_an_order};
use crate::text::{decimal, last_at};

verus! {

/// No card stands higher.
pub open spec fn none_over(doc: Doc, z: u32) -> bool {
    forall|i: int| 0 <= i < doc.items.len() ==> (#[trigger] doc.items[i]).z <= z
}

/// The message is the next thing said.
pub open spec fn says_next(was: Canvas, now: Canvas, one: Done) -> bool {
    now.out.len() > was.out.len() && now.out.take(was.out.len() as int) == was.out
        && now.out[was.out.len() as int] == one
}

proof fn lemma_over(doc: Doc)
    ensures
        none_over(doc, highest(doc.items)),
        highest(doc.items) < u32::MAX ==> over(highest(doc.items)) == highest(doc.items) + 1,
    decreases doc.items.len(),
{
    if doc.items.len() > 0 {
        let init = Doc { items: doc.items.drop_last(), ..doc };
        lemma_over(init);
        assert forall|i: int| 0 <= i < doc.items.len() implies (#[trigger] doc.items[i]).z
            <= highest(doc.items) by {
            if i < init.items.len() {
                assert(init.items[i] == doc.items[i]);
            }
        }
    }
}

pub proof fn lemma_upserted(canvas: Canvas, item: Item<Seq<char>>)
    requires
        canvas.doc.sound(),
    ensures
        canvas.propose(Op::Upsert(item)).doc.get(item.id) == Some(item),
        canvas.propose(Op::Upsert(item)).doc.items.contains(item),
{
    lemma_place_of(canvas.doc.items, item.id);
    let at = place_of(canvas.doc.items, item.id);
    let next = canvas.propose(Op::Upsert(item)).doc;
    let k = if at < canvas.doc.items.len() {
        at
    } else {
        canvas.doc.items.len() as int
    };
    assert(next.items[k] == item);
    law_a_change_is_about_one_card(
        canvas.doc,
        Op::Upsert(item),
        if item.id == 0 {
            1
        } else {
            0
        },
    );
}

/// A new note is an empty card at the place it was given, over all the others, active, about to be in
/// view and with the caret in it; the host hears of it.
pub proof fn law_a_new_note_is_ready_to_type_in(canvas: Canvas, id: u128, slot: Rect)
    requires
        canvas.doc.sound(),
        !canvas.doc.has(id),
    ensures
        ({
            let next = canvas.then_new_note(id, slot);
            &&& next.doc.get(id) matches Some(item)
            &&& item.kind == (ItemKind::Note { text: Seq::<char>::empty() })
            &&& item.rect == slot && !item.sleeping && item.name is None
            &&& none_over(canvas.doc, item.z)
            &&& forall|i: int|
                0 <= i < canvas.doc.items.len() && item.z < u32::MAX ==> (
                #[trigger] canvas.doc.items[i]).z < item.z
            &&& next.active == Some(id) && next.pending.note == Some(id)
                && next.pending.reveal == Some(id)
            &&& next.out == canvas.out.push(Effect::Send(ClientMsg::Canvas(Op::Upsert(item))))
        }),
{
    let item = new_card(id, ItemKind::Note { text: Seq::empty() }, slot, canvas.doc);
    lemma_upserted(canvas, item);
    lemma_over(canvas.doc);
}

/// What is written in a note is what the canvas and the host hold of it; nothing else of the card
/// changes, and a card that is gone stays gone.
pub proof fn law_a_notes_text_is_kept(
    canvas: Canvas,
    item: Item<Seq<char>>,
    gone: u128,
    text: Seq<char>,
)
    requires
        canvas.doc.sound(),
        canvas.doc.items.contains(item),
        !canvas.doc.has(gone),
    ensures
        ({
            let next = canvas.then_commit(item.id, text);
            let now = Item { kind: ItemKind::Note { text }, ..item };
            &&& next.doc.get(item.id) == Some(now)
            &&& next.out == canvas.out.push(Effect::Send(ClientMsg::Canvas(Op::Upsert(now))))
        }),
        canvas.then_commit(gone, text) == canvas,
{
    lemma_card(canvas.doc, item);
    lemma_upserted(canvas, Item { kind: ItemKind::Note { text }, ..item });
}

/// The card shows the file at the path.
pub open spec fn shows_file(item: Item<Seq<char>>, path: Seq<char>) -> bool {
    item.kind matches ItemKind::File { path: p } && p == path
}

proof fn lemma_file_card(items: Seq<Item<Seq<char>>>, path: Seq<char>)
    ensures
        file_card(items, path) matches Some(id) ==> exists|i: int|
            0 <= i < items.len() && shows_file(#[trigger] items[i], path) && items[i].id == id,
        file_card(items, path) is None ==> forall|i: int|
            0 <= i < items.len() ==> !shows_file(#[trigger] items[i], path),
    decreases items.len(),
{
    if items.len() > 0 && !shows_file(items[0], path) {
        let rest = items.drop_first();
        lemma_file_card(rest, path);
        if let Some(id) = file_card(rest, path) {
            let i = choose|i: int|
                0 <= i < rest.len() && shows_file(#[trigger] rest[i], path) && rest[i].id == id;
            assert(items[i + 1] == rest[i]);
        } else {
            assert forall|i: int| 0 <= i < items.len() implies !shows_file(
                #[trigger] items[i],
                path,
            ) by {
                if i > 0 {
                    assert(items[i] == rest[i - 1]);
                }
            }
        }
    } else if items.len() > 0 {
        assert(shows_file(items[0], path));
    }
}

/// Opening a file leads to the one card that shows it: where there is one it is read again, else a
/// new one is put at the place it was given. Either way it is active and about to be in view, and a
/// card that has no view yet lands on the line that was asked for.
pub proof fn law_a_file_opens_on_one_card(
    canvas: Canvas,
    path: Seq<char>,
    line: Option<u32>,
    id: u128,
    slot: Rect,
)
    requires
        canvas.doc.sound(),
        !canvas.doc.has(id),
    ensures
        ({
            let (next, card) = canvas.then_file(path, line, id, slot);
            let there = exists|i: int|
                0 <= i < canvas.doc.items.len() && shows_file(#[trigger] canvas.doc.items[i], path);
            &&& next.doc.get(card) matches Some(item) && shows_file(item, path)
            &&& next.active == Some(card) && next.pending.reveal == Some(card)
            &&& there ==> next.doc == canvas.doc && next.out == canvas.out.push(
                Effect::Send(ClientMsg::ReadFile { path }),
            )
            &&& !there ==> card == id && next.doc.get(id)->0.rect == slot && next.out
                == canvas.out.push(
                Effect::Send(ClientMsg::Canvas(Op::Upsert(next.doc.get(id)->0))),
            )
            &&& line matches Some(n) ==> (!canvas.files.contains(card) ==> next.file_focus
                == canvas.file_focus.insert(card, n))
            &&& line is None || canvas.files.contains(card) ==> next.file_focus
                == canvas.file_focus
        }),
{
    lemma_file_card(canvas.doc.items, path);
    match file_card(canvas.doc.items, path) {
        Some(old) => {
            let i = choose|i: int|
                0 <= i < canvas.doc.items.len() && shows_file(
                    #[trigger] canvas.doc.items[i],
                    path,
                ) && canvas.doc.items[i].id == old;
            lemma_get(canvas.doc, i);
        },
        None => {
            lemma_upserted(canvas, new_card(id, ItemKind::File { path }, slot, canvas.doc));
        },
    }
}

/// A path from the root names what it names anywhere; a relative one stands in the directory it is
/// typed in, with one slash between; without a directory it is left to the host.
pub proof fn law_a_relative_path_stands_in_its_directory(
    dir: Seq<char>,
    tail: Seq<char>,
    path: Seq<char>,
)
    requires
        slashes(tail),
        dir.len() > 0 ==> dir.last() != '/',
    ensures
        path.len() > 0 && path[0] == '/' ==> path_in(Some(dir + tail), path) == path && path_in(
            None,
            path,
        ) == path,
        path.len() == 0 || path[0] != '/' ==> path_in(Some(dir + tail), path) == dir.push('/')
            + path && path_in(None, path) == path,
{
    reveal_strlit("/");
    lemma_no_slashes(dir, tail);
    assert(dir + "/"@ + path =~= dir.push('/') + path);
}

proof fn lemma_no_slashes(s: Seq<char>, tail: Seq<char>)
    requires
        s.len() == 0 || s.last() != '/',
        slashes(tail),
    ensures
        unslashed(s + tail) == s,
    decreases tail.len(),
{
    let all = s + tail;
    if tail.len() == 0 {
        assert(all =~= s);
    } else {
        let less = tail.drop_last();
        assert(all.last() == tail[tail.len() - 1]);
        assert(all.drop_last() =~= s + less);
        assert forall|i: int| 0 <= i < less.len() implies #[trigger] less[i] == '/' by {
            assert(tail[i] == '/');
        }
        lemma_no_slashes(s, less);
    }
}

/// A path typed on the canvas is meant where the active shell is; one from the root or from home is
/// meant as it stands, and without an active shell every path is.
pub proof fn law_a_typed_path_is_meant_where_the_shell_is(
    canvas: Canvas,
    item: Item<Seq<char>>,
    session: u128,
    path: Seq<char>,
)
    requires
        canvas.doc.sound(),
        canvas.doc.items.contains(item),
        canvas.active == Some(item.id),
    ensures
        path.len() > 0 && (path[0] == '/' || path[0] == '~') ==> canvas.path_here(path) == path,
        !(item.kind is Terminal) ==> canvas.path_here(path) == path,
        runs(item, session) && !(path.len() > 0 && path[0] == '~') ==> canvas.path_here(path)
            == path_in(
            if canvas.shells.sessions.contains_key(session) {
                canvas.shells.sessions[session].cwd
            } else {
                None
            },
            path,
        ),
{
    lemma_card(canvas.doc, item);
}

/// The directory of a file is what stands before its name; a file in the root is in the root; a path
/// that does not start at the root is in none that is known.
pub proof fn law_a_file_is_in_its_directory(dir: Seq<char>, name: Seq<char>, path: Seq<char>)
    requires
        !name.contains('/'),
        dir.len() > 0 && dir[0] == '/',
        path.len() == 0 || path[0] != '/',
    ensures
        dir_of(dir.push('/') + name) == Some(dir),
        dir_of(seq!['/'] + name) == Some("/"@),
        dir_of(path) is None,
{
    lemma_slash_before(dir, name);
    let all = dir.push('/') + name;
    assert(all[0] == '/');
    assert(all.take(dir.len() as int) =~= dir);
    lemma_slash_before(Seq::empty(), name);
    assert(Seq::<char>::empty().push('/') + name =~= seq!['/'] + name);
}

proof fn lemma_slash_before(front: Seq<char>, name: Seq<char>)
    requires
        !name.contains('/'),
    ensures
        last_at(front.push('/') + name, '/') == front.len(),
    decreases name.len(),
{
    let all = front.push('/') + name;
    if name.len() == 0 {
        assert(all =~= front.push('/'));
    } else {
        let less = name.drop_last();
        assert(name[name.len() - 1] != '/') by {
            if name.last() == '/' {
                assert(name.contains(name[name.len() - 1]));
            }
        }
        assert(all.last() == name.last());
        assert(all.drop_last() =~= front.push('/') + less);
        assert(!less.contains('/')) by {
            if less.contains('/') {
                let i = choose|i: int| 0 <= i < less.len() && less[i] == '/';
                assert(name[i] == '/');
            }
        }
        lemma_slash_before(front, less);
    }
}

/// A window or display that was picked becomes a card of its kind at the place it was given, active
/// and under the title it was picked by.
pub proof fn law_a_picked_screen_becomes_a_card(
    canvas: Canvas,
    target: CaptureTarget,
    title: Seq<char>,
    id: u128,
    slot: Rect,
)
    requires
        canvas.doc.sound(),
        !canvas.doc.has(id),
    ensures
        ({
            let next = canvas.then_screen(target, title, id, slot);
            &&& next.doc.get(id) matches Some(item)
            &&& item.kind == (match target {
                CaptureTarget::Window(window) => ItemKind::<Seq<char>>::Window { window },
                CaptureTarget::Display(display) => ItemKind::<Seq<char>>::Display { display },
            })
            &&& item.rect == slot && none_over(canvas.doc, item.z)
            &&& next.active == Some(id)
            &&& next.screens.titles == canvas.screens.titles.insert(id, title)
            &&& next.out == canvas.out.push(Effect::Send(ClientMsg::Canvas(Op::Upsert(item))))
        }),
{
    let kind = match target {
        CaptureTarget::Window(window) => ItemKind::Window { window },
        CaptureTarget::Display(display) => ItemKind::Display { display },
    };
    let item = new_card(id, kind, slot, canvas.doc);
    let titled = Canvas { screens: canvas.screens.then_titled(id, title), ..canvas };
    lemma_upserted(titled, item);
    lemma_over(canvas.doc);
}

/// The others are pointed at a card where somebody is here to see it, and this client is told who:
/// one by their name, more by how many they are.
pub proof fn law_the_others_are_pointed_at_a_card(canvas: Canvas, item: Item<Seq<char>>)
    requires
        canvas.doc.sound(),
        canvas.doc.items.contains(item),
    ensures
        ({
            let next = canvas.then_point(item.id);
            let title = canvas.card_title(item);
            let lookers = canvas.doc.lookers;
            let point: Done = Effect::Send(ClientMsg::Point { item: item.id });
            &&& lookers.len() > 0 ==> says_next(canvas, next, point)
            &&& lookers.len() == 0 ==> forall|i: int|
                canvas.out.len() <= i < next.out.len() ==> (#[trigger] next.out[i]) is ToastTimer
            &&& next.toast matches Some(toast)
            &&& toast.what == ToastKind::Said(
                if lookers.len() == 0 {
                    "nobody else is here"@
                } else if lookers.len() == 1 {
                    "pointed "@ + lookers[0].name + " at "@ + title
                } else {
                    "pointed "@ + decimal(lookers.len()) + " others at "@ + title
                },
            )
            &&& next.doc == canvas.doc && next.active == canvas.active
        }),
{
    lemma_card(canvas.doc, item);
    let next = canvas.then_point(item.id);
    assert(next.out.take(canvas.out.len() as int) =~= canvas.out);
}

/// The walk goes the way the cards are read: a later card is never read before an earlier one.
pub proof fn law_the_walk_goes_the_way_cards_are_read(doc: Doc, i: int, j: int)
    requires
        doc.sound(),
        doc.items.len() <= usize::MAX,
        0 <= i < j < reading_ids(doc.items).len(),
    ensures
        doc.get(reading_ids(doc.items)[i]) is Some,
        doc.get(reading_ids(doc.items)[j]) is Some,
        !reads_before(
            doc.get(reading_ids(doc.items)[j])->0.rect,
            doc.get(reading_ids(doc.items)[i])->0.rect,
        ),
{
    let keys = reading_keys(doc.items);
    let order = lemma_an_order(keys);
    assert(before(keys, order[i], order[j]));
    lemma_get(doc, order[i] as int);
    lemma_get(doc, order[j] as int);
    let (a, b) = (doc.items[order[i] as int].rect, doc.items[order[j] as int].rect);
    assert(keys[order[i] as int] == reading_key(a));
    assert(keys[order[j] as int] == reading_key(b));
    law_reading_goes_by_rows(b, a);
}

/// A step forward goes to the card that is read next, from the last round to the first; a step back
/// goes the other way; with nothing active the walk starts at its near end.
pub proof fn law_a_step_goes_to_the_next_card(order: Seq<u128>, at: int, other: u128)
    requires
        order.no_duplicates(),
        0 <= at < order.len(),
        !order.contains(other),
    ensures
        stepped(order, Some(order[at]), true) == Some(
            if at + 1 < order.len() {
                order[at + 1]
            } else {
                order[0]
            },
        ),
        stepped(order, Some(order[at]), false) == Some(
            if at > 0 {
                order[at - 1]
            } else {
                order[order.len() - 1]
            },
        ),
        stepped(order, None, true) == Some(order[0]),
        stepped(order, None, false) == Some(order[order.len() - 1]),
        stepped(order, Some(other), true) == Some(order[0]),
        stepped(order, Some(other), false) == Some(order[order.len() - 1]),
        stepped(Seq::empty(), Some(other), true) is None,
{
    lemma_first_index(order, order[at]);
    lemma_first_index(order, other);
    assert(order.contains(order[at]));
    let found = first_index(order, order[at]);
    assert(order[found] == order[at]);
}

/// Going to a card makes it the active one, about to be in view and over all the others; a terminal
/// takes the keyboard and is the shell last used, and its badge is looked at.
pub proof fn law_going_to_a_card_makes_it_active(canvas: Canvas, item: Item<Seq<char>>)
    requires
        canvas.doc.sound(),
        canvas.doc.items.contains(item),
        highest(canvas.doc.items) < u32::MAX,
        item.kind matches ItemKind::Terminal { session } ==> first_for(
            canvas,
            session,
            place_of(canvas.doc.items, item.id),
        ),
    ensures
        ({
            let next = canvas.then_go_to(item.id);
            &&& next.active == Some(item.id)
            &&& next.pending.reveal == Some(item.id)
            &&& next.doc.is_top(item.id)
            &&& item.kind matches ItemKind::Terminal { session } ==> {
                &&& next.pending.focus == Some(session)
                &&& canvas.shells.recency.contains(session) ==> next.shells.recency.len() > 0
                    && next.shells.recency.last() == session
                &&& !next.shells.finished.contains_key(session)
            }
            &&& !(item.kind is Terminal) ==> next.pending.focus == canvas.pending.focus
                && next.shells == canvas.shells
        }),
{
    lemma_card(canvas.doc, item);
    lemma_place_of(canvas.doc.items, item.id);
    let at = place_of(canvas.doc.items, item.id);
    law_a_raised_card_is_on_top(canvas.doc, item.id);
    if let ItemKind::Terminal { session } = item.kind {
        lemma_first_is(canvas, session, at);
        lemma_first_index(canvas.shells.recency, session);
    }
}

/// Naming a card opens the field in its title bar: the card is active, the field gets the keyboard,
/// and remembers who had it. Once it closes the keyboard goes back there, or to the canvas.
pub proof fn law_the_name_field_gives_the_keyboard_back(
    canvas: Canvas,
    item: Item<Seq<char>>,
    gone: u128,
    focused: Option<u64>,
    keep: bool,
    text: Seq<char>,
)
    requires
        canvas.doc.sound(),
        canvas.doc.items.contains(item),
        !canvas.doc.has(gone),
    ensures
        ({
            let open = canvas.then_rename(item.id, focused);
            let back = open.then_renamed(keep, true, text);
            let left = open.then_renamed(keep, false, text);
            &&& open.rename == Some(Rename { id: item.id, return_to: focused })
            &&& open.pending.rename && open.active == Some(item.id)
            &&& back.rename is None && left.rename is None
            &&& back.rename_return == Some(
                match focused {
                    Some(e) => Keeper::Element(e),
                    None => Keeper::Canvas,
                },
            )
            &&& left.rename_return == canvas.rename_return
        }),
        canvas.then_rename(gone, focused) == canvas,
{
    lemma_card(canvas.doc, item);
    lemma_place_of(canvas.doc.items, item.id);
}

/// What the key bar of a phone drives: the shell of the active card while it is drawn, the stream of
/// an active window or display, and nothing else.
pub proof fn law_the_key_bar_drives_the_active_card(
    canvas: Canvas,
    item: Item<Seq<char>>,
    session: u128,
)
    requires
        canvas.doc.sound(),
        canvas.doc.items.contains(item),
        canvas.active == Some(item.id),
    ensures
        runs(item, session) ==> canvas.key_target() == (if shell_shown(canvas, session) {
            Some(KeyTarget::Terminal(session))
        } else {
            None
        }),
        item.kind is Window || item.kind is Display ==> canvas.key_target() == (if stream_shown(
            canvas,
            item.id,
        ) {
            Some(KeyTarget::Screen(item.id))
        } else {
            None
        }),
        item.kind is Note || item.kind is File ==> canvas.key_target() is None,
{
    lemma_card(canvas.doc, item);
    lemma_shell_shown(canvas, session);
    lemma_stream_shown(canvas, item.id);
}

/// Running a block types it into the shell last used that has no agent, which comes into view with
/// the keyboard in it; where no shell is free nothing happens.
pub proof fn law_a_block_runs_in_the_free_shell(canvas: Canvas, code: Seq<char>)
    ensures
        ({
            let next = canvas.then_run(code);
            &&& a_shell_is_free(canvas) ==> {
                &&& next.out.len() > 0 && next.out.last() is RunText
                &&& next.out.last()->RunText_text == code
                &&& goes_to(canvas, next.out.last()->RunText_session)
                &&& canvas.doc.for_session(next.out.last()->RunText_session) is Some
                    ==> next.pending.focus == Some(next.out.last()->RunText_session)
            }
            &&& !a_shell_is_free(canvas) ==> next == canvas
        }),
{
    lemma_goes_to(canvas);
}

/// Closing what nothing is to be kept of: a session that ended loses its card at once, and one whose
/// view asks first stays until it was answered; a live shell that is not drawn is told to close.
pub proof fn law_closing_a_shell(
    canvas: Canvas,
    item: Item<Seq<char>>,
    session: u128,
    asked: bool,
    text: Option<Seq<char>>,
)
    requires
        canvas.doc.sound(),
        canvas.doc.items.contains(item),
        canvas.active == Some(item.id),
        runs(item, session),
    ensures
        ({
            let next = canvas.then_close(asked, text);
            let alive = canvas.shells.sessions.contains_key(session);
            let seen = shell_shown(canvas, session);
            &&& !alive ==> next == canvas.propose(Op::Remove(item.id)) && !next.doc.has(item.id)
                && next.closed == canvas.closed
            &&& alive && seen && asked ==> next == canvas
            &&& alive && !seen ==> next.out == canvas.out.push(
                Effect::Send(ClientMsg::Term { session, req: TermRequest::Close }),
            ) && next.doc == canvas.doc
        }),
{
    lemma_card(canvas.doc, item);
    lemma_shell_shown(canvas, session);
    law_a_change_is_about_one_card(
        canvas.doc,
        Op::Remove(item.id),
        if item.id == 0 {
            1
        } else {
            0
        },
    );
}

/// A click on another client's pill keeps up with them, a second lets go; somebody who looks nowhere
/// is nobody to keep up with.
pub proof fn law_a_second_click_lets_go(canvas: Canvas, client: u128)
    requires
        canvas.following != Some(client),
    ensures
        ({
            let once = canvas.then_follow_pressed(client);
            let twice = once.then_follow_pressed(client);
            &&& someone_looks(canvas, client) ==> once.following == Some(client) && once.out
                == canvas.out.push(Effect::Fly(Aim::Looker(client))) && twice.following is None
                && twice.out == once.out
            &&& !someone_looks(canvas, client) ==> once.following is None && once.out == canvas.out
        }),
{
    lemma_someone_looks(canvas, client);
}

/// Moving the camera on this client's own account follows no one any more.
pub proof fn law_a_flight_of_our_own_follows_no_one(canvas: Canvas, aim: Aim)
    ensures
        canvas.then_fly(aim).following is None,
        canvas.then_fly(aim).out == canvas.out.push(Effect::Fly(aim)),
{
}

/// A new shell or agent starts where the active card is: in the directory of an active shell, or in
/// that of an active file. An agent goes by its own name, a command by its first word.
pub proof fn law_a_new_session_starts_where_you_are(
    canvas: Canvas,
    item: Item<Seq<char>>,
    session: u128,
    agent: Seq<char>,
    command: Seq<Seq<char>>,
)
    requires
        canvas.doc.sound(),
        canvas.doc.items.contains(item),
        canvas.active == Some(item.id),
        command.len() > 0,
    ensures
        ({
            let cwd = match item.kind {
                ItemKind::Terminal { session } => if canvas.shells.sessions.contains_key(session) {
                    canvas.shells.sessions[session].cwd
                } else {
                    None
                },
                ItemKind::File { path } => dir_of(path),
                _ => None,
            };
            &&& canvas.then_new_terminal().out == canvas.out.push(
                Effect::Send(
                    ClientMsg::OpenSession { cwd, command: Seq::empty(), title: None },
                ),
            )
            &&& canvas.then_new_agent(agent).out == canvas.out.push(
                Effect::Send(
                    ClientMsg::OpenSession { cwd, command: seq![agent], title: Some(agent) },
                ),
            )
            &&& canvas.then_command(command).out == canvas.out.push(
                Effect::Send(
                    ClientMsg::OpenSession { cwd, command, title: Some(command[0]) },
                ),
            )
        }),
{
    lemma_card(canvas.doc, item);
}

/// Without an active card a new session starts where the host puts it.
pub proof fn law_a_new_session_without_a_card(canvas: Canvas)
    requires
        canvas.active is None,
    ensures
        canvas.then_new_terminal().out == canvas.out.push(
            Effect::Send(
                ClientMsg::OpenSession { cwd: None, command: Seq::empty(), title: None },
            ),
        ),
        canvas.reset_aim() == Aim::FullSize,
        canvas.then_zoom_to_item() == canvas,
        canvas.then_toggle_mute() == canvas,
        canvas.then_point_active() == canvas,
        canvas.active_drawn() is None,
{
}

/// The keys of the active card act on it: the zoom goes to it or is reset about it, a stream that is
/// shown is muted, a shell that is drawn is the one typed into, and it is what the others are
/// pointed at.
pub proof fn law_the_keys_act_on_the_active_card(
    canvas: Canvas,
    item: Item<Seq<char>>,
    session: u128,
)
    requires
        canvas.doc.sound(),
        canvas.doc.items.contains(item),
        canvas.active == Some(item.id),
    ensures
        canvas.reset_aim() == Aim::Centre(item.id),
        canvas.then_zoom_to_item().out == canvas.out.push(Effect::Fly(Aim::Item(item.id))),
        canvas.then_zoom_to_item().following is None,
        canvas.then_point_active() == canvas.then_point(item.id),
        item.kind is Window || item.kind is Display ==> canvas.then_toggle_mute().out == (
        if stream_shown(canvas, item.id) {
            canvas.out.push(Effect::ToggleMute(item.id))
        } else {
            canvas.out
        }),
        !(item.kind is Window || item.kind is Display) ==> canvas.then_toggle_mute() == canvas,
        runs(item, session) ==> canvas.active_drawn() == (if shell_shown(canvas, session) {
            Some(session)
        } else {
            None
        }),
        !(item.kind is Terminal) ==> canvas.active_drawn() is None,
{
    lemma_card(canvas.doc, item);
    lemma_shell_shown(canvas, session);
    lemma_stream_shown(canvas, item.id);
}

/// To add a screen the host is asked what it has, once; what comes back is picked from, or its first
/// display is taken, as was asked for. A file opens in the human's editor by a command in a shell.
pub proof fn law_a_screen_is_asked_for_before_it_is_added(
    canvas: Canvas,
    item: Item<Seq<char>>,
    command: Seq<char>,
)
    requires
        canvas.doc.sound(),
        canvas.doc.items.contains(item),
    ensures
        ({
            let list: Done = Effect::Send(ClientMsg::Screen(ScreenRequest::List));
            let (window, display) = (canvas.then_add_window(), canvas.then_add_display());
            &&& window.picker_wanted && window.display_wanted == canvas.display_wanted
            &&& display.display_wanted && display.picker_wanted == canvas.picker_wanted
            &&& window.out == canvas.out.push(list) && display.out == canvas.out.push(list)
            &&& window.doc == canvas.doc && display.doc == canvas.doc
        }),
        item.kind is File ==> canvas.then_edit(item.id, command) == canvas.then_run(command),
        !(item.kind is File) ==> canvas.then_edit(item.id, command) == canvas,
{
    lemma_card(canvas.doc, item);
}

} // verus!
