//! What the palette, the find in every card and the picker promise.
use vstd::prelude::*;

use crate::canvas::actions::{lines_of, Action};
use crate::canvas::choice_laws::{law_who_waits_on_you_is_listed_first, rows_stand};
use crate::canvas::doc::{Item, ItemKind, Rect};
use crate::canvas::face_laws::{a_shell_is_free, goes_to, lemma_goes_to};
use crate::canvas::msg::{CaptureTarget, ClientMsg, Effect, PaletteEvent, PaletteRun, TermRequest};
use crate::canvas::search::{card_lines, hit_lines, shown_lines, sought_in, Line, PickerEvent, Row};
use crate::canvas::terms::{
    first_for, lemma_card, lemma_first_is, lemma_shell_shown, runs, shell_shown,
};
use crate::canvas::titles::{device, kind_of};
use crate::canvas::view::{Canvas, Finding, Hit};
use crate::file::{hits_of, is_hit};
use crate::text::lines;

verus! {

/// The card has a line of its own in the palette besides the shells: every file has one, and every
/// other card the human named.
pub open spec fn is_listed(item: Item<Seq<char>>) -> bool {
    !(item.kind is Terminal) && (item.kind is File || item.name is Some)
}

/// The line goes to the card, under its name and with the word for what it is.
pub open spec fn goes_to_card(canvas: Canvas, line: Line<Seq<char>>, item: Item<Seq<char>>) -> bool {
    &&& line.run matches PaletteRun::Item(id) && id == item.id
    &&& line.title == canvas.card_title(item)
    &&& line.detail == kind_of(item)
}

/// The lines go to the cards at the places `at`, one each, in the document's order.
pub open spec fn lines_stand(
    canvas: Canvas,
    items: Seq<Item<Seq<char>>>,
    all: Seq<Line<Seq<char>>>,
    at: Seq<int>,
) -> bool {
    &&& at.len() == all.len()
    &&& forall|i: int|
        0 <= i < at.len() ==> 0 <= #[trigger] at[i] < items.len() && is_listed(items[at[i]])
            && goes_to_card(canvas, all[i], items[at[i]])
    &&& forall|i: int, j: int| 0 <= i < j < at.len() ==> #[trigger] at[i] < #[trigger] at[j]
    &&& forall|k: int| 0 <= k < items.len() && is_listed(#[trigger] items[k]) ==> at.contains(k)
}

proof fn lemma_card_lines(canvas: Canvas, items: Seq<Item<Seq<char>>>) -> (at: Seq<int>)
    ensures
        lines_stand(canvas, items, card_lines(canvas, items), at),
    decreases items.len(),
{
    if items.len() == 0 {
        Seq::empty()
    } else {
        let init = items.drop_last();
        let was = lemma_card_lines(canvas, init);
        let item = items.last();
        let last = items.len() - 1;
        let all = card_lines(canvas, items);
        let at = if is_listed(item) {
            was.push(last)
        } else {
            was
        };
        assert forall|i: int| 0 <= i < at.len() implies 0 <= #[trigger] at[i] < items.len()
            && is_listed(items[at[i]]) && goes_to_card(canvas, all[i], items[at[i]]) by {
            if i < was.len() {
                assert(0 <= was[i] < init.len());
                assert(items[was[i]] == init[was[i]]);
            }
        }
        assert forall|i: int, j: int| 0 <= i < j < at.len() implies #[trigger] at[i]
            < #[trigger] at[j] by {
            assert(0 <= was[i] < init.len());
            if j < was.len() {
                assert(was[i] < was[j]);
            }
        }
        assert forall|k: int| 0 <= k < items.len() && is_listed(#[trigger] items[k]) implies
            at.contains(k) by {
            if k < last {
                assert(is_listed(init[k]));
                let i = choose|i: int| 0 <= i < was.len() && was[i] == k;
                assert(at[i] == k);
            } else {
                assert(at[was.len() as int] == k);
            }
        }
        at
    }
}

/// The line goes to the row's shell, under its title and with what its agent is about.
pub open spec fn goes_to_shell(line: Line<Seq<char>>, row: Row<Seq<char>>) -> bool {
    &&& line.run matches PaletteRun::Session(session) && session == row.session
    &&& line.title == row.title
    &&& line.detail == (match row.status {
        Some(status) => status,
        None => Seq::<char>::empty(),
    })
}

/// The palette offers, in this order: every shell, as the picker lists them; every file and every
/// card with a name; everyone else who is here; the last commands, to be run again in the shell last
/// used; and every action. The answer gives where the shells and where the cards stand among the
/// document's.
pub proof fn law_the_palette_offers_everything(canvas: Canvas, recent: Seq<Seq<char>>) -> (places: (
    Seq<int>,
    Seq<int>,
))
    requires
        canvas.doc.items.len() <= usize::MAX,
    ensures
        ({
            let all = canvas.palette_lines(recent);
            let (shells, cards) = places;
            let (a, b) = (shells.len() as int, (shells.len() + cards.len()) as int);
            let c = b + canvas.doc.lookers.len();
            let d = all.len() - lines_of().len();
            &&& 0 <= a <= b <= c <= d
            &&& rows_stand(canvas, canvas.rows(), shells)
            &&& forall|i: int| 0 <= i < a ==> goes_to_shell(#[trigger] all[i], canvas.rows()[i])
            &&& lines_stand(canvas, canvas.doc.items, all.subrange(a, b), cards)
            &&& forall|i: int|
                b <= i < c ==> {
                    let one = canvas.doc.lookers[i - b];
                    &&& (#[trigger] all[i]).run matches PaletteRun::Follow(client) && client
                        == one.client
                    &&& all[i].title == one.name && all[i].detail == device(one.kind)
                }
            &&& d == c + (if a_shell_is_free(canvas) {
                recent.len() as int
            } else {
                0
            })
            &&& forall|i: int|
                c <= i < d ==> {
                    &&& (#[trigger] all[i]).run matches PaletteRun::Rerun { session, command }
                        && goes_to(canvas, session) && command == recent[i - c]
                    &&& all[i].title == recent[i - c] && all[i].detail.len() == 0
                }
            &&& forall|i: int|
                d <= i < all.len() ==> {
                    let one = lines_of()[i - d];
                    &&& (#[trigger] all[i]).run matches PaletteRun::Action(action) && action
                        == one.1
                    &&& all[i].title == one.0 && all[i].detail.len() == 0
                }
        }),
{
    law_who_waits_on_you_is_listed_first(canvas);
    let shells = choose|at: Seq<int>| rows_stand(canvas, canvas.rows(), at);
    let cards = lemma_card_lines(canvas, canvas.doc.items);
    lemma_goes_to(canvas);
    let all = canvas.palette_lines(recent);
    let (a, b) = (shells.len() as int, (shells.len() + cards.len()) as int);
    assert(all.subrange(a, b) =~= card_lines(canvas, canvas.doc.items));
    (shells, cards)
}

/// The card answered the find with lines that hold the needle.
pub open spec fn answered(canvas: Canvas, id: u128) -> bool {
    canvas.doc.get(id) is Some && canvas.find.hits.contains_key(id) && canvas.find.hits[id].total
        > 0
}

/// The find lists each card that holds what is sought, as they are read, with how many of its lines
/// do and what its answer leads to; a card that holds nothing, or has not answered, is left out.
pub proof fn law_the_find_lists_the_cards_that_hold_it(canvas: Canvas, ids: Seq<u128>)
    ensures
        hit_lines(canvas, ids).len() == ids.filter(|id: u128| answered(canvas, id)).len(),
        forall|i: int|
            0 <= i < hit_lines(canvas, ids).len() ==> {
                let id = ids.filter(|id: u128| answered(canvas, id))[i];
                &&& (#[trigger] hit_lines(canvas, ids)[i]).title == canvas.card_title(
                    canvas.doc.get(id)->0,
                )
                &&& hit_lines(canvas, ids)[i].total == canvas.find.hits[id].total
                &&& hit_lines(canvas, ids)[i].run == canvas.find.hits[id].run
            },
    decreases ids.len(),
{
    reveal(Seq::filter);
    if ids.len() > 0 {
        law_the_find_lists_the_cards_that_hold_it(canvas, ids.drop_last());
    }
}

proof fn lemma_hits_counted(all: Seq<Seq<char>>, needle: Seq<char>)
    requires
        needle.len() > 0,
    ensures
        hits_of(all, needle).len() == all.filter(|line: Seq<char>| is_hit(line, needle)).len(),
    decreases all.len(),
{
    reveal(Seq::filter);
    if all.len() > 0 {
        lemma_hits_counted(all.drop_last(), needle);
    }
}

/// A card is asked for what is sought: a note and a file card that is shown have the number of their
/// lines that hold it, and choosing a note's line goes to it, a file's opens its find bar with the
/// needle in it; a shell that is drawn is asked by a message; a screen holds no text.
pub proof fn law_a_card_is_asked_for_the_needle(
    canvas: Canvas,
    item: Item<Seq<char>>,
    needle: Seq<char>,
    files: Seq<(u128, Vec<String>)>,
)
    requires
        canvas.doc.sound(),
        canvas.doc.items.contains(item),
        needle.len() > 0,
    ensures
        ({
            let next = canvas.then_sought(item.id, needle, files);
            let hits = |all: Seq<Seq<char>>|
                all.filter(|line: Seq<char>| is_hit(line, needle)).len();
            &&& item.kind matches ItemKind::Note { text } ==> next.out == canvas.out && (hits(
                lines(text),
            ) <= u32::MAX ==> {
                &&& next.find.hits.contains_key(item.id)
                &&& next.find.hits[item.id].total == hits(lines(text))
                &&& next.find.hits[item.id].run == PaletteRun::<Seq<char>>::Item(item.id)
            })
            &&& item.kind is File ==> next.out == canvas.out && (shown_lines(
                files,
                item.id,
            ) matches Some(all) ==> (hits(all) <= u32::MAX ==> {
                &&& next.find.hits.contains_key(item.id)
                &&& next.find.hits[item.id].total == hits(all)
                &&& next.find.hits[item.id].run matches PaletteRun::FindInFile {
                    item: card,
                    needle: sought,
                } && card == item.id && sought == needle
            }))
            &&& item.kind is File && shown_lines(files, item.id) is None ==> next == canvas
            &&& item.kind matches ItemKind::Terminal { session } ==> next.find == canvas.find
                && next.out == (if shell_shown(canvas, session) {
                canvas.out.push(
                    Effect::Send(
                        ClientMsg::Term {
                            session,
                            req: TermRequest::Search { needle, max: 1, regex: false },
                        },
                    ),
                )
            } else {
                canvas.out
            })
            &&& item.kind is Window || item.kind is Display ==> next == canvas
        }),
{
    lemma_card(canvas.doc, item);
    if let ItemKind::Note { text } = item.kind {
        lemma_hits_counted(lines(text), needle);
    }
    if let Some(all) = shown_lines(files, item.id) {
        lemma_hits_counted(all, needle);
    }
    if let ItemKind::Terminal { session } = item.kind {
        lemma_shell_shown(canvas, session);
    }
}

/// The lines of a file card are those its view shows; a card without a view shows none.
pub proof fn law_a_file_card_shows_its_own_lines(
    files: Seq<(u128, Vec<String>)>,
    bars: Seq<(u128, String)>,
    i: int,
    k: int,
    gone: u128,
)
    requires
        0 <= i < files.len(),
        forall|j: int| 0 <= j < i ==> (#[trigger] files[j]).0 != files[i].0,
        0 <= k < bars.len(),
        forall|j: int| 0 <= j < k ==> (#[trigger] bars[j]).0 != bars[k].0,
        forall|j: int| 0 <= j < files.len() ==> (#[trigger] files[j]).0 != gone,
        forall|j: int| 0 <= j < bars.len() ==> (#[trigger] bars[j]).0 != gone,
    ensures
        shown_lines(files, files[i].0) == Some(files[i].1.deep_view()),
        shown_lines(files, gone) is None,
        sought_in(bars, bars[k].0) == bars[k].1@,
        sought_in(bars, gone).len() == 0,
{
    lemma_shown(files, i);
    lemma_sought_at(bars, k);
    lemma_shown_none(files, gone);
    lemma_sought_none(bars, gone);
}

proof fn lemma_shown(files: Seq<(u128, Vec<String>)>, i: int)
    requires
        0 <= i < files.len(),
        forall|j: int| 0 <= j < i ==> (#[trigger] files[j]).0 != files[i].0,
    ensures
        shown_lines(files, files[i].0) == Some(files[i].1.deep_view()),
    decreases files.len(),
{
    if i > 0 {
        assert(files[0].0 != files[i].0);
        let rest = files.drop_first();
        assert forall|j: int| 0 <= j < i - 1 implies (#[trigger] rest[j]).0 != rest[i - 1].0 by {
            assert(files[j + 1].0 != files[i].0);
        }
        lemma_shown(rest, i - 1);
    }
}

proof fn lemma_sought_at(bars: Seq<(u128, String)>, i: int)
    requires
        0 <= i < bars.len(),
        forall|j: int| 0 <= j < i ==> (#[trigger] bars[j]).0 != bars[i].0,
    ensures
        sought_in(bars, bars[i].0) == bars[i].1@,
    decreases bars.len(),
{
    if i > 0 {
        assert(bars[0].0 != bars[i].0);
        let rest = bars.drop_first();
        assert forall|j: int| 0 <= j < i - 1 implies (#[trigger] rest[j]).0 != rest[i - 1].0 by {
            assert(bars[j + 1].0 != bars[i].0);
        }
        lemma_sought_at(rest, i - 1);
    }
}

proof fn lemma_shown_none(files: Seq<(u128, Vec<String>)>, id: u128)
    requires
        forall|j: int| 0 <= j < files.len() ==> (#[trigger] files[j]).0 != id,
    ensures
        shown_lines(files, id) is None,
    decreases files.len(),
{
    if files.len() > 0 {
        assert(files[0].0 != id);
        let rest = files.drop_first();
        assert forall|j: int| 0 <= j < rest.len() implies (#[trigger] rest[j]).0 != id by {
            assert(files[j + 1].0 != id);
        }
        lemma_shown_none(rest, id);
    }
}

proof fn lemma_sought_none(bars: Seq<(u128, String)>, id: u128)
    requires
        forall|j: int| 0 <= j < bars.len() ==> (#[trigger] bars[j]).0 != id,
    ensures
        sought_in(bars, id).len() == 0,
    decreases bars.len(),
{
    if bars.len() > 0 {
        assert(bars[0].0 != id);
        let rest = bars.drop_first();
        assert forall|j: int| 0 <= j < rest.len() implies (#[trigger] rest[j]).0 != id by {
            assert(bars[j + 1].0 != id);
        }
        lemma_sought_none(rest, id);
    }
}

/// A shell's answer to what is sought is kept for its card: how many of its lines hold it, and that
/// choosing the line opens the shell's find bar with the needle in it.
pub proof fn law_a_shells_answer_is_kept(
    canvas: Canvas,
    session: u128,
    needle: Seq<char>,
    total: u32,
    at: int,
)
    requires
        canvas.find.needle == Some(needle),
        needle.len() > 0,
        shell_shown(canvas, session),
        first_for(canvas, session, at),
    ensures
        ({
            let next = canvas.then_answered(session, needle, total);
            let id = canvas.doc.items[at].id;
            &&& next.find.hits.contains_key(id) && next.find.hits[id].total == total
            &&& next.find.hits[id].run matches PaletteRun::FindIn { session: s, needle: n } && s
                == session && n == needle
            &&& next.find.needle == canvas.find.needle && next.out == canvas.out
        }),
{
    lemma_shell_shown(canvas, session);
    lemma_first_is(canvas, session, at);
}

/// A find in every card starts from what the active card's own find bar holds, and else from what
/// was sought last; with neither it waits for something to seek.
pub proof fn law_a_find_starts_from_the_active_card(
    canvas: Canvas,
    own: Seq<char>,
    focused: Option<u64>,
    files: Seq<(u128, Vec<String>)>,
)
    requires
        !canvas.palette,
    ensures
        ({
            let next = canvas.then_find_everywhere(own, focused, files);
            let seed = if own.len() > 0 {
                own
            } else {
                canvas.find.last
            };
            let shown = (Canvas {
                find: Finding {
                    needle: Some(Seq::empty()),
                    hits: Map::<u128, Hit<Seq<char>>>::empty(),
                    ..canvas.find
                },
                ..canvas
            }).then_show_palette(focused);
            &&& seed.len() > 0 ==> next == shown.then_find(seed, files)
            &&& seed.len() == 0 ==> next == shown
        }),
{
}

/// What the active card's own find bar holds: a drawn shell's, a shown file's, and nothing for any
/// other card.
pub proof fn law_the_active_needle_is_the_cards_own(
    canvas: Canvas,
    item: Item<Seq<char>>,
    session: u128,
    shells: Seq<(u128, String)>,
    files: Seq<(u128, String)>,
)
    requires
        canvas.doc.sound(),
        canvas.doc.items.contains(item),
        canvas.active == Some(item.id),
    ensures
        runs(item, session) ==> canvas.active_needle(shells, files) == (if shell_shown(
            canvas,
            session,
        ) {
            sought_in(shells, session)
        } else {
            Seq::empty()
        }),
        item.kind is File ==> canvas.active_needle(shells, files) == (if canvas.files.contains(
            item.id,
        ) {
            sought_in(files, item.id)
        } else {
            Seq::empty()
        }),
        item.kind is Note || item.kind is Window || item.kind is Display ==> canvas.active_needle(
            shells,
            files,
        ).len() == 0,
{
    lemma_card(canvas.doc, item);
    lemma_shell_shown(canvas, session);
}

/// A word typed into the palette is looked up among the files where the active shell is, and with no
/// shell active among those at home; no word, no question.
pub proof fn law_a_word_is_looked_up_where_the_shell_is(
    canvas: Canvas,
    item: Item<Seq<char>>,
    session: u128,
    query: Seq<char>,
)
    requires
        canvas.doc.sound(),
        canvas.doc.items.contains(item),
        canvas.active == Some(item.id),
    ensures
        runs(item, session) ==> canvas.then_query(Some(query)).out == canvas.out.push(
            Effect::Send(
                ClientMsg::FindFiles {
                    root: if canvas.shells.sessions.contains_key(session)
                        && canvas.shells.sessions[session].cwd is Some {
                        canvas.shells.sessions[session].cwd->0
                    } else {
                        "~"@
                    },
                    query,
                },
            ),
        ),
        item.kind is Note || item.kind is Window || item.kind is Display ==> canvas.then_query(
            Some(query),
        ).out == canvas.out.push(Effect::Send(ClientMsg::FindFiles { root: "~"@, query })),
        canvas.then_query(None) == canvas,
{
    lemma_card(canvas.doc, item);
}

/// The picker goes once it reports. A screen that was picked becomes a card and a shell that was
/// jumped to takes the keyboard; every outcome but a jump gives the keyboard back to the canvas.
pub proof fn law_the_picker_does_what_was_picked(
    canvas: Canvas,
    target: CaptureTarget,
    title: Seq<char>,
    session: u128,
    at: int,
    id: u128,
    slot: Rect,
)
    requires
        first_for(canvas, session, at),
    ensures
        ({
            let next = canvas.then_picker(PickerEvent::Jump(session), id, slot);
            &&& !next.picker && !next.pending.canvas
            &&& next.pending.focus == Some(session) && next.active == Some(canvas.doc.items[at].id)
            &&& next.pending.reveal == Some(canvas.doc.items[at].id)
        }),
        ({
            let next = canvas.then_picker(PickerEvent::Pick { target, title }, id, slot);
            let made = canvas.then_screen(target, title, id, slot);
            &&& !next.picker && next.pending.canvas
            &&& next.doc == made.doc && next.active == made.active && next.out == made.out
                && next.screens == made.screens
        }),
        ({
            let next = canvas.then_picker(PickerEvent::Dismiss, id, slot);
            &&& !next.picker && next.pending.canvas
            &&& next.doc == canvas.doc && next.active == canvas.active && next.out == canvas.out
        }),
{
    lemma_first_is(canvas, session, at);
}

/// The palette that goes up gets the keyboard and remembers who had it; once it is gone so is the
/// find, but for what was sought last, and a dismissal does nothing else.
pub proof fn law_the_palette_borrows_the_keyboard(
    canvas: Canvas,
    focused: Option<u64>,
    query: Option<Seq<char>>,
    files: Seq<(u128, Vec<String>)>,
    id: u128,
    slot: Rect,
)
    ensures
        ({
            let up = canvas.then_show_palette(focused);
            &&& up.palette && up.pending.palette && up.palette_return == focused
            &&& up.doc == canvas.doc && up.out == canvas.out && up.find == canvas.find
        }),
        ({
            let gone = canvas.then_palette(PaletteEvent::Dismiss, query, files, id, slot);
            &&& !gone.palette && gone.find.needle is None && gone.find.last == canvas.find.last
            &&& gone.find.hits == Map::<u128, Hit<Seq<char>>>::empty()
            &&& gone.palette_return == canvas.palette_return && gone.doc == canvas.doc && gone.out
                == canvas.out && gone.active == canvas.active
        }),
{
}

/// What is typed into the palette is sought in every card while a find is up, and is else looked up
/// among the files.
pub proof fn law_a_changed_field_is_sought_or_looked_up(
    canvas: Canvas,
    text: Seq<char>,
    query: Option<Seq<char>>,
    files: Seq<(u128, Vec<String>)>,
    id: u128,
    slot: Rect,
)
    ensures
        canvas.find.needle is Some ==> canvas.then_palette(
            PaletteEvent::Changed(text),
            query,
            files,
            id,
            slot,
        ) == canvas.then_find(text, files),
        canvas.find.needle is None ==> canvas.then_palette(
            PaletteEvent::Changed(text),
            query,
            files,
            id,
            slot,
        ) == canvas.then_query(query),
{
}

} // verus!
