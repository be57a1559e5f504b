//! What choosing a line of the palette does, and what the picker and the palette list.
use vstd::prelude::*;

use crate::agent::{waits, AgentStatus};
use crate::canvas::actions::Action;
use crate::canvas::doc::{float_key, Item, Rect};
use crate::canvas::frame::{maybe, Step};
use crate::canvas::msg::{Aim, ClientMsg, Done, Effect, PaletteEvent, PaletteRun};
use crate::canvas::search::{rank_of, row_key, row_keys, row_of, terminal_cards, Row};
use crate::canvas::terms::{
    first_for, lemma_card, lemma_first_is, lemma_shell_shown, lemma_someone_looks, shell_shown,
    someone_looks,
};
use crate::canvas::view::{Canvas, Keeper};
use crate::order::{before, lemma_an_order};

verus! {

/// What one frame is told to do: `step` is among `steps`, once, and no other of its kind is.
pub open spec fn only_file_find(steps: Seq<Step<Seq<char>>>, item: u128, needle: Seq<char>) -> bool {
    exists|k: int|
        0 <= k < steps.len() && #[trigger] steps[k] == Step::FindInFile(item, needle) && forall|i: int|
            0 <= i < steps.len() && i != k ==> !((#[trigger] steps[i]) is FindInFile)
}

/// One of `steps` opens the find bar of the shell on the needle, and none another.
pub open spec fn only_shell_find(
    steps: Seq<Step<Seq<char>>>,
    session: u128,
    needle: Seq<char>,
) -> bool {
    exists|k: int|
        0 <= k < steps.len() && #[trigger] steps[k] == Step::FindIn(session, needle) && forall|i: int|
            0 <= i < steps.len() && i != k ==> !((#[trigger] steps[i]) is FindIn)
}

/// One of `steps` gives the shell the keyboard, and none another.
pub open spec fn only_shell(steps: Seq<Step<Seq<char>>>, session: u128) -> bool {
    exists|k: int|
        0 <= k < steps.len() && #[trigger] steps[k] == Step::<Seq<char>>::Terminal(session)
            && forall|i: int|
            0 <= i < steps.len() && i != k ==> !((#[trigger] steps[i]) is Terminal)
}

/// None of the steps is about a card.
spec fn spares_cards(steps: Seq<Step<Seq<char>>>) -> bool {
    forall|i: int|
        0 <= i < steps.len() ==> {
            let s = #[trigger] steps[i];
            !(s is Terminal) && !(s is FindIn) && !(s is FindInFile)
        }
}

proof fn lemma_spares_both(a: Seq<Step<Seq<char>>>, b: Seq<Step<Seq<char>>>)
    requires
        spares_cards(a),
        spares_cards(b),
    ensures
        spares_cards(a + b),
{
    let all = a + b;
    assert forall|i: int| 0 <= i < all.len() implies {
        let s = #[trigger] all[i];
        !(s is Terminal) && !(s is FindIn) && !(s is FindInFile)
    } by {
        if i < a.len() {
            assert(all[i] == a[i]);
        } else {
            assert(all[i] == b[i - a.len()]);
        }
    }
}

proof fn lemma_rest_spares(canvas: Canvas)
    ensures
        spares_cards(canvas.overlay_steps() + canvas.return_steps()),
{
    let a = Canvas::step_if(canvas.pending.picker, canvas.picker, Step::Picker);
    let b = Canvas::step_if(canvas.pending.canvas, true, Step::Back(Keeper::Canvas));
    let c = Canvas::step_if(canvas.pending.palette, canvas.palette, Step::Palette);
    let d = Canvas::step_if(canvas.pending.rename, canvas.rename is Some, Step::Rename);
    assert(spares_cards(a) && spares_cards(b) && spares_cards(c) && spares_cards(d));
    lemma_spares_both(a, b);
    lemma_spares_both(a + b, c);
    lemma_spares_both(a + b + c, d);
    assert(spares_cards(canvas.return_steps()));
    lemma_spares_both(canvas.overlay_steps(), canvas.return_steps());
}

/// The steps of a frame, part by part.
proof fn lemma_steps(canvas: Canvas)
    ensures
        ({
            let steps = canvas.steps();
            let (a, b, c) = (
                maybe(canvas.focus_step()),
                maybe(canvas.find_step()),
                maybe(canvas.find_file_step()),
            );
            let n = a.len() + b.len() + c.len();
            &&& n <= steps.len()
            &&& canvas.find_file_step() matches Some(s) ==> steps[(a.len() + b.len()) as int] == s
            &&& canvas.find_step() matches Some(s) ==> steps[a.len() as int] == s
            &&& canvas.focus_step() matches Some(s) ==> steps[0] == s
            &&& forall|i: int|
                n <= i < steps.len() ==> {
                    let s = #[trigger] steps[i];
                    !(s is Terminal) && !(s is FindIn) && !(s is FindInFile)
                }
        }),
{
    lemma_rest_spares(canvas);
    lemma_parts(
        maybe(canvas.focus_step()),
        maybe(canvas.find_step()),
        maybe(canvas.find_file_step()),
        canvas.overlay_steps(),
        canvas.return_steps(),
    );
}

proof fn lemma_parts(
    a: Seq<Step<Seq<char>>>,
    b: Seq<Step<Seq<char>>>,
    c: Seq<Step<Seq<char>>>,
    d: Seq<Step<Seq<char>>>,
    e: Seq<Step<Seq<char>>>,
)
    requires
        spares_cards(d + e),
    ensures
        ({
            let all = (a + b + c) + d + e;
            let n = a.len() + b.len() + c.len();
            &&& a.len() > 0 ==> all[0] == a[0]
            &&& b.len() > 0 ==> all[a.len() as int] == b[0]
            &&& c.len() > 0 ==> all[(a.len() + b.len()) as int] == c[0]
            &&& all.len() == n + d.len() + e.len()
            &&& forall|i: int|
                n <= i < all.len() ==> {
                    let s = #[trigger] all[i];
                    !(s is Terminal) && !(s is FindIn) && !(s is FindInFile)
                }
        }),
{
    let all = (a + b + c) + d + e;
    let rest = d + e;
    let n = (a.len() + b.len() + c.len()) as int;
    assert forall|i: int| n <= i < all.len() implies {
        let s = #[trigger] all[i];
        !(s is Terminal) && !(s is FindIn) && !(s is FindInFile)
    } by {
        assert(all[i] == rest[i - n]);
    }
}

/// What a frame opens and focuses, of what waits for it.
pub proof fn law_a_frame_opens_what_waits(canvas: Canvas, id: u128, needle: Seq<char>)
    ensures
        canvas.pending.find_file == Some((id, needle)) && canvas.files.contains(id)
            ==> only_file_find(canvas.steps(), id, needle),
        canvas.pending.find == Some((id, needle)) && shell_shown(canvas, id) ==> only_shell_find(
            canvas.steps(),
            id,
            needle,
        ),
        canvas.pending.focus == Some(id) && shell_shown(canvas, id) ==> only_shell(
            canvas.steps(),
            id,
        ),
        canvas.then_frame().steps().len() <= 3,
        forall|i: int|
            0 <= i < canvas.then_frame().steps().len() ==> {
                let s = #[trigger] canvas.then_frame().steps()[i];
                !(s is Terminal) && !(s is FindIn) && !(s is FindInFile)
            },
{
    lemma_steps(canvas);
    lemma_steps(canvas.then_frame());
    lemma_shell_shown(canvas, id);
    let steps = canvas.steps();
    let (a, b, c) = (
        maybe(canvas.focus_step()),
        maybe(canvas.find_step()),
        maybe(canvas.find_file_step()),
    );
    if canvas.pending.find_file == Some((id, needle)) && canvas.files.contains(id) {
        let k = (a.len() + b.len()) as int;
        assert(steps[k] == Step::FindInFile(id, needle));
    }
    if canvas.pending.find == Some((id, needle)) && shell_shown(canvas, id) {
        let k = a.len() as int;
        assert(steps[k] == Step::FindIn(id, needle));
    }
    if canvas.pending.focus == Some(id) && shell_shown(canvas, id) {
        assert(steps[0] == Step::<Seq<char>>::Terminal(id));
    }
}

/// Choosing the line of a file card's hits goes to the card and opens its find bar on what was
/// sought: on the next frame in which the card has a view, once, and with the needle of the line. The
/// palette and its find are gone, and the keyboard does not go back to where the palette was opened
/// from.
pub proof fn law_a_files_hits_open_its_find_bar(
    canvas: Canvas,
    item: Item<Seq<char>>,
    needle: Seq<char>,
    query: Option<Seq<char>>,
    files: Seq<(u128, Vec<String>)>,
    id: u128,
    slot: Rect,
)
    requires
        canvas.doc.sound(),
        canvas.doc.items.contains(item),
        item.kind is File,
    ensures
        ({
            let run = PaletteRun::FindInFile { item: item.id, needle };
            let next = canvas.then_palette(PaletteEvent::Run(run), query, files, id, slot);
            &&& next.active == Some(item.id)
            &&& next.pending.reveal == Some(item.id)
            &&& next.pending.find_file == Some((item.id, needle))
            &&& next.files == canvas.files
            &&& next.files.contains(item.id) ==> only_file_find(next.steps(), item.id, needle)
            &&& !next.palette && next.find.needle is None && next.palette_return is None
        }),
{
    lemma_card(canvas.doc, item);
    let run = PaletteRun::FindInFile { item: item.id, needle };
    let next = canvas.then_palette(PaletteEvent::Run(run), query, files, id, slot);
    law_a_frame_opens_what_waits(next, item.id, needle);
}

/// Choosing the line of a shell's hits goes to its card, gives it the keyboard and opens its find bar
/// on what was sought, once the shell is drawn.
pub proof fn law_a_shells_hits_open_its_find_bar(
    canvas: Canvas,
    session: u128,
    at: int,
    needle: Seq<char>,
    query: Option<Seq<char>>,
    files: Seq<(u128, Vec<String>)>,
    id: u128,
    slot: Rect,
)
    requires
        canvas.doc.sound(),
        first_for(canvas, session, at),
    ensures
        ({
            let run = PaletteRun::FindIn { session, needle };
            let next = canvas.then_palette(PaletteEvent::Run(run), query, files, id, slot);
            &&& next.active == Some(canvas.doc.items[at].id)
            &&& next.pending.reveal == Some(canvas.doc.items[at].id)
            &&& next.pending.find == Some((session, needle))
            &&& next.pending.focus == Some(session)
            &&& shell_shown(canvas, session) ==> only_shell_find(next.steps(), session, needle)
                && only_shell(next.steps(), session)
            &&& !next.palette && next.find.needle is None && next.palette_return is None
        }),
{
    lemma_first_is(canvas, session, at);
    let run = PaletteRun::FindIn { session, needle };
    let next = canvas.then_palette(PaletteEvent::Run(run), query, files, id, slot);
    assert(next.shells.terminals == canvas.shells.terminals);
    assert(shell_shown(canvas, session) ==> shell_shown(next, session)) by {
        if shell_shown(canvas, session) {
            let i = choose|i: int|
                0 <= i < canvas.shells.terminals.len() && (
                #[trigger] canvas.shells.terminals[i]).session == session;
            assert(next.shells.terminals[i].session == session);
        }
    }
    law_a_frame_opens_what_waits(next, session, needle);
}

/// Choosing a shell or a card goes there: its card is active and comes into view, and a shell takes
/// the keyboard.
pub proof fn law_a_chosen_card_is_gone_to(
    canvas: Canvas,
    session: u128,
    at: int,
    item: Item<Seq<char>>,
    query: Option<Seq<char>>,
    files: Seq<(u128, Vec<String>)>,
    id: u128,
    slot: Rect,
)
    requires
        canvas.doc.sound(),
        first_for(canvas, session, at),
        canvas.doc.items.contains(item),
        !(item.kind is Terminal),
    ensures
        ({
            let event = PaletteEvent::Run(PaletteRun::<Seq<char>>::Session(session));
            let next = canvas.then_palette(event, query, files, id, slot);
            &&& next.active == Some(canvas.doc.items[at].id)
            &&& next.pending.reveal == Some(canvas.doc.items[at].id)
            &&& next.pending.focus == Some(session)
            &&& shell_shown(canvas, session) ==> only_shell(next.steps(), session)
            &&& next.palette_return is None
        }),
        ({
            let event = PaletteEvent::Run(PaletteRun::<Seq<char>>::Item(item.id));
            let next = canvas.then_palette(event, query, files, id, slot);
            &&& next.active == Some(item.id)
            &&& next.pending.reveal == Some(item.id)
            &&& next.pending.focus == canvas.pending.focus
            &&& next.palette_return == canvas.palette_return
        }),
        ({
            let event = PaletteEvent::Run(PaletteRun::<Seq<char>>::Item(canvas.doc.items[at].id));
            let next = canvas.then_palette(event, query, files, id, slot);
            &&& next.active == Some(canvas.doc.items[at].id)
            &&& next.pending.focus == Some(session)
        }),
{
    lemma_first_is(canvas, session, at);
    lemma_card(canvas.doc, item);
    assert(canvas.doc.items.contains(canvas.doc.items[at]));
    lemma_card(canvas.doc, canvas.doc.items[at]);
    let event = PaletteEvent::Run(PaletteRun::<Seq<char>>::Session(session));
    let next = canvas.then_palette(event, query, files, id, slot);
    assert(shell_shown(canvas, session) ==> shell_shown(next, session)) by {
        if shell_shown(canvas, session) {
            let i = choose|i: int|
                0 <= i < canvas.shells.terminals.len() && (
                #[trigger] canvas.shells.terminals[i]).session == session;
            assert(next.shells.terminals[i].session == session);
        }
    }
    law_a_frame_opens_what_waits(next, session, Seq::empty());
}

/// What the other lines of the palette do: a command is typed again into the shell it ran in, a shell
/// or an agent starts in the directory of the line, the camera keeps up with another client who looks
/// somewhere, and an action waits until the keyboard is back.
pub proof fn law_the_other_lines_of_the_palette(
    canvas: Canvas,
    session: u128,
    text: Seq<char>,
    cwd: Seq<char>,
    client: u128,
    action: Action,
    query: Option<Seq<char>>,
    files: Seq<(u128, Vec<String>)>,
    id: u128,
    slot: Rect,
)
    ensures
        ({
            let event = PaletteEvent::Run(PaletteRun::Rerun { session, command: text });
            let next = canvas.then_palette(event, query, files, id, slot);
            let typed: Done = Effect::RunText { session, text };
            &&& shell_shown(canvas, session) ==> next.out.len() > 0 && next.out.last() == typed
            &&& !shell_shown(canvas, session) ==> forall|i: int|
                canvas.out.len() <= i < next.out.len() ==> !((#[trigger] next.out[i]) is RunText)
        }),
        ({
            let event = PaletteEvent::Run(PaletteRun::OpenShell { cwd });
            let next = canvas.then_palette(event, query, files, id, slot);
            next.out == canvas.out.push(
                Effect::Send(
                    ClientMsg::OpenSession { cwd: Some(cwd), command: Seq::empty(), title: None },
                ),
            )
        }),
        ({
            let event = PaletteEvent::Run(PaletteRun::OpenAgent { cwd, command: text });
            let next = canvas.then_palette(event, query, files, id, slot);
            next.out == canvas.out.push(
                Effect::Send(
                    ClientMsg::OpenSession {
                        cwd: Some(cwd),
                        command: seq![text],
                        title: Some(text),
                    },
                ),
            )
        }),
        ({
            let event = PaletteEvent::Run(PaletteRun::<Seq<char>>::Follow(client));
            let next = canvas.then_palette(event, query, files, id, slot);
            if someone_looks(canvas, client) {
                next.following == Some(client) && next.out == canvas.out.push(
                    Effect::Fly(Aim::Looker(client)),
                )
            } else {
                next.following is None && next.out == canvas.out
            }
        }),
        ({
            let event = PaletteEvent::Run(PaletteRun::<Seq<char>>::Action(action));
            let next = canvas.then_palette(event, query, files, id, slot);
            &&& next.palette_action == Some(action)
            &&& next.palette_return == canvas.palette_return
            &&& next.out == canvas.out
            &&& !next.palette
        }),
        ({
            let next = canvas.then_palette(PaletteEvent::Dismiss, query, files, id, slot);
            &&& !next.palette && next.find.needle is None
            &&& next.find.last == canvas.find.last
            &&& forall|c: u128| !#[trigger] next.find.hits.contains_key(c)
            &&& next.palette_return == canvas.palette_return
            &&& next.out == canvas.out && next.active == canvas.active
        }),
{
    lemma_shell_shown(canvas, session);
    let gone = canvas.then_palette_gone();
    let kept = Canvas { palette_return: None, ..gone };
    let next = kept.then_reveal_session(session);
    assert(next.shells.terminals == canvas.shells.terminals);
    assert(someone_looks(gone, client) == someone_looks(canvas, client)) by {
        assert(gone.doc.lookers == canvas.doc.lookers);
    }
    lemma_someone_looks(gone, client);
    assert(next.out == canvas.out || (next.out.len() == canvas.out.len() + 1
        && next.out.last() is Send));
}

/// The agent in the card's session is blocked on the human; one that sits at its prompt is not.
pub open spec fn blocked_on_you(canvas: Canvas, item: Item<Seq<char>>) -> bool {
    &&& has_agent(canvas, item)
    &&& canvas.shells.agents[item.kind->session].status matches AgentStatus::Blocked(why)
    &&& !(why is IdlePrompt)
}

/// There is an agent in the card's session.
pub open spec fn has_agent(canvas: Canvas, item: Item<Seq<char>>) -> bool {
    item.kind is Terminal && canvas.shells.agents.contains_key(item.kind->session)
}

/// `a` is read before `b`: it is higher up, or as high and further left.
pub open spec fn reads_before(a: Rect, b: Rect) -> bool {
    float_key(a.y) < float_key(b.y) || (float_key(a.y) == float_key(b.y) && float_key(a.x)
        < float_key(b.x))
}

/// The card at `a` is listed before the one at `b`: who waits on the human first, then who has an
/// agent, then the rest; those alike as they are read, and at the same place as they stand.
pub open spec fn listed_before(canvas: Canvas, a: int, b: int) -> bool {
    let (x, y) = (canvas.doc.items[a], canvas.doc.items[b]);
    if blocked_on_you(canvas, x) != blocked_on_you(canvas, y) {
        blocked_on_you(canvas, x)
    } else if has_agent(canvas, x) != has_agent(canvas, y) {
        has_agent(canvas, x)
    } else {
        reads_before(x.rect, y.rect) || (!reads_before(y.rect, x.rect) && a < b)
    }
}

/// The row speaks of the card: its session, what its title bar says, whether there is an agent and
/// whether it waits on the human.
pub open spec fn tells_of(canvas: Canvas, row: Row<Seq<char>>, item: Item<Seq<char>>) -> bool {
    &&& item.kind is Terminal
    &&& row.session == item.kind->session
    &&& row.title == canvas.card_title(item)
    &&& row.status is Some == has_agent(canvas, item)
    &&& row.status matches Some(line) ==> line == crate::agent::status_line(
        canvas.shells.agents[item.kind->session],
    )
    &&& row.needs_you == blocked_on_you(canvas, item)
}

/// The rows speak of the cards at the places `at`: of each terminal once, of nothing else, in the
/// order that they are listed.
pub open spec fn rows_stand(canvas: Canvas, rows: Seq<Row<Seq<char>>>, at: Seq<int>) -> bool {
    &&& at.len() == rows.len()
    &&& forall|i: int|
        0 <= i < at.len() ==> 0 <= (#[trigger] at[i]) < canvas.doc.items.len() && tells_of(
            canvas,
            rows[i],
            canvas.doc.items[at[i]],
        )
    &&& forall|k: int|
        0 <= k < canvas.doc.items.len() && (#[trigger] canvas.doc.items[k]).kind is Terminal
            ==> at.contains(k)
    &&& forall|i: int, j: int|
        0 <= i < j < at.len() ==> listed_before(canvas, #[trigger] at[i], #[trigger] at[j])
}

/// Where the terminals stand among the cards.
proof fn lemma_terminal_places(items: Seq<Item<Seq<char>>>) -> (at: Seq<int>)
    ensures
        at.len() == terminal_cards(items).len(),
        forall|k: int|
            0 <= k < at.len() ==> 0 <= (#[trigger] at[k]) < items.len() && items[at[k]]
                == terminal_cards(items)[k] && items[at[k]].kind is Terminal,
        forall|i: int, j: int| 0 <= i < j < at.len() ==> #[trigger] at[i] < #[trigger] at[j],
        forall|n: int|
            0 <= n < items.len() && (#[trigger] items[n]).kind is Terminal ==> at.contains(n),
    decreases items.len(),
{
    if items.len() == 0 {
        Seq::empty()
    } else {
        let init = items.drop_last();
        let was = lemma_terminal_places(init);
        assert forall|k: int| 0 <= k < was.len() implies items[#[trigger] was[k]] == init[was[k]] by {}
        if items.last().kind is Terminal {
            let at = was.push(init.len() as int);
            assert forall|n: int| 0 <= n < items.len() && (#[trigger] items[n]).kind is Terminal implies
                at.contains(n) by {
                if n < init.len() {
                    assert(init[n] == items[n]);
                    let k = choose|k: int| 0 <= k < was.len() && was[k] == n;
                    assert(at[k] == n);
                } else {
                    assert(at[was.len() as int] == n);
                }
            }
            at
        } else {
            assert forall|n: int| 0 <= n < items.len() && (#[trigger] items[n]).kind is Terminal implies
                was.contains(n) by {
                assert(init[n] == items[n]);
            }
            was
        }
    }
}

proof fn lemma_key_bounds(bits: u32)
    ensures
        -0x8000_0000 <= float_key(bits) < 0x8000_0000,
{
}

proof fn lemma_row_order(canvas: Canvas, x: Item<Seq<char>>, y: Item<Seq<char>>)
    requires
        x.kind is Terminal,
        y.kind is Terminal,
    ensures
        tells_of(canvas, row_of(canvas, x), x),
        -0x8000_0000_0000_0000 <= row_key(canvas, x) < 0x4_0000_0000_0000_0000,
        row_key(canvas, x) < row_key(canvas, y) ==> (if blocked_on_you(canvas, x) != blocked_on_you(
            canvas,
            y,
        ) {
            blocked_on_you(canvas, x)
        } else if has_agent(canvas, x) != has_agent(canvas, y) {
            has_agent(canvas, x)
        } else {
            reads_before(x.rect, y.rect)
        }),
        row_key(canvas, x) == row_key(canvas, y) ==> blocked_on_you(canvas, x) == blocked_on_you(
            canvas,
            y,
        ) && has_agent(canvas, x) == has_agent(canvas, y) && !reads_before(y.rect, x.rect),
{
    lemma_key_bounds(x.rect.x);
    lemma_key_bounds(x.rect.y);
    lemma_key_bounds(y.rect.x);
    lemma_key_bounds(y.rect.y);
    let (a, b) = (row_of(canvas, x), row_of(canvas, y));
    assert(a.needs_you == blocked_on_you(canvas, x) && b.needs_you == blocked_on_you(canvas, y));
    assert(a.status is Some == has_agent(canvas, x) && b.status is Some == has_agent(canvas, y));
    assert(0 <= rank_of(a) <= 2 && 0 <= rank_of(b) <= 2);
}

/// The list of the shells for the picker and the palette has one row for each terminal on the canvas:
/// those whose agent waits on the human first, then those with another agent, then the plain shells;
/// rows alike in that stand in reading order.
pub proof fn law_who_waits_on_you_is_listed_first(canvas: Canvas)
    requires
        canvas.doc.items.len() <= usize::MAX,
    ensures
        exists|at: Seq<int>| rows_stand(canvas, canvas.rows(), at),
{
    let items = canvas.doc.items;
    let cards = terminal_cards(items);
    let places = lemma_terminal_places(items);
    lemma_few(items);
    let keys = row_keys(canvas, cards);
    let order = lemma_an_order(keys);
    let rows = canvas.rows();
    let at = Seq::new(order.len(), |i: int| places[order[i] as int]);
    assert forall|i: int| 0 <= i < at.len() implies 0 <= (#[trigger] at[i]) < items.len() && tells_of(
        canvas,
        rows[i],
        items[at[i]],
    ) by {
        let k = order[i] as int;
        assert(items[places[k]] == cards[k]);
        lemma_row_order(canvas, cards[k], cards[k]);
    }
    assert forall|k: int| 0 <= k < items.len() && (#[trigger] items[k]).kind is Terminal implies
        at.contains(k) by {
        let p = choose|p: int| 0 <= p < places.len() && places[p] == k;
        assert(order.contains(p as usize));
        let i = choose|i: int| 0 <= i < order.len() && order[i] == p as usize;
        assert(at[i] == k);
    }
    assert forall|i: int, j: int| 0 <= i < j < at.len() implies listed_before(
        canvas,
        #[trigger] at[i],
        #[trigger] at[j],
    ) by {
        let (a, b) = (order[i] as int, order[j] as int);
        assert(before(keys, order[i], order[j]));
        assert(items[places[a]] == cards[a] && items[places[b]] == cards[b]);
        lemma_row_order(canvas, cards[a], cards[b]);
        lemma_row_order(canvas, cards[b], cards[a]);
        assert(keys[a] == row_key(canvas, cards[a]) && keys[b] == row_key(canvas, cards[b]));
        if a < b {
            assert(places[a] < places[b]);
        }
    }
    assert(rows_stand(canvas, rows, at));
}

proof fn lemma_few(items: Seq<Item<Seq<char>>>)
    ensures
        terminal_cards(items).len() <= items.len(),
    decreases items.len(),
{
    if items.len() > 0 {
        lemma_few(items.drop_last());
    }
}

} // verus!
