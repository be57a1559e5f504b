//! What the canvas promises to show around its cards: the toast, the others, the overview, the pills.
use vstd::prelude::*;

use crate::canvas::doc::{place_of, Item, ItemKind};
use crate::canvas::face::{client_colour, Pill};
use crate::canvas::terms::{first_for, lemma_card, lemma_first_is};
use crate::canvas::titles::device;
use crate::canvas::view::{Canvas, Toast, ToastKind};
use crate::theme::{Alpha, Swatch};

verus! {

/// The toast says who points at what, what was closed, or what this client is told; only the first
/// two can be pressed. A pointing at a card that is gone is shown no more.
pub proof fn law_the_toast_says_what_happened(
    canvas: Canvas,
    item: Item<Seq<char>>,
    gone: u128,
    name: Seq<char>,
    text: Seq<char>,
    seq: u64,
    closing: u64,
)
    requires
        canvas.doc.sound(),
        canvas.doc.items.contains(item),
        !canvas.doc.has(gone),
    ensures
        ({
            let pointed = Canvas {
                toast: Some(Toast { seq, what: ToastKind::Pointed { name, item: item.id } }),
                ..canvas
            };
            let said = name + " points at "@ + canvas.card_title(item);
            &&& pointed.toast_face() matches Some(face)
            &&& face.text == said && face.label == said + ", go there"@
            &&& face.hint == Some("· go"@)
        }),
        ({
            let lost = Canvas {
                toast: Some(Toast { seq, what: ToastKind::Pointed { name, item: gone } }),
                ..canvas
            };
            lost.toast_face() is None && lost.then_toast_pressed() == lost
        }),
        ({
            let closed = Canvas {
                toast: Some(Toast { seq, what: ToastKind::Closed { seq: closing, title: text } }),
                ..canvas
            };
            &&& closed.toast_face() matches Some(face)
            &&& face.text == "closed "@ + text && face.label == "closed "@ + text
                + ", take it back"@
            &&& face.hint == Some("· take back ⌘Z"@)
            &&& closed.then_toast_pressed() == closed.then_take_back(Some(closing))
        }),
        ({
            let told = Canvas {
                toast: Some(Toast { seq, what: ToastKind::Said(text) }),
                ..canvas
            };
            &&& told.toast_face() matches Some(face)
            &&& face.text == text && face.label == text && face.hint is None
            &&& told.then_toast_pressed() == told
        }),
        canvas.toast is None ==> canvas.toast_face() is None && canvas.then_toast_pressed()
            == canvas,
{
    lemma_card(canvas.doc, item);
}

/// Pressing a pointing goes to the card: it is active, about to be in view, and the toast is gone.
pub proof fn law_a_pointing_leads_to_the_card(
    canvas: Canvas,
    item: Item<Seq<char>>,
    name: Seq<char>,
    seq: u64,
)
    requires
        canvas.doc.sound(),
        canvas.doc.items.contains(item),
        canvas.toast == Some(Toast { seq, what: ToastKind::Pointed { name, item: item.id } }),
        item.kind matches ItemKind::Terminal { session } ==> first_for(
            canvas,
            session,
            place_of(canvas.doc.items, item.id),
        ),
    ensures
        ({
            let next = canvas.then_toast_pressed();
            &&& next.toast is None
            &&& next.active == Some(item.id) && next.pending.reveal == Some(item.id)
            &&& item.kind matches ItemKind::Terminal { session } ==> next.pending.focus == Some(
                session,
            )
        }),
{
    lemma_card(canvas.doc, item);
    if let ItemKind::Terminal { session } = item.kind {
        lemma_first_is(canvas, session, place_of(canvas.doc.items, item.id));
    }
}

/// Everyone else who is here has a pill with their name, which says that they are followed exactly
/// while the camera keeps up with them: then it is filled with their colour. It stands for where
/// they look.
pub proof fn law_everyone_else_has_a_pill(canvas: Canvas, i: int)
    requires
        0 <= i < canvas.doc.lookers.len(),
    ensures
        canvas.here().len() == canvas.doc.lookers.len(),
        ({
            let face = canvas.here()[i];
            let who = canvas.doc.lookers[i];
            let followed = canvas.following == Some(who.client);
            &&& face.client == who.client && face.name == who.name && face.view == who.view
            &&& face.following == followed
            &&& followed ==> face.tag == "following "@ + who.name && face.label == "following "@
                + who.name + ", "@ + device(who.kind)
            &&& !followed ==> face.tag == "follow "@ + who.name && face.label == "follow "@
                + who.name + ", "@ + device(who.kind)
            &&& face.colour == client_colour(who.client)
            &&& followed ==> face.fill.swatch == face.colour && face.fill.alpha == Alpha::Opaque
                && face.text == Swatch::AccentFg
            &&& !followed ==> face.fill.swatch == Swatch::Panel && face.fill.alpha
                == Alpha::Minimap && face.text == Swatch::Text
        }),
{
}

/// A client's colour rests on its identity alone: four in turn have four colours, and then they come
/// round again.
pub proof fn law_four_clients_have_four_colours(client: u128)
    requires
        client + 4 <= u128::MAX,
    ensures
        client_colour(client) != client_colour((client + 1) as u128),
        client_colour(client) != client_colour((client + 2) as u128),
        client_colour(client) != client_colour((client + 3) as u128),
        client_colour(client) == client_colour((client + 4) as u128),
        client % 4 == 0 ==> client_colour(client) == Swatch::Accent,
        client % 4 == 1 ==> client_colour(client) == Swatch::Success,
        client % 4 == 2 ==> client_colour(client) == Swatch::Warn,
        client % 4 == 3 ==> client_colour(client) == Swatch::Error,
{
}

/// The overview shows every card where it lies, the active one in the accent, and behind them where
/// each of the others looks, as an outline in their colour.
pub proof fn law_the_overview_shows_everything(canvas: Canvas, i: int, k: int)
    requires
        0 <= i < canvas.doc.items.len(),
        0 <= k < canvas.doc.lookers.len(),
    ensures
        ({
            let all = canvas.overview();
            let item = canvas.doc.items[i];
            let who = canvas.doc.lookers[k];
            let (card, look) = (all[i], all[canvas.doc.items.len() + k]);
            &&& all.len() == canvas.doc.items.len() + canvas.doc.lookers.len()
            &&& card.rect == item.rect && !card.outline && card.shade.alpha == Alpha::MinimapItem
            &&& card.shade.swatch == (if canvas.active == Some(item.id) {
                Swatch::Accent
            } else {
                Swatch::TextMuted
            })
            &&& look.rect == who.view && look.outline && look.shade.alpha == Alpha::MinimapLooker
            &&& look.shade.swatch == client_colour(who.client)
        }),
{
}

/// A pill says in a word what it does, and a screen reader reads it out. What it would undo shows in
/// its tone: one that is muted and hooks that are missing warn.
pub proof fn law_a_pill_says_what_it_does(pill: Pill)
    ensures
        pill is Take ==> pill.wears().0 == "take"@ && pill.wears().1 == "take over"@,
        pill matches Pill::Mute { muted } ==> {
            &&& muted ==> pill.wears().0 == "muted"@ && pill.wears().1 == "unmute"@
            &&& !muted ==> pill.wears().0 == "mute"@ && pill.wears().1 == "mute"@
        },
        pill is Point ==> pill.wears().0 == "point"@ && pill.wears().1
            == "Point the others at this card"@,
        pill is Find ==> pill.wears().0 == "find"@ && pill.wears().1 == "Find in the file"@,
        pill is Edit ==> pill.wears().0 == "edit"@ && pill.wears().1
            == "Open the file in the editor"@,
        pill is Reload ==> pill.wears().0 == "reload"@ && pill.wears().1 == "Read the file again"@,
        pill is Hooks ==> pill.wears().0 == "hooks"@ && pill.wears().1 == "install hooks"@,
        pill.wears().2 == Swatch::Warn <==> (pill is Hooks || pill == (Pill::Mute { muted: true })),
        pill.wears().2 == Swatch::Accent <==> (pill is Take || pill == (Pill::Mute {
            muted: false,
        })),
        pill.wears().2 == Swatch::TextSecondary <==> (pill is Point || pill is Find || pill is Edit
            || pill is Reload),
{
}

} // verus!
