//! The remote windows and displays of the canvas: which streams are open, which are asked for,
//! and what the windows are called.
use vstd::prelude::*;

use crate::canvas::doc::{CanvasDoc, Item, ItemKind};
use crate::canvas::msg::{CaptureTarget, ClientMsg, Done, Effect, Outbox, ScreenRequest};
use crate::table::Table;
use crate::text::chars_of;

verus! {

/// A stream shown on a card.
#[derive(Clone, Copy, PartialEq, Eq, Structural, Debug)]
pub struct Stream {
    pub item: u128,
    pub stream: u64,
    pub target: CaptureTarget,
}

/// A window on the host.
#[derive(Debug, PartialEq, Eq)]
pub struct Window<T> {
    pub id: u64,
    pub title: T,
    pub app: T,
}

/// A window as it is listed.
pub type WindowInfo = Window<String>;

impl DeepView for Window<String> {
    type V = Window<Seq<char>>;

    open spec fn deep_view(&self) -> Window<Seq<char>> {
        Window { id: self.id, title: self.title@, app: self.app@ }
    }
}

/// The streams of the canvas.
#[derive(Debug)]
pub struct Screens {
    open: Vec<Stream>,
    /// Streams requested from the host but not yet opened.
    pending: Vec<(CaptureTarget, u128)>,
    /// Titles of window cards (the document only stores identities).
    titles: Table<String>,
    /// A listing is in flight to name restored window cards.
    titles_requested: bool,
}

/// The streams, in the model.
pub struct ScreenState {
    pub open: Seq<Stream>,
    pub pending: Seq<(CaptureTarget, u128)>,
    pub titles: Map<u128, Seq<char>>,
    pub titles_requested: bool,
}

impl DeepView for Screens {
    type V = ScreenState;

    closed spec fn deep_view(&self) -> ScreenState {
        ScreenState {
            open: self.open@,
            pending: self.pending@,
            titles: self.titles.deep_view(),
            titles_requested: self.titles_requested,
        }
    }
}

/// The stream on a card.
pub open spec fn stream_on(open: Seq<Stream>, item: u128) -> Option<Stream>
    decreases open.len(),
{
    if open.len() == 0 {
        None
    } else if open[0].item == item {
        Some(open[0])
    } else {
        stream_on(open.drop_first(), item)
    }
}

/// The streams but that on a card.
pub open spec fn streams_without(open: Seq<Stream>, item: u128) -> Seq<Stream>
    decreases open.len(),
{
    if open.len() == 0 {
        Seq::empty()
    } else if open.last().item == item {
        streams_without(open.drop_last(), item)
    } else {
        streams_without(open.drop_last(), item).push(open.last())
    }
}

/// The streams but one.
pub open spec fn streams_but(open: Seq<Stream>, stream: u64) -> Seq<Stream>
    decreases open.len(),
{
    if open.len() == 0 {
        Seq::empty()
    } else if open.last().stream == stream {
        streams_but(open.drop_last(), stream)
    } else {
        streams_but(open.drop_last(), stream).push(open.last())
    }
}

/// The cards a stream is shown on.
pub open spec fn cards_of(open: Seq<Stream>, stream: u64) -> Seq<u128>
    decreases open.len(),
{
    if open.len() == 0 {
        Seq::empty()
    } else if open.last().stream == stream {
        cards_of(open.drop_last(), stream).push(open.last().item)
    } else {
        cards_of(open.drop_last(), stream)
    }
}

/// The card a stream of `target` is asked for.
pub open spec fn asked_for(pending: Seq<(CaptureTarget, u128)>, target: CaptureTarget) -> Option<
    u128,
>
    decreases pending.len(),
{
    if pending.len() == 0 {
        None
    } else if pending[0].0 == target {
        Some(pending[0].1)
    } else {
        asked_for(pending.drop_first(), target)
    }
}

/// What is asked for but for `target`.
pub open spec fn asked_but(pending: Seq<(CaptureTarget, u128)>, target: CaptureTarget) -> Seq<
    (CaptureTarget, u128),
>
    decreases pending.len(),
{
    if pending.len() == 0 {
        Seq::empty()
    } else if pending.last().0 == target {
        asked_but(pending.drop_last(), target)
    } else {
        asked_but(pending.drop_last(), target).push(pending.last())
    }
}

/// A stream is asked for on this card.
pub open spec fn asked_on(pending: Seq<(CaptureTarget, u128)>, item: u128) -> bool {
    exists|i: int| 0 <= i < pending.len() && (#[trigger] pending[i]).1 == item
}

/// The cards that are to show a stream, and of what.
pub open spec fn wanted(items: Seq<Item<Seq<char>>>) -> Seq<(u128, CaptureTarget)>
    decreases items.len(),
{
    if items.len() == 0 {
        Seq::empty()
    } else {
        let rest = wanted(items.drop_last());
        let item = items.last();
        if item.sleeping {
            rest
        } else {
            match item.kind {
                ItemKind::Window { window } => rest.push((item.id, CaptureTarget::Window(window))),
                ItemKind::Display { display } => rest.push(
                    (item.id, CaptureTarget::Display(display)),
                ),
                _ => rest,
            }
        }
    }
}

/// The card is among those that are to show a stream.
pub open spec fn is_wanted(want: Seq<(u128, CaptureTarget)>, item: u128) -> bool {
    exists|i: int| 0 <= i < want.len() && (#[trigger] want[i]).0 == item
}

/// A window card without a title.
pub open spec fn untitled(titles: Map<u128, Seq<char>>, item: Item<Seq<char>>) -> bool {
    item.kind is Window && !titles.contains_key(item.id)
}

/// Some window card has no title.
pub open spec fn some_untitled(titles: Map<u128, Seq<char>>, items: Seq<Item<Seq<char>>>) -> bool {
    exists|i: int| 0 <= i < items.len() && untitled(titles, #[trigger] items[i])
}

/// The window with this identity.
pub open spec fn window_in(windows: Seq<Window<Seq<char>>>, id: u64) -> Option<Window<Seq<char>>>
    decreases windows.len(),
{
    if windows.len() == 0 {
        None
    } else if windows[0].id == id {
        Some(windows[0])
    } else {
        window_in(windows.drop_first(), id)
    }
}

/// What a window is called: its title, else its app.
pub open spec fn window_title(window: Window<Seq<char>>) -> Seq<char> {
    if window.title.len() == 0 {
        window.app
    } else {
        window.title
    }
}

/// The titles with those of the window cards among `items` that a listing names.
pub open spec fn named(
    titles: Map<u128, Seq<char>>,
    items: Seq<Item<Seq<char>>>,
    windows: Seq<Window<Seq<char>>>,
) -> Map<u128, Seq<char>>
    decreases items.len(),
{
    if items.len() == 0 {
        titles
    } else {
        let rest = named(titles, items.drop_last(), windows);
        let item = items.last();
        match item.kind {
            ItemKind::Window { window } => match window_in(windows, window) {
                Some(info) => if rest.contains_key(item.id) {
                    rest
                } else {
                    rest.insert(item.id, window_title(info))
                },
                None => rest,
            },
            _ => rest,
        }
    }
}

/// A request on the host's screens.
pub open spec fn screen_req(req: ScreenRequest) -> Done {
    Effect::Send(ClientMsg::Screen(req))
}

impl ScreenState {
    /// No stream, nothing asked for.
    pub open spec fn blank() -> ScreenState {
        ScreenState {
            open: Seq::empty(),
            pending: Seq::empty(),
            titles: Map::empty(),
            titles_requested: false,
        }
    }

    /// A listing names the window cards that have no title yet.
    pub open spec fn then_titles(
        self,
        items: Seq<Item<Seq<char>>>,
        windows: Seq<Window<Seq<char>>>,
    ) -> ScreenState {
        ScreenState {
            titles: named(self.titles, items, windows),
            titles_requested: false,
            ..self
        }
    }

    /// A card is to show a stream: it is asked for, unless it is there, on its way, or the same
    /// target is on its way elsewhere.
    pub open spec fn then_want(self, one: (u128, CaptureTarget), out: Seq<Done>) -> (
        ScreenState,
        Seq<Done>,
    ) {
        if stream_on(self.open, one.0) is Some || asked_on(self.pending, one.0) || asked_for(
            self.pending,
            one.1,
        ) is Some {
            (self, out)
        } else {
            (
                ScreenState { pending: self.pending.push((one.1, one.0)), ..self },
                out.push(screen_req(ScreenRequest::Open { target: one.1 })),
            )
        }
    }

    /// The streams `want` asks for, one after the other.
    pub open spec fn then_want_all(self, want: Seq<(u128, CaptureTarget)>, out: Seq<Done>) -> (
        ScreenState,
        Seq<Done>,
    )
        decreases want.len(),
    {
        if want.len() == 0 {
            (self, out)
        } else {
            let (state, said) = self.then_want_all(want.drop_last(), out);
            state.then_want(want.last(), said)
        }
    }

    /// The streams among the first `n` whose card is gone are closed, and its title forgotten.
    pub open spec fn then_drop(
        self,
        n: int,
        want: Seq<(u128, CaptureTarget)>,
        out: Seq<Done>,
    ) -> (Seq<Stream>, Map<u128, Seq<char>>, Seq<Done>)
        decreases n,
    {
        if n <= 0 {
            (Seq::empty(), self.titles, out)
        } else {
            let (kept, titles, said) = self.then_drop(n - 1, want, out);
            let one = self.open[n - 1];
            if is_wanted(want, one.item) {
                (kept.push(one), titles, said)
            } else {
                (
                    kept,
                    titles.remove(one.item),
                    said.push(screen_req(ScreenRequest::Close { stream: one.stream })),
                )
            }
        }
    }

    /// Streams are asked for the window and display cards that lack one, those whose card is gone
    /// are closed, and a listing is asked for where a window has no title.
    pub open spec fn then_reconcile(self, items: Seq<Item<Seq<char>>>, out: Seq<Done>) -> (
        ScreenState,
        Seq<Done>,
    ) {
        let ask = some_untitled(self.titles, items) && !self.titles_requested;
        let first = ScreenState {
            titles_requested: self.titles_requested || ask,
            ..self
        };
        let said = if ask {
            out.push(screen_req(ScreenRequest::List))
        } else {
            out
        };
        let want = wanted(items);
        let (opened, told) = first.then_want_all(want, said);
        let (kept, titles, done) = opened.then_drop(opened.open.len() as int, want, told);
        (
            ScreenState {
                open: kept,
                titles,
                pending: still_asked(opened.pending, want),
                ..opened
            },
            done,
        )
    }

    /// The host opened a stream: it is shown on the card it was asked for, or closed where nobody
    /// asked.
    pub open spec fn then_opened(self, stream: u64, target: CaptureTarget, out: Seq<Done>) -> (
        ScreenState,
        Seq<Done>,
    ) {
        match asked_for(self.pending, target) {
            Some(item) => (
                ScreenState {
                    pending: asked_but(self.pending, target),
                    open: streams_without(self.open, item).push(Stream { item, stream, target }),
                    ..self
                },
                out.push(Effect::ShowStream { item, stream }),
            ),
            None => (self, out.push(screen_req(ScreenRequest::Close { stream }))),
        }
    }

    /// The host closed a stream.
    pub open spec fn then_closed(self, stream: u64) -> ScreenState {
        ScreenState { open: streams_but(self.open, stream), ..self }
    }

    /// A card got a title.
    pub open spec fn then_titled(self, item: u128, title: Seq<char>) -> ScreenState {
        ScreenState { titles: self.titles.insert(item, title), ..self }
    }
}

/// What is asked for, for a card that is still to show a stream.
pub open spec fn still_asked(
    pending: Seq<(CaptureTarget, u128)>,
    want: Seq<(u128, CaptureTarget)>,
) -> Seq<(CaptureTarget, u128)>
    decreases pending.len(),
{
    if pending.len() == 0 {
        Seq::empty()
    } else if is_wanted(want, pending.last().1) {
        still_asked(pending.drop_last(), want).push(pending.last())
    } else {
        still_asked(pending.drop_last(), want)
    }
}

/// The cards that are to show a stream, and of what.
fn wants(doc: &CanvasDoc) -> (r: Vec<(u128, CaptureTarget)>)
    ensures
        r@ == wanted(doc.deep_view().items),
{
    let mut out: Vec<(u128, CaptureTarget)> = Vec::new();
    let ghost all = doc.deep_view().items;
    let n: usize = doc.count();
    let mut i: usize = 0;
    while i < n
        invariant
            i <= n == all.len(),
            all == doc.deep_view().items,
            out@ == wanted(all.take(i as int)),
        decreases n - i,
    {
        let item = doc.item_at(i);
        proof {
            assert(all.take(i + 1).drop_last() == all.take(i as int));
            assert(all.take(i + 1).last() == all[i as int]);
        }
        if !item.sleeping {
            match &item.kind {
                ItemKind::Window { window } => {
                    out.push((item.id, CaptureTarget::Window(*window)));
                },
                ItemKind::Display { display } => {
                    out.push((item.id, CaptureTarget::Display(*display)));
                },
                _ => {},
            }
        }
        i += 1;
    }
    assert(all.take(i as int) == all);
    out
}

/// Whether the card is among those that are to show a stream.
fn want_has(want: &Vec<(u128, CaptureTarget)>, item: u128) -> (r: bool)
    ensures
        r == is_wanted(want@, item),
{
    let mut i: usize = 0;
    while i < want.len()
        invariant
            i <= want@.len(),
            forall|k: int| 0 <= k < i ==> (#[trigger] want@[k]).0 != item,
        decreases want.len() - i,
    {
        if want[i].0 == item {
            return true;
        }
        i += 1;
    }
    false
}

/// The window with this identity.
fn window_named<'a>(windows: &'a Vec<WindowInfo>, id: u64) -> (r: Option<&'a WindowInfo>)
    ensures
        match r {
            Some(w) => window_in(windows.deep_view(), id) == Some(w.deep_view()),
            None => window_in(windows.deep_view(), id) is None,
        },
{
    let ghost all = windows.deep_view();
    let mut i: usize = 0;
    assert(all.skip(0) == all);
    while i < windows.len()
        invariant
            i <= windows@.len(),
            all == windows.deep_view(),
            all.len() == windows@.len(),
            window_in(all, id) == window_in(all.skip(i as int), id),
        decreases windows.len() - i,
    {
        proof {
            assert(all[i as int] == windows@[i as int].deep_view());
            assert(all.skip(i as int)[0] == all[i as int]);
            assert(all.skip(i as int).drop_first() == all.skip(i + 1));
        }
        if windows[i].id == id {
            return Some(&windows[i]);
        }
        i += 1;
    }
    None
}

impl Screens {
    /// No stream, nothing asked for.
    pub fn new() -> (r: Screens)
        ensures
            r.deep_view() == ScreenState::blank(),
    {
        Screens {
            open: Vec::new(),
            pending: Vec::new(),
            titles: Table::new(),
            titles_requested: false,
        }
    }

    /// The stream on a card.
    pub fn on(&self, item: u128) -> (r: Option<Stream>)
        ensures
            r == stream_on(self.deep_view().open, item),
    {
        let ghost all = self.open@;
        let mut i: usize = 0;
        assert(all.skip(0) == all);
        while i < self.open.len()
            invariant
                i <= self.open@.len(),
                all == self.open@,
                stream_on(all, item) == stream_on(all.skip(i as int), item),
            decreases self.open.len() - i,
        {
            proof {
                assert(all.skip(i as int)[0] == all[i as int]);
                assert(all.skip(i as int).drop_first() == all.skip(i + 1));
            }
            if self.open[i].item == item {
                return Some(self.open[i]);
            }
            i += 1;
        }
        None
    }

    /// The title of a window card.
    pub fn title(&self, item: u128) -> (r: Option<&String>)
        ensures
            match r {
                Some(t) => self.deep_view().titles.contains_key(item)
                    && self.deep_view().titles[item] == t@,
                None => !self.deep_view().titles.contains_key(item),
            },
    {
        self.titles.get(item)
    }

    /// A card got a title.
    pub fn set_title(&mut self, item: u128, title: String)
        ensures
            final(self).deep_view() == old(self).deep_view().then_titled(item, title@),
    {
        self.titles.put(item, title);
    }

    /// The cards a stream is shown on.
    pub fn cards(&self, stream: u64) -> (r: Vec<u128>)
        ensures
            r@ == cards_of(self.deep_view().open, stream),
    {
        let ghost all = self.open@;
        let mut out: Vec<u128> = Vec::new();
        let mut i: usize = 0;
        while i < self.open.len()
            invariant
                i <= self.open@.len(),
                all == self.open@,
                out@ == cards_of(all.take(i as int), stream),
            decreases self.open.len() - i,
        {
            proof {
                assert(all.take(i + 1).drop_last() == all.take(i as int));
                assert(all.take(i + 1).last() == all[i as int]);
            }
            if self.open[i].stream == stream {
                out.push(self.open[i].item);
            }
            i += 1;
        }
        assert(all.take(i as int) == all);
        out
    }

    /// The cards of all the streams.
    pub fn all(&self) -> (r: Vec<u128>)
        ensures
            r@ == self.deep_view().open.map_values(|s: Stream| s.item),
    {
        let ghost all = self.open@;
        let mut out: Vec<u128> = Vec::new();
        let mut i: usize = 0;
        while i < self.open.len()
            invariant
                i <= self.open@.len(),
                all == self.open@,
                out@ == all.take(i as int).map_values(|s: Stream| s.item),
            decreases self.open.len() - i,
        {
            out.push(self.open[i].item);
            assert(all.take(i + 1).map_values(|s: Stream| s.item) =~= all.take(
                i as int,
            ).map_values(|s: Stream| s.item).push(all[i as int].item));
            i += 1;
        }
        assert(all.take(i as int) == all);
        out
    }

    /// A listing names the window cards restored from the document, which have no title until
    /// then.
    pub fn fill_titles(&mut self, doc: &CanvasDoc, windows: &Vec<WindowInfo>)
        ensures
            final(self).deep_view() == old(self).deep_view().then_titles(
                doc.deep_view().items,
                windows.deep_view(),
            ),
    {
        self.titles_requested = false;
        let ghost all = doc.deep_view().items;
        let ghost was = old(self).deep_view();
        let n: usize = doc.count();
        let mut i: usize = 0;
        assert(all.take(0) =~= Seq::<Item<Seq<char>>>::empty());
        while i < n
            invariant
                i <= n == all.len(),
                all == doc.deep_view().items,
                was == old(self).deep_view(),
                self.deep_view() == (ScreenState {
                    titles: named(was.titles, all.take(i as int), windows.deep_view()),
                    titles_requested: false,
                    ..was
                }),
            decreases n - i,
        {
            let item = doc.item_at(i);
            proof {
                assert(all.take(i + 1).drop_last() == all.take(i as int));
                assert(all.take(i + 1).last() == all[i as int]);
            }
            if let ItemKind::Window { window } = &item.kind {
                if !self.titles.has(item.id) {
                    if let Some(info) = window_named(windows, *window) {
                        let title = if chars_of(info.title.as_str()).len() == 0 {
                            info.app.clone()
                        } else {
                            info.title.clone()
                        };
                        self.titles.put(item.id, title);
                    }
                }
            }
            i += 1;
        }
        assert(all.take(i as int) == all);
    }

    /// Whether a stream is asked for on this card.
    fn asked_for_card(&self, item: u128) -> (r: bool)
        ensures
            r == asked_on(self.pending@, item),
    {
        let mut i: usize = 0;
        while i < self.pending.len()
            invariant
                i <= self.pending@.len(),
                forall|k: int| 0 <= k < i ==> (#[trigger] self.pending@[k]).1 != item,
            decreases self.pending.len() - i,
        {
            if self.pending[i].1 == item {
                return true;
            }
            i += 1;
        }
        false
    }

    /// The card a stream of `target` is asked for.
    fn asked(&self, target: CaptureTarget) -> (r: Option<u128>)
        ensures
            r == asked_for(self.pending@, target),
    {
        let ghost all = self.pending@;
        let mut i: usize = 0;
        assert(all.skip(0) == all);
        while i < self.pending.len()
            invariant
                i <= self.pending@.len(),
                all == self.pending@,
                asked_for(all, target) == asked_for(all.skip(i as int), target),
            decreases self.pending.len() - i,
        {
            proof {
                assert(all.skip(i as int)[0] == all[i as int]);
                assert(all.skip(i as int).drop_first() == all.skip(i + 1));
            }
            if self.pending[i].0 == target {
                return Some(self.pending[i].1);
            }
            i += 1;
        }
        None
    }

    /// A card is to show a stream.
    fn want(&mut self, item: u128, target: CaptureTarget, out: &mut Outbox)
        ensures
            (final(self).deep_view(), final(out).deep_view()) == old(self).deep_view().then_want(
                (item, target),
                old(out).deep_view(),
            ),
    {
        if self.on(item).is_some() || self.asked_for_card(item) {
            return;
        }
        if self.asked(target).is_some() {
            return;
        }
        self.pending.push((target, item));
        out.send(ClientMsg::Screen(ScreenRequest::Open { target }));
    }

    /// Whether some window card has no title.
    fn lacks_title(&self, doc: &CanvasDoc) -> (r: bool)
        ensures
            r == some_untitled(self.deep_view().titles, doc.deep_view().items),
    {
        let n: usize = doc.count();
        let mut i: usize = 0;
        while i < n
            invariant
                i <= n == doc.deep_view().items.len(),
                forall|k: int|
                    0 <= k < i ==> !untitled(
                        self.deep_view().titles,
                        #[trigger] doc.deep_view().items[k],
                    ),
            decreases n - i,
        {
            let item = doc.item_at(i);
            if let ItemKind::Window { .. } = &item.kind {
                if !self.titles.has(item.id) {
                    assert(untitled(self.deep_view().titles, doc.deep_view().items[i as int]));
                    return true;
                }
            }
            i += 1;
        }
        false
    }

    /// Open streams for window and display cards that lack one; drop those whose card is gone.
    pub fn reconcile(&mut self, doc: &CanvasDoc, out: &mut Outbox)
        ensures
            (final(self).deep_view(), final(out).deep_view())
                == old(self).deep_view().then_reconcile(
                doc.deep_view().items,
                old(out).deep_view(),
            ),
    {
        if !self.titles_requested && self.lacks_title(doc) {
            self.titles_requested = true;
            out.send(ClientMsg::Screen(ScreenRequest::List));
        }
        let want = wants(doc);
        let ghost first = self.deep_view();
        let ghost said = out.deep_view();
        let mut i: usize = 0;
        assert(want@.take(0) =~= Seq::<(u128, CaptureTarget)>::empty());
        while i < want.len()
            invariant
                i <= want@.len(),
                (self.deep_view(), out.deep_view()) == first.then_want_all(
                    want@.take(i as int),
                    said,
                ),
            decreases want.len() - i,
        {
            let (item, target) = want[i];
            proof {
                assert(want@.take(i + 1).drop_last() == want@.take(i as int));
                assert(want@.take(i + 1).last() == want@[i as int]);
            }
            self.want(item, target, out);
            i += 1;
        }
        assert(want@.take(i as int) == want@);
        let ghost opened = self.deep_view();
        let ghost told = out.deep_view();
        let mut kept: Vec<Stream> = Vec::new();
        let mut j: usize = 0;
        while j < self.open.len()
            invariant
                j <= self.open@.len(),
                self.open@ == opened.open,
                self.deep_view() == (ScreenState { titles: self.titles.deep_view(), ..opened }),
                (kept@, self.titles.deep_view(), out.deep_view()) == opened.then_drop(
                    j as int,
                    want@,
                    told,
                ),
            decreases self.open.len() - j,
        {
            let one = self.open[j];
            if want_has(&want, one.item) {
                kept.push(one);
            } else {
                self.titles.take_out(one.item);
                out.send(ClientMsg::Screen(ScreenRequest::Close { stream: one.stream }));
            }
            j += 1;
        }
        self.open = kept;
        self.keep_asked(&want);
    }

    /// Keep what is asked for a card that is still to show a stream.
    fn keep_asked(&mut self, want: &Vec<(u128, CaptureTarget)>)
        ensures
            final(self).deep_view() == (ScreenState {
                pending: still_asked(old(self).deep_view().pending, want@),
                ..old(self).deep_view()
            }),
    {
        let ghost all = self.pending@;
        let mut kept: Vec<(CaptureTarget, u128)> = Vec::new();
        let mut i: usize = 0;
        while i < self.pending.len()
            invariant
                i <= self.pending@.len(),
                all == self.pending@,
                kept@ == still_asked(all.take(i as int), want@),
            decreases self.pending.len() - i,
        {
            proof {
                assert(all.take(i + 1).drop_last() == all.take(i as int));
                assert(all.take(i + 1).last() == all[i as int]);
            }
            if want_has(want, self.pending[i].1) {
                kept.push(self.pending[i]);
            }
            i += 1;
        }
        assert(all.take(i as int) == all);
        self.pending = kept;
    }

    /// The host opened a stream.
    pub fn opened(&mut self, stream: u64, target: CaptureTarget, out: &mut Outbox)
        ensures
            (final(self).deep_view(), final(out).deep_view()) == old(self).deep_view().then_opened(
                stream,
                target,
                old(out).deep_view(),
            ),
    {
        let item: u128 = match self.asked(target) {
            Some(item) => item,
            None => {
                out.send(ClientMsg::Screen(ScreenRequest::Close { stream }));
                return;
            },
        };
        let ghost pending = self.pending@;
        let mut kept: Vec<(CaptureTarget, u128)> = Vec::new();
        let mut i: usize = 0;
        while i < self.pending.len()
            invariant
                i <= self.pending@.len(),
                pending == self.pending@,
                kept@ == asked_but(pending.take(i as int), target),
            decreases self.pending.len() - i,
        {
            proof {
                assert(pending.take(i + 1).drop_last() == pending.take(i as int));
                assert(pending.take(i + 1).last() == pending[i as int]);
            }
            if self.pending[i].0 != target {
                kept.push(self.pending[i]);
            }
            i += 1;
        }
        assert(pending.take(i as int) == pending);
        self.pending = kept;
        let ghost open = self.open@;
        let mut streams: Vec<Stream> = Vec::new();
        let mut j: usize = 0;
        while j < self.open.len()
            invariant
                j <= self.open@.len(),
                open == self.open@,
                streams@ == streams_without(open.take(j as int), item),
            decreases self.open.len() - j,
        {
            proof {
                assert(open.take(j + 1).drop_last() == open.take(j as int));
                assert(open.take(j + 1).last() == open[j as int]);
            }
            if self.open[j].item != item {
                streams.push(self.open[j]);
            }
            j += 1;
        }
        assert(open.take(j as int) == open);
        streams.push(Stream { item, stream, target });
        self.open = streams;
        out.push(Effect::ShowStream { item, stream });
    }

    /// The host closed a stream.
    pub fn closed(&mut self, stream: u64)
        ensures
            final(self).deep_view() == old(self).deep_view().then_closed(stream),
    {
        let ghost open = self.open@;
        let mut streams: Vec<Stream> = Vec::new();
        let mut j: usize = 0;
        while j < self.open.len()
            invariant
                j <= self.open@.len(),
                open == self.open@,
                streams@ == streams_but(open.take(j as int), stream),
            decreases self.open.len() - j,
        {
            proof {
                assert(open.take(j + 1).drop_last() == open.take(j as int));
                assert(open.take(j + 1).last() == open[j as int]);
            }
            if self.open[j].stream != stream {
                streams.push(self.open[j]);
            }
            j += 1;
        }
        assert(open.take(j as int) == open);
        self.open = streams;
    }
}

/// A stream nobody asked for is closed again, and changes nothing else.
pub proof fn law_an_unasked_stream_is_closed(
    screens: ScreenState,
    stream: u64,
    target: CaptureTarget,
    out: Seq<Done>,
)
    requires
        asked_for(screens.pending, target) is None,
    ensures
        screens.then_opened(stream, target, out) == (
            screens,
            out.push(screen_req(ScreenRequest::Close { stream })),
        ),
{
}

/// A stream that was asked for is shown on its card.
pub proof fn law_an_asked_stream_is_shown(
    screens: ScreenState,
    stream: u64,
    target: CaptureTarget,
    out: Seq<Done>,
)
    requires
        asked_for(screens.pending, target) is Some,
    ensures
        ({
            let item = asked_for(screens.pending, target)->0;
            let (next, said) = screens.then_opened(stream, target, out);
            &&& stream_on(next.open, item) == Some(Stream { item, stream, target })
            &&& asked_for(next.pending, target) is None
            &&& said.last() == Effect::<Seq<char>, Seq<Seq<char>>>::ShowStream { item, stream }
        }),
{
    let item = asked_for(screens.pending, target)->0;
    lemma_streams_without(screens.open, item);
    lemma_stream_pushed(
        streams_without(screens.open, item),
        Stream { item, stream, target },
    );
    lemma_asked_but(screens.pending, target);
}

proof fn lemma_streams_without(open: Seq<Stream>, item: u128)
    ensures
        forall|i: int|
            0 <= i < streams_without(open, item).len() ==> (#[trigger] streams_without(
                open,
                item,
            )[i]).item != item,
    decreases open.len(),
{
    if open.len() > 0 {
        lemma_streams_without(open.drop_last(), item);
    }
}

proof fn lemma_stream_pushed(open: Seq<Stream>, one: Stream)
    requires
        forall|i: int| 0 <= i < open.len() ==> (#[trigger] open[i]).item != one.item,
    ensures
        stream_on(open.push(one), one.item) == Some(one),
    decreases open.len(),
{
    let all = open.push(one);
    if open.len() > 0 {
        let rest = open.drop_first();
        assert(all[0] == open[0]);
        assert(all.drop_first() == rest.push(one));
        assert forall|i: int| 0 <= i < rest.len() implies (#[trigger] rest[i]).item != one.item by {
            assert(rest[i] == open[i + 1]);
        }
        lemma_stream_pushed(rest, one);
    }
}

proof fn lemma_asked_but(pending: Seq<(CaptureTarget, u128)>, target: CaptureTarget)
    ensures
        asked_for(asked_but(pending, target), target) is None,
    decreases pending.len(),
{
    if pending.len() > 0 {
        let rest = asked_but(pending.drop_last(), target);
        lemma_asked_but(pending.drop_last(), target);
        if pending.last().0 != target {
            lemma_asked_push(rest, pending.last(), target);
        }
    }
}

proof fn lemma_asked_push(
    pending: Seq<(CaptureTarget, u128)>,
    one: (CaptureTarget, u128),
    target: CaptureTarget,
)
    requires
        asked_for(pending, target) is None,
        one.0 != target,
    ensures
        asked_for(pending.push(one), target) is None,
    decreases pending.len(),
{
    let all = pending.push(one);
    if pending.len() > 0 {
        assert(all[0] == pending[0]);
        assert(all.drop_first() == pending.drop_first().push(one));
        lemma_asked_push(pending.drop_first(), one, target);
    } else {
        assert(all.drop_first() == Seq::<(CaptureTarget, u128)>::empty());
        reveal_with_fuel(asked_for, 2);
    }
}

} // verus!
