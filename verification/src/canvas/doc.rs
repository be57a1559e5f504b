//! The canvas's document as this client holds it: the cards, and who else looks at them.
use vstd::prelude::*;

use crate::order::{order_of, sorted_order};
use crate::text::{copy_of, held};

verus! {

/// A card's place in canvas units, each number as the bits of its single-precision value.
#[derive(Clone, Copy, PartialEq, Eq, Structural, Debug)]
pub struct Rect {
    pub x: u32,
    pub y: u32,
    pub w: u32,
    pub h: u32,
}

/// What a card is.
#[derive(Debug, PartialEq, Eq)]
pub enum ItemKind<T> {
    Terminal { session: u128 },
    Window { window: u64 },
    Display { display: u64 },
    Note { text: T },
    File { path: T },
}

/// A card.
#[derive(Debug, PartialEq, Eq)]
pub struct Item<T> {
    pub id: u128,
    pub kind: ItemKind<T>,
    pub rect: Rect,
    /// Cards with a higher number are drawn over the others.
    pub z: u32,
    /// It takes no part: no shell attached, no stream open.
    pub sleeping: bool,
    /// The name the human gave it.
    pub name: Option<T>,
}

/// A card as it is held.
pub type CanvasItem = Item<String>;

/// A change of the document.
#[derive(Debug, PartialEq, Eq)]
pub enum Op<T> {
    /// A card, new or in place of the one with its identity.
    Upsert(Item<T>),
    /// A card's place.
    Place { id: u128, rect: Rect },
    /// A card is gone.
    Remove(u128),
    /// A card over all the others.
    Raise(u128),
}

/// A change as it is held.
pub type CanvasOp = Op<String>;

/// What a client is.
#[derive(Clone, Copy, PartialEq, Eq, Structural, Debug)]
pub enum ClientKind {
    Mac,
    IPad,
    IPhone,
    Tool,
}

/// Another client, and where it looks.
#[derive(Debug, PartialEq, Eq)]
pub struct Looking<T> {
    pub client: u128,
    pub name: T,
    pub kind: ClientKind,
    pub view: Rect,
}

/// Another client as it is held.
pub type Looker = Looking<String>;

impl DeepView for ItemKind<String> {
    type V = ItemKind<Seq<char>>;

    open spec fn deep_view(&self) -> ItemKind<Seq<char>> {
        match *self {
            ItemKind::Terminal { session } => ItemKind::Terminal { session },
            ItemKind::Window { window } => ItemKind::Window { window },
            ItemKind::Display { display } => ItemKind::Display { display },
            ItemKind::Note { text } => ItemKind::Note { text: text@ },
            ItemKind::File { path } => ItemKind::File { path: path@ },
        }
    }
}

impl DeepView for Item<String> {
    type V = Item<Seq<char>>;

    open spec fn deep_view(&self) -> Item<Seq<char>> {
        Item {
            id: self.id,
            kind: self.kind.deep_view(),
            rect: self.rect,
            z: self.z,
            sleeping: self.sleeping,
            name: held(self.name),
        }
    }
}

impl DeepView for Op<String> {
    type V = Op<Seq<char>>;

    open spec fn deep_view(&self) -> Op<Seq<char>> {
        match *self {
            Op::Upsert(item) => Op::Upsert(item.deep_view()),
            Op::Place { id, rect } => Op::Place { id, rect },
            Op::Remove(id) => Op::Remove(id),
            Op::Raise(id) => Op::Raise(id),
        }
    }
}

impl DeepView for Looking<String> {
    type V = Looking<Seq<char>>;

    open spec fn deep_view(&self) -> Looking<Seq<char>> {
        Looking { client: self.client, name: self.name@, kind: self.kind, view: self.view }
    }
}

impl ItemKind<String> {
    /// A copy.
    pub fn copy(&self) -> (r: ItemKind<String>)
        ensures
            r.deep_view() == self.deep_view(),
    {
        match self {
            ItemKind::Terminal { session } => ItemKind::Terminal { session: *session },
            ItemKind::Window { window } => ItemKind::Window { window: *window },
            ItemKind::Display { display } => ItemKind::Display { display: *display },
            ItemKind::Note { text } => ItemKind::Note { text: text.clone() },
            ItemKind::File { path } => ItemKind::File { path: path.clone() },
        }
    }
}

impl Item<String> {
    /// A copy.
    pub fn copy(&self) -> (r: Item<String>)
        ensures
            r.deep_view() == self.deep_view(),
    {
        Item {
            id: self.id,
            kind: self.kind.copy(),
            rect: self.rect,
            z: self.z,
            sleeping: self.sleeping,
            name: copy_of(&self.name),
        }
    }
}

impl Op<String> {
    /// A copy.
    pub fn copy(&self) -> (r: Op<String>)
        ensures
            r.deep_view() == self.deep_view(),
    {
        match self {
            Op::Upsert(item) => Op::Upsert(item.copy()),
            Op::Place { id, rect } => Op::Place { id: *id, rect: *rect },
            Op::Remove(id) => Op::Remove(*id),
            Op::Raise(id) => Op::Raise(*id),
        }
    }
}

/// The document's cards, in their order, and the other clients.
#[derive(Debug)]
pub struct CanvasDoc {
    items: Vec<CanvasItem>,
    lookers: Vec<Looker>,
}

/// The document, in the model.
pub struct Doc {
    pub items: Seq<Item<Seq<char>>>,
    pub lookers: Seq<Looking<Seq<char>>>,
}

impl DeepView for CanvasDoc {
    type V = Doc;

    closed spec fn deep_view(&self) -> Doc {
        Doc { items: self.items.deep_view(), lookers: self.lookers.deep_view() }
    }
}

/// Where the card with this identity stands among `items`: their number where there is none.
pub open spec fn place_of<T>(items: Seq<Item<T>>, id: u128) -> int
    decreases items.len(),
{
    if items.len() == 0 {
        0
    } else if items[0].id == id {
        0
    } else {
        1 + place_of(items.drop_first(), id)
    }
}

/// Where the card of a session stands among `items`: their number where there is none.
pub open spec fn place_for<T>(items: Seq<Item<T>>, session: u128) -> int
    decreases items.len(),
{
    if items.len() == 0 {
        0
    } else if items[0].kind matches ItemKind::Terminal { session: s } && s == session {
        0
    } else {
        1 + place_for(items.drop_first(), session)
    }
}

/// The highest number of `items`.
pub open spec fn highest<T>(items: Seq<Item<T>>) -> u32
    decreases items.len(),
{
    if items.len() == 0 {
        0
    } else {
        let z = highest(items.drop_last());
        if items.last().z >= z {
            items.last().z
        } else {
            z
        }
    }
}

/// The card drawn over all the others: the last of those with the highest number.
pub open spec fn top_of<T>(items: Seq<Item<T>>) -> Option<Item<T>>
    decreases items.len(),
{
    if items.len() == 0 {
        None
    } else if items.last().z >= highest(items) {
        Some(items.last())
    } else {
        top_of(items.drop_last())
    }
}

/// The cards but those with this identity.
pub open spec fn without<T>(items: Seq<Item<T>>, id: u128) -> Seq<Item<T>>
    decreases items.len(),
{
    if items.len() == 0 {
        Seq::empty()
    } else if items.last().id == id {
        without(items.drop_last(), id)
    } else {
        without(items.drop_last(), id).push(items.last())
    }
}

/// The number after `z`.
pub open spec fn over(z: u32) -> u32 {
    if z == u32::MAX {
        z
    } else {
        (z + 1) as u32
    }
}

/// A single-precision number, by its bits, in the order of all of them: negatives first, by
/// falling magnitude, and minus zero just before zero.
pub open spec fn float_key(bits: u32) -> int {
    if bits < 0x8000_0000 {
        bits as int
    } else {
        0x7fff_ffff - bits
    }
}

/// Bits that stand for no number.
pub open spec fn is_nan(bits: u32) -> bool {
    bits % 0x8000_0000 > 0x7f80_0000
}

/// Two single-precision numbers, by their bits, that are the same number: zero has two signs.
pub open spec fn float_same(a: u32, b: u32) -> bool {
    !is_nan(a) && !is_nan(b) && (a == b || (a % 0x8000_0000 == 0 && b % 0x8000_0000 == 0))
}

/// Two places that are the same.
pub open spec fn rect_same(a: Rect, b: Rect) -> bool {
    float_same(a.x, b.x) && float_same(a.y, b.y) && float_same(a.w, b.w) && float_same(a.h, b.h)
}

/// Whether two single-precision numbers, by their bits, are the same number.
fn same_number(a: u32, b: u32) -> (r: bool)
    ensures
        r == float_same(a, b),
{
    let (x, y) = (a % 0x8000_0000, b % 0x8000_0000);
    x <= 0x7f80_0000 && y <= 0x7f80_0000 && (a == b || (x == 0 && y == 0))
}

/// Whether two places are the same.
pub fn same_rect(a: Rect, b: Rect) -> (r: bool)
    ensures
        r == rect_same(a, b),
{
    same_number(a.x, b.x) && same_number(a.y, b.y) && same_number(a.w, b.w) && same_number(
        a.h,
        b.h,
    )
}

/// A card's place in reading order: rows top to bottom, left to right within a row.
pub open spec fn reading_key(rect: Rect) -> int {
    float_key(rect.y) * 0x1_0000_0000 + (float_key(rect.x) + 0x8000_0000)
}

/// A single-precision number, by its bits, in the order of all of them.
fn key_of(bits: u32) -> (r: i128)
    ensures
        r == float_key(bits),
        -0x8000_0000 <= r < 0x8000_0000,
{
    if bits < 0x8000_0000 {
        bits as i128
    } else {
        0x7fff_ffff - (bits as i128)
    }
}

/// A card's place in reading order.
pub fn order_key(rect: Rect) -> (r: i128)
    ensures
        r == reading_key(rect),
        -0x8000_0000_0000_0000 <= r < 0x8000_0000_0000_0000,
{
    key_of(rect.y) * 0x1_0000_0000 + (key_of(rect.x) + 0x8000_0000)
}

/// Reading order goes by the top edge, then by the left one.
pub proof fn law_reading_goes_by_rows(a: Rect, b: Rect)
    ensures
        reading_key(a) < reading_key(b) <==> (float_key(a.y) < float_key(b.y) || (float_key(a.y)
            == float_key(b.y) && float_key(a.x) < float_key(b.x))),
{
}

/// The cards' places in reading order.
pub open spec fn reading_keys<T>(items: Seq<Item<T>>) -> Seq<i128> {
    items.map_values(|i: Item<T>| reading_key(i.rect) as i128)
}

/// The cards' identities in reading order, those at the same place as they stand.
pub open spec fn reading_ids<T>(items: Seq<Item<T>>) -> Seq<u128> {
    order_of(reading_keys(items)).map_values(|i: usize| items[i as int].id)
}

/// The cards' numbers.
pub open spec fn heights<T>(items: Seq<Item<T>>) -> Seq<i128> {
    items.map_values(|i: Item<T>| i.z as i128)
}

/// The cards' identities bottom to top, those with the same number as they stand.
pub open spec fn stacked_ids<T>(items: Seq<Item<T>>) -> Seq<u128> {
    order_of(heights(items)).map_values(|i: usize| items[i as int].id)
}

impl Doc {
    /// The card with this identity.
    pub open spec fn get(self, id: u128) -> Option<Item<Seq<char>>> {
        let at = place_of(self.items, id);
        if at < self.items.len() {
            Some(self.items[at])
        } else {
            None
        }
    }

    /// There is a card with this identity.
    pub open spec fn has(self, id: u128) -> bool {
        self.get(id) is Some
    }

    /// The card of a session.
    pub open spec fn for_session(self, session: u128) -> Option<Item<Seq<char>>> {
        let at = place_for(self.items, session);
        if at < self.items.len() {
            Some(self.items[at])
        } else {
            None
        }
    }

    /// The session of the card with this identity, where it is a terminal.
    pub open spec fn session_of(self, id: u128) -> Option<u128> {
        match self.get(id) {
            Some(item) => match item.kind {
                ItemKind::Terminal { session } => Some(session),
                _ => None,
            },
            None => None,
        }
    }

    /// The card is over all the others.
    pub open spec fn is_top(self, id: u128) -> bool {
        top_of(self.items) matches Some(top) && top.id == id
    }

    /// The document after a change.
    pub open spec fn after(self, op: Op<Seq<char>>) -> Doc {
        match op {
            Op::Upsert(item) => {
                let at = place_of(self.items, item.id);
                Doc {
                    items: if at < self.items.len() {
                        self.items.update(at, item)
                    } else {
                        self.items.push(item)
                    },
                    ..self
                }
            },
            Op::Place { id, rect } => {
                let at = place_of(self.items, id);
                if at < self.items.len() {
                    Doc {
                        items: self.items.update(at, Item { rect, ..self.items[at] }),
                        ..self
                    }
                } else {
                    self
                }
            },
            Op::Remove(id) => Doc { items: without(self.items, id), ..self },
            Op::Raise(id) => {
                let at = place_of(self.items, id);
                if at < self.items.len() {
                    Doc {
                        items: self.items.update(
                            at,
                            Item { z: over(highest(self.items)), ..self.items[at] },
                        ),
                        ..self
                    }
                } else {
                    self
                }
            },
        }
    }

    /// No two cards have the same identity.
    pub open spec fn sound(self) -> bool {
        forall|i: int, j: int|
            0 <= i < j < self.items.len() ==> (#[trigger] self.items[i]).id != (
            #[trigger] self.items[j]).id
    }

    /// The first of the other clients with this identity.
    pub open spec fn looker(self, client: u128) -> Option<Looking<Seq<char>>> {
        looker_in(self.lookers, client)
    }
}

/// The first of `lookers` with this identity.
pub open spec fn looker_in(
    lookers: Seq<Looking<Seq<char>>>,
    client: u128,
) -> Option<Looking<Seq<char>>>
    decreases lookers.len(),
{
    if lookers.len() == 0 {
        None
    } else if lookers[0].client == client {
        Some(lookers[0])
    } else {
        looker_in(lookers.drop_first(), client)
    }
}

pub proof fn lemma_place_of<T>(items: Seq<Item<T>>, id: u128)
    ensures
        0 <= place_of(items, id) <= items.len(),
        place_of(items, id) < items.len() ==> items[place_of(items, id)].id == id,
        forall|i: int| 0 <= i < place_of(items, id) ==> (#[trigger] items[i]).id != id,
    decreases items.len(),
{
    if items.len() > 0 && items[0].id != id {
        let rest = items.drop_first();
        lemma_place_of(rest, id);
        assert forall|i: int| 0 <= i < place_of(items, id) implies (#[trigger] items[i]).id
            != id by {
            if i > 0 {
                assert(rest[i - 1] == items[i]);
            }
        }
        if place_of(items, id) < items.len() {
            assert(rest[place_of(rest, id)] == items[place_of(items, id)]);
        }
    }
}

pub proof fn lemma_place_is<T>(items: Seq<Item<T>>, id: u128, at: int)
    requires
        0 <= at <= items.len(),
        at < items.len() ==> items[at].id == id,
        forall|i: int| 0 <= i < at ==> (#[trigger] items[i]).id != id,
    ensures
        place_of(items, id) == at,
{
    lemma_place_of(items, id);
    if place_of(items, id) < at {
        assert(items[place_of(items, id)].id != id);
    }
    if at < place_of(items, id) {
        assert(items[at].id != id);
    }
}

impl CanvasDoc {
    /// A document with these cards and these other clients.
    pub fn new(items: Vec<CanvasItem>, lookers: Vec<Looker>) -> (r: CanvasDoc)
        ensures
            r.deep_view() == (Doc { items: items.deep_view(), lookers: lookers.deep_view() }),
    {
        CanvasDoc { items, lookers }
    }

    /// How many cards there are.
    pub fn count(&self) -> (r: usize)
        ensures
            r == self.deep_view().items.len(),
    {
        self.items.len()
    }

    /// The card at a place in the document.
    pub fn item_at(&self, at: usize) -> (r: &CanvasItem)
        requires
            at < self.deep_view().items.len(),
        ensures
            r.deep_view() == self.deep_view().items[at as int],
    {
        &self.items[at]
    }

    /// How many other clients there are.
    pub fn looker_count(&self) -> (r: usize)
        ensures
            r == self.deep_view().lookers.len(),
    {
        self.lookers.len()
    }

    /// The other client at a place.
    pub fn looker_at(&self, at: usize) -> (r: &Looker)
        requires
            at < self.deep_view().lookers.len(),
        ensures
            r.deep_view() == self.deep_view().lookers[at as int],
    {
        &self.lookers[at]
    }

    /// Where the card with this identity stands.
    fn place(&self, id: u128) -> (r: usize)
        ensures
            r == place_of(self.deep_view().items, id),
            r <= self.items@.len(),
    {
        let ghost all = self.deep_view().items;
        let mut i: usize = 0;
        while i < self.items.len()
            invariant
                i <= self.items@.len(),
                all == self.deep_view().items,
                all.len() == self.items@.len(),
                forall|k: int| 0 <= k < i ==> (#[trigger] all[k]).id != id,
            decreases self.items.len() - i,
        {
            assert(all[i as int] == self.items@[i as int].deep_view());
            if self.items[i].id == id {
                proof {
                    lemma_place_is(all, id, i as int);
                }
                return i;
            }
            i += 1;
        }
        proof {
            lemma_place_is(all, id, i as int);
        }
        i
    }

    /// The card with this identity.
    pub fn get(&self, id: u128) -> (r: Option<&CanvasItem>)
        ensures
            match r {
                Some(item) => self.deep_view().get(id) == Some(item.deep_view()),
                None => self.deep_view().get(id) is None,
            },
    {
        let at: usize = self.place(id);
        if at < self.items.len() {
            Some(&self.items[at])
        } else {
            None
        }
    }

    /// The session of the card with this identity, where it is a terminal.
    pub fn session_of(&self, id: u128) -> (r: Option<u128>)
        ensures
            r == self.deep_view().session_of(id),
    {
        match self.get(id) {
            Some(item) => match &item.kind {
                ItemKind::Terminal { session } => Some(*session),
                _ => None,
            },
            None => None,
        }
    }

    /// The card of a session.
    pub fn item_for_session(&self, session: u128) -> (r: Option<&CanvasItem>)
        ensures
            match r {
                Some(item) => self.deep_view().for_session(session) == Some(item.deep_view()),
                None => self.deep_view().for_session(session) is None,
            },
    {
        let ghost all = self.deep_view().items;
        let mut i: usize = 0;
        assert(all.skip(0) == all);
        while i < self.items.len()
            invariant
                i <= self.items@.len(),
                all == self.deep_view().items,
                all.len() == self.items@.len(),
                place_for(all, session) == i + place_for(all.skip(i as int), session),
            decreases self.items.len() - i,
        {
            proof {
                assert(all[i as int] == self.items@[i as int].deep_view());
                assert(all.skip(i as int)[0] == all[i as int]);
                assert(all.skip(i as int).drop_first() == all.skip(i + 1));
            }
            if let ItemKind::Terminal { session: s } = &self.items[i].kind {
                if *s == session {
                    return Some(&self.items[i]);
                }
            }
            i += 1;
        }
        None
    }

    /// The highest number of the cards.
    pub fn top_z(&self) -> (r: u32)
        ensures
            r == highest(self.deep_view().items),
    {
        let ghost all = self.deep_view().items;
        let mut z: u32 = 0;
        let mut i: usize = 0;
        while i < self.items.len()
            invariant
                i <= self.items@.len(),
                all == self.deep_view().items,
                all.len() == self.items@.len(),
                z == highest(all.take(i as int)),
            decreases self.items.len() - i,
        {
            proof {
                assert(all[i as int] == self.items@[i as int].deep_view());
                assert(all.take(i + 1).drop_last() == all.take(i as int));
                assert(all.take(i + 1).last() == all[i as int]);
            }
            if self.items[i].z >= z {
                z = self.items[i].z;
            }
            i += 1;
        }
        assert(all.take(i as int) == all);
        z
    }

    /// The card drawn over all the others.
    pub fn top(&self) -> (r: Option<&CanvasItem>)
        ensures
            match r {
                Some(item) => top_of(self.deep_view().items) == Some(item.deep_view()),
                None => top_of(self.deep_view().items) is None,
            },
    {
        let ghost all = self.deep_view().items;
        let z: u32 = self.top_z();
        let mut n: usize = self.items.len();
        assert(all.take(n as int) == all);
        while n > 0
            invariant
                n <= self.items@.len(),
                all == self.deep_view().items,
                all.len() == self.items@.len(),
                z == highest(all.take(n as int)),
                top_of(all) == top_of(all.take(n as int)),
            decreases n,
        {
            let ghost some = all.take(n as int);
            proof {
                assert(some.last() == self.items@[n - 1].deep_view());
                assert(some.drop_last() == all.take(n - 1));
            }
            if self.items[n - 1].z >= z {
                return Some(&self.items[n - 1]);
            }
            n -= 1;
        }
        None
    }

    /// Whether a card is over all the others.
    pub fn is_top(&self, id: u128) -> (r: bool)
        ensures
            r == self.deep_view().is_top(id),
    {
        match self.top() {
            Some(top) => top.id == id,
            None => false,
        }
    }

    /// Apply a change.
    pub fn apply_op(&mut self, op: CanvasOp)
        ensures
            final(self).deep_view() == old(self).deep_view().after(op.deep_view()),
    {
        let ghost was = self.deep_view();
        match op {
            Op::Upsert(item) => {
                let at: usize = self.place(item.id);
                if at < self.items.len() {
                    let ghost want = was.items.update(at as int, item.deep_view());
                    self.items.set(at, item);
                    assert(self.items.deep_view() =~= want);
                } else {
                    let ghost want = was.items.push(item.deep_view());
                    self.items.push(item);
                    assert(self.items.deep_view() =~= want);
                }
            },
            Op::Place { id, rect } => {
                let at: usize = self.place(id);
                if at < self.items.len() {
                    let mut item = self.items[at].copy();
                    item.rect = rect;
                    let ghost want = was.items.update(at as int, item.deep_view());
                    self.items.set(at, item);
                    assert(self.items.deep_view() =~= want);
                }
            },
            Op::Remove(id) => {
                self.drop_item(id);
            },
            Op::Raise(id) => {
                let at: usize = self.place(id);
                if at < self.items.len() {
                    let z: u32 = self.top_z();
                    let mut item = self.items[at].copy();
                    item.z = if z == u32::MAX {
                        z
                    } else {
                        z + 1
                    };
                    let ghost want = was.items.update(at as int, item.deep_view());
                    self.items.set(at, item);
                    assert(self.items.deep_view() =~= want);
                }
            },
        }
    }

    /// Take out the cards with this identity.
    fn drop_item(&mut self, id: u128)
        ensures
            final(self).deep_view() == old(self).deep_view().after(Op::Remove(id)),
    {
        let ghost all = self.deep_view().items;
        let mut kept: Vec<CanvasItem> = Vec::new();
        let mut i: usize = 0;
        assert(kept.deep_view() =~= Seq::<Item<Seq<char>>>::empty());
        while i < self.items.len()
            invariant
                i <= self.items@.len(),
                all == self.deep_view().items,
                all.len() == self.items@.len(),
                kept.deep_view() == without(all.take(i as int), id),
            decreases self.items.len() - i,
        {
            proof {
                assert(all[i as int] == self.items@[i as int].deep_view());
                assert(all.take(i + 1).drop_last() == all.take(i as int));
                assert(all.take(i + 1).last() == all[i as int]);
            }
            if self.items[i].id != id {
                let one = self.items[i].copy();
                let ghost want = kept.deep_view().push(one.deep_view());
                kept.push(one);
                assert(kept.deep_view() =~= want);
            }
            i += 1;
        }
        assert(all.take(i as int) == all);
        self.items = kept;
    }

    /// Whether there is a card with this identity.
    pub fn has(&self, id: u128) -> (r: bool)
        ensures
            r == self.deep_view().has(id),
    {
        self.get(id).is_some()
    }

    /// Every card in reading order: rows top to bottom (by the top edge; cards snap to the grid,
    /// so neighbours placed by hand share one), left to right within a row.
    pub fn reading_order(&self) -> (r: Vec<u128>)
        ensures
            r@ == reading_ids(self.deep_view().items),
    {
        let ghost all = self.deep_view().items;
        let mut keys: Vec<i128> = Vec::new();
        let mut i: usize = 0;
        while i < self.items.len()
            invariant
                i <= self.items@.len(),
                all == self.deep_view().items,
                all.len() == self.items@.len(),
                keys@ == reading_keys(all.take(i as int)),
            decreases self.items.len() - i,
        {
            keys.push(order_key(self.items[i].rect));
            proof {
                assert(all[i as int] == self.items@[i as int].deep_view());
                assert(reading_keys(all.take(i + 1)) =~= reading_keys(all.take(i as int)).push(
                    reading_key(all[i as int].rect) as i128,
                ));
            }
            i += 1;
        }
        assert(all.take(i as int) == all);
        let order = sorted_order(&keys);
        self.ids_at(&order)
    }

    /// Every card bottom to top.
    pub fn by_z(&self) -> (r: Vec<u128>)
        ensures
            r@ == stacked_ids(self.deep_view().items),
    {
        let ghost all = self.deep_view().items;
        let mut keys: Vec<i128> = Vec::new();
        let mut i: usize = 0;
        while i < self.items.len()
            invariant
                i <= self.items@.len(),
                all == self.deep_view().items,
                all.len() == self.items@.len(),
                keys@ == heights(all.take(i as int)),
            decreases self.items.len() - i,
        {
            keys.push(self.items[i].z as i128);
            proof {
                assert(all[i as int] == self.items@[i as int].deep_view());
                assert(heights(all.take(i + 1)) =~= heights(all.take(i as int)).push(
                    all[i as int].z as i128,
                ));
            }
            i += 1;
        }
        assert(all.take(i as int) == all);
        let order = sorted_order(&keys);
        self.ids_at(&order)
    }

    /// The identities of the cards at these places.
    fn ids_at(&self, order: &Vec<usize>) -> (r: Vec<u128>)
        requires
            forall|k: int| 0 <= k < order@.len() ==> #[trigger] order@[k] < self.items@.len(),
        ensures
            r@ == order@.map_values(|i: usize| self.deep_view().items[i as int].id),
    {
        let ghost all = self.deep_view().items;
        let mut out: Vec<u128> = Vec::new();
        let mut i: usize = 0;
        while i < order.len()
            invariant
                i <= order@.len(),
                all == self.deep_view().items,
                all.len() == self.items@.len(),
                forall|k: int| 0 <= k < order@.len() ==> #[trigger] order@[k] < self.items@.len(),
                out@ == order@.take(i as int).map_values(|i: usize| all[i as int].id),
            decreases order.len() - i,
        {
            let at: usize = order[i];
            assert(all[at as int] == self.items@[at as int].deep_view());
            out.push(self.items[at].id);
            assert(order@.take(i + 1).map_values(|i: usize| all[i as int].id) =~= order@.take(
                i as int,
            ).map_values(|i: usize| all[i as int].id).push(all[at as int].id));
            i += 1;
        }
        assert(order@.take(i as int) == order@);
        out
    }

    /// The other client with this identity.
    pub fn looker(&self, client: u128) -> (r: Option<&Looker>)
        ensures
            match r {
                Some(l) => self.deep_view().looker(client) == Some(l.deep_view()),
                None => self.deep_view().looker(client) is None,
            },
    {
        let ghost all = self.deep_view().lookers;
        let mut i: usize = 0;
        assert(all.skip(0) == all);
        while i < self.lookers.len()
            invariant
                i <= self.lookers@.len(),
                all == self.deep_view().lookers,
                all.len() == self.lookers@.len(),
                looker_in(all, client) == looker_in(all.skip(i as int), client),
            decreases self.lookers.len() - i,
        {
            proof {
                assert(all[i as int] == self.lookers@[i as int].deep_view());
                assert(all.skip(i as int)[0] == all[i as int]);
                assert(all.skip(i as int).drop_first() == all.skip(i + 1));
            }
            if self.lookers[i].client == client {
                return Some(&self.lookers[i]);
            }
            i += 1;
        }
        None
    }
}

} // verus!
