//! The clipboard shared with the workers: this client's pasteboard announced to the worker a
//! remote tile belongs to, and a worker's announcements put on this client's pasteboard as
//! promises.
//!
//! Announce, never push: an [`Offer`] lists what the clipboard holds, with plain text of a
//! clipboard's worth inline, and the rest is fetched when something pastes it. Echoes are broken
//! three ways: every write here carries [`ORIGIN_TYPE`] and is never announced back, the change
//! count a write produced is remembered and skipped, and contents whose digest matches what a
//! worker just announced are not announced to it again.
use std::collections::HashMap;

use vstd::prelude::*;

use crate::text::same_text;

verus! {

broadcast use vstd::std_specs::hash::group_hash_axioms;

/// Plain text.
pub const TEXT_UTI: &'static str = "public.utf8-plain-text";

/// Marks contents that this application wrote.
pub const ORIGIN_TYPE: &'static str = "com.slopty.origin";

/// Marks contents that are not to be shown, such as a password.
pub const CONCEALED_UTI: &'static str = "org.nspasteboard.ConcealedType";

/// Marks contents that are there for a moment only.
pub const TRANSIENT_UTI: &'static str = "org.nspasteboard.TransientType";

/// The most bytes of plain text that an offer carries inline.
pub const INLINE_CLIP_BYTES: usize = 65_536;

/// How many representations are synced.
pub const SYNCED_COUNT: usize = 5;

/// The digest of an item's bytes.
pub type Hash = [u8; 32];

/// Who made an offer.
#[derive(Clone, Copy, PartialEq, Eq, Structural, Debug)]
pub enum Peer {
    /// A client, by its identity.
    Client(u128),
    /// A worker, by its identity.
    Worker(u128),
}

/// One representation of the clipboard's contents.
#[derive(Debug, PartialEq, Eq)]
pub struct ClipItem {
    /// Its type.
    pub uti: String,
    /// Its size in bytes.
    pub size: u64,
    /// The digest of its bytes.
    pub hash: Hash,
    /// Its bytes, where they come with the offer.
    pub inline: Option<Vec<u8>>,
}

/// What a clipboard holds, as it is announced.
#[derive(Debug, PartialEq, Eq)]
pub struct Offer {
    /// Who announces it.
    pub origin: Peer,
    /// How many offers they made so far.
    pub generation: u64,
    /// The representations, richest first.
    pub items: Vec<ClipItem>,
}

/// What the pasteboard shows: its change count, the types it holds, and the bytes of those that
/// were read.
#[derive(Debug)]
pub struct Board {
    pub count: i64,
    pub types: Vec<String>,
    pub data: Vec<(String, Vec<u8>)>,
}

/// What to put on the pasteboard: the bytes that are here, and the types whose bytes are promised.
#[derive(Debug, PartialEq, Eq)]
pub struct Write {
    /// Who announced it, and which of their offers it is.
    pub origin: (Peer, u64),
    pub data: Vec<(String, Vec<u8>)>,
    pub promised: Vec<String>,
}

/// The clipboard's contents as last read, and what was announced of them.
#[derive(Debug)]
struct Held {
    /// The change count they were read at.
    count: i64,
    /// The offer made of them; `None` for contents never to be announced (this application's own
    /// write, a concealed password, nothing synced).
    offer: Option<Offer>,
    /// Their bytes, to answer a fetch.
    reps: Vec<(String, Vec<u8>)>,
}

/// The bookkeeping that keeps the pasteboard in step with the workers.
#[derive(Debug)]
pub struct ClipSync {
    /// The change count this client's own last write produced.
    wrote: Option<i64>,
    /// This client's offers so far.
    generation: u64,
    held: Option<Held>,
    /// The generation each worker was last told.
    told: HashMap<u64, u64>,
    /// Digests a worker announced last: the same contents coming back are not announced again.
    heard: Vec<Hash>,
}

/// The digest of `bytes`.
pub uninterp spec fn blake3_of(bytes: Seq<u8>) -> Seq<u8>;

/// `blake3::hash` and `Hash::as_bytes`: the digest of the bytes.
#[verifier::external_body]
fn hash_bytes(bytes: &[u8]) -> (r: Hash)
    ensures
        r@ == blake3_of(bytes@),
{
    *blake3::hash(bytes).as_bytes()
}

/// The digest an offer carries.
pub fn digest(bytes: &[u8]) -> (r: Hash)
    ensures
        r@ == blake3_of(bytes@),
{
    hash_bytes(bytes)
}

/// One representation, in the model.
pub struct Item {
    pub uti: Seq<char>,
    pub size: u64,
    pub hash: Seq<u8>,
    pub inline: Option<Seq<u8>>,
}

/// An announcement, in the model.
pub struct Announced {
    pub origin: Peer,
    pub generation: u64,
    pub items: Seq<Item>,
}

/// The bytes in `o`.
pub open spec fn bytes_in(o: Option<Vec<u8>>) -> Option<Seq<u8>> {
    match o {
        Some(b) => Some(b@),
        None => None,
    }
}

impl View for ClipItem {
    type V = Item;

    open spec fn view(&self) -> Item {
        Item {
            uti: self.uti@,
            size: self.size,
            hash: self.hash@,
            inline: bytes_in(self.inline),
        }
    }
}

impl View for Offer {
    type V = Announced;

    open spec fn view(&self) -> Announced {
        Announced {
            origin: self.origin,
            generation: self.generation,
            items: self.items@.map_values(|i: ClipItem| i@),
        }
    }
}

/// What the offer in `o` announces.
pub open spec fn offer_in(o: Option<Offer>) -> Option<Announced> {
    match o {
        Some(o) => Some(o@),
        None => None,
    }
}

/// Types and bytes, in the model.
pub open spec fn reps_in(v: Seq<(String, Vec<u8>)>) -> Seq<(Seq<char>, Seq<u8>)> {
    v.map_values(|r: (String, Vec<u8>)| (r.0@, r.1@))
}

/// Texts, in the model.
pub open spec fn strings_in(v: Seq<String>) -> Seq<Seq<char>> {
    v.map_values(|s: String| s@)
}

/// A pasteboard, in the model.
pub struct Shown {
    pub count: i64,
    pub types: Seq<Seq<char>>,
    pub data: Seq<(Seq<char>, Seq<u8>)>,
}

impl View for Board {
    type V = Shown;

    open spec fn view(&self) -> Shown {
        Shown { count: self.count, types: strings_in(self.types@), data: reps_in(self.data@) }
    }
}

/// What to put on the pasteboard, in the model.
pub struct Writing {
    pub origin: (Peer, u64),
    pub data: Seq<(Seq<char>, Seq<u8>)>,
    pub promised: Seq<Seq<char>>,
}

impl View for Write {
    type V = Writing;

    open spec fn view(&self) -> Writing {
        Writing {
            origin: self.origin,
            data: reps_in(self.data@),
            promised: strings_in(self.promised@),
        }
    }
}

/// What the write in `o` says.
pub open spec fn write_in(o: Option<Write>) -> Option<Writing> {
    match o {
        Some(w) => Some(w@),
        None => None,
    }
}

/// The contents as last read, in the model.
pub struct Holding {
    pub count: i64,
    pub offer: Option<Announced>,
    pub reps: Seq<(Seq<char>, Seq<u8>)>,
}

/// The bookkeeping, in the model.
pub struct Clip {
    pub wrote: Option<i64>,
    pub generation: u64,
    pub held: Option<Holding>,
    pub told: Map<u64, u64>,
    pub heard: Seq<Seq<u8>>,
}

impl Held {
    spec fn said(self) -> Holding {
        Holding { count: self.count, offer: offer_in(self.offer), reps: reps_in(self.reps@) }
    }
}

/// Digests, in the model.
pub open spec fn hashes_in(v: Seq<Hash>) -> Seq<Seq<u8>> {
    v.map_values(|h: Hash| h@)
}

impl View for ClipSync {
    type V = Clip;

    closed spec fn view(&self) -> Clip {
        Clip {
            wrote: self.wrote,
            generation: self.generation,
            held: match self.held {
                Some(held) => Some(held.said()),
                None => None,
            },
            told: self.told@,
            heard: hashes_in(self.heard@),
        }
    }
}

/// The representations synced, richest first. File URLs name files on one machine only; files
/// move by a transfer instead.
pub open spec fn synced() -> Seq<Seq<char>> {
    seq!["public.png"@, "public.tiff"@, "public.rtf"@, "public.html"@, TEXT_UTI@]
}

/// The representation synced at the place `i`, richest first.
pub fn synced_at(i: usize) -> (r: &'static str)
    requires
        i < SYNCED_COUNT,
    ensures
        r@ == synced()[i as int],
{
    match i {
        0 => "public.png",
        1 => "public.tiff",
        2 => "public.rtf",
        3 => "public.html",
        _ => TEXT_UTI,
    }
}

/// The bytes that `data` has for the type `uti`, the first where there are more.
pub open spec fn bytes_of(data: Seq<(Seq<char>, Seq<u8>)>, uti: Seq<char>) -> Option<Seq<u8>>
    decreases data.len(),
{
    if data.len() == 0 {
        None
    } else if data[0].0 == uti {
        Some(data[0].1)
    } else {
        bytes_of(data.drop_first(), uti)
    }
}

/// The first `n` representations synced that the pasteboard holds and whose bytes were read.
pub open spec fn reps_of(board: Shown, n: int) -> Seq<(Seq<char>, Seq<u8>)>
    decreases n,
{
    if n <= 0 {
        Seq::empty()
    } else {
        let uti = synced()[n - 1];
        match bytes_of(board.data, uti) {
            Some(bytes) => if board.types.contains(uti) {
                reps_of(board, n - 1).push((uti, bytes))
            } else {
                reps_of(board, n - 1)
            },
            None => reps_of(board, n - 1),
        }
    }
}

/// A representation as it is announced: with its bytes where it is plain text and not too long.
pub open spec fn item_of(rep: (Seq<char>, Seq<u8>)) -> Item {
    Item {
        uti: rep.0,
        size: rep.1.len() as u64,
        hash: blake3_of(rep.1),
        inline: if rep.0 == TEXT_UTI@ && rep.1.len() <= INLINE_CLIP_BYTES {
            Some(rep.1)
        } else {
            None
        },
    }
}

/// The representations as they are announced.
pub open spec fn items_of(reps: Seq<(Seq<char>, Seq<u8>)>) -> Seq<Item> {
    reps.map_values(|r: (Seq<char>, Seq<u8>)| item_of(r))
}

/// Every one of `items` is among the digests `heard`.
pub open spec fn all_heard(items: Seq<Item>, heard: Seq<Seq<u8>>) -> bool {
    forall|i: int| 0 <= i < items.len() ==> heard.contains((#[trigger] items[i]).hash)
}

/// The items of an offer that are synced, in their order.
pub open spec fn synced_items(items: Seq<Item>) -> Seq<Item>
    decreases items.len(),
{
    if items.len() == 0 {
        Seq::empty()
    } else if synced().contains(items.last().uti) {
        synced_items(items.drop_last()).push(items.last())
    } else {
        synced_items(items.drop_last())
    }
}

/// The items whose bytes came with the offer.
pub open spec fn inline_of(items: Seq<Item>) -> Seq<(Seq<char>, Seq<u8>)>
    decreases items.len(),
{
    if items.len() == 0 {
        Seq::empty()
    } else {
        match items.last().inline {
            Some(bytes) => inline_of(items.drop_last()).push((items.last().uti, bytes)),
            None => inline_of(items.drop_last()),
        }
    }
}

/// The types of the items whose bytes did not come with the offer.
pub open spec fn promised_of(items: Seq<Item>) -> Seq<Seq<char>>
    decreases items.len(),
{
    if items.len() == 0 {
        Seq::empty()
    } else if items.last().inline is None {
        promised_of(items.drop_last()).push(items.last().uti)
    } else {
        promised_of(items.drop_last())
    }
}

/// Every one of `items` is among `reps`, with the same type and digest.
pub open spec fn all_here(items: Seq<Item>, reps: Seq<(Seq<char>, Seq<u8>)>) -> bool {
    forall|i: int| 0 <= i < items.len() ==> is_here(#[trigger] items[i], reps)
}

/// The item is among `reps`, with the same type and digest.
pub open spec fn is_here(item: Item, reps: Seq<(Seq<char>, Seq<u8>)>) -> bool {
    exists|k: int|
        0 <= k < reps.len() && (#[trigger] reps[k]).0 == item.uti && blake3_of(reps[k].1)
            == item.hash
}

impl Clip {
    /// The pasteboard's contents are never to be announced: this client's own write, or marked
    /// so.
    pub open spec fn skips(self, board: Shown) -> bool {
        ||| self.wrote == Some(board.count)
        ||| board.types.contains(ORIGIN_TYPE@)
        ||| board.types.contains(CONCEALED_UTI@)
        ||| board.types.contains(TRANSIENT_UTI@)
    }

    /// The representation `uti` is to be read of a pasteboard that holds `types` at the change count
    /// `count`.
    pub open spec fn wants(self, count: i64, types: Seq<Seq<char>>, uti: Seq<char>) -> bool {
        let board = Shown { count, types, data: Seq::empty() };
        &&& !(self.held matches Some(held) && held.count == count)
        &&& !self.skips(board)
        &&& types.contains(uti)
        &&& synced().contains(uti)
    }

    /// What is read of the pasteboard.
    pub open spec fn reads(self, board: Shown) -> Seq<(Seq<char>, Seq<u8>)> {
        if self.skips(board) {
            Seq::empty()
        } else {
            reps_of(board, SYNCED_COUNT as int)
        }
    }

    /// The pasteboard read again, if it changed since it was last read.
    pub open spec fn then_refresh(self, board: Shown, me: u128) -> Clip {
        if self.held matches Some(held) && held.count == board.count {
            self
        } else {
            let reps = self.reads(board);
            let items = items_of(reps);
            let offered = items.len() > 0 && !all_heard(items, self.heard);
            let generation = if offered && self.generation < u64::MAX {
                (self.generation + 1) as u64
            } else {
                self.generation
            };
            Clip {
                generation,
                held: Some(
                    Holding {
                        count: board.count,
                        offer: if offered {
                            Some(Announced { origin: Peer::Client(me), generation, items })
                        } else {
                            None
                        },
                        reps,
                    },
                ),
                ..self
            }
        }
    }

    /// What a worker should hear of this client's clipboard now, and that it was told.
    pub open spec fn then_offer(self, worker: u64, me: u128, board: Shown) -> (
        Clip,
        Option<Announced>,
    ) {
        let next = self.then_refresh(board, me);
        match next.held->0.offer {
            None => (next, None),
            Some(offer) => if next.told.contains_key(worker) && next.told[worker]
                == offer.generation {
                (next, None)
            } else {
                (
                    Clip { told: next.told.insert(worker, offer.generation), ..next },
                    Some(offer),
                )
            },
        }
    }

    /// The bytes of a type in this client's offer, while the clipboard still holds it.
    pub open spec fn answer(self, generation: u64, uti: Seq<char>, count: i64) -> Option<Seq<u8>> {
        match self.held {
            Some(held) => match held.offer {
                Some(offer) => if offer.generation == generation && count == held.count {
                    bytes_of(held.reps, uti)
                } else {
                    None
                },
                None => None,
            },
            None => None,
        }
    }

    /// A worker's offer arrived: what to put on the pasteboard, unless nothing of it is synced or
    /// the clipboard holds it already.
    pub open spec fn then_receive(self, offer: Announced, count: i64) -> (Clip, Option<Writing>) {
        let items = synced_items(offer.items);
        if items.len() == 0 {
            (self, None)
        } else {
            let next = Clip { heard: items.map_values(|i: Item| i.hash), ..self };
            if self.held matches Some(held) && held.count == count && all_here(items, held.reps) {
                (next, None)
            } else {
                (
                    next,
                    Some(
                        Writing {
                            origin: (offer.origin, offer.generation),
                            data: inline_of(items),
                            promised: promised_of(items),
                        },
                    ),
                )
            }
        }
    }

    /// This client wrote the pasteboard, whose change count is `count` now.
    pub open spec fn then_wrote(self, count: i64) -> Clip {
        Clip {
            wrote: Some(count),
            held: Some(Holding { count, offer: None, reps: Seq::empty() }),
            ..self
        }
    }
}

/// Whether `types` holds `uti`.
fn holds_type(types: &Vec<String>, uti: &str) -> (r: bool)
    ensures
        r == strings_in(types@).contains(uti@),
{
    let mut i: usize = 0;
    let ghost all = strings_in(types@);
    while i < types.len()
        invariant
            i <= types.len(),
            all == strings_in(types@),
            forall|k: int| 0 <= k < i ==> #[trigger] all[k] != uti@,
        decreases types.len() - i,
    {
        assert(all[i as int] == types@[i as int]@);
        if same_text(types[i].as_str(), uti) {
            return true;
        }
        i += 1;
    }
    false
}

/// A copy of the bytes.
fn copy_bytes(b: &Vec<u8>) -> (r: Vec<u8>)
    ensures
        r@ == b@,
{
    let mut out: Vec<u8> = Vec::new();
    let mut i: usize = 0;
    while i < b.len()
        invariant
            i <= b.len(),
            out@ == b@.take(i as int),
        decreases b.len() - i,
    {
        out.push(b[i]);
        assert(b@.take(i + 1) == b@.take(i as int).push(b@[i as int]));
        i += 1;
    }
    assert(b@.take(i as int) == b@);
    out
}

/// The bytes that `data` has for the type `uti`.
fn data_for(data: &Vec<(String, Vec<u8>)>, uti: &str) -> (r: Option<Vec<u8>>)
    ensures
        bytes_in(r) == bytes_of(reps_in(data@), uti@),
{
    let mut i: usize = 0;
    let ghost all = reps_in(data@);
    assert(all.skip(0) == all);
    while i < data.len()
        invariant
            i <= data.len(),
            all == reps_in(data@),
            bytes_of(all, uti@) == bytes_of(all.skip(i as int), uti@),
        decreases data.len() - i,
    {
        let one = &data[i];
        proof {
            assert(all.skip(i as int)[0] == (one.0@, one.1@));
            assert(all.skip(i as int).drop_first() == all.skip(i + 1));
        }
        if same_text(one.0.as_str(), uti) {
            return Some(copy_bytes(&one.1));
        }
        i += 1;
    }
    None
}

/// Whether two digests are the same.
fn same_hash(a: &Hash, b: &Hash) -> (r: bool)
    ensures
        r == (a@ == b@),
{
    let mut i: usize = 0;
    while i < 32
        invariant
            i <= 32,
            forall|k: int| 0 <= k < i ==> a@[k] == b@[k],
        decreases 32 - i,
    {
        if a[i] != b[i] {
            return false;
        }
        i += 1;
    }
    assert(a@ == b@);
    true
}

impl ClipItem {
    fn copy(&self) -> (r: ClipItem)
        ensures
            r@ == self@,
    {
        ClipItem {
            uti: self.uti.clone(),
            size: self.size,
            hash: self.hash,
            inline: match &self.inline {
                Some(b) => Some(copy_bytes(b)),
                None => None,
            },
        }
    }
}

impl Offer {
    fn copy(&self) -> (r: Offer)
        ensures
            r@ == self@,
    {
        let mut items: Vec<ClipItem> = Vec::new();
        let mut i: usize = 0;
        let ghost all = self@.items;
        while i < self.items.len()
            invariant
                i <= self.items@.len(),
                all == self@.items,
                items@.map_values(|i: ClipItem| i@) == all.take(i as int),
            decreases self.items.len() - i,
        {
            let one = self.items[i].copy();
            let ghost was = items@;
            items.push(one);
            proof {
                assert(all.take(i + 1) == all.take(i as int).push(all[i as int]));
                assert(items@.map_values(|i: ClipItem| i@) == was.map_values(
                    |i: ClipItem| i@,
                ).push(one@));
            }
            i += 1;
        }
        assert(all.take(i as int) == all);
        Offer { origin: self.origin, generation: self.generation, items }
    }
}

impl ClipSync {
    /// Nothing read, nothing told.
    pub fn new() -> (r: ClipSync)
        ensures
            r@ == Clip::blank(),
    {
        let r = ClipSync {
            wrote: None,
            generation: 0,
            held: None,
            told: HashMap::new(),
            heard: Vec::new(),
        };
        assert(r@.heard == Seq::<Seq<u8>>::empty());
        r
    }

    /// Whether the representation `uti` is to be read of a pasteboard that holds `types` at the
    /// change count `count`: not where it was read already or is never to be announced.
    pub fn wants(&self, count: i64, types: &Vec<String>, uti: &str) -> (r: bool)
        ensures
            r == ({
                let board = Shown { count, types: strings_in(types@), data: Seq::empty() };
                &&& !(self@.held matches Some(held) && held.count == count)
                &&& !self@.skips(board)
                &&& board.types.contains(uti@)
                &&& synced().contains(uti@)
            }),
            r == self@.wants(count, strings_in(types@), uti@),
    {
        let known: bool = match &self.held {
            Some(held) => held.count == count,
            None => false,
        };
        let own: bool = match self.wrote {
            Some(at) => at == count,
            None => false,
        };
        !known && !own && !holds_type(types, ORIGIN_TYPE) && !holds_type(types, CONCEALED_UTI)
            && !holds_type(types, TRANSIENT_UTI) && holds_type(types, uti) && is_synced(uti)
    }

    /// Read the pasteboard again if it changed since it was last read.
    fn refresh(&mut self, me: u128, board: &Board)
        ensures
            final(self)@ == old(self)@.then_refresh(board@, me),
            final(self)@.held is Some,
    {
        if let Some(held) = &self.held {
            if held.count == board.count {
                return;
            }
        }
        let own: bool = match self.wrote {
            Some(at) => at == board.count,
            None => false,
        };
        let skip = own || holds_type(&board.types, ORIGIN_TYPE) || holds_type(
            &board.types,
            CONCEALED_UTI,
        ) || holds_type(&board.types, TRANSIENT_UTI);
        let mut reps: Vec<(String, Vec<u8>)> = Vec::new();
        let mut items: Vec<ClipItem> = Vec::new();
        let mut heard_all: bool = true;
        let mut i: usize = 0;
        let n: usize = if skip {
            0
        } else {
            SYNCED_COUNT
        };
        proof {
            assert(reps_in(reps@) == Seq::<(Seq<char>, Seq<u8>)>::empty());
            assert(items@.map_values(|i: ClipItem| i@) == items_of(
                Seq::<(Seq<char>, Seq<u8>)>::empty(),
            ));
        }
        while i < n
            invariant
                i <= n <= SYNCED_COUNT,
                reps_in(reps@) == reps_of(board@, i as int),
                items@.map_values(|i: ClipItem| i@) == items_of(reps_of(board@, i as int)),
                items@.len() == reps@.len(),
                heard_all == all_heard(items_of(reps_of(board@, i as int)), self@.heard),
            decreases n - i,
        {
            let uti = synced_at(i);
            let found: Option<Vec<u8>> = if holds_type(&board.types, uti) {
                data_for(&board.data, uti)
            } else {
                None
            };
            match found {
                Some(bytes) => {
                    let ghost before = reps_of(board@, i as int);
                    let ghost now = reps_of(board@, i + 1);
                    let ghost (was_reps, was_items) = (reps@, items@);
                    let hash = digest(bytes.as_slice());
                    let inline: Option<Vec<u8>> = if same_text(uti, TEXT_UTI) && bytes.len()
                        <= INLINE_CLIP_BYTES {
                        Some(copy_bytes(&bytes))
                    } else {
                        None
                    };
                    let one = ClipItem {
                        uti: uti.to_owned(),
                        size: bytes.len() as u64,
                        hash,
                        inline,
                    };
                    let known = self.was_heard(&hash);
                    heard_all = heard_all && known;
                    let rep = (uti.to_owned(), bytes);
                    proof {
                        assert(now == before.push((uti@, bytes@)));
                        assert(one@ == item_of((uti@, bytes@)));
                        assert(items_of(now) == items_of(before).push(one@));
                        lemma_all_heard_push(items_of(before), one@, self@.heard);
                    }
                    reps.push(rep);
                    items.push(one);
                    proof {
                        assert(reps_in(reps@) == reps_in(was_reps).push((uti@, bytes@)));
                        assert(items@.map_values(|i: ClipItem| i@) == was_items.map_values(
                            |i: ClipItem| i@,
                        ).push(one@));
                    }
                },
                None => {},
            }
            i += 1;
        }
        let ghost read = self@.reads(board@);
        assert(reps_in(reps@) == read);
        assert(items_of(read).len() == items@.len());
        let offered = items.len() > 0 && !heard_all;
        let offer: Option<Offer> = if offered {
            self.generation = self.generation.saturating_add(1);
            Some(Offer { origin: Peer::Client(me), generation: self.generation, items })
        } else {
            None
        };
        self.held = Some(Held { count: board.count, offer, reps });
    }

    /// Whether a worker announced this digest last.
    fn was_heard(&self, hash: &Hash) -> (r: bool)
        ensures
            r == self@.heard.contains(hash@),
    {
        let mut i: usize = 0;
        let ghost all = self@.heard;
        while i < self.heard.len()
            invariant
                i <= self.heard@.len(),
                all == hashes_in(self.heard@),
                forall|k: int| 0 <= k < i ==> #[trigger] all[k] != hash@,
            decreases self.heard.len() - i,
        {
            assert(all[i as int] == self.heard@[i as int]@);
            if same_hash(&self.heard[i], hash) {
                return true;
            }
            i += 1;
        }
        false
    }

    /// What `worker` should hear of this client's clipboard now: its offer, when the clipboard
    /// holds something the worker was not told yet. Sent when a remote tile of that worker takes
    /// the keyboard, and ahead of a paste into one of its windows.
    pub fn offer_for(&mut self, worker: u64, me: u128, board: &Board) -> (r: Option<Offer>)
        ensures
            final(self)@ == old(self)@.then_offer(worker, me, board@).0,
            offer_in(r) == old(self)@.then_offer(worker, me, board@).1,
    {
        self.refresh(me, board);
        let offer = match &self.held {
            Some(held) => match &held.offer {
                Some(offer) => offer.copy(),
                None => {
                    return None;
                },
            },
            None => {
                return None;
            },
        };
        if let Some(generation) = self.told.get(&worker) {
            if *generation == offer.generation {
                return None;
            }
        }
        self.told.insert(worker, offer.generation);
        Some(offer)
    }

    /// The bytes of `uti` in this client's offer `generation`, for a worker's fetch; `None` once
    /// the clipboard, whose change count is `count` now, has moved on.
    pub fn answer(&self, generation: u64, uti: &str, count: i64) -> (r: Option<Vec<u8>>)
        ensures
            bytes_in(r) == self@.answer(generation, uti@, count),
    {
        match &self.held {
            Some(held) => match &held.offer {
                Some(offer) => if offer.generation == generation && count == held.count {
                    data_for(&held.reps, uti)
                } else {
                    None
                },
                None => None,
            },
            None => None,
        }
    }

    /// A worker's clipboard changed: what to put on this client's, inline text now and the rest
    /// as promises. Contents this clipboard, whose change count is `count` now, already holds are
    /// left alone.
    pub fn receive(&mut self, offer: &Offer, count: i64) -> (r: Option<Write>)
        ensures
            final(self)@ == old(self)@.then_receive(offer@, count).0,
            write_in(r) == old(self)@.then_receive(offer@, count).1,
    {
        let ghost items = synced_items(offer@.items);
        let mut heard: Vec<Hash> = Vec::new();
        let mut data: Vec<(String, Vec<u8>)> = Vec::new();
        let mut promised: Vec<String> = Vec::new();
        let mut same: bool = match &self.held {
            Some(held) => held.count == count,
            None => false,
        };
        let ghost held_now = same;
        let ghost reps: Seq<(Seq<char>, Seq<u8>)> = match self@.held {
            Some(held) => held.reps,
            None => Seq::empty(),
        };
        let mut i: usize = 0;
        let ghost all = offer@.items;
        proof {
            assert(all.take(0) == Seq::<Item>::empty());
            assert(hashes_in(heard@) == Seq::<Seq<u8>>::empty());
            assert(reps_in(data@) == Seq::<(Seq<char>, Seq<u8>)>::empty());
            assert(strings_in(promised@) == Seq::<Seq<char>>::empty());
        }
        while i < offer.items.len()
            invariant
                i <= offer.items@.len(),
                all == offer@.items,
                all.len() == offer.items@.len(),
                held_now == (self@.held matches Some(held) && held.count == count),
                reps == match self@.held {
                    Some(held) => held.reps,
                    None => Seq::empty(),
                },
                same == (held_now && all_here(synced_items(all.take(i as int)), reps)),
                hashes_in(heard@) == synced_items(all.take(i as int)).map_values(
                    |i: Item| i.hash,
                ),
                reps_in(data@) == inline_of(synced_items(all.take(i as int))),
                strings_in(promised@) == promised_of(synced_items(all.take(i as int))),
            decreases offer.items.len() - i,
        {
            let item = &offer.items[i];
            let ghost some = all.take(i + 1);
            let ghost before = synced_items(all.take(i as int));
            proof {
                assert(some.drop_last() == all.take(i as int));
                assert(some.last() == item@);
            }
            if is_synced(item.uti.as_str()) {
                let ghost (was_heard, was_data, was_promised) = (heard@, data@, promised@);
                let here = self.has_item(item);
                proof {
                    assert(before.push(item@).drop_last() == before);
                    assert(all_here(before.push(item@), reps) == (all_here(before, reps)
                        && is_here(item@, reps))) by {
                        lemma_all_here_push(before, item@, reps);
                    }
                    assert(held_now ==> here == is_here(item@, reps));
                }
                same = same && here;
                heard.push(item.hash);
                match &item.inline {
                    Some(bytes) => {
                        data.push((item.uti.clone(), copy_bytes(bytes)));
                    },
                    None => {
                        promised.push(item.uti.clone());
                    },
                }
                proof {
                    assert(hashes_in(heard@) == hashes_in(was_heard).push(item.hash@));
                    assert(before.push(item@).map_values(|i: Item| i.hash) == before.map_values(
                        |i: Item| i.hash,
                    ).push(item.hash@));
                    if item@.inline is Some {
                        assert(reps_in(data@) == reps_in(was_data).push(
                            (item@.uti, item@.inline->0),
                        ));
                    } else {
                        assert(strings_in(promised@) == strings_in(was_promised).push(item@.uti));
                    }
                }
            }
            i += 1;
        }
        assert(all.take(i as int) == all);
        assert(items.map_values(|i: Item| i.hash).len() == items.len());
        if heard.len() == 0 {
            return None;
        }
        self.heard = heard;
        if same {
            return None;
        }
        Some(Write { origin: (offer.origin, offer.generation), data, promised })
    }

    /// Whether the contents last read have the item, with the same type and digest.
    fn has_item(&self, item: &ClipItem) -> (r: bool)
        ensures
            r == (self@.held matches Some(held) && is_here(item@, held.reps)),
    {
        match &self.held {
            Some(held) => {
                let ghost reps = reps_in(held.reps@);
                let mut i: usize = 0;
                while i < held.reps.len()
                    invariant
                        i <= held.reps@.len(),
                        reps == reps_in(held.reps@),
                        self@.held matches Some(h) && h.reps == reps,
                        forall|k: int|
                            0 <= k < i ==> !((#[trigger] reps[k]).0 == item@.uti && blake3_of(
                                reps[k].1,
                            ) == item@.hash),
                    decreases held.reps.len() - i,
                {
                    let one = &held.reps[i];
                    assert(reps[i as int] == (one.0@, one.1@));
                    if same_text(one.0.as_str(), item.uti.as_str()) {
                        let hash = digest(one.1.as_slice());
                        if same_hash(&hash, &item.hash) {
                            return true;
                        }
                    }
                    i += 1;
                }
                false
            },
            None => false,
        }
    }

    /// The pasteboard was written as [`ClipSync::receive`] said, and its change count is `count`
    /// now.
    pub fn wrote(&mut self, count: i64)
        ensures
            final(self)@ == old(self)@.then_wrote(count),
    {
        self.wrote = Some(count);
        let reps: Vec<(String, Vec<u8>)> = Vec::new();
        assert(reps_in(reps@) == Seq::<(Seq<char>, Seq<u8>)>::empty());
        self.held = Some(Held { count, offer: None, reps });
    }

    /// A worker's link is new: it has heard nothing yet.
    pub fn forget(&mut self, worker: u64)
        ensures
            final(self)@ == (Clip { told: old(self)@.told.remove(worker), ..old(self)@ }),
    {
        self.told.remove(&worker);
    }
}

/// Whether the representation is synced.
pub fn is_synced(uti: &str) -> (r: bool)
    ensures
        r == synced().contains(uti@),
{
    let mut i: usize = 0;
    while i < SYNCED_COUNT
        invariant
            i <= SYNCED_COUNT,
            forall|k: int| 0 <= k < i ==> #[trigger] synced()[k] != uti@,
        decreases SYNCED_COUNT - i,
    {
        if same_text(synced_at(i), uti) {
            assert(synced()[i as int] == uti@);
            return true;
        }
        i += 1;
    }
    assert(synced().len() == SYNCED_COUNT);
    false
}

proof fn lemma_all_heard_push(items: Seq<Item>, one: Item, heard: Seq<Seq<u8>>)
    ensures
        all_heard(items.push(one), heard) == (all_heard(items, heard) && heard.contains(one.hash)),
{
    let all = items.push(one);
    if all_heard(all, heard) {
        assert(all[items.len() as int] == one);
        assert forall|i: int| 0 <= i < items.len() implies heard.contains(
            (#[trigger] items[i]).hash,
        ) by {
            assert(all[i] == items[i]);
        }
    }
}

proof fn lemma_all_here_push(items: Seq<Item>, one: Item, reps: Seq<(Seq<char>, Seq<u8>)>)
    ensures
        all_here(items.push(one), reps) == (all_here(items, reps) && is_here(one, reps)),
{
    let all = items.push(one);
    if all_here(all, reps) {
        assert(all[items.len() as int] == one);
        assert forall|i: int| 0 <= i < items.len() implies is_here(#[trigger] items[i], reps) by {
            assert(all[i] == items[i]);
        }
    }
}

/// No two of `reps` have the same type.
pub open spec fn types_differ(reps: Seq<(Seq<char>, Seq<u8>)>) -> bool {
    forall|i: int, j: int|
        0 <= i < j < reps.len() ==> (#[trigger] reps[i]).0 != (#[trigger] reps[j]).0
}

/// The types synced differ from one another.
pub proof fn lemma_synced_differ()
    ensures
        forall|i: int, j: int|
            0 <= i < j < synced().len() ==> #[trigger] synced()[i] != #[trigger] synced()[j],
{
    reveal_strlit("public.png");
    reveal_strlit("public.tiff");
    reveal_strlit("public.rtf");
    reveal_strlit("public.html");
    reveal_strlit("public.utf8-plain-text");
    let (png, tiff, rtf, html) = (synced()[0], synced()[1], synced()[2], synced()[3]);
    assert(png[7] == 'p' && rtf[7] == 'r' && tiff[7] == 't' && html[7] == 'h');
    assert(png.len() == 10 && rtf.len() == 10 && tiff.len() == 11 && html.len() == 11);
    assert(synced()[4].len() == 22);
}

/// What is read of the pasteboard has one representation of each type.
proof fn lemma_reps_differ(board: Shown, n: int)
    requires
        0 <= n <= synced().len(),
    ensures
        types_differ(reps_of(board, n)),
        forall|i: int|
            0 <= i < reps_of(board, n).len() ==> exists|k: int|
                0 <= k < n && #[trigger] synced()[k] == (#[trigger] reps_of(board, n)[i]).0,
    decreases n,
{
    if n > 0 {
        lemma_reps_differ(board, n - 1);
        lemma_synced_differ();
        let before = reps_of(board, n - 1);
        let now = reps_of(board, n);
        assert forall|i: int| 0 <= i < now.len() implies exists|k: int|
            0 <= k < n && #[trigger] synced()[k] == (#[trigger] now[i]).0 by {
            if i < before.len() {
                assert(now[i] == before[i]);
                let k = choose|k: int| 0 <= k < n - 1 && #[trigger] synced()[k] == before[i].0;
                assert(synced()[k] == now[i].0);
            } else {
                assert(synced()[n - 1] == now[i].0);
            }
        }
        assert forall|i: int, j: int| 0 <= i < j < now.len() implies (#[trigger] now[i]).0 != (
        #[trigger] now[j]).0 by {
            assert(now[i] == before[i]);
            if j == before.len() {
                let k = choose|k: int| 0 <= k < n - 1 && #[trigger] synced()[k] == before[i].0;
                assert(synced()[k] != synced()[n - 1]);
            } else {
                assert(now[j] == before[j]);
            }
        }
    }
}

impl Clip {
    /// Nothing read, nothing told.
    pub open spec fn blank() -> Clip {
        Clip { wrote: None, generation: 0, held: None, told: Map::empty(), heard: Seq::empty() }
    }

    /// What every call keeps: what is held is held once for each type, the offer lists what is
    /// held, richest first, and no generation that was announced is ahead of the count of offers.
    pub open spec fn sound(self) -> bool {
        &&& self.held matches Some(held) ==> types_differ(held.reps)
        &&& self.held matches Some(held) ==> (held.offer matches Some(offer) ==> {
            &&& offer.items == items_of(held.reps)
            &&& offer.items.len() > 0
            &&& offer.generation <= self.generation
        })
        &&& forall|w: u64| #[trigger]
            self.told.contains_key(w) ==> self.told[w] <= self.generation
    }
}

/// A clipboard starts sound, and every call keeps it so.
pub proof fn law_the_clipboard_stays_sound(
    clip: Clip,
    worker: u64,
    me: u128,
    board: Shown,
    offer: Announced,
    count: i64,
)
    requires
        clip.sound(),
    ensures
        Clip::blank().sound(),
        clip.then_offer(worker, me, board).0.sound(),
        clip.then_receive(offer, count).0.sound(),
        clip.then_wrote(count).sound(),
        (Clip { told: clip.told.remove(worker), ..clip }).sound(),
{
    lemma_reps_differ(board, SYNCED_COUNT as int);
}

/// This client's own write is not announced to anyone.
pub proof fn law_an_own_write_is_never_announced(clip: Clip, worker: u64, me: u128, board: Shown)
    ensures
        clip.then_wrote(board.count).then_offer(worker, me, board).1 is None,
{
}

/// Contents stamped by this application, concealed or transient are announced to no one, even
/// where the own write before them is forgotten.
pub proof fn law_marked_contents_are_never_announced(
    clip: Clip,
    worker: u64,
    me: u128,
    board: Shown,
)
    requires
        clip.held matches Some(held) ==> held.count != board.count,
        board.types.contains(ORIGIN_TYPE@) || board.types.contains(CONCEALED_UTI@)
            || board.types.contains(TRANSIENT_UTI@),
    ensures
        clip.then_offer(worker, me, board).1 is None,
{
}

/// A worker is told of the same contents once, and again only after its link is new.
pub proof fn law_a_worker_is_told_once(clip: Clip, worker: u64, me: u128, board: Shown)
    ensures
        ({
            let (next, said) = clip.then_offer(worker, me, board);
            let fresh = Clip { told: next.told.remove(worker), ..next };
            &&& next.then_offer(worker, me, board) == (next, None::<Announced>)
            &&& said is Some ==> fresh.then_offer(worker, me, board).1 == said
        }),
{
}

/// Telling one worker leaves every other to be told.
pub proof fn law_each_worker_is_told(clip: Clip, one: u64, other: u64, me: u128, board: Shown)
    requires
        one != other,
    ensures
        clip.then_offer(one, me, board).0.then_offer(other, me, board).1 == clip.then_offer(
            other,
            me,
            board,
        ).1,
{
}

/// New contents are announced to every worker, as they were read, unless they are marked, hold
/// nothing synced or are what a worker just announced.
pub proof fn law_new_contents_are_announced(clip: Clip, worker: u64, me: u128, board: Shown)
    requires
        clip.sound(),
        clip.generation < u64::MAX,
        clip.held matches Some(held) ==> held.count != board.count,
        !clip.skips(board),
        reps_of(board, SYNCED_COUNT as int).len() > 0,
        !all_heard(items_of(reps_of(board, SYNCED_COUNT as int)), clip.heard),
    ensures
        clip.then_offer(worker, me, board).1 == Some(
            Announced {
                origin: Peer::Client(me),
                generation: (clip.generation + 1) as u64,
                items: items_of(reps_of(board, SYNCED_COUNT as int)),
            },
        ),
{
    assert(items_of(reps_of(board, SYNCED_COUNT as int)).len() > 0);
}

/// Contents all of whose digests a worker just announced are not announced back, whether or not
/// the announcement was written here.
pub proof fn law_an_echo_is_not_announced(
    clip: Clip,
    offer: Announced,
    count: i64,
    wrote: i64,
    worker: u64,
    me: u128,
    board: Shown,
)
    requires
        clip.held matches Some(held) ==> held.count != board.count,
        synced_items(offer.items).len() > 0,
        forall|i: int|
            0 <= i < items_of(reps_of(board, SYNCED_COUNT as int)).len() ==> exists|j: int|
                0 <= j < synced_items(offer.items).len() && (#[trigger] synced_items(
                    offer.items,
                )[j]).hash == (#[trigger] items_of(reps_of(board, SYNCED_COUNT as int))[i]).hash,
    ensures
        clip.then_receive(offer, count).0.then_offer(worker, me, board).1 is None,
        clip.then_receive(offer, count).0.then_wrote(wrote).then_offer(worker, me, board).1 is None,
{
    let next = clip.then_receive(offer, count).0;
    let theirs = synced_items(offer.items);
    let hashes = theirs.map_values(|i: Item| i.hash);
    let mine = items_of(reps_of(board, SYNCED_COUNT as int));
    assert(next.heard == hashes);
    assert forall|i: int| 0 <= i < mine.len() implies hashes.contains((#[trigger] mine[i]).hash) by {
        let j = choose|j: int|
            0 <= j < theirs.len() && (#[trigger] theirs[j]).hash == mine[i].hash;
        assert(hashes[j] == mine[i].hash);
    }
    assert(all_heard(mine, next.heard));
}

/// The bytes that answer a fetch are those that were announced: an item of the offer has their
/// type, their size and their digest.
pub proof fn law_an_answer_is_what_was_announced(
    clip: Clip,
    generation: u64,
    uti: Seq<char>,
    count: i64,
)
    requires
        clip.sound(),
        clip.answer(generation, uti, count) is Some,
    ensures
        clip.held is Some,
        clip.held->0.offer is Some,
        exists|i: int|
            0 <= i < clip.held->0.offer->0.items.len() && #[trigger] clip.held->0.offer->0.items[i]
                == item_of((uti, clip.answer(generation, uti, count)->0)),
{
    let held = clip.held->0;
    lemma_bytes_of(held.reps, uti);
    let k = choose|k: int|
        0 <= k < held.reps.len() && #[trigger] held.reps[k] == (
            uti,
            bytes_of(held.reps, uti)->0,
        );
    assert(held.offer->0.items[k] == item_of(held.reps[k]));
}

/// Every item that a worker was told of is answered, while the pasteboard is unchanged, with the
/// bytes it was announced for: of its size and its digest. A type that was not announced, another
/// generation and a pasteboard that changed since are answered nothing.
pub proof fn law_what_was_announced_is_answered(
    clip: Clip,
    worker: u64,
    me: u128,
    board: Shown,
    i: int,
    generation: u64,
    uti: Seq<char>,
    count: i64,
)
    requires
        clip.sound(),
        clip.then_offer(worker, me, board).1 is Some,
    ensures
        ({
            let (next, said) = clip.then_offer(worker, me, board);
            let offer = said->0;
            &&& 0 <= i < offer.items.len() ==> {
                let item = offer.items[i];
                &&& next.answer(offer.generation, item.uti, board.count) matches Some(bytes)
                &&& blake3_of(bytes) == item.hash
                &&& bytes.len() <= u64::MAX ==> bytes.len() == item.size
                &&& item.inline is Some ==> item.inline == Some(bytes)
            }
            &&& (forall|k: int|
                0 <= k < offer.items.len() ==> (#[trigger] offer.items[k]).uti != uti)
                ==> next.answer(offer.generation, uti, board.count) is None
            &&& generation != offer.generation ==> next.answer(generation, uti, count) is None
            &&& count != board.count ==> next.answer(generation, uti, count) is None
        }),
{
    let (next, said) = clip.then_offer(worker, me, board);
    let offer = said->0;
    law_the_clipboard_stays_sound(clip, worker, me, board, offer, 0);
    let held = next.held->0;
    if 0 <= i < offer.items.len() {
        assert(offer.items[i] == item_of(held.reps[i]));
        lemma_bytes_at(held.reps, i);
    }
    if bytes_of(held.reps, uti) is Some {
        lemma_bytes_of(held.reps, uti);
        let k = choose|k: int|
            0 <= k < held.reps.len() && #[trigger] held.reps[k] == (
                uti,
                bytes_of(held.reps, uti)->0,
            );
        assert(offer.items[k] == item_of(held.reps[k]));
    }
}

/// Where the types differ, each is found at its own place.
proof fn lemma_bytes_at(reps: Seq<(Seq<char>, Seq<u8>)>, i: int)
    requires
        types_differ(reps),
        0 <= i < reps.len(),
    ensures
        bytes_of(reps, reps[i].0) == Some(reps[i].1),
    decreases reps.len(),
{
    if i > 0 {
        let rest = reps.drop_first();
        assert forall|a: int, b: int| 0 <= a < b < rest.len() implies (#[trigger] rest[a]).0 != (
        #[trigger] rest[b]).0 by {
            assert(rest[a] == reps[a + 1] && rest[b] == reps[b + 1]);
        }
        assert(reps[0].0 != reps[i].0);
        assert(rest[i - 1] == reps[i]);
        lemma_bytes_at(rest, i - 1);
    }
}

proof fn lemma_bytes_of(data: Seq<(Seq<char>, Seq<u8>)>, uti: Seq<char>)
    requires
        bytes_of(data, uti) is Some,
    ensures
        exists|k: int|
            0 <= k < data.len() && #[trigger] data[k] == (uti, bytes_of(data, uti)->0),
    decreases data.len(),
{
    if data[0].0 == uti {
        assert(data[0] == (uti, bytes_of(data, uti)->0));
    } else {
        let rest = data.drop_first();
        lemma_bytes_of(rest, uti);
        let k = choose|k: int|
            0 <= k < rest.len() && #[trigger] rest[k] == (uti, bytes_of(rest, uti)->0);
        assert(data[k + 1] == rest[k]);
    }
}

} // verus!
