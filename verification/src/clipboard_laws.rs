//! What the shared clipboard promises: which of a worker's copies land here, and which of this
//! client's are announced.
use vstd::prelude::*;

use crate::clipboard::{
    all_heard, all_here, blake3_of, bytes_of, inline_of, is_here, item_of, items_of,
    lemma_synced_differ, promised_of, reps_of, synced, synced_items, Announced, Clip, Item, Peer,
    Shown,
};

verus! {

/// The types that cross between machines: pictures, rich text, web pages and plain text. A file's
/// address does not.
pub open spec fn crosses(uti: Seq<char>) -> bool {
    ||| uti == "public.png"@
    ||| uti == "public.tiff"@
    ||| uti == "public.rtf"@
    ||| uti == "public.html"@
    ||| uti == "public.utf8-plain-text"@
}

/// The clipboard, unchanged since it was read, holds `item`: bytes of its type with its digest.
pub open spec fn on_clipboard(clip: Clip, count: i64, item: Item) -> bool {
    &&& clip.held is Some
    &&& clip.held->0.count == count
    &&& exists|k: int|
        0 <= k < clip.held->0.reps.len() && (#[trigger] clip.held->0.reps[k]).0 == item.uti
            && blake3_of(clip.held->0.reps[k].1) == item.hash
}

/// The types synced are those that cross.
proof fn lemma_crosses(uti: Seq<char>)
    ensures
        synced().contains(uti) == crosses(uti),
{
    let all = synced();
    assert(all.len() == 5);
    assert(all[0] == "public.png"@ && all[1] == "public.tiff"@ && all[2] == "public.rtf"@);
    assert(all[3] == "public.html"@ && all[4] == "public.utf8-plain-text"@);
}

proof fn lemma_synced_items(items: Seq<Item>)
    ensures
        synced_items(items) == items.filter(|i: Item| crosses(i.uti)),
        forall|k: int|
            0 <= k < synced_items(items).len() ==> crosses((#[trigger] synced_items(items)[k]).uti)
                && items.contains(synced_items(items)[k]),
        forall|i: int|
            0 <= i < items.len() && crosses((#[trigger] items[i]).uti) ==> synced_items(
                items,
            ).contains(items[i]),
    decreases items.len(),
{
    reveal(Seq::filter);
    let f = |i: Item| crosses(i.uti);
    if items.len() > 0 {
        let init = items.drop_last();
        lemma_synced_items(init);
        lemma_crosses(items.last().uti);
        let (was, now) = (synced_items(init), synced_items(items));
        assert(items.filter(f) == if f(items.last()) {
            init.filter(f).push(items.last())
        } else {
            init.filter(f)
        });
        assert forall|k: int| 0 <= k < now.len() implies crosses((#[trigger] now[k]).uti)
            && items.contains(now[k]) by {
            if k < was.len() {
                assert(now[k] == was[k]);
                let j = choose|j: int| 0 <= j < init.len() && init[j] == was[k];
                assert(items[j] == now[k]);
            } else {
                assert(items[items.len() - 1] == now[k]);
            }
        }
        assert forall|i: int| 0 <= i < items.len() && crosses((#[trigger] items[i]).uti) implies
            now.contains(items[i]) by {
            if i < init.len() {
                assert(init[i] == items[i]);
                let j = choose|j: int| 0 <= j < was.len() && was[j] == init[i];
                assert(now[j] == items[i]);
            } else {
                assert(now[now.len() - 1] == items[i]);
            }
        }
    }
}

/// What came with bytes and what did not, of the items that cross.
proof fn lemma_parts(items: Seq<Item>)
    ensures
        inline_of(synced_items(items)) == items.filter(
            |i: Item| crosses(i.uti) && i.inline is Some,
        ).map_values(|i: Item| (i.uti, i.inline->0)),
        promised_of(synced_items(items)) == items.filter(
            |i: Item| crosses(i.uti) && i.inline is None,
        ).map_values(|i: Item| i.uti),
    decreases items.len(),
{
    reveal(Seq::filter);
    let with = |i: Item| crosses(i.uti) && i.inline is Some;
    let bare = |i: Item| crosses(i.uti) && i.inline is None;
    let pair = |i: Item| (i.uti, i.inline->0);
    let name = |i: Item| i.uti;
    if items.len() == 0 {
        assert(items.filter(with).map_values(pair) =~= Seq::empty());
        assert(items.filter(bare).map_values(name) =~= Seq::empty());
    } else {
        let init = items.drop_last();
        let one = items.last();
        lemma_parts(init);
        lemma_crosses(one.uti);
        assert(items.filter(with) == if with(one) {
            init.filter(with).push(one)
        } else {
            init.filter(with)
        });
        assert(items.filter(bare) == if bare(one) {
            init.filter(bare).push(one)
        } else {
            init.filter(bare)
        });
        assert(init.filter(with).push(one).map_values(pair) =~= init.filter(with).map_values(
            pair,
        ).push(pair(one)));
        assert(init.filter(bare).push(one).map_values(name) =~= init.filter(bare).map_values(
            name,
        ).push(name(one)));
        assert(synced_items(init).push(one).drop_last() =~= synced_items(init));
    }
}

/// A worker's copy lands here: what it offers is written as soon as the clipboard lacks one of the
/// items that cross, with its own type and digest. The bytes that came with the offer are written
/// and every other type is promised, both in the offer's order, under the worker's name and number.
/// Only where each item is there already, or none crosses, is nothing written.
pub proof fn law_a_workers_copy_lands(clip: Clip, offer: Announced, count: i64)
    ensures
        ({
            let write = clip.then_receive(offer, count).1;
            &&& write is Some <==> exists|i: int|
                0 <= i < offer.items.len() && crosses((#[trigger] offer.items[i]).uti)
                    && !on_clipboard(clip, count, offer.items[i])
            &&& write matches Some(w) ==> {
                &&& w.origin == (offer.origin, offer.generation)
                &&& w.data == offer.items.filter(
                    |i: Item| crosses(i.uti) && i.inline is Some,
                ).map_values(|i: Item| (i.uti, i.inline->0))
                &&& w.promised == offer.items.filter(
                    |i: Item| crosses(i.uti) && i.inline is None,
                ).map_values(|i: Item| i.uti)
            }
        }),
{
    let items = synced_items(offer.items);
    lemma_synced_items(offer.items);
    lemma_parts(offer.items);
    let write = clip.then_receive(offer, count).1;
    if write is Some {
        if clip.held is Some && clip.held->0.count == count {
            assert(!all_here(items, clip.held->0.reps));
            let k = choose|k: int|
                0 <= k < items.len() && !is_here(#[trigger] items[k], clip.held->0.reps);
            let i = choose|i: int| 0 <= i < offer.items.len() && offer.items[i] == items[k];
            assert(crosses(offer.items[i].uti) && !on_clipboard(clip, count, offer.items[i])) by {
                if on_clipboard(clip, count, offer.items[i]) {
                    assert(is_here(items[k], clip.held->0.reps));
                }
            }
        } else {
            assert(crosses(items[0].uti));
            let i = choose|i: int| 0 <= i < offer.items.len() && offer.items[i] == items[0];
            assert(crosses(offer.items[i].uti) && !on_clipboard(clip, count, offer.items[i]));
        }
    } else if exists|i: int|
        0 <= i < offer.items.len() && crosses((#[trigger] offer.items[i]).uti) && !on_clipboard(
            clip,
            count,
            offer.items[i],
        ) {
        let i = choose|i: int|
            0 <= i < offer.items.len() && crosses((#[trigger] offer.items[i]).uti)
                && !on_clipboard(clip, count, offer.items[i]);
        let k = choose|k: int| 0 <= k < items.len() && items[k] == offer.items[i];
        assert(is_here(items[k], clip.held->0.reps));
    }
}

/// What a worker just announced counts as heard, digest by digest, and nothing else of the
/// bookkeeping changes; an offer of which nothing crosses changes nothing.
pub proof fn law_an_offer_is_remembered_by_its_digests(
    clip: Clip,
    offer: Announced,
    count: i64,
    hash: Seq<u8>,
)
    ensures
        ({
            let next = clip.then_receive(offer, count).0;
            let some = exists|i: int|
                0 <= i < offer.items.len() && crosses((#[trigger] offer.items[i]).uti);
            &&& next == (Clip { heard: next.heard, ..clip })
            &&& !some ==> next == clip
            &&& some ==> (next.heard.contains(hash) <==> exists|i: int|
                0 <= i < offer.items.len() && crosses((#[trigger] offer.items[i]).uti)
                    && offer.items[i].hash == hash)
        }),
{
    let items = synced_items(offer.items);
    lemma_synced_items(offer.items);
    let hashes = items.map_values(|i: Item| i.hash);
    if items.len() > 0 {
        let i = choose|i: int| 0 <= i < offer.items.len() && offer.items[i] == items[0];
        assert(crosses(offer.items[i].uti));
    }
    if exists|i: int| 0 <= i < offer.items.len() && crosses((#[trigger] offer.items[i]).uti) {
        let i = choose|i: int|
            0 <= i < offer.items.len() && crosses((#[trigger] offer.items[i]).uti);
        assert(items.contains(offer.items[i]));
        assert(items.len() > 0);
        if hashes.contains(hash) {
            let k = choose|k: int| 0 <= k < hashes.len() && hashes[k] == hash;
            let j = choose|j: int| 0 <= j < offer.items.len() && offer.items[j] == items[k];
            assert(crosses(offer.items[j].uti) && offer.items[j].hash == hash);
        }
        if exists|i: int|
            0 <= i < offer.items.len() && crosses((#[trigger] offer.items[i]).uti)
                && offer.items[i].hash == hash {
            let i = choose|i: int|
                0 <= i < offer.items.len() && crosses((#[trigger] offer.items[i]).uti)
                    && offer.items[i].hash == hash;
            let k = choose|k: int| 0 <= k < items.len() && items[k] == offer.items[i];
            assert(hashes[k] == hash);
        }
    }
}

/// The pasteboard holds `bytes` as the type `uti`: the type is listed, and the first bytes that
/// were read of it are these.
pub open spec fn shows(board: Shown, uti: Seq<char>, bytes: Seq<u8>) -> bool {
    &&& board.types.contains(uti)
    &&& exists|k: int|
        #![trigger board.data[k]]
        0 <= k < board.data.len() && board.data[k] == (uti, bytes) && forall|j: int|
            0 <= j < k ==> (#[trigger] board.data[j]).0 != uti
}

/// How rich a type is: a picture says most, plain text least.
pub open spec fn plainness(uti: Seq<char>) -> int {
    if uti == "public.png"@ {
        0
    } else if uti == "public.tiff"@ {
        1
    } else if uti == "public.rtf"@ {
        2
    } else if uti == "public.html"@ {
        3
    } else {
        4
    }
}

/// What nobody is to be told of: what this client wrote itself, and what is stamped as written by
/// this application, as a secret or as passing.
pub open spec fn private(clip: Clip, board: Shown) -> bool {
    ||| clip.wrote == Some(board.count)
    ||| board.types.contains("com.slopty.origin"@)
    ||| board.types.contains("org.nspasteboard.ConcealedType"@)
    ||| board.types.contains("org.nspasteboard.TransientType"@)
}

/// `item` announces `bytes`: their size and digest, and the bytes themselves where they are plain
/// text of 64 kilobytes at most.
pub open spec fn announces(item: Item, bytes: Seq<u8>) -> bool {
    &&& item.size == bytes.len() as u64
    &&& item.hash == blake3_of(bytes)
    &&& item.inline == if item.uti == "public.utf8-plain-text"@ && bytes.len() <= 65_536 {
        Some(bytes)
    } else {
        None
    }
}

proof fn lemma_first_bytes(data: Seq<(Seq<char>, Seq<u8>)>, uti: Seq<char>, bytes: Seq<u8>)
    ensures
        bytes_of(data, uti) == Some(bytes) <==> exists|k: int|
            #![trigger data[k]]
            0 <= k < data.len() && data[k] == (uti, bytes) && forall|j: int|
                0 <= j < k ==> (#[trigger] data[j]).0 != uti,
    decreases data.len(),
{
    if data.len() > 0 {
        let rest = data.drop_first();
        lemma_first_bytes(rest, uti, bytes);
        if data[0].0 == uti {
            if bytes_of(data, uti) == Some(bytes) {
                assert(data[0] == (uti, bytes));
            }
        } else {
            if bytes_of(rest, uti) == Some(bytes) {
                let k = choose|k: int|
                    #![trigger rest[k]]
                    0 <= k < rest.len() && rest[k] == (uti, bytes) && forall|j: int|
                        0 <= j < k ==> (#[trigger] rest[j]).0 != uti;
                assert(data[k + 1] == (uti, bytes));
                assert forall|j: int| 0 <= j < k + 1 implies (#[trigger] data[j]).0 != uti by {
                    if j > 0 {
                        assert(rest[j - 1].0 != uti);
                    }
                }
            }
            if exists|k: int|
                #![trigger data[k]]
                0 <= k < data.len() && data[k] == (uti, bytes) && forall|j: int|
                    0 <= j < k ==> (#[trigger] data[j]).0 != uti {
                let k = choose|k: int|
                    #![trigger data[k]]
                    0 <= k < data.len() && data[k] == (uti, bytes) && forall|j: int|
                        0 <= j < k ==> (#[trigger] data[j]).0 != uti;
                assert(rest[k - 1] == (uti, bytes));
                assert forall|j: int| 0 <= j < k - 1 implies (#[trigger] rest[j]).0 != uti by {
                    assert(data[j + 1].0 != uti);
                }
            }
        }
    }
}

/// What is read of a pasteboard.
proof fn lemma_read(board: Shown, n: int)
    requires
        0 <= n <= 5,
    ensures
        forall|i: int|
            0 <= i < reps_of(board, n).len() ==> {
                let rep = #[trigger] reps_of(board, n)[i];
                crosses(rep.0) && plainness(rep.0) < n && shows(board, rep.0, rep.1)
            },
        forall|uti: Seq<char>, bytes: Seq<u8>|
            crosses(uti) && plainness(uti) < n && #[trigger] shows(board, uti, bytes) ==> reps_of(
                board,
                n,
            ).contains((uti, bytes)),
        forall|i: int, j: int|
            0 <= i < j < reps_of(board, n).len() ==> plainness((#[trigger] reps_of(board, n)[i]).0)
                < plainness((#[trigger] reps_of(board, n)[j]).0),
    decreases n,
{
    if n > 0 {
        lemma_read(board, n - 1);
        lemma_synced_differ();
        let all = synced();
        assert(all.len() == 5);
        assert(all[0] == "public.png"@ && all[1] == "public.tiff"@ && all[2] == "public.rtf"@);
        assert(all[3] == "public.html"@ && all[4] == "public.utf8-plain-text"@);
        let uti = all[n - 1];
        assert(crosses(uti) && plainness(uti) == n - 1) by {
            assert(all[0] != all[1] && all[0] != all[2] && all[0] != all[3] && all[0] != all[4]);
            assert(all[1] != all[2] && all[1] != all[3] && all[1] != all[4]);
            assert(all[2] != all[3] && all[2] != all[4] && all[3] != all[4]);
        }
        let was = reps_of(board, n - 1);
        let now = reps_of(board, n);
        if bytes_of(board.data, uti) is Some {
            lemma_first_bytes(board.data, uti, bytes_of(board.data, uti)->0);
        }
        assert forall|i: int| 0 <= i < now.len() implies {
            let rep = #[trigger] now[i];
            crosses(rep.0) && plainness(rep.0) < n && shows(board, rep.0, rep.1)
        } by {
            if i < was.len() {
                assert(now[i] == was[i]);
            }
        }
        assert forall|u: Seq<char>, bytes: Seq<u8>|
            crosses(u) && plainness(u) < n && #[trigger] shows(board, u, bytes) implies now.contains(
            (u, bytes),
        ) by {
            if plainness(u) < n - 1 {
                let k = choose|k: int| 0 <= k < was.len() && was[k] == (u, bytes);
                assert(now[k] == (u, bytes));
            } else {
                assert(u == uti);
                lemma_first_bytes(board.data, uti, bytes);
                assert(now[now.len() - 1] == (u, bytes));
            }
        }
        assert forall|i: int, j: int| 0 <= i < j < now.len() implies plainness(
            (#[trigger] now[i]).0,
        ) < plainness((#[trigger] now[j]).0) by {
            assert(now[i] == was[i]);
            if j < was.len() {
                assert(now[j] == was[j]);
            }
        }
    }
}

/// A copy made here is announced: as soon as the pasteboard shows something new that crosses and
/// that no worker just announced itself, unless it is private. The offer lists every type that
/// crosses, the richest first and each with the bytes the pasteboard shows, under this client's name
/// and the next number.
pub proof fn law_a_copy_is_announced(clip: Clip, worker: u64, me: u128, board: Shown)
    requires
        clip.sound(),
        clip.generation < u64::MAX,
        clip.held matches Some(held) ==> held.count != board.count,
    ensures
        ({
            let (next, said) = clip.then_offer(worker, me, board);
            &&& said is Some <==> !private(clip, board) && exists|uti: Seq<char>, bytes: Seq<u8>|
                crosses(uti) && #[trigger] shows(board, uti, bytes) && !clip.heard.contains(
                    blake3_of(bytes),
                )
            &&& said matches Some(offer) ==> {
                &&& offer.origin == Peer::Client(me)
                &&& offer.generation == clip.generation + 1
                &&& forall|i: int|
                    0 <= i < offer.items.len() ==> crosses((#[trigger] offer.items[i]).uti)
                        && exists|bytes: Seq<u8>| #[trigger]
                        shows(board, offer.items[i].uti, bytes) && announces(
                            offer.items[i],
                            bytes,
                        )
                &&& forall|uti: Seq<char>, bytes: Seq<u8>|
                    crosses(uti) && #[trigger] shows(board, uti, bytes) ==> exists|i: int|
                        0 <= i < offer.items.len() && (#[trigger] offer.items[i]).uti == uti
                &&& forall|i: int, j: int|
                    0 <= i < j < offer.items.len() ==> plainness((#[trigger] offer.items[i]).uti)
                        < plainness((#[trigger] offer.items[j]).uti)
            }
        }),
{
    let (next, said) = clip.then_offer(worker, me, board);
    let reps = reps_of(board, 5);
    let items = items_of(reps);
    lemma_read(board, 5);
    assert(private(clip, board) == clip.skips(board));
    if !private(clip, board) {
        if said is Some {
            assert(!all_heard(items, clip.heard));
            let i = choose|i: int|
                0 <= i < items.len() && !clip.heard.contains((#[trigger] items[i]).hash);
            assert(items[i] == item_of(reps[i]));
            assert(shows(board, reps[i].0, reps[i].1));
        } else if exists|uti: Seq<char>, bytes: Seq<u8>|
            crosses(uti) && #[trigger] shows(board, uti, bytes) && !clip.heard.contains(
                blake3_of(bytes),
            ) {
            let (uti, bytes) = choose|uti: Seq<char>, bytes: Seq<u8>|
                crosses(uti) && #[trigger] shows(board, uti, bytes) && !clip.heard.contains(
                    blake3_of(bytes),
                );
            assert(reps.contains((uti, bytes)));
            let k = choose|k: int| 0 <= k < reps.len() && reps[k] == (uti, bytes);
            assert(items[k] == item_of(reps[k]));
            assert(!all_heard(items, clip.heard));
            assert(false);
        }
    }
    if let Some(offer) = said {
        assert(offer.items == items);
        assert forall|i: int| 0 <= i < offer.items.len() implies crosses(
            (#[trigger] offer.items[i]).uti,
        ) && exists|bytes: Seq<u8>| #[trigger]
            shows(board, offer.items[i].uti, bytes) && announces(offer.items[i], bytes) by {
            assert(items[i] == item_of(reps[i]));
            assert(shows(board, offer.items[i].uti, reps[i].1));
            assert(crate::clipboard::TEXT_UTI@ == "public.utf8-plain-text"@);
            assert(announces(offer.items[i], reps[i].1));
        }
        assert forall|uti: Seq<char>, bytes: Seq<u8>|
            crosses(uti) && #[trigger] shows(board, uti, bytes) implies exists|i: int|
            0 <= i < offer.items.len() && (#[trigger] offer.items[i]).uti == uti by {
            let k = choose|k: int| 0 <= k < reps.len() && reps[k] == (uti, bytes);
            assert(items[k] == item_of(reps[k]));
            assert(offer.items[k].uti == uti);
        }
        assert forall|i: int, j: int| 0 <= i < j < offer.items.len() implies plainness(
            (#[trigger] offer.items[i]).uti,
        ) < plainness((#[trigger] offer.items[j]).uti) by {
            assert(items[i] == item_of(reps[i]) && items[j] == item_of(reps[j]));
        }
    }
}

/// Until the pasteboard changes, what was read of it stays: a worker that asks again or anew is
/// told of the same contents, and this client's count of offers stands still.
pub proof fn law_an_unchanged_clipboard_is_read_once(
    clip: Clip,
    one: u64,
    other: u64,
    me: u128,
    board: Shown,
    later: Shown,
)
    requires
        later.count == board.count,
    ensures
        ({
            let first = clip.then_offer(one, me, board).0;
            let second = first.then_offer(other, me, later).0;
            &&& second.held == first.held
            &&& second.generation == first.generation
            &&& first.held matches Some(held) && held.count == board.count
        }),
{
}

/// A worker whose link is new is told again of what this client last announced; the others are
/// not.
pub proof fn law_a_new_link_hears_it_again(
    clip: Clip,
    worker: u64,
    other: u64,
    me: u128,
    board: Shown,
)
    requires
        other != worker,
        clip.held matches Some(held) && held.count == board.count && held.offer is Some,
        clip.told.contains_key(other) && clip.told[other] == clip.held->0.offer->0.generation,
    ensures
        ({
            let fresh = Clip { told: clip.told.remove(worker), ..clip };
            &&& fresh.then_offer(worker, me, board).1 == clip.held->0.offer
            &&& fresh.then_offer(other, me, board).1 is None
        }),
{
}

proof fn lemma_same_read(clip: Clip, board: Shown, other: Shown, n: int)
    requires
        0 <= n <= 5,
        other.types == board.types,
        forall|uti: Seq<char>|
            board.types.contains(uti) && synced().contains(uti) ==> #[trigger] bytes_of(
                board.data,
                uti,
            ) == bytes_of(other.data, uti),
    ensures
        reps_of(board, n) == reps_of(other, n),
    decreases n,
{
    if n > 0 {
        lemma_same_read(clip, board, other, n - 1);
        let uti = synced()[n - 1];
        assert(synced().contains(uti));
        assert(board.types.contains(uti) ==> bytes_of(board.data, uti) == bytes_of(other.data, uti));
    }
}

/// Only the types that are wanted need to be read: two pasteboards that show the same bytes for
/// each of those come to the same. And none is wanted in vain: the bytes that the pasteboard shows
/// for it are kept.
pub proof fn law_what_is_wanted_is_what_is_kept(
    clip: Clip,
    board: Shown,
    other: Shown,
    me: u128,
    wanted: Seq<char>,
    bytes: Seq<u8>,
)
    requires
        other.count == board.count,
        other.types == board.types,
        forall|uti: Seq<char>|
            clip.wants(board.count, board.types, uti) ==> #[trigger] bytes_of(board.data, uti)
                == bytes_of(other.data, uti),
    ensures
        clip.then_refresh(board, me) == clip.then_refresh(other, me),
        clip.wants(board.count, board.types, wanted) && shows(board, wanted, bytes) ==> {
            &&& clip.then_refresh(board, me).held matches Some(held)
            &&& held.reps.contains((wanted, bytes))
        },
{
    let bare = Shown { data: Seq::empty(), ..board };
    assert(clip.skips(board) == clip.skips(bare));
    if !(clip.held matches Some(held) && held.count == board.count) && !clip.skips(board) {
        assert forall|uti: Seq<char>|
            board.types.contains(uti) && synced().contains(uti) implies #[trigger] bytes_of(
            board.data,
            uti,
        ) == bytes_of(other.data, uti) by {
            assert(clip.wants(board.count, board.types, uti));
        }
        lemma_same_read(clip, board, other, 5);
        lemma_read(board, 5);
        lemma_crosses(wanted);
    }
}

} // verus!
