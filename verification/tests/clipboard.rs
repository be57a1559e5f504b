//! The shared clipboard.
use slopty_ui::clipboard::{
    digest, is_synced, Board, ClipItem, ClipSync, Offer, Peer, CONCEALED_UTI, INLINE_CLIP_BYTES,
    TEXT_UTI, TRANSIENT_UTI,
};

const STUDIO: u64 = 1;
const ME: u128 = 77;

/// A pasteboard: a count that every copy moves, and what it holds.
struct Memory {
    count: i64,
    data: Vec<(String, Vec<u8>)>,
}

impl Memory {
    fn new() -> Memory {
        Memory { count: 0, data: Vec::new() }
    }

    fn copy(&mut self, items: &[(&str, &[u8])]) {
        self.count += 1;
        self.data = items.iter().map(|(u, d)| ((*u).to_owned(), d.to_vec())).collect();
    }

    fn board(&self) -> Board {
        Board {
            count: self.count,
            types: self.data.iter().map(|(u, _)| u.clone()).collect(),
            data: self.data.clone(),
        }
    }
}

fn worker_offer(generation: u64, items: Vec<ClipItem>) -> Offer {
    Offer { origin: Peer::Worker(5), generation, items }
}

fn text_item(text: &str) -> ClipItem {
    ClipItem {
        uti: TEXT_UTI.to_owned(),
        size: text.len() as u64,
        hash: digest(text.as_bytes()),
        inline: Some(text.as_bytes().to_vec()),
    }
}

#[test]
fn a_copy_here_is_announced_once_per_worker_with_small_text_inline() {
    let mut board = Memory::new();
    let mut sync = ClipSync::new();
    assert!(sync.offer_for(STUDIO, ME, &board.board()).is_none(), "an empty clipboard says nothing");
    let png = vec![9_u8; INLINE_CLIP_BYTES + 1];
    board.copy(&[
        (TEXT_UTI, b"hello"),
        ("public.png", &png),
        ("public.file-url", b"file:///x"),
    ]);
    let offer = match sync.offer_for(STUDIO, ME, &board.board()) {
        Some(offer) => offer,
        None => panic!("a copy is announced"),
    };
    let utis: Vec<_> = offer.items.iter().map(|i| i.uti.as_str()).collect();
    assert_eq!(utis, ["public.png", TEXT_UTI], "richest first, no file URLs");
    assert_eq!(offer.items[1].inline.as_deref(), Some(&b"hello"[..]));
    assert!(offer.items[0].inline.is_none(), "a picture is fetched");
    assert_eq!(offer.items[0].hash, digest(&png));
    assert!(sync.offer_for(STUDIO, ME, &board.board()).is_none(), "told already");
    assert!(sync.offer_for(2, ME, &board.board()).is_some(), "the other worker was not");
    assert_eq!(sync.answer(offer.generation, "public.png", board.count), Some(png));
    board.copy(&[(TEXT_UTI, b"newer")]);
    assert_eq!(
        sync.answer(offer.generation, "public.png", board.count),
        None,
        "the clipboard moved on"
    );
}

#[test]
fn a_worker_offer_lands_as_text_and_promises_and_is_never_announced_back() {
    let mut board = Memory::new();
    let mut sync = ClipSync::new();
    let png = ClipItem { uti: "public.png".to_owned(), size: 4, hash: [1; 32], inline: None };
    let write = match sync.receive(&worker_offer(7, vec![png, text_item("from the worker")]), 0) {
        Some(write) => write,
        None => panic!("the offer lands"),
    };
    let texts: Vec<_> = write.data.iter().filter(|(u, _)| u == TEXT_UTI).collect();
    assert_eq!(texts, [&(TEXT_UTI.to_owned(), b"from the worker".to_vec())]);
    assert_eq!(write.promised, ["public.png"], "fetched only on paste");
    let (peer, generation) = write.origin;
    assert!(matches!(peer, Peer::Worker(_)) && generation == 7, "{peer:?} {generation}");
    board.copy(&[(TEXT_UTI, b"from the worker")]);
    sync.wrote(board.count);
    assert!(
        sync.offer_for(STUDIO, ME, &board.board()).is_none(),
        "our own write is not an announcement"
    );
}

#[test]
fn the_same_contents_coming_back_unstamped_are_not_echoed() {
    let mut board = Memory::new();
    let mut sync = ClipSync::new();
    assert!(sync.receive(&worker_offer(1, vec![text_item("ping")]), board.count).is_some());
    board.copy(&[(TEXT_UTI, b"ping")]);
    sync.wrote(board.count);
    // Universal Clipboard delivers the worker's copy again, without the stamp.
    board.copy(&[(TEXT_UTI, b"ping")]);
    assert!(sync.offer_for(STUDIO, ME, &board.board()).is_none(), "same digest: an echo");
    board.copy(&[(TEXT_UTI, b"pong")]);
    assert!(sync.offer_for(STUDIO, ME, &board.board()).is_some(), "new contents are announced");
}

#[test]
fn a_password_or_a_transient_copy_is_never_announced() {
    let mut board = Memory::new();
    let mut sync = ClipSync::new();
    board.copy(&[(TEXT_UTI, b"hunter2"), (CONCEALED_UTI, b"")]);
    assert!(sync.offer_for(STUDIO, ME, &board.board()).is_none());
    board.copy(&[(TEXT_UTI, b"otp"), (TRANSIENT_UTI, b"")]);
    assert!(sync.offer_for(STUDIO, ME, &board.board()).is_none());
}

#[test]
fn a_digest_is_the_hash_of_the_bytes() {
    assert_eq!(digest(b"abc"), *blake3::hash(b"abc").as_bytes());
    assert_ne!(digest(b"abc"), digest(b"abd"));
}

#[test]
fn a_worker_that_comes_back_is_told_again() {
    let mut board = Memory::new();
    let mut sync = ClipSync::new();
    board.copy(&[(TEXT_UTI, b"hello")]);
    assert!(sync.offer_for(STUDIO, ME, &board.board()).is_some());
    assert!(sync.offer_for(STUDIO, ME, &board.board()).is_none());
    sync.forget(STUDIO);
    assert!(sync.offer_for(STUDIO, ME, &board.board()).is_some());
    assert!(is_synced(TEXT_UTI) && !is_synced("public.file-url"));
}

#[test]
fn every_announced_item_is_answered_with_its_own_bytes() {
    let mut board = Memory::new();
    let mut sync = ClipSync::new();
    board.copy(&[(TEXT_UTI, b"hello"), ("public.html", b"<b>hello</b>"), ("public.png", b"p")]);
    let Some(offer) = sync.offer_for(STUDIO, ME, &board.board()) else {
        panic!("the copy is announced")
    };
    assert_eq!(offer.items.len(), 3);
    for item in &offer.items {
        let bytes = sync.answer(offer.generation, &item.uti, board.count);
        assert_eq!(bytes.as_ref().map(|b| digest(b)), Some(item.hash), "{}", item.uti);
        assert_eq!(bytes.map(|b| b.len() as u64), Some(item.size));
    }
    assert_eq!(sync.answer(offer.generation, "public.rtf", board.count), None);
    assert_eq!(sync.answer(offer.generation + 1, TEXT_UTI, board.count), None);
    assert_eq!(sync.answer(offer.generation, TEXT_UTI, board.count + 1), None);
}
