//! Pages in a tile: addresses, when a page shows, and what a failed one does.
use slopty_ui::browser::{
    drawn_picture, exchange, is_web_url, page_shows, premultiply, short_url, texture, web_url, BrowserBody,
    BrowserEvent, BrowserView, Cover, FrameCount, PageAsk, PageState, Picture, WebEvent,
};

const OPEN: Cover = Cover { overlay: false, overview: false };

fn page(title: &str, url: &str) -> PageState {
    PageState { title: title.to_owned(), url: url.to_owned(), ..PageState::default() }
}

#[test]
fn anything_gpui_draws_on_top_hides_the_page() {
    let covered = |cover| page_shows(true, true, false, cover);
    assert!(!covered(Cover { overlay: true, overview: false }));
    assert!(!covered(Cover { overlay: false, overview: true }));
    assert!(covered(OPEN));
}

#[test]
fn a_tile_off_the_strip_fading_or_not_drawn_hides_the_page() {
    assert!(!page_shows(false, true, false, OPEN));
    assert!(!page_shows(true, false, false, OPEN));
    assert!(!page_shows(true, true, true, OPEN));
    assert!(page_shows(true, true, false, OPEN));
}

#[test]
fn addresses_are_http_or_https_with_a_host() {
    assert!(is_web_url("http://localhost:5173/"));
    assert!(is_web_url("https://example.test/a?b=c"));
    assert!(!is_web_url("file:///etc/passwd"));
    assert!(!is_web_url("javascript:alert(1)"));
    assert!(!is_web_url("http://"));
    assert!(!is_web_url("http://localhost:"));
    assert!(is_web_url("http://[::1]"));
    assert!(is_web_url("http://[::1]:5173/"));
    assert!(!is_web_url(&format!("http://h/{}", "a".repeat(2048))));
    assert_eq!(web_url("localhost:5173").as_deref(), Some("http://localhost:5173"));
    assert_eq!(web_url("https://a.test").as_deref(), Some("https://a.test"));
    assert_eq!(web_url("ftp://a.test"), None);
    assert_eq!(short_url("http://localhost:5173/"), "localhost:5173");
    assert_eq!(short_url("http://localhost:5173/app/"), "localhost:5173/app/");
}

#[test]
fn an_address_is_its_own_address() {
    let url = web_url("localhost:5173").unwrap_or_default();
    assert_eq!(web_url(&url).as_deref(), Some(url.as_str()));
    assert_eq!(web_url("javascript://x"), None);
    assert_eq!(web_url(""), None);
}

#[test]
fn a_failed_page_says_so_and_is_never_shown() {
    let mut view = BrowserView::new(7, "http://localhost:5173/");
    assert_eq!(view.id(), 7);
    assert_eq!(view.apply(true, false, false), [PageAsk::Open, PageAsk::Place]);
    let (ask, event) = view.native_event(WebEvent::Failed("refused".to_owned()), None);
    assert_eq!((ask, event), (Some(PageAsk::Hide), None));
    assert_eq!(view.page().failed.as_deref(), Some("refused"));
    assert!(!view.apply(true, true, true).contains(&PageAsk::Place));
    match view.body() {
        BrowserBody::Notice(text) => assert_eq!(text, "Can't open localhost:5173: refused"),
        BrowserBody::Picture => panic!("a failed page has a notice"),
    }
    assert_eq!(view.reload(), PageAsk::Load);
    assert_eq!(view.page().failed, None);
}

#[test]
fn a_page_is_titled_by_itself_and_else_by_its_address() {
    let mut view = BrowserView::new(1, "http://localhost:5173/");
    assert_eq!(view.title(), "localhost:5173");
    let (_, event) = view.native_event(WebEvent::Clicked, None);
    assert_eq!(event, Some(BrowserEvent::Focused));
    let (_, event) = view.native_event(WebEvent::Released, None);
    assert_eq!(event, Some(BrowserEvent::Released));
    view.refresh(Some(page("Docs", "http://localhost:5173/docs")));
    assert_eq!(view.title(), "Docs");
    assert_eq!(view.short_url(), "localhost:5173/docs");
}

#[test]
fn a_tile_is_drawn_in_the_frame_that_measured_it() {
    let mut view = BrowserView::new(1, "http://a.test");
    assert!(!view.drawn_in(4));
    view.measured(FrameCount(4));
    assert!(view.drawn_in(4));
    assert!(!view.drawn_in(9));
}

#[test]
fn a_snapshot_is_what_the_body_shows() {
    let mut view = BrowserView::new(1, "http://a.test");
    match view.body() {
        BrowserBody::Notice(text) => assert_eq!(text, "Opening a.test…"),
        BrowserBody::Picture => panic!("there is no picture yet"),
    }
    view.native_event(WebEvent::Snapshot(b"no picture".to_vec()), None);
    assert!(!view.has_snapshot(), "what is no picture is no snapshot");
    view.native_event(WebEvent::Snapshot(RED_DOT.to_vec()), None);
    assert!(view.has_snapshot());
    assert!(matches!(view.body(), BrowserBody::Picture));
    view.cannot_open();
    assert_eq!(view.page().failed.as_deref(), Some("This device has no web view"));
    assert_eq!(view.label(), "Page http://a.test");
    assert_eq!(view.back(), PageAsk::Back);
}

#[test]
fn a_picture_is_taken_before_hiding() {
    let view = BrowserView::new(1, "http://a.test");
    let asks = view.apply(false, true, true);
    assert_eq!(asks, [PageAsk::Snapshot, PageAsk::Hide]);
}

#[test]
fn exchanging_twice_changes_nothing() {
    let mut pixels = vec![1_u8, 2, 3, 4, 5, 6, 7, 8];
    exchange(&mut pixels);
    assert_eq!(pixels, [3, 2, 1, 4, 7, 6, 5, 8], "red and blue change places");
    exchange(&mut pixels);
    assert_eq!(pixels, [1, 2, 3, 4, 5, 6, 7, 8]);
}

/// A picture file of one red pixel.
const RED_DOT: [u8; 70] = [
    0x89, 0x50, 0x4e, 0x47, 0x0d, 0x0a, 0x1a, 0x0a, 0x00, 0x00, 0x00, 0x0d, 0x49, 0x48, 0x44, 0x52,
    0x00, 0x00, 0x00, 0x01, 0x00, 0x00, 0x00, 0x01, 0x08, 0x06, 0x00, 0x00, 0x00, 0x1f, 0x15, 0xc4,
    0x89, 0x00, 0x00, 0x00, 0x0d, 0x49, 0x44, 0x41, 0x54, 0x78, 0xda, 0x63, 0xf8, 0xcf, 0xc0, 0xf0,
    0x1f, 0x00, 0x05, 0x00, 0x01, 0xff, 0x56, 0xc7, 0x2f, 0x0d, 0x00, 0x00, 0x00, 0x00, 0x49, 0x45,
    0x4e, 0x44, 0xae, 0x42, 0x60, 0x82,
];

/// One pixel of half an orange, as a PNG file.
const HALF_ORANGE_DOT: [u8; 70] = [
    0x89, 0x50, 0x4e, 0x47, 0x0d, 0x0a, 0x1a, 0x0a, 0x00, 0x00, 0x00, 0x0d, 0x49, 0x48, 0x44, 0x52,
    0x00, 0x00, 0x00, 0x01, 0x00, 0x00, 0x00, 0x01, 0x08, 0x06, 0x00, 0x00, 0x00, 0x1f, 0x15, 0xc4,
    0x89, 0x00, 0x00, 0x00, 0x0d, 0x49, 0x44, 0x41, 0x54, 0x78, 0xda, 0x63, 0x38, 0x91, 0x62, 0xd4,
    0x00, 0x00, 0x05, 0x35, 0x01, 0xdf, 0xac, 0x3c, 0xf1, 0xcb, 0x00, 0x00, 0x00, 0x00, 0x49, 0x45,
    0x4e, 0x44, 0xae, 0x42, 0x60, 0x82,
];

#[test]
fn a_picture_file_becomes_its_pixels_blue_first() {
    let picture = texture(&RED_DOT);
    assert!(picture.is_some(), "the file decodes");
    if let Some(picture) = picture {
        assert_eq!((picture.width, picture.height), (1, 1));
        assert_eq!(picture.pixels, [0, 0, 255, 255]);
    }
    assert_eq!(texture(&HALF_ORANGE_DOT).map(|p| p.pixels), Some(vec![25, 50, 100, 128]));
    assert_eq!(texture(b"no picture"), None);
}

#[test]
fn colours_are_scaled_by_their_alpha() {
    let mut pixels = vec![255, 128, 1, 1, 255, 128, 1, 254, 9, 8, 7];
    premultiply(&mut pixels);
    assert_eq!(pixels, [1, 1, 0, 1, 254, 127, 1, 254, 9, 8, 7]);
    for alpha in 0..=255_u8 {
        for colour in 0..=255_u8 {
            let mut pixels = vec![colour, colour, colour, alpha];
            premultiply(&mut pixels);
            assert!(pixels[0] <= alpha);
            assert!(alpha != 255 || pixels[0] == colour);
        }
    }
}

#[test]
fn a_picture_of_the_page_is_kept_for_when_it_is_hidden() {
    let mut view = BrowserView::new(1, "http://a.test");
    view.native_event(WebEvent::Snapshot(HALF_ORANGE_DOT.to_vec()), None);
    assert_eq!(view.snapshot().map(|p| p.pixels.clone()), Some(vec![25, 50, 100, 128]));
    view.native_event(WebEvent::Snapshot(b"no picture".to_vec()), None);
    assert!(view.has_snapshot());
}

#[test]
fn a_scheme_stands_before_the_path() {
    assert_eq!(
        web_url("localhost:5173/login?next=http://a.test").as_deref(),
        Some("http://localhost:5173/login?next=http://a.test")
    );
    assert_eq!(web_url("a.test#https://b").as_deref(), Some("http://a.test#https://b"));
    assert_eq!(web_url("ftp://a.test/?u=http://b.test"), None);
    assert_eq!(short_url("localhost:5173/?u=http://a.test"), "localhost:5173/?u=http://a.test");
}

#[test]
fn an_address_needs_a_host() {
    assert!(!is_web_url("http://:5173/"));
    assert!(!is_web_url("http://:"));
    assert!(is_web_url("http://h:1"));
}

#[test]
fn a_decoded_picture_is_drawn_and_kept() {
    let pixels = vec![200, 100, 50, 128, 1, 2, 3, 255, 255, 9, 0, 0];
    let drawn = drawn_picture(Some(Picture { width: 3, height: 1, pixels }));
    let expected = vec![25, 50, 100, 128, 3, 2, 1, 255, 0, 0, 0, 0];
    assert_eq!(drawn.as_ref().map(|p| p.pixels.clone()), Some(expected.clone()));
    assert_eq!(drawn_picture(None), None);
    let mut view = BrowserView::new(1, "http://a.test");
    view.pictured(None);
    assert!(!view.has_snapshot());
    assert_eq!(view.snapshot(), None);
    view.pictured(drawn);
    view.pictured(None);
    assert!(view.has_snapshot(), "what encodes no picture changes nothing");
    assert_eq!(view.snapshot().map(|p| p.pixels.clone()), Some(expected));
}
