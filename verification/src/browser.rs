//! A browser tile: a web page in a native web view laid over the tile.
//!
//! The page is the platform's own view, which always draws above everything else. Each frame it
//! goes over the tile's body, or nowhere when something is shown on top or the tile is off the
//! strip. While the page is hidden the body shows its last picture, so covering it never leaves
//! a hole.
use vstd::prelude::*;

use crate::text::{
    byte_len, bytes, chars_of, copy_of, has_prefix, held, is_white, is_whitespace, last_at, lead,
    lemma_lead, lemma_lead_is, lemma_trail, lemma_trail_is, part, past_last, stands_at, starts_with,
    string_of, trail, trim, trim_end, trim_start, trimmed,
};

verus! {

/// How often a shown page is asked for its title and address, which scripts change without a
/// navigation, in seconds.
pub const POLL: u64 = 1;

/// The longest address a tile opens, in bytes (the worker's own limit).
pub const URL_MAX: usize = 2048;

/// What is drawn over the strip this frame.
#[derive(Clone, Copy, Debug, Default, PartialEq, Eq)]
pub struct Cover {
    /// An overlay: the palette, the picker, a titlebar menu, a dialog.
    pub overlay: bool,
    /// The overview, open or on its way.
    pub overview: bool,
}

/// Whether the page of a tile is shown this frame: its body was drawn, is large enough to see and
/// on the strip, the tile is not fading, and nothing is drawn over the strip. (A native view
/// would not fade with its tile.)
pub fn page_shows(drawn: bool, visible: bool, fading: bool, cover: Cover) -> (r: bool)
    ensures
        r == (drawn && visible && !fading && !cover.overlay && !cover.overview),
{
    drawn && visible && !fading && !cover.overlay && !cover.overview
}

/// What a browser tile tells the workspace.
#[derive(Clone, Copy, Debug, PartialEq, Eq, Structural)]
pub enum BrowserEvent {
    /// The page was clicked and has the keyboard: its tile takes the focus.
    Focused,
    /// The page gave the keyboard back.
    Released,
}

/// The workspace's frame number, bumped every time it draws: a body measured in an older frame
/// was not drawn in this one.
#[derive(Clone, Copy, Debug, Default)]
pub struct FrameCount(pub u64);

/// What the page shows, as last read.
#[derive(Clone, Debug, Default, PartialEq, Eq)]
pub struct PageState {
    /// The document's title, empty before one loads.
    pub title: String,
    /// The address shown now.
    pub url: String,
    /// A navigation is under way.
    pub loading: bool,
    /// There is a page to go back to.
    pub can_go_back: bool,
    /// Why the last navigation failed, until the next one starts.
    pub failed: Option<String>,
}

/// What a page shows, in the model.
pub struct Page {
    pub title: Seq<char>,
    pub url: Seq<char>,
    pub loading: bool,
    pub can_go_back: bool,
    pub failed: Option<Seq<char>>,
}

impl View for PageState {
    type V = Page;

    open spec fn view(&self) -> Page {
        Page {
            title: self.title@,
            url: self.url@,
            loading: self.loading,
            can_go_back: self.can_go_back,
            failed: held(self.failed),
        }
    }
}

impl PageState {
    fn copy(&self) -> (r: PageState)
        ensures
            r@ == self@,
    {
        PageState {
            title: self.title.clone(),
            url: self.url.clone(),
            loading: self.loading,
            can_go_back: self.can_go_back,
            failed: copy_of(&self.failed),
        }
    }
}

/// How many characters stand before the first `/`, `?` or `#` of `s`.
pub open spec fn host_len(s: Seq<char>) -> nat
    decreases s.len(),
{
    if s.len() == 0 || s[0] == '/' || s[0] == '?' || s[0] == '#' {
        0
    } else {
        1 + host_len(s.drop_first())
    }
}

/// `s` names a scheme: `://` ends what stands before its path.
pub open spec fn names_scheme(s: Seq<char>) -> bool {
    stands_at(s, "://"@, host_len(s) - 1)
}

/// What stands behind the scheme of `url`; all of it where it names none.
pub open spec fn without_scheme(url: Seq<char>) -> Seq<char> {
    if names_scheme(url) {
        url.skip(host_len(url) as int + 2)
    } else {
        url
    }
}

/// `url` without its scheme and a lone trailing slash.
pub open spec fn short_of(url: Seq<char>) -> Seq<char> {
    let rest = without_scheme(url);
    if rest.len() > 0 && rest.last() == '/' && !rest.drop_last().contains('/') {
        rest.drop_last()
    } else {
        rest
    }
}

/// How many characters stand before the first `/`, `?` or `#` of `s`.
fn host_end(s: &[char]) -> (r: usize)
    ensures
        r == host_len(s@),
        r <= s@.len(),
{
    let mut i: usize = 0;
    assert(s@.skip(0) == s@);
    while i < s.len() && s[i] != '/' && s[i] != '?' && s[i] != '#'
        invariant
            i <= s.len(),
            host_len(s@) == i + host_len(s@.skip(i as int)),
        decreases s.len() - i,
    {
        assert(s@.skip(i as int).drop_first() == s@.skip(i + 1));
        assert(s@.skip(i as int)[0] == s@[i as int]);
        i += 1;
    }
    assert(host_len(s@.skip(i as int)) == 0) by {
        if i < s@.len() {
            assert(s@.skip(i as int)[0] == s@[i as int]);
        }
    }
    i
}

proof fn lemma_scheme_end()
    ensures
        "://"@ == seq![':', '/', '/'],
{
    reveal_strlit("://");
    assert("://"@ == seq![':', '/', '/']);
}

/// How many characters of `s` its scheme takes, with the `://`; `None` where it names none.
fn scheme_len(s: &[char]) -> (r: Option<usize>)
    ensures
        r is Some == names_scheme(s@),
        r matches Some(n) ==> n == host_len(s@) + 2 && n <= s@.len(),
{
    let at: usize = host_end(s);
    proof {
        lemma_scheme_end();
        if names_scheme(s@) {
            let three = s@.subrange(at - 1, at + 2);
            assert(three[0] == s@[at - 1] && three[1] == s@[at as int] && three[2] == s@[at + 1]);
        }
    }
    if at > 0 && s.len() - at >= 2 && s[at - 1] == ':' && s[at] == '/' && s[at + 1] == '/' {
        assert(s@.subrange(at - 1, at + 2) == "://"@);
        Some(at + 2)
    } else {
        None
    }
}

/// `url` without its scheme and a lone trailing slash: `localhost:5173/app`.
pub fn short_url(url: &str) -> (r: &str)
    ensures
        r@ == short_of(url@),
{
    let chars = chars_of(url);
    let n: usize = chars.len();
    let from: usize = match scheme_len(chars.as_slice()) {
        Some(from) => from,
        None => 0,
    };
    let ghost rest = url@.skip(from as int);
    assert(rest == without_scheme(url@));
    if from < n && chars[n - 1] == '/' {
        let mut i: usize = from;
        while i < n - 1
            invariant
                from <= i <= n - 1,
                n == chars@.len(),
                chars@ == url@,
                rest == url@.skip(from as int),
                rest == without_scheme(url@),
                from < n,
                chars@[n - 1] == '/',
                forall|k: int| 0 <= k < i - from ==> #[trigger] rest[k] != '/',
            decreases n - i,
        {
            if chars[i] == '/' {
                assert(rest.drop_last()[i - from] == '/');
                assert(rest.drop_last().contains('/'));
                return url.substring_char(from, n);
            }
            assert(rest[i - from] != '/');
            i += 1;
        }
        assert(!rest.drop_last().contains('/')) by {
            if rest.drop_last().contains('/') {
                let k = choose|k: int| 0 <= k < rest.drop_last().len() && rest.drop_last()[k] == '/';
                assert(rest[k] == '/');
            }
        }
        return url.substring_char(from, n - 1);
    }
    url.substring_char(from, n)
}

/// A host, and behind it, where a colon follows, a port that is a number. (`[::1]` is a host whose
/// colons are not a port.)
pub open spec fn is_authority(s: Seq<char>) -> bool {
    &&& s.len() > 0
    &&& s.last() == ']' || last_at(s, ':') < 0 || (0 < last_at(s, ':') < s.len() - 1 && all_digits(
        s.skip(last_at(s, ':') + 1),
    ))
}

/// Every character is a decimal digit.
pub open spec fn all_digits(s: Seq<char>) -> bool {
    forall|i: int| 0 <= i < s.len() ==> '0' <= #[trigger] s[i] && s[i] <= '9'
}

/// No character is white space.
pub open spec fn no_white(s: Seq<char>) -> bool {
    forall|i: int| 0 <= i < s.len() ==> !is_white(#[trigger] s[i])
}

/// What stands behind the scheme of an http or https address.
pub open spec fn web_rest(text: Seq<char>) -> Option<Seq<char>> {
    if starts_with(text, "http://"@) {
        Some(text.skip("http://"@.len() as int))
    } else if starts_with(text, "https://"@) {
        Some(text.skip("https://"@.len() as int))
    } else {
        None
    }
}

/// `text` is an address a browser tile opens: http or https, a host, no white space inside, not
/// too long.
pub open spec fn is_web(text: Seq<char>) -> bool {
    let bare = trim(text);
    &&& bytes(bare) <= URL_MAX
    &&& web_rest(bare) matches Some(rest) && is_authority(rest.take(host_len(rest) as int))
        && no_white(rest)
}

/// Whether `s` is a host, and behind it, where a colon follows, a port that is a number.
fn authority_ok(s: &[char]) -> (r: bool)
    ensures
        r == is_authority(s@),
{
    let n: usize = s.len();
    if n == 0 {
        return false;
    }
    if s[n - 1] == ']' {
        return true;
    }
    let at: usize = past_last(s, ':');
    if at == 0 {
        return true;
    }
    if at == 1 || at == n {
        return false;
    }
    let ghost port = s@.skip(at as int);
    let mut i: usize = at;
    while i < n
        invariant
            at <= i <= n,
            n == s@.len(),
            1 < at < n,
            at == last_at(s@, ':') + 1,
            s@[n - 1] != ']',
            port == s@.skip(at as int),
            forall|k: int| 0 <= k < i - at ==> '0' <= #[trigger] port[k] && port[k] <= '9',
        decreases n - i,
    {
        let c: char = s[i];
        assert(port[i - at] == c);
        if c < '0' || c > '9' {
            return false;
        }
        i += 1;
    }
    true
}

/// Whether no character of `s` is white space.
fn without_white(s: &[char]) -> (r: bool)
    ensures
        r == no_white(s@),
{
    let mut i: usize = 0;
    while i < s.len()
        invariant
            i <= s.len(),
            forall|k: int| 0 <= k < i ==> !is_white(#[trigger] s@[k]),
        decreases s.len() - i,
    {
        if is_whitespace(s[i]) {
            return false;
        }
        i += 1;
    }
    true
}

/// Whether `text` is an address a browser tile opens: http or https, a host, at most 2 KiB (the
/// worker's own limit).
pub fn is_web_url(text: &str) -> (r: bool)
    ensures
        r == is_web(text@),
{
    let chars = chars_of(text);
    let bare = trimmed(chars.as_slice());
    let http = chars_of("http://");
    let https = chars_of("https://");
    let from: usize = if has_prefix(bare, http.as_slice()) {
        http.len()
    } else if has_prefix(bare, https.as_slice()) {
        https.len()
    } else {
        return false;
    };
    let rest = part(bare, from, bare.len());
    assert(rest@ == bare@.skip(from as int));
    let bare_text = string_of(bare);
    let size: usize = byte_len(bare_text.as_str());
    let host = part(rest, 0, host_end(rest));
    assert(host@ == rest@.take(host_len(rest@) as int));
    size <= URL_MAX && authority_ok(host) && without_white(rest)
}

/// `text` as an address: as it is when it names a scheme, else `http://` in front.
pub open spec fn addressed(text: Seq<char>) -> Seq<char> {
    if names_scheme(trim(text)) {
        trim(text)
    } else {
        "http://"@ + trim(text)
    }
}

/// `text` as an address that a tile opens.
pub open spec fn address_of(text: Seq<char>) -> Option<Seq<char>> {
    if is_web(addressed(text)) {
        Some(addressed(text))
    } else {
        None
    }
}

/// `text` as an address: as it is when it names a scheme, else `http://` in front
/// (`localhost:5173` is a dev server, not a search).
pub fn web_url(text: &str) -> (r: Option<String>)
    ensures
        held(r) == address_of(text@),
{
    let chars = chars_of(text);
    let bare = trimmed(chars.as_slice());
    let bare_text = string_of(bare);
    let url = if scheme_len(bare).is_some() {
        bare_text
    } else {
        let mut url = String::from_str("http://");
        url.append(bare_text.as_str());
        url
    };
    if is_web_url(url.as_str()) {
        Some(url)
    } else {
        None
    }
}

/// A text that starts and ends with something to see is trimmed already.
proof fn lemma_trimmed(s: Seq<char>)
    requires
        s.len() > 0,
        !is_white(s[0]),
        !is_white(s.last()),
    ensures
        trim(s) == s,
{
    lemma_lead_is(s, 0);
    assert(trim_start(s) == s);
    lemma_trail_is(s, 0);
    assert(trim_end(s) == s);
}

/// A trimmed text starts and ends with something to see.
proof fn lemma_trim_ends(s: Seq<char>)
    requires
        trim(s).len() > 0,
    ensures
        !is_white(trim(s)[0]),
        !is_white(trim(s).last()),
{
    lemma_lead(s);
    let a = trim_start(s);
    assert(a[0] == s[lead(s) as int]);
    lemma_trail(a);
    let b = trim_end(a);
    assert(b.last() == a[a.len() - trail(a) - 1]);
    assert(b[0] == a[0]);
}

/// What is opened is an address that a tile opens, and is the address of itself.
pub proof fn law_an_address_is_its_own_address(text: Seq<char>)
    requires
        address_of(text) is Some,
    ensures
        is_web(address_of(text).unwrap()),
        address_of(address_of(text).unwrap()) == address_of(text),
{
    let url = addressed(text);
    let bare = trim(text);
    lemma_scheme_end();
    reveal_strlit("http://");
    reveal_strlit("https://");
    assert(bare.len() > 0) by {
        if bare.len() == 0 {
            assert(!names_scheme(bare));
            assert(url == "http://"@);
            lemma_trimmed(url);
            assert(url.skip("http://"@.len() as int).len() == 0);
            assert(starts_with(url, "http://"@)) by {
                assert(url.take("http://"@.len() as int) == "http://"@);
            }
            assert(!is_web(url));
        }
    }
    lemma_trim_ends(text);
    assert(!is_white(url[0]) && !is_white(url.last())) by {
        if !names_scheme(bare) {
            assert(url[0] == 'h');
            assert(url.last() == bare.last());
        }
    }
    lemma_trimmed(url);
    assert(names_scheme(url)) by {
        if !names_scheme(bare) {
            reveal_with_fuel(host_len, 6);
            assert(host_len(url) == 5) by {
                let a = url.drop_first();
                let b = a.drop_first();
                let c = b.drop_first();
                let d = c.drop_first();
                let e = d.drop_first();
                assert(e[0] == url[5]);
            }
            assert(url.subrange(4, 7) == "://"@);
        }
    }
}

/// Only http and https addresses are opened.
pub proof fn law_only_the_web_is_opened(text: Seq<char>)
    requires
        address_of(text) is Some,
    ensures
        starts_with(trim(address_of(text).unwrap()), "http://"@) || starts_with(
            trim(address_of(text).unwrap()),
            "https://"@,
        ),
        bytes(trim(address_of(text).unwrap())) <= URL_MAX,
{
}

/// A picture: its size, and four bytes for each of its points, row by row.
#[derive(Clone, Debug, PartialEq, Eq)]
pub struct Picture {
    pub width: u32,
    pub height: u32,
    pub pixels: Vec<u8>,
}

/// What a [`Picture`] holds.
pub struct Pixels {
    pub width: u32,
    pub height: u32,
    pub pixels: Seq<u8>,
}

impl View for Picture {
    type V = Pixels;

    open spec fn view(&self) -> Pixels {
        Pixels { width: self.width, height: self.height, pixels: self.pixels@ }
    }
}

/// What the picture in `o` holds.
pub open spec fn pixels_in(o: Option<Picture>) -> Option<Pixels> {
    match o {
        Some(p) => Some(p@),
        None => None,
    }
}

/// There is no picture, or it has the four bytes of each of its points.
pub open spec fn is_whole(p: Option<Pixels>) -> bool {
    p matches Some(p) ==> 4 * p.width * p.height <= p.pixels.len()
}

/// `image::load_from_memory` may give `p` for the bytes `file`. More than one picture may stand in
/// this relation to a file: which one comes back is up to the decoders that the process
/// registered, which are asked first.
pub uninterp spec fn may_decode_to(file: Seq<u8>, p: Option<Pixels>) -> bool;

/// `image::load_from_memory` and `DynamicImage::into_rgba8`: a picture that the decoders may give
/// for these bytes, as red, green, blue and alpha; a buffer of `image` holds at least the bytes of
/// its points. Which of the pictures that they may give comes back is left open.
#[verifier::external_body]
fn decode(file: &[u8]) -> (r: Option<Picture>)
    ensures
        may_decode_to(file@, pixels_in(r)),
        is_whole(pixels_in(r)),
{
    let rgba = image::load_from_memory(file).ok()?.into_rgba8();
    let (width, height) = rgba.dimensions();
    Some(Picture { width, height, pixels: rgba.into_raw() })
}

/// `pixels` with the first and the third byte of each point exchanged.
pub open spec fn exchanged(pixels: Seq<u8>) -> Seq<u8> {
    Seq::new(
        pixels.len(),
        |i: int|
            if i - i % 4 + 3 >= pixels.len() {
                pixels[i]
            } else if i % 4 == 0 {
                pixels[i + 2]
            } else if i % 4 == 2 {
                pixels[i - 2]
            } else {
                pixels[i]
            },
    )
}

/// Exchanging the bytes of each point twice gives the picture back.
pub proof fn law_exchanging_twice_changes_nothing(pixels: Seq<u8>)
    ensures
        exchanged(exchanged(pixels)) == pixels,
{
    let twice = exchanged(exchanged(pixels));
    assert forall|i: int| 0 <= i < pixels.len() implies twice[i] == pixels[i] by {
        let once = exchanged(pixels);
        if i - i % 4 + 3 < pixels.len() {
            if i % 4 == 0 {
                assert(once[i + 2] == pixels[i]);
            } else if i % 4 == 2 {
                assert(once[i - 2] == pixels[i]);
            }
        }
    }
}

/// `pixels` with the first and the third byte of each point exchanged.
pub fn exchange(pixels: &mut Vec<u8>)
    ensures
        final(pixels)@ == exchanged(old(pixels)@),
{
    let ghost was = pixels@;
    let n: usize = pixels.len();
    let mut i: usize = 0;
    while n - i >= 4
        invariant
            i <= n == was.len(),
            i % 4 == 0,
            pixels@.len() == n,
            forall|k: int| 0 <= k < i ==> #[trigger] pixels@[k] == exchanged(was)[k],
            forall|k: int| i <= k < n ==> #[trigger] pixels@[k] == was[k],
        decreases n - i,
    {
        let red: u8 = pixels[i];
        let blue: u8 = pixels[i + 2];
        pixels.set(i, blue);
        pixels.set(i + 2, red);
        proof {
            assert forall|k: int| 0 <= k < i + 4 implies #[trigger] pixels@[k] == exchanged(was)[k] by {
                if k >= i {
                    assert(k - k % 4 == i);
                }
            }
        }
        i += 4;
    }
    assert(pixels@ == exchanged(was)) by {
        assert forall|k: int| 0 <= k < n implies pixels@[k] == exchanged(was)[k] by {
            if k >= i {
                assert(k - k % 4 == i);
            }
        }
    }
}

/// The colour `c` scaled by the alpha `a`: the whole number nearest to `c` times `a` over 255.
pub open spec fn scaled(c: u8, a: u8) -> u8 {
    ((c * a + 127) / 255) as u8
}

/// The colour `c` scaled by the alpha `a`.
fn scale(c: u8, a: u8) -> (r: u8)
    ensures
        r == scaled(c, a),
{
    proof {
        lemma_scaled(c, a);
    }
    ((c as u32 * a as u32 + 127) / 255) as u8
}

/// A scaled colour is within half a step of the exact quotient, and at most the alpha.
proof fn lemma_scaled(c: u8, a: u8)
    ensures
        0 <= c * a <= 255 * a,
        2 * c * a - 255 <= 510 * scaled(c, a) <= 2 * c * a + 255,
        scaled(c, a) <= a,
        a == 255 ==> scaled(c, a) == c,
{
    assert(0 <= c * a <= 255 * a) by (nonlinear_arith)
        requires
            0 <= c <= 255,
            0 <= a <= 255,
    ;
    assert(2 * c * a == 2 * (c * a)) by (nonlinear_arith);
}

/// `pixels` with the three colours of each point scaled by its alpha.
pub open spec fn premultiplied(pixels: Seq<u8>) -> Seq<u8> {
    Seq::new(
        pixels.len(),
        |i: int|
            if i % 4 == 3 || i - i % 4 + 3 >= pixels.len() {
                pixels[i]
            } else {
                scaled(pixels[i], pixels[i - i % 4 + 3])
            },
    )
}

/// `pixels` with the three colours of each point scaled by its alpha.
pub fn premultiply(pixels: &mut Vec<u8>)
    ensures
        final(pixels)@ == premultiplied(old(pixels)@),
{
    let ghost was = pixels@;
    let n: usize = pixels.len();
    let mut i: usize = 0;
    while n - i >= 4
        invariant
            i <= n == was.len(),
            i % 4 == 0,
            pixels@.len() == n,
            forall|k: int| 0 <= k < i ==> #[trigger] pixels@[k] == premultiplied(was)[k],
            forall|k: int| i <= k < n ==> #[trigger] pixels@[k] == was[k],
        decreases n - i,
    {
        let alpha: u8 = pixels[i + 3];
        let red: u8 = scale(pixels[i], alpha);
        let green: u8 = scale(pixels[i + 1], alpha);
        let blue: u8 = scale(pixels[i + 2], alpha);
        pixels.set(i, red);
        pixels.set(i + 1, green);
        pixels.set(i + 2, blue);
        proof {
            assert forall|k: int| 0 <= k < i + 4 implies #[trigger] pixels@[k] == premultiplied(
                was,
            )[k] by {
                if k >= i {
                    assert(k - k % 4 == i);
                }
            }
        }
        i += 4;
    }
    assert(pixels@ == premultiplied(was)) by {
        assert forall|k: int| 0 <= k < n implies pixels@[k] == premultiplied(was)[k] by {
            if k >= i {
                assert(k - k % 4 == i);
            }
        }
    }
}

/// A premultiplied picture has no colour above the alpha of its point.
pub proof fn law_no_colour_is_above_its_alpha(pixels: Seq<u8>, point: int, colour: int)
    requires
        0 <= point,
        4 * point + 3 < pixels.len(),
        0 <= colour < 3,
    ensures
        premultiplied(pixels)[4 * point + colour] <= premultiplied(pixels)[4 * point + 3],
{
    assert((4 * point + colour) % 4 == colour);
    lemma_scaled(pixels[4 * point + colour], pixels[4 * point + 3]);
}

/// Premultiplying leaves a picture whose points are all opaque as it is.
pub proof fn law_an_opaque_picture_keeps_its_colours(pixels: Seq<u8>)
    requires
        forall|point: int|
            0 <= point && 4 * point + 3 < pixels.len() ==> #[trigger] pixels[4 * point + 3] == 255,
    ensures
        premultiplied(pixels) == pixels,
{
    assert forall|i: int| 0 <= i < pixels.len() implies premultiplied(pixels)[i] == pixels[i] by {
        if i % 4 != 3 && i - i % 4 + 3 < pixels.len() {
            assert(pixels[4 * (i / 4) + 3] == 255);
            lemma_scaled(pixels[i], 255);
        }
    }
}

/// A picture as it is drawn: blue, green and red, each scaled by the alpha, and alpha.
pub open spec fn as_drawn(p: Option<Pixels>) -> Option<Pixels> {
    match p {
        Some(p) => Some(Pixels { pixels: exchanged(premultiplied(p.pixels)), ..p }),
        None => None,
    }
}

/// A picture of red, green, blue and alpha as it is drawn: premultiplied, blue first.
pub fn drawn_picture(picture: Option<Picture>) -> (r: Option<Picture>)
    ensures
        pixels_in(r) == as_drawn(pixels_in(picture)),
{
    match picture {
        Some(picture) => {
            let mut pixels = picture.pixels;
            premultiply(&mut pixels);
            exchange(&mut pixels);
            Some(Picture { width: picture.width, height: picture.height, pixels })
        },
        None => None,
    }
}

/// The picture that `file` encodes as it is drawn: whatever picture the decoder gives for it,
/// premultiplied, blue first; `None` where it gives none.
pub fn texture(file: &[u8]) -> (r: Option<Picture>)
    ensures
        exists|p: Option<Pixels>|
            #[trigger] may_decode_to(file@, p) && is_whole(p) && pixels_in(r) == as_drawn(p),
{
    let picture = decode(file);
    drawn_picture(picture)
}

/// What a tile asks of its page.
#[derive(Clone, Copy, Debug, PartialEq, Eq, Structural)]
pub enum PageAsk {
    /// Open it.
    Open,
    /// Put it where it is shown.
    Place,
    /// Take its picture.
    Snapshot,
    /// Hide it.
    Hide,
    /// Load the address the item names.
    Load,
    /// Load it again.
    Reload,
    /// Go back one page.
    Back,
}

/// A message from the page.
#[derive(Clone, Debug, PartialEq, Eq)]
pub enum WebEvent {
    /// It loaded.
    Loaded,
    /// It could not; why.
    Failed(String),
    /// It was clicked and has the keyboard.
    Clicked,
    /// It gave the keyboard back.
    Released,
    /// Its picture, as the bytes of a file.
    Snapshot(Vec<u8>),
}

/// The view of one browser item.
#[derive(Debug)]
pub struct BrowserView {
    id: u128,
    url: String,
    page: PageState,
    /// The frame of the workspace's in which the body was drawn last.
    drawn: Option<u64>,
    /// The page's last picture, shown while the page is hidden.
    snapshot: Option<Picture>,
}

/// A browser tile, in the model.
pub struct Browsing {
    pub id: u128,
    pub url: Seq<char>,
    pub page: Page,
    pub drawn: Option<u64>,
    pub snapshot: Option<Pixels>,
}

impl View for BrowserView {
    type V = Browsing;

    closed spec fn view(&self) -> Browsing {
        Browsing {
            id: self.id,
            url: self.url@,
            page: self.page@,
            drawn: self.drawn,
            snapshot: pixels_in(self.snapshot),
        }
    }
}

/// What the page in `o` shows.
pub open spec fn page_in(o: Option<PageState>) -> Option<Page> {
    match o {
        Some(p) => Some(p@),
        None => None,
    }
}

impl Browsing {
    /// What the page shows this moment: as it says, but why it failed as last known; as last read
    /// where there is no page.
    pub open spec fn live(self, page: Option<Page>) -> Page {
        match page {
            Some(page) => Page { failed: self.page.failed, ..page },
            None => self.page,
        }
    }

    /// The page with this picture of itself; as it was where there is none.
    pub open spec fn then_pictured(self, picture: Option<Pixels>) -> Browsing {
        Browsing {
            snapshot: if picture is Some {
                picture
            } else {
                self.snapshot
            },
            ..self
        }
    }

    /// What a message from the page makes of it, but for its picture.
    pub open spec fn then_told(self, event: WebEvent, page: Option<Page>) -> Browsing {
        match event {
            WebEvent::Loaded => Browsing {
                page: Browsing { page: Page { failed: None, ..self.page }, ..self }.live(page),
                ..self
            },
            WebEvent::Failed(why) => Browsing {
                page: Page { failed: Some(why@), loading: false, ..self.page },
                ..self
            },
            _ => self,
        }
    }

    /// The page is loaded again, and what it is asked for.
    pub open spec fn then_reload(self) -> (Browsing, PageAsk) {
        (
            Browsing { page: Page { loading: true, failed: None, ..self.page }, ..self },
            if self.page.failed is Some {
                PageAsk::Load
            } else {
                PageAsk::Reload
            },
        )
    }

    /// The word about the page in its body; none where its picture is.
    pub open spec fn notice(self) -> Option<Seq<char>> {
        match self.page.failed {
            Some(why) => Some("Can't open "@ + short_of(self.url) + ": "@ + why),
            None => if self.snapshot is Some {
                None
            } else {
                Some("Opening "@ + short_of(self.url) + "…"@)
            },
        }
    }

    /// The words of the header: the page's title, else its address without the scheme.
    pub open spec fn title(self) -> Seq<char> {
        if trim(self.page.title).len() == 0 {
            short_of(self.page.url)
        } else {
            trim(self.page.title)
        }
    }

    /// What is asked of the page to put it where it goes this frame: opened the first time it is
    /// shown; its picture taken before it is hidden. A failed page stays hidden, so its reason
    /// shows instead.
    pub open spec fn asks(self, shows: bool, open: bool, shown: bool) -> Seq<PageAsk> {
        if shows && self.page.failed is None {
            if open {
                seq![PageAsk::Place]
            } else {
                seq![PageAsk::Open, PageAsk::Place]
            }
        } else if shown {
            seq![PageAsk::Snapshot, PageAsk::Hide]
        } else {
            Seq::empty()
        }
    }
}

/// What a message from the page asks for, and what the tile tells.
pub open spec fn answer_to(event: WebEvent) -> (Option<PageAsk>, Option<BrowserEvent>) {
    match event {
        WebEvent::Loaded => (Some(PageAsk::Snapshot), None),
        WebEvent::Failed(_) => (Some(PageAsk::Hide), None),
        WebEvent::Clicked => (None, Some(BrowserEvent::Focused)),
        WebEvent::Released => (Some(PageAsk::Snapshot), Some(BrowserEvent::Released)),
        WebEvent::Snapshot(_) => (None, None),
    }
}

impl BrowserView {
    /// A tile for `url`; the page itself opens the first time the tile is shown.
    pub fn new(id: u128, url: &str) -> (r: BrowserView)
        ensures
            r@ == (Browsing {
                id,
                url: url@,
                page: Page {
                    title: Seq::empty(),
                    url: url@,
                    loading: true,
                    can_go_back: false,
                    failed: None,
                },
                drawn: None,
                snapshot: None,
            }),
    {
        BrowserView {
            id,
            url: url.to_owned(),
            page: PageState {
                title: String::new(),
                url: url.to_owned(),
                loading: true,
                can_go_back: false,
                failed: None,
            },
            drawn: None,
            snapshot: None,
        }
    }

    /// Item this tile belongs to.
    pub fn id(&self) -> (r: u128)
        ensures
            r == self@.id,
    {
        self.id
    }

    /// The address the item names.
    pub fn url(&self) -> (r: &str)
        ensures
            r@ == self@.url,
    {
        self.url.as_str()
    }

    /// What the page shows, as last read.
    pub fn page(&self) -> (r: &PageState)
        ensures
            r@ == self@.page,
    {
        &self.page
    }

    /// What the page shows this moment, given what it says; the last read when there is no page.
    pub fn live_page(&self, page: Option<PageState>) -> (r: PageState)
        ensures
            r@ == self@.live(page_in(page)),
    {
        match page {
            Some(page) => PageState {
                title: page.title,
                url: page.url,
                loading: page.loading,
                can_go_back: page.can_go_back,
                failed: copy_of(&self.page.failed),
            },
            None => self.page.copy(),
        }
    }

    /// Whether a picture of the page is ready for when it is hidden.
    pub fn has_snapshot(&self) -> (r: bool)
        ensures
            r == self@.snapshot is Some,
    {
        self.snapshot.is_some()
    }

    /// The page's last picture, as it is drawn where the page itself is hidden.
    pub fn snapshot(&self) -> (r: Option<&Picture>)
        ensures
            match r {
                Some(picture) => self@.snapshot == Some(picture@),
                None => self@.snapshot is None,
            },
    {
        self.snapshot.as_ref()
    }

    /// The body was drawn in the frame `frame`.
    pub fn measured(&mut self, frame: FrameCount)
        ensures
            final(self)@ == (Browsing { drawn: Some(frame.0), ..old(self)@ }),
    {
        self.drawn = Some(frame.0);
    }

    /// Whether the body was drawn in the frame `frame`.
    pub fn drawn_in(&self, frame: u64) -> (r: bool)
        ensures
            r == (self@.drawn == Some(frame)),
    {
        match self.drawn {
            Some(at) => at == frame,
            None => false,
        }
    }

    /// What to ask of the page, in order, to put it where it goes this frame.
    pub fn apply(&self, shows: bool, open: bool, shown: bool) -> (r: Vec<PageAsk>)
        ensures
            r@ == self@.asks(shows, open, shown),
    {
        let mut out: Vec<PageAsk> = Vec::new();
        if shows && self.page.failed.is_none() {
            if !open {
                out.push(PageAsk::Open);
            }
            out.push(PageAsk::Place);
        } else if shown {
            // The picture it leaves behind is the page as it was a moment ago.
            out.push(PageAsk::Snapshot);
            out.push(PageAsk::Hide);
        }
        assert(out@ == self@.asks(shows, open, shown));
        out
    }

    /// The platform has no page to give.
    pub fn cannot_open(&mut self)
        ensures
            final(self)@ == (Browsing {
                page: Page { failed: Some("This device has no web view"@), ..old(self)@.page },
                ..old(self)@
            }),
    {
        self.page.failed = Some(String::from_str("This device has no web view"));
    }

    /// The page's picture was decoded, as it is drawn: it is shown while the page is hidden. What
    /// encodes none changes nothing.
    pub fn pictured(&mut self, picture: Option<Picture>)
        ensures
            final(self)@ == old(self)@.then_pictured(pixels_in(picture)),
    {
        if picture.is_some() {
            self.snapshot = picture;
        }
    }

    /// A message from the page, with what it shows now. Says what to ask of the page, what the
    /// workspace is told.
    pub fn native_event(&mut self, event: WebEvent, page: Option<PageState>) -> (r: (
        Option<PageAsk>,
        Option<BrowserEvent>,
    ))
        ensures
            r == answer_to(event),
            !(event is Snapshot) ==> final(self)@ == old(self)@.then_told(event, page_in(page)),
            match event {
                WebEvent::Loaded => {
                    &&& final(self)@ == Browsing {
                        page: Browsing {
                            page: Page { failed: None, ..old(self)@.page },
                            ..old(self)@
                        }.live(page_in(page)),
                        ..old(self)@
                    }
                    &&& r == (Some(PageAsk::Snapshot), None::<BrowserEvent>)
                },
                WebEvent::Failed(why) => {
                    &&& final(self)@ == Browsing {
                        page: Page { failed: Some(why@), loading: false, ..old(self)@.page },
                        ..old(self)@
                    }
                    &&& r == (Some(PageAsk::Hide), None::<BrowserEvent>)
                },
                WebEvent::Clicked => final(self)@ == old(self)@ && r == (
                    None::<PageAsk>,
                    Some(BrowserEvent::Focused),
                ),
                WebEvent::Released => final(self)@ == old(self)@ && r == (
                    Some(PageAsk::Snapshot),
                    Some(BrowserEvent::Released),
                ),
                WebEvent::Snapshot(file) => {
                    &&& exists|p: Option<Pixels>| #[trigger]
                        may_decode_to(file@, p) && is_whole(p) && final(self)@
                            == old(self)@.then_pictured(as_drawn(p))
                    &&& r == (None::<PageAsk>, None::<BrowserEvent>)
                },
            },
    {
        match event {
            WebEvent::Loaded => {
                self.page.failed = None;
                self.refresh(page);
                (Some(PageAsk::Snapshot), None)
            },
            WebEvent::Failed(why) => {
                self.page.failed = Some(why);
                self.page.loading = false;
                (Some(PageAsk::Hide), None)
            },
            WebEvent::Clicked => (None, Some(BrowserEvent::Focused)),
            WebEvent::Released => (Some(PageAsk::Snapshot), Some(BrowserEvent::Released)),
            WebEvent::Snapshot(file) => {
                let picture = texture(file.as_slice());
                self.pictured(picture);
                (None, None)
            },
        }
    }

    /// Take what the page shows now.
    pub fn refresh(&mut self, page: Option<PageState>)
        ensures
            final(self)@ == (Browsing { page: old(self)@.live(page_in(page)), ..old(self)@ }),
    {
        let live = self.live_page(page);
        self.page = live;
    }

    /// Back one page.
    pub fn back(&mut self) -> (r: PageAsk)
        ensures
            r == PageAsk::Back,
            final(self)@ == (Browsing {
                page: Page { loading: true, ..old(self)@.page },
                ..old(self)@
            }),
    {
        self.page.loading = true;
        PageAsk::Back
    }

    /// Load the page again; a failed page gets another try.
    pub fn reload(&mut self) -> (r: PageAsk)
        ensures
            (final(self)@, r) == old(self)@.then_reload(),
            r == if old(self)@.page.failed is Some {
                PageAsk::Load
            } else {
                PageAsk::Reload
            },
            final(self)@ == (Browsing {
                page: Page { loading: true, failed: None, ..old(self)@.page },
                ..old(self)@
            }),
    {
        self.page.loading = true;
        if self.page.failed.take().is_some() {
            PageAsk::Load
        } else {
            PageAsk::Reload
        }
    }

    /// The header's words: the page's title, else its address without the scheme.
    pub fn title(&self) -> (r: String)
        ensures
            r@ == self@.title(),
    {
        let chars = chars_of(self.page.title.as_str());
        let bare = trimmed(chars.as_slice());
        if bare.len() == 0 {
            short_url(self.page.url.as_str()).to_owned()
        } else {
            string_of(bare)
        }
    }

    /// The address as the header shows it beside a title: host, port and path.
    pub fn short_url(&self) -> (r: &str)
        ensures
            r@ == short_of(self@.page.url),
    {
        short_url(self.page.url.as_str())
    }

    /// What the body shows where the page itself does not: why it failed, its last picture, or
    /// that it is opening.
    pub fn body(&self) -> (r: BrowserBody)
        ensures
            match self@.notice() {
                Some(said) => r matches BrowserBody::Notice(text) && text@ == said,
                None => r is Picture,
            },
            match self@.page.failed {
                Some(why) => r matches BrowserBody::Notice(text) && text@ == "Can't open "@
                    + short_of(self@.url) + ": "@ + why,
                None => if self@.snapshot is Some {
                    r is Picture
                } else {
                    r matches BrowserBody::Notice(text) && text@ == "Opening "@ + short_of(
                        self@.url,
                    ) + "…"@
                },
            },
    {
        match &self.page.failed {
            Some(why) => {
                let mut text = String::from_str("Can't open ");
                text.append(short_url(self.url.as_str()));
                text.append(": ");
                text.append(why.as_str());
                BrowserBody::Notice(text)
            },
            None => if self.snapshot.is_some() {
                BrowserBody::Picture
            } else {
                let mut text = String::from_str("Opening ");
                text.append(short_url(self.url.as_str()));
                text.append("…");
                BrowserBody::Notice(text)
            },
        }
    }

    /// What a screen reader says of the tile.
    pub fn label(&self) -> (r: String)
        ensures
            r@ == "Page "@ + self@.page.url,
    {
        let mut label = String::from_str("Page ");
        label.append(self.page.url.as_str());
        label
    }
}

/// What a browser tile's body shows.
#[derive(Debug)]
pub enum BrowserBody {
    /// A word about the page.
    Notice(String),
    /// The page's last picture.
    Picture,
}

/// A page that failed stays hidden until it is loaded again, and loading it again gives it
/// another try.
pub proof fn law_a_failed_page_stays_hidden(tile: Browsing, shows: bool, open: bool, shown: bool)
    requires
        tile.page.failed is Some,
    ensures
        !tile.asks(shows, open, shown).contains(PageAsk::Place),
        !tile.asks(shows, open, shown).contains(PageAsk::Open),
{
}

/// A page is hidden only after its picture was taken, so covering it never leaves a hole.
pub proof fn law_a_picture_is_taken_before_hiding(
    tile: Browsing,
    shows: bool,
    open: bool,
    shown: bool,
)
    ensures
        tile.asks(shows, open, shown).contains(PageAsk::Hide) ==> tile.asks(shows, open, shown)
            == seq![PageAsk::Snapshot, PageAsk::Hide],
{
}

} // verus!
