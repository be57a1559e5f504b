//! What a browser tile promises: which addresses it opens, what it is called and how it is drawn.
use vstd::prelude::*;

use crate::browser::{
    addressed, answer_to, short_of, BrowserEvent, WebEvent, as_drawn, host_len, is_authority,
    is_web, names_scheme, scaled, without_scheme, Browsing, Page, PageAsk, Pixels,
};
use crate::text::{bytes, is_white, last_at, starts_with, trim};

verus! {

/// The character ends the part of an address that names the host.
pub open spec fn ends_host(c: char) -> bool {
    c == '/' || c == '?' || c == '#'
}

/// No character of it ends the host.
pub open spec fn hostlike(s: Seq<char>) -> bool {
    forall|i: int| 0 <= i < s.len() ==> !ends_host(#[trigger] s[i])
}

/// What may stand behind a host: nothing, or a path, a query or a fragment.
pub open spec fn pathlike(s: Seq<char>) -> bool {
    s.len() > 0 ==> ends_host(s[0])
}

proof fn lemma_host_len(host: Seq<char>, tail: Seq<char>)
    requires
        hostlike(host),
        pathlike(tail),
    ensures
        host_len(host + tail) == host.len(),
    decreases host.len(),
{
    let all = host + tail;
    if host.len() == 0 {
        assert(all =~= tail);
    } else {
        assert(!ends_host(host[0]));
        assert(all[0] == host[0]);
        let rest = host.drop_first();
        assert forall|i: int| 0 <= i < rest.len() implies !ends_host(#[trigger] rest[i]) by {
            assert(!ends_host(host[i + 1]));
        }
        assert(all.drop_first() =~= rest + tail);
        lemma_host_len(rest, tail);
    }
}

/// An address with a scheme is taken as it is, one without gets `http://` in front; white space
/// around it is dropped either way. It has a scheme where `://` stands before any path.
pub proof fn law_a_bare_address_gets_http(text: Seq<char>, scheme: Seq<char>, rest: Seq<char>)
    requires
        hostlike(scheme),
    ensures
        trim(text) == scheme + "://"@ + rest ==> addressed(text) == trim(text),
        hostlike(trim(text)) ==> addressed(text) == "http://"@ + trim(text),
        trim(text).len() > 0 && ends_host(trim(text)[0]) ==> addressed(text) == "http://"@ + trim(
            text,
        ),
{
    reveal_strlit("://");
    let bare = trim(text);
    if bare == scheme + "://"@ + rest {
        let (host, tail) = (scheme.push(':'), seq!['/', '/'] + rest);
        assert(bare =~= host + tail);
        assert forall|i: int| 0 <= i < host.len() implies !ends_host(#[trigger] host[i]) by {
            if i < scheme.len() {
                assert(!ends_host(scheme[i]));
            }
        }
        lemma_host_len(host, tail);
        assert(bare.subrange(scheme.len() as int, (scheme.len() + 3) as int) =~= "://"@);
        assert(names_scheme(bare));
    }
    if hostlike(bare) {
        assert(bare + Seq::<char>::empty() =~= bare);
        lemma_host_len(bare, Seq::empty());
    }
    if bare.len() > 0 && ends_host(bare[0]) {
        assert(Seq::<char>::empty() + bare =~= bare);
        lemma_host_len(Seq::empty(), bare);
    }
}

/// A page without a title is called by its address without the scheme, and without the slash where
/// nothing but the host stands before it; a page with a title is called by that.
pub proof fn law_a_page_is_called_by_its_title_or_address(
    tile: Browsing,
    scheme: Seq<char>,
    host: Seq<char>,
    rest: Seq<char>,
)
    requires
        hostlike(scheme),
        hostlike(host),
        rest.contains('/'),
    ensures
        trim(tile.page.title).len() > 0 ==> tile.title() == trim(tile.page.title),
        trim(tile.page.title).len() == 0 ==> {
            &&& tile.page.url == scheme + "://"@ + host ==> tile.title() == host
            &&& tile.page.url == scheme + "://"@ + host + "/"@ ==> tile.title() == host
            &&& tile.page.url == scheme + "://"@ + rest + "/"@ ==> tile.title() == rest + "/"@
        },
{
    reveal_strlit("/");
    let url = tile.page.url;
    if url == scheme + "://"@ + host {
        lemma_behind(scheme, host);
        if host.len() > 0 {
            assert(!ends_host(host[host.len() - 1]));
        }
    }
    if url == scheme + "://"@ + host + "/"@ {
        assert(url =~= scheme + "://"@ + (host + "/"@));
        lemma_behind(scheme, host + "/"@);
        assert((host + "/"@).drop_last() =~= host);
        assert(!host.contains('/')) by {
            if host.contains('/') {
                let i = choose|i: int| 0 <= i < host.len() && host[i] == '/';
                assert(ends_host(host[i]));
            }
        }
    }
    if url == scheme + "://"@ + rest + "/"@ {
        assert(url =~= scheme + "://"@ + (rest + "/"@));
        lemma_behind(scheme, rest + "/"@);
        assert((rest + "/"@).drop_last() =~= rest);
    }
}

proof fn lemma_behind(scheme: Seq<char>, rest: Seq<char>)
    requires
        hostlike(scheme),
    ensures
        without_scheme(scheme + "://"@ + rest) == rest,
{
    reveal_strlit("://");
    let url = scheme + "://"@ + rest;
    let (host, tail) = (scheme.push(':'), seq!['/', '/'] + rest);
    assert(url =~= host + tail);
    assert forall|i: int| 0 <= i < host.len() implies !ends_host(#[trigger] host[i]) by {
        if i < scheme.len() {
            assert(!ends_host(scheme[i]));
        }
    }
    lemma_host_len(host, tail);
    assert(url.subrange(scheme.len() as int, (scheme.len() + 3) as int) =~= "://"@);
    assert(names_scheme(url));
    assert(url.skip((scheme.len() + 3) as int) =~= rest);
}

/// No character is white space.
pub open spec fn solid(s: Seq<char>) -> bool {
    forall|i: int| 0 <= i < s.len() ==> !is_white(#[trigger] s[i])
}

/// A tile opens an http or https address that names a host, has no white space in it and is not too
/// long; and no other address, as one without a host or with another scheme.
pub proof fn law_what_a_tile_opens(text: Seq<char>, host: Seq<char>, tail: Seq<char>, secure: bool)
    requires
        hostlike(host),
        pathlike(tail),
        trim(text) == (if secure {
            "https://"@
        } else {
            "http://"@
        }) + host + tail,
        !host.contains(':'),
    ensures
        is_web(text) <==> {
            &&& host.len() > 0
            &&& solid(host + tail)
            &&& bytes(trim(text)) <= 2048
        },
{
    reveal_strlit("https://");
    reveal_strlit("http://");
    let bare = trim(text);
    let rest = host + tail;
    if secure {
        assert(bare.take(8) =~= "https://"@);
        assert(bare[4] == 's');
        assert(!starts_with(bare, "http://"@)) by {
            if starts_with(bare, "http://"@) {
                assert(bare.take(7)[4] == bare[4]);
                assert("http://"@[4] == ':');
            }
        }
        assert(bare.skip(8) =~= rest);
    } else {
        assert(bare.take(7) =~= "http://"@);
        assert(bare.skip(7) =~= rest);
    }
    lemma_host_len(host, tail);
    assert(rest.take(host.len() as int) =~= host);
    lemma_no_last(host, ':');
}

proof fn lemma_no_last(s: Seq<char>, c: char)
    requires
        !s.contains(c),
    ensures
        last_at(s, c) < 0,
    decreases s.len(),
{
    if s.len() > 0 {
        assert(s[s.len() - 1] != c);
        assert(!s.drop_last().contains(c)) by {
            if s.drop_last().contains(c) {
                let i = choose|i: int| 0 <= i < s.drop_last().len() && s.drop_last()[i] == c;
                assert(s[i] == c);
            }
        }
        lemma_no_last(s.drop_last(), c);
    }
}

/// A page that is to be shown is placed, and opened first where it is not open; one that is covered
/// has its picture taken and is hidden; one that is hidden already is left alone.
pub proof fn law_a_page_is_put_where_it_goes(tile: Browsing, shows: bool, open: bool, shown: bool)
    ensures
        shows && tile.page.failed is None ==> tile.asks(shows, open, shown) == (if open {
            seq![PageAsk::Place]
        } else {
            seq![PageAsk::Open, PageAsk::Place]
        }),
        !shows && shown ==> tile.asks(shows, open, shown) == seq![PageAsk::Snapshot, PageAsk::Hide],
        tile.page.failed is Some && shown ==> tile.asks(shows, open, shown)
            == seq![PageAsk::Snapshot, PageAsk::Hide],
        !shown && (!shows || tile.page.failed is Some) ==> tile.asks(shows, open, shown).len()
            == 0,
{
}

/// What the page says of itself is what is shown of it, but for why it failed, which it does not
/// know; without a page the last that was read is shown. A picture that could not be taken leaves
/// the one before.
pub proof fn law_the_page_speaks_for_itself(
    tile: Browsing,
    page: Page,
    picture: Pixels,
)
    ensures
        tile.live(Some(page)).title == page.title,
        tile.live(Some(page)).url == page.url,
        tile.live(Some(page)).loading == page.loading,
        tile.live(Some(page)).can_go_back == page.can_go_back,
        tile.live(Some(page)).failed == tile.page.failed,
        tile.live(None) == tile.page,
        tile.then_pictured(Some(picture)).snapshot == Some(picture),
        tile.then_pictured(None) == tile,
{
}

/// A point of a picture is drawn blue, green, red and alpha, each colour the whole number nearest to
/// its share by the alpha.
pub proof fn law_a_point_is_drawn_blue_first(p: Pixels, point: int)
    requires
        0 <= point,
        4 * point + 3 < p.pixels.len(),
    ensures
        as_drawn(Some(p)) matches Some(r) && {
            let (at, was) = (4 * point, p.pixels);
            let alpha = was[at + 3];
            &&& r.width == p.width && r.height == p.height && r.pixels.len() == was.len()
            &&& r.pixels[at + 3] == alpha
            &&& nearest_share(r.pixels[at], was[at + 2], alpha)
            &&& nearest_share(r.pixels[at + 1], was[at + 1], alpha)
            &&& nearest_share(r.pixels[at + 2], was[at], alpha)
        },
        as_drawn(None) is None,
{
    let at = 4 * point;
    let was = p.pixels;
    let alpha = was[at + 3];
    assert(at % 4 == 0 && (at + 1) % 4 == 1 && (at + 2) % 4 == 2 && (at + 3) % 4 == 3);
    lemma_share(was[at], alpha);
    lemma_share(was[at + 1], alpha);
    lemma_share(was[at + 2], alpha);
}

/// `r` is the whole number nearest to `c` times `a` over 255.
pub open spec fn nearest_share(r: u8, c: u8, a: u8) -> bool {
    -255 <= 510 * r - 2 * (c * a) <= 255
}

proof fn lemma_share(c: u8, a: u8)
    ensures
        nearest_share(scaled(c, a), c, a),
{
    let n = c * a;
    assert(0 <= n <= 255 * 255) by (nonlinear_arith)
        requires
            n == c * a,
            0 <= c <= 255,
            0 <= a <= 255,
    ;
    assert(0 <= (n + 127) / 255 <= 255);
}

/// A port behind the host is a number, and there is a host before it.
pub proof fn law_a_port_is_a_number(name: Seq<char>, port: Seq<char>)
    requires
        !port.contains(':'),
        port.len() == 0 || port.last() != ']',
    ensures
        is_authority(name + ":"@ + port) <==> {
            &&& name.len() > 0
            &&& port.len() > 0
            &&& forall|i: int| 0 <= i < port.len() ==> '0' <= #[trigger] port[i] <= '9'
        },
{
    reveal_strlit(":");
    let s = name + ":"@ + port;
    lemma_last_colon(name, port);
    assert(s =~= name.push(':') + port);
    assert(s.skip((name.len() + 1) as int) =~= port);
}

proof fn lemma_last_colon(name: Seq<char>, port: Seq<char>)
    requires
        !port.contains(':'),
    ensures
        last_at(name.push(':') + port, ':') == name.len(),
    decreases port.len(),
{
    let s = name.push(':') + port;
    if port.len() == 0 {
        assert(s =~= name.push(':'));
    } else {
        let less = port.drop_last();
        assert(port[port.len() - 1] != ':');
        assert(!less.contains(':')) by {
            if less.contains(':') {
                let i = choose|i: int| 0 <= i < less.len() && less[i] == ':';
                assert(port[i] == ':');
            }
        }
        assert(s.drop_last() =~= name.push(':') + less);
        lemma_last_colon(name, less);
    }
}

/// A page that loaded is as it says and has not failed, and its picture is taken; one that failed
/// says why, loads no more and is hidden. A click takes the focus to the tile, and a page that lets
/// go of the keyboard gives it back.
pub proof fn law_the_tile_hears_its_page(tile: Browsing, event: WebEvent, page: Page)
    ensures
        event is Loaded ==> {
            let next = tile.then_told(event, Some(page));
            &&& next.page.title == page.title && next.page.url == page.url && next.page.loading
                == page.loading && next.page.can_go_back == page.can_go_back
            &&& next.page.failed is None && tile.then_told(event, None).page.failed is None
            &&& answer_to(event) == (Some(PageAsk::Snapshot), None::<BrowserEvent>)
        },
        event matches WebEvent::Failed(why) ==> {
            let next = tile.then_told(event, Some(page));
            &&& next.page.failed == Some(why@) && !next.page.loading
            &&& next.page.title == tile.page.title && next.page.url == tile.page.url
            &&& answer_to(event) == (Some(PageAsk::Hide), None::<BrowserEvent>)
        },
        event is Clicked ==> tile.then_told(event, Some(page)) == tile && answer_to(event) == (
            None::<PageAsk>,
            Some(BrowserEvent::Focused),
        ),
        event is Released ==> tile.then_told(event, Some(page)) == tile && answer_to(event) == (
            Some(PageAsk::Snapshot),
            Some(BrowserEvent::Released),
        ),
        event is Snapshot ==> answer_to(event) == (None::<PageAsk>, None::<BrowserEvent>),
        tile.then_told(event, Some(page)).snapshot == tile.snapshot,
        tile.then_told(event, Some(page)).url == tile.url,
{
}

/// A page that failed is given another try from its own address, any other is loaded again; either
/// way it is loading and has not failed. What stands in its body is why it failed, else its picture,
/// and until there is one that it is being opened.
pub proof fn law_a_reload_gives_another_try(tile: Browsing)
    ensures
        tile.then_reload().0.page.loading && tile.then_reload().0.page.failed is None,
        tile.page.failed is Some ==> tile.then_reload().1 == PageAsk::Load,
        tile.page.failed is None ==> tile.then_reload().1 == PageAsk::Reload,
        tile.then_reload().0.snapshot == tile.snapshot,
        tile.page.failed matches Some(why) ==> tile.notice() == Some(
            "Can't open "@ + short_of(tile.url) + ": "@ + why,
        ),
        tile.page.failed is None ==> (tile.notice() is None <==> tile.snapshot is Some),
        tile.page.failed is None && tile.snapshot is None ==> tile.notice() == Some(
            "Opening "@ + short_of(tile.url) + "…"@,
        ),
{
}

} // verus!
