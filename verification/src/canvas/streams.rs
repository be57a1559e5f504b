//! What the host says of its windows and displays.
use vstd::prelude::*;

use crate::canvas::doc::Rect;
use crate::canvas::msg::{CaptureTarget, Effect};
use crate::canvas::screens::{cards_of, Stream, Window, WindowInfo};
use crate::canvas::view::{Canvas, CanvasView};
use crate::text::{decimal, push_decimal};

verus! {

/// A remote-window event from the host.
#[derive(Debug, PartialEq, Eq)]
pub enum ScreenEvent<T, W> {
    /// The windows, and the displays by their numbers.
    Listing { windows: W, displays: Vec<u64> },
    Opened { stream: u64, target: CaptureTarget },
    Closed { stream: u64 },
    /// A window changed size.
    Geometry { stream: u64, width: u32, height: u32 },
    /// The host's clipboard changed.
    Clipboard { text: T },
    /// The stream's rate changed.
    Rate { stream: u64 },
    /// What the stream shows woke or slept.
    Source { stream: u64 },
    /// The pointer over the stream changed its shape.
    Cursor { stream: u64 },
    /// Another listing could be had.
    ListingChanged,
}

/// The text of a display's card.
pub open spec fn display_text(id: u64) -> Seq<char> {
    "display "@ + decimal(id as nat)
}

/// The cards of all the streams.
pub open spec fn all_cards(open: Seq<Stream>) -> Seq<u128> {
    open.map_values(|s: Stream| s.item)
}

impl Canvas {
    /// A listing: it names the window cards, adds the first display where that was asked for, and
    /// is shown in the picker where that was asked for.
    pub open spec fn then_listing(
        self,
        windows: Seq<Window<Seq<char>>>,
        displays: Seq<u64>,
        id: u128,
        slot: Rect,
    ) -> Canvas {
        let named = Canvas {
            screens: self.screens.then_titles(self.doc.items, windows),
            display_wanted: false,
            ..self
        };
        let added = if self.display_wanted && displays.len() > 0 {
            named.then_screen(
                CaptureTarget::Display(displays[0]),
                display_text(displays[0]),
                id,
                slot,
            )
        } else {
            named
        };
        if added.picker_wanted {
            added.then_show_picker()
        } else {
            added
        }
    }

    /// The host's event on its screens. `same` says this client's clipboard holds the text
    /// already.
    pub open spec fn then_screens(
        self,
        event: ScreenEvent<String, Vec<WindowInfo>>,
        same: bool,
        id: u128,
        slot: Rect,
    ) -> Canvas {
        match event {
            ScreenEvent::Listing { windows, displays } => self.then_listing(
                windows.deep_view(),
                displays@,
                id,
                slot,
            ),
            ScreenEvent::Opened { stream, target } => {
                let (screens, out) = self.screens.then_opened(stream, target, self.out);
                Canvas { screens, out, ..self }
            },
            ScreenEvent::Closed { stream } => Canvas {
                screens: self.screens.then_closed(stream),
                ..self
            },
            ScreenEvent::Clipboard { text } => if same {
                self
            } else {
                self.say(Effect::Copy(text@))
            },
            _ => self,
        }
    }

    /// The cards whose view hears the event: those of its stream, or all of them where the host's
    /// one clipboard changed. A window without a size is nothing to follow.
    pub open spec fn hears(self, event: ScreenEvent<String, Vec<WindowInfo>>) -> Seq<u128> {
        match event {
            ScreenEvent::Geometry { stream, width, height } => if width == 0 || height == 0 {
                Seq::empty()
            } else {
                cards_of(self.screens.open, stream)
            },
            ScreenEvent::Rate { stream } => cards_of(self.screens.open, stream),
            ScreenEvent::Source { stream } => cards_of(self.screens.open, stream),
            ScreenEvent::Cursor { stream } => cards_of(self.screens.open, stream),
            ScreenEvent::Clipboard { .. } => all_cards(self.screens.open),
            _ => Seq::empty(),
        }
    }
}

impl CanvasView {
    /// A listing from the host.
    fn listing(&mut self, windows: &Vec<WindowInfo>, displays: &Vec<u64>, id: u128, slot: Rect)
        ensures
            final(self).deep_view() == old(self).deep_view().then_listing(
                windows.deep_view(),
                displays@,
                id,
                slot,
            ),
    {
        self.fill_titles(windows);
        let wanted = self.take_display_wanted();
        if wanted && displays.len() > 0 {
            let display: u64 = displays[0];
            let mut title = "display ".to_owned();
            push_decimal(&mut title, display as u128);
            self.add_screen_item(CaptureTarget::Display(display), title, id, slot);
        }
        if self.picker_wanted() {
            self.show_picker();
        }
    }

    /// A remote-window event from the host. The text of a changed clipboard is left alone where
    /// `same` says it is here already: with the host on this very machine the write would bump the
    /// count the host watches and the two would echo the text back and forth. A display added by
    /// a listing takes the identity `id` and the place `slot`. The cards whose view hears the
    /// event come back.
    pub fn screen_event(
        &mut self,
        event: ScreenEvent<String, Vec<WindowInfo>>,
        same: bool,
        id: u128,
        slot: Rect,
    ) -> (r: Vec<u128>)
        ensures
            final(self).deep_view() == old(self).deep_view().then_screens(event, same, id, slot),
            r@ == old(self).deep_view().hears(event),
    {
        let none: Vec<u128> = Vec::new();
        match event {
            ScreenEvent::Listing { windows, displays } => {
                self.listing(&windows, &displays, id, slot);
                none
            },
            ScreenEvent::Opened { stream, target } => {
                self.stream_opened(stream, target);
                none
            },
            ScreenEvent::Closed { stream } => {
                self.stream_closed(stream);
                none
            },
            ScreenEvent::Geometry { stream, width, height } => {
                if width == 0 || height == 0 {
                    none
                } else {
                    self.screens().cards(stream)
                }
            },
            ScreenEvent::Clipboard { text } => {
                let all = self.screens().all();
                if !same {
                    self.say(Effect::Copy(text));
                }
                all
            },
            ScreenEvent::Rate { stream } => self.screens().cards(stream),
            ScreenEvent::Source { stream } => self.screens().cards(stream),
            ScreenEvent::Cursor { stream } => self.screens().cards(stream),
            ScreenEvent::ListingChanged => none,
        }
    }
}

} // verus!
