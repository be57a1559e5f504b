//! Cards under the hand: what a press, a move and a release of the pointer do.
use vstd::prelude::*;

use crate::canvas::doc::{Op, Rect};
use crate::canvas::doc_laws::law_a_change_is_about_one_card;
use crate::canvas::msg::{CaptureTarget, ClientMsg, Effect, ScreenRequest};
use crate::canvas::screens::{screen_req, stream_on};
use crate::canvas::view::{Canvas, CanvasView};

verus! {

/// What the pointer holds.
#[derive(Clone, Copy, PartialEq, Eq, Structural, Debug)]
pub enum Drag {
    /// A card by its title bar, and where it was.
    Move { id: u128, start: Rect },
    /// A card by its grip, and where it was.
    Resize { id: u128, start: Rect },
    /// The plane.
    Pan,
    /// The overview: the camera centres on the pointer.
    Minimap,
}

/// What a move of the pointer asks for.
#[derive(Clone, Copy, PartialEq, Eq, Structural, Debug)]
pub enum Moved {
    Nothing,
    /// Pan the camera by the way the pointer went.
    Pan,
    /// Centre the camera on what is under the pointer in the overview.
    Scrub,
    /// A card took its new place.
    Placed,
}

/// A streamed window whose card was resized: the host is to give it the size the card now has.
#[derive(Clone, Copy, PartialEq, Eq, Structural, Debug)]
pub struct Resized {
    pub stream: u64,
    /// The card when the drag began.
    pub start: Rect,
    pub rect: Rect,
}

/// The pointer, and what it holds.
#[derive(Clone, Copy, PartialEq, Eq, Structural, Debug)]
pub struct Hand {
    pub drag: Option<Drag>,
}

/// The card a drag holds.
pub open spec fn card_of(drag: Option<Drag>) -> Option<u128> {
    match drag {
        Some(Drag::Move { id, .. }) => Some(id),
        Some(Drag::Resize { id, .. }) => Some(id),
        _ => None,
    }
}

/// What a move of the pointer with `drag` asks for.
pub open spec fn asked_by(drag: Option<Drag>, held: bool, mapped: bool) -> Moved {
    if !held {
        Moved::Nothing
    } else {
        match drag {
            None => Moved::Nothing,
            Some(Drag::Pan) => Moved::Pan,
            Some(Drag::Minimap) => if mapped {
                Moved::Scrub
            } else {
                Moved::Nothing
            },
            Some(_) => Moved::Placed,
        }
    }
}

impl Canvas {
    /// The drag is let go at `rect`: the card it holds takes that place.
    pub open spec fn then_dropped(self, drag: Option<Drag>, rect: Rect) -> Canvas {
        match card_of(drag) {
            Some(id) => self.then_placed(id, rect),
            None => self,
        }
    }

    /// The window whose size the drag changed.
    pub open spec fn resized_by(self, drag: Option<Drag>, rect: Rect) -> Option<Resized> {
        match drag {
            Some(Drag::Resize { id, start }) => if self.doc.has(id) {
                match self.window_stream(id) {
                    Some(stream) => Some(Resized { stream, start, rect }),
                    None => None,
                }
            } else {
                None
            },
            _ => None,
        }
    }

    /// A card takes a place, where it is here.
    pub open spec fn then_placed(self, id: u128, rect: Rect) -> Canvas {
        if self.doc.has(id) {
            self.propose(Op::Place { id, rect })
        } else {
            self
        }
    }

    /// The pointer moved with `drag`; a card it holds would lie at `rect`. The overview is `mapped`
    /// while it is drawn.
    pub open spec fn then_dragged(
        self,
        drag: Option<Drag>,
        held: bool,
        mapped: bool,
        rect: Rect,
    ) -> Canvas {
        if !held {
            self
        } else {
            match drag {
                Some(Drag::Pan) => Canvas { following: None, ..self },
                Some(Drag::Minimap) => if mapped {
                    Canvas { following: None, ..self }
                } else {
                    self
                },
                Some(Drag::Move { id, .. }) => Canvas {
                    doc: self.doc.after(Op::Place { id, rect }),
                    ..self
                },
                Some(Drag::Resize { id, .. }) => Canvas {
                    doc: self.doc.after(Op::Place { id, rect }),
                    ..self
                },
                None => self,
            }
        }
    }

    /// The stream of a window card, where it has one.
    pub open spec fn window_stream(self, id: u128) -> Option<u64> {
        match stream_on(self.screens.open, id) {
            Some(s) => if s.target is Window {
                Some(s.stream)
            } else {
                None
            },
            None => None,
        }
    }

    /// The host is asked for another size of a window, where it is another.
    pub open spec fn then_resize(self, stream: u64, size: (u32, u32), native: (u32, u32)) -> Canvas {
        if size == native {
            self
        } else {
            self.say(
                screen_req(ScreenRequest::Resize { stream, width: size.0, height: size.1 }),
            )
        }
    }
}

impl CanvasView {
    /// A card takes a place: the one it is sized to, or the one that keeps its picture's shape.
    pub fn place(&mut self, id: u128, rect: Rect)
        ensures
            final(self).deep_view() == old(self).deep_view().then_placed(id, rect),
    {
        if self.doc().has(id) {
            self.propose(Op::Place { id, rect });
        }
    }

    /// The grip of a streamed window's card was let go: the host is asked to give the window the
    /// size the card now has, `size`, unless it is the one it has, `native`.
    pub fn resize_remote_window(&mut self, stream: u64, size: (u32, u32), native: (u32, u32))
        ensures
            final(self).deep_view() == old(self).deep_view().then_resize(stream, size, native),
    {
        if size.0 == native.0 && size.1 == native.1 {
            return;
        }
        self.send(
            ClientMsg::Screen(ScreenRequest::Resize { stream, width: size.0, height: size.1 }),
        );
    }
}

impl Hand {
    /// An empty hand.
    pub fn new() -> (r: Hand)
        ensures
            r == (Hand { drag: None }),
    {
        Hand { drag: None }
    }

    /// The card under a drag.
    pub fn card(&self) -> (r: Option<u128>)
        ensures
            r == card_of(self.drag),
    {
        match self.drag {
            Some(Drag::Move { id, .. }) => Some(id),
            Some(Drag::Resize { id, .. }) => Some(id),
            _ => None,
        }
    }

    /// A press on the plane, or on the overview over it.
    pub fn begin_pan(&mut self, on_minimap: bool)
        ensures
            final(self).drag == Some(
                if on_minimap {
                    Drag::Minimap
                } else {
                    Drag::Pan
                },
            ),
    {
        self.drag = Some(
            if on_minimap {
                Drag::Minimap
            } else {
                Drag::Pan
            },
        );
    }

    /// A press on a card's title bar.
    pub fn begin_move(&mut self, canvas: &mut CanvasView, id: u128)
        ensures
            match old(canvas).deep_view().doc.get(id) {
                Some(item) => {
                    &&& final(self).drag == Some(Drag::Move { id, start: item.rect })
                    &&& final(canvas).deep_view() == old(canvas).deep_view().then_activate(id)
                },
                None => *final(self) == *old(self) && final(canvas).deep_view() == old(
                    canvas,
                ).deep_view(),
            },
    {
        let start = match canvas.doc().get(id) {
            Some(item) => item.rect,
            None => {
                return;
            },
        };
        canvas.activate(id);
        self.drag = Some(Drag::Move { id, start });
    }

    /// A press on a card's title bar: the second click of a double-click names the card, the first
    /// began a move that its release already ended. `focused` is who has the keyboard; the field's
    /// placeholder and what it starts with come back.
    pub fn title_pressed(
        &mut self,
        canvas: &mut CanvasView,
        id: u128,
        clicks: usize,
        focused: Option<u64>,
    ) -> (r: Option<(String, String)>)
        ensures
            clicks == 2 ==> {
                &&& *final(self) == *old(self)
                &&& final(canvas).deep_view() == old(canvas).deep_view().then_rename(id, focused)
                &&& match (r, old(canvas).deep_view().doc.get(id)) {
                    (Some((placeholder, value)), Some(item)) => {
                        &&& placeholder@ == old(canvas).deep_view().derived_title(item)
                        &&& value@ == (match item.name {
                            Some(name) => name,
                            None => Seq::empty(),
                        })
                    },
                    (None, None) => true,
                    _ => false,
                }
            },
            clicks != 2 ==> r is None && match old(canvas).deep_view().doc.get(id) {
                Some(item) => {
                    &&& final(self).drag == Some(Drag::Move { id, start: item.rect })
                    &&& final(canvas).deep_view() == old(canvas).deep_view().then_activate(id)
                },
                None => *final(self) == *old(self) && final(canvas).deep_view() == old(
                    canvas,
                ).deep_view(),
            },
    {
        if clicks == 2 {
            canvas.start_rename(id, focused)
        } else {
            self.begin_move(canvas, id);
            None
        }
    }

    /// A press on a card's grip.
    pub fn begin_resize(&mut self, canvas: &mut CanvasView, id: u128)
        ensures
            match old(canvas).deep_view().doc.get(id) {
                Some(item) => {
                    &&& final(self).drag == Some(Drag::Resize { id, start: item.rect })
                    &&& final(canvas).deep_view() == old(canvas).deep_view().then_activate(id)
                },
                None => *final(self) == *old(self) && final(canvas).deep_view() == old(
                    canvas,
                ).deep_view(),
            },
    {
        let start = match canvas.doc().get(id) {
            Some(item) => item.rect,
            None => {
                return;
            },
        };
        canvas.activate(id);
        self.drag = Some(Drag::Resize { id, start });
    }

    /// The pointer moved. `held` says its button is still down: a release elsewhere ends the drag.
    /// A card the hand holds goes to `rect` on this client; the host hears of it at the release.
    /// `mapped` says the overview is drawn.
    pub fn mouse_move(
        &mut self,
        canvas: &mut CanvasView,
        held: bool,
        mapped: bool,
        rect: Rect,
    ) -> (r: Moved)
        ensures
            final(self).drag == (if held {
                old(self).drag
            } else {
                None
            }),
            final(canvas).deep_view() == old(canvas).deep_view().then_dragged(
                old(self).drag,
                held,
                mapped,
                rect,
            ),
            r == asked_by(old(self).drag, held, mapped),
            r == (if !held {
                Moved::Nothing
            } else {
                match old(self).drag {
                    None => Moved::Nothing,
                    Some(Drag::Pan) => Moved::Pan,
                    Some(Drag::Minimap) => if mapped {
                        Moved::Scrub
                    } else {
                        Moved::Nothing
                    },
                    Some(_) => Moved::Placed,
                }
            }),
    {
        if !held {
            self.drag = None;
            return Moved::Nothing;
        }
        match self.drag {
            None => Moved::Nothing,
            Some(Drag::Pan) => {
                canvas.take_camera();
                Moved::Pan
            },
            Some(Drag::Minimap) => {
                if !mapped {
                    return Moved::Nothing;
                }
                canvas.take_camera();
                Moved::Scrub
            },
            Some(Drag::Move { id, .. }) => {
                canvas.apply_here(Op::Place { id, rect });
                Moved::Placed
            },
            Some(Drag::Resize { id, .. }) => {
                canvas.apply_here(Op::Place { id, rect });
                Moved::Placed
            },
        }
    }

    /// The pointer let go. A card lands at `rect`, its place on the grid, and the host hears of it;
    /// the card of a streamed window that was resized comes back.
    pub fn mouse_up(&mut self, canvas: &mut CanvasView, rect: Rect) -> (r: Option<Resized>)
        ensures
            final(self).drag is None,
            final(canvas).deep_view() == old(canvas).deep_view().then_dropped(old(self).drag, rect),
            r == old(canvas).deep_view().resized_by(old(self).drag, rect),
            final(canvas).deep_view() == (match card_of(old(self).drag) {
                Some(id) => old(canvas).deep_view().then_placed(id, rect),
                None => old(canvas).deep_view(),
            }),
            r == (match old(self).drag {
                Some(Drag::Resize { id, start }) => if old(canvas).deep_view().doc.has(id) {
                    match old(canvas).deep_view().window_stream(id) {
                        Some(stream) => Some(Resized { stream, start, rect }),
                        None => None,
                    }
                } else {
                    None
                },
                _ => None,
            }),
    {
        let drag: Option<Drag> = self.drag;
        self.drag = None;
        match drag {
            Some(Drag::Move { id, .. }) => {
                canvas.place(id, rect);
                None
            },
            Some(Drag::Resize { id, start }) => {
                if !canvas.doc().has(id) {
                    return None;
                }
                let stream = match canvas.screens().on(id) {
                    Some(s) => match s.target {
                        CaptureTarget::Window(_) => Some(s.stream),
                        CaptureTarget::Display(_) => None,
                    },
                    None => None,
                };
                canvas.place(id, rect);
                match stream {
                    Some(stream) => Some(Resized { stream, start, rect }),
                    None => None,
                }
            },
            _ => None,
        }
    }
}

/// However far a card is dragged, the host hears of one place for it: nothing is sent on the way,
/// and a release tells where the card landed.
pub proof fn law_a_drag_is_told_at_its_end(canvas: Canvas, drag: Drag, on_the_way: Rect, end: Rect)
    requires
        canvas.doc.sound(),
        card_of(Some(drag)) is Some,
        canvas.doc.has(card_of(Some(drag))->0),
    ensures
        ({
            let id = card_of(Some(drag))->0;
            let mid = canvas.then_dragged(Some(drag), true, true, on_the_way);
            let done = mid.then_placed(id, end);
            &&& mid.out == canvas.out
            &&& done.out == canvas.out.push(
                Effect::Send(ClientMsg::Canvas(Op::Place { id, rect: end })),
            )
            &&& done.doc.get(id) matches Some(item) && item.rect == end
        }),
{
    let id = card_of(Some(drag))->0;
    let other: u128 = if id == 0 {
        1
    } else {
        0
    };
    law_a_change_is_about_one_card(
        canvas.doc,
        Op::Place { id, rect: on_the_way },
        other,
    );
    let mid = canvas.then_dragged(Some(drag), true, true, on_the_way);
    law_a_change_is_about_one_card(
        mid.doc,
        Op::Place { id, rect: end },
        other,
    );
}

} // verus!
