//! The drawing side of the engine: the events of a frame, and the module
//! that keeps the graphics context and the frame that is being drawn.

use crate::modules::events::{Event, EventKind, EventQueue};
use crate::modules::names::DebugName;
use crate::platform::{RequestWindowRedrawEvent, REQUEST_WINDOW_REDRAW_EVENT};
use vstd::prelude::*;
use vstd::string::StringExecFns;

verus! {

pub const PRE_SUBMIT_RENDER_EVENT: EventKind = 32;

pub const SUBMIT_RENDER_EVENT: EventKind = 33;

pub const RENDER_PRESENT_EVENT: EventKind = 34;

/// A frame has been acquired; renderers get ready to draw.
pub struct PreSubmitRenderEvent;

/// Renderers submit what they draw to the frame.
pub struct SubmitRenderEvent;

/// The frame is complete and is to be shown.
pub struct RenderPresentEvent;

impl Event for PreSubmitRenderEvent {
    open spec fn kind_spec(&self) -> EventKind {
        PRE_SUBMIT_RENDER_EVENT
    }

    fn kind(&self) -> (kind: EventKind) {
        PRE_SUBMIT_RENDER_EVENT
    }
}

impl Event for SubmitRenderEvent {
    open spec fn kind_spec(&self) -> EventKind {
        SUBMIT_RENDER_EVENT
    }

    fn kind(&self) -> (kind: EventKind) {
        SUBMIT_RENDER_EVENT
    }
}

impl Event for RenderPresentEvent {
    open spec fn kind_spec(&self) -> EventKind {
        RENDER_PRESENT_EVENT
    }

    fn kind(&self) -> (kind: EventKind) {
        RENDER_PRESENT_EVENT
    }
}

/// The events the graphics module pushes.
pub enum GraphicsEvent {
    PreSubmitRender(PreSubmitRenderEvent),
    SubmitRender(SubmitRenderEvent),
    RenderPresent(RenderPresentEvent),
    RequestWindowRedraw(RequestWindowRedrawEvent),
}

impl Event for GraphicsEvent {
    open spec fn kind_spec(&self) -> EventKind {
        match self {
            GraphicsEvent::PreSubmitRender(_) => PRE_SUBMIT_RENDER_EVENT,
            GraphicsEvent::SubmitRender(_) => SUBMIT_RENDER_EVENT,
            GraphicsEvent::RenderPresent(_) => RENDER_PRESENT_EVENT,
            GraphicsEvent::RequestWindowRedraw(_) => REQUEST_WINDOW_REDRAW_EVENT,
        }
    }

    fn kind(&self) -> (kind: EventKind) {
        match self {
            GraphicsEvent::PreSubmitRender(_) => PRE_SUBMIT_RENDER_EVENT,
            GraphicsEvent::SubmitRender(_) => SUBMIT_RENDER_EVENT,
            GraphicsEvent::RenderPresent(_) => RENDER_PRESENT_EVENT,
            GraphicsEvent::RequestWindowRedraw(_) => REQUEST_WINDOW_REDRAW_EVENT,
        }
    }
}

impl DebugName for GraphicsEvent {
    open spec fn path_spec(&self) -> Seq<char> {
        match self {
            GraphicsEvent::PreSubmitRender(_) => "rgine::graphics::PreSubmitRenderEvent"@,
            GraphicsEvent::SubmitRender(_) => "rgine::graphics::SubmitRenderEvent"@,
            GraphicsEvent::RenderPresent(_) => "rgine::graphics::RenderPresentEvent"@,
            GraphicsEvent::RequestWindowRedraw(_) => "rgine::platform::RequestWindowRedrawEvent"@,
        }
    }

    fn path(&self) -> (path: String) {
        match self {
            GraphicsEvent::PreSubmitRender(_) => String::from_str(
                "rgine::graphics::PreSubmitRenderEvent",
            ),
            GraphicsEvent::SubmitRender(_) => String::from_str(
                "rgine::graphics::SubmitRenderEvent",
            ),
            GraphicsEvent::RenderPresent(_) => String::from_str(
                "rgine::graphics::RenderPresentEvent",
            ),
            GraphicsEvent::RequestWindowRedraw(_) => String::from_str(
                "rgine::platform::RequestWindowRedrawEvent",
            ),
        }
    }
}

/// The three events of a frame, in the order they are pushed.
pub open spec fn frame_events() -> Seq<GraphicsEvent> {
    seq![
        GraphicsEvent::PreSubmitRender(PreSubmitRenderEvent),
        GraphicsEvent::SubmitRender(SubmitRenderEvent),
        GraphicsEvent::RenderPresent(RenderPresentEvent),
    ]
}

/// Whether a surface can be configured for a window of this size: only for
/// one that has an extent.
pub fn drawable(size: (u32, u32)) -> (drawable: bool)
    ensures
        drawable == (size.0 > 0 && size.1 > 0),
{
    size.0 > 0 && size.1 > 0
}

/// Which of the formats a surface offers is the one to draw in, by their
/// place in the offer: the first that is sRGB, or, where none is, the first
/// of all. `srgb` says of each offered format whether it is sRGB.
pub fn preferred_format(srgb: &Vec<bool>) -> (index: usize)
    requires
        srgb@.len() > 0,
    ensures
        index < srgb@.len(),
        (srgb@[index as int] && forall|i: int| 0 <= i < index ==> !srgb@[i]) || (index == 0
            && forall|i: int| 0 <= i < srgb@.len() ==> !srgb@[i]),
{
    let mut at: usize = 0;
    while at < srgb.len()
        invariant
            at <= srgb@.len(),
            forall|i: int| 0 <= i < at ==> !srgb@[i],
        decreases srgb@.len() - at,
    {
        if srgb[at] {
            return at;
        }
        at += 1;
    }
    0
}

/// Keeps the graphics context `C`, once the window is there, and the frame
/// `F` that is being drawn, from its acquisition to its presentation.
pub struct GraphicsModule<C, F> {
    pub ctx: Option<C>,
    pub current_frame: Option<F>,
}

impl<C, F> GraphicsModule<C, F> {
    /// The module before the window is there.
    pub fn new() -> (module: Self)
        ensures
            module.ctx is None,
            module.current_frame is None,
    {
        GraphicsModule { ctx: None, current_frame: None }
    }

    /// The window is ready and `ctx` has been made for it.
    pub fn on_window_ready(&mut self, ctx: C)
        ensures
            final(self).ctx == Some(ctx),
            final(self).current_frame == old(self).current_frame,
    {
        self.ctx = Some(ctx);
    }

    /// The size the surface is to be configured for after the window has
    /// changed its size to `size`: none as long as there is no context, and
    /// none while the window has no extent.
    pub fn on_surface_resize(&self, size: (u32, u32)) -> (configure: Option<(u32, u32)>)
        ensures
            configure == if self.ctx is Some && size.0 > 0 && size.1 > 0 {
                Some(size)
            } else {
                None
            },
    {
        if self.ctx.is_some() && drawable(size) {
            Some(size)
        } else {
            None
        }
    }

    /// The window can be drawn to, and `frame` is what the surface gave when
    /// asked for its next frame. With a frame the three events of a frame
    /// are pushed; without one nothing happens.
    pub fn on_render_ready(&mut self, frame: Option<F>, queue: &mut EventQueue<GraphicsEvent>)
        ensures
            final(self).ctx == old(self).ctx,
            match frame {
                Some(acquired) => final(self).current_frame == Some(acquired) && final(queue)@
                    == old(queue)@ + frame_events(),
                None => final(self).current_frame == old(self).current_frame && final(queue)@
                    == old(queue)@,
            },
    {
        match frame {
            Some(acquired) => {
                self.current_frame = Some(acquired);
                queue.push(GraphicsEvent::PreSubmitRender(PreSubmitRenderEvent));
                queue.push(GraphicsEvent::SubmitRender(SubmitRenderEvent));
                queue.push(GraphicsEvent::RenderPresent(RenderPresentEvent));
                assert(queue@ =~= old(queue)@ + frame_events());
            },
            None => {},
        }
    }

    /// The frame is complete. Hands out the frame to be shown, if one was
    /// being drawn, and asks for the window to be drawn anew.
    pub fn on_render_present(&mut self, queue: &mut EventQueue<GraphicsEvent>) -> (frame: Option<F>)
        ensures
            frame == old(self).current_frame,
            final(self).current_frame is None,
            final(self).ctx == old(self).ctx,
            final(queue)@ == if frame is Some {
                old(queue)@.push(GraphicsEvent::RequestWindowRedraw(RequestWindowRedrawEvent))
            } else {
                old(queue)@
            },
    {
        let frame = self.current_frame.take();
        if frame.is_some() {
            queue.push(GraphicsEvent::RequestWindowRedraw(RequestWindowRedrawEvent));
        }
        frame
    }

    /// The engine shuts down. Hands out the context, which is to go before
    /// the window does.
    pub fn on_shutdown(&mut self) -> (ctx: Option<C>)
        ensures
            ctx == old(self).ctx,
            final(self).ctx is None,
            final(self).current_frame == old(self).current_frame,
    {
        self.ctx.take()
    }
}

} // verus!
