//! Drawing sprites: the events of the sprite renderer and the way handlers
//! ask for a sprite to be drawn.

use crate::modules::events::{Event, EventKind, EventQueue};
use vstd::prelude::*;

verus! {

pub const RENDER_2D_EVENT: EventKind = 48;

pub const DRAW_SPRITE_EVENT: EventKind = 49;

pub const REGISTER_SPRITE_EVENT: EventKind = 50;

pub const REFRESH_RENDERER_2D_EVENT: EventKind = 51;

/// It is time to ask for the sprites of this frame.
pub struct Render2DEvent;

/// Asks for `sprite` to be drawn with `params`.
pub struct DrawSpriteEvent<S, P> {
    pub sprite: S,
    pub params: P,
}

pub struct RegisterSpriteEvent;

/// The renderer is to be built anew from the loaded sprite sheets.
pub struct RefreshRenderer2DEvent;

impl Event for Render2DEvent {
    open spec fn kind_spec(&self) -> EventKind {
        RENDER_2D_EVENT
    }

    fn kind(&self) -> (kind: EventKind) {
        RENDER_2D_EVENT
    }
}

impl<S, P> Event for DrawSpriteEvent<S, P> {
    open spec fn kind_spec(&self) -> EventKind {
        DRAW_SPRITE_EVENT
    }

    fn kind(&self) -> (kind: EventKind) {
        DRAW_SPRITE_EVENT
    }
}

impl Event for RegisterSpriteEvent {
    open spec fn kind_spec(&self) -> EventKind {
        REGISTER_SPRITE_EVENT
    }

    fn kind(&self) -> (kind: EventKind) {
        REGISTER_SPRITE_EVENT
    }
}

impl Event for RefreshRenderer2DEvent {
    open spec fn kind_spec(&self) -> EventKind {
        REFRESH_RENDERER_2D_EVENT
    }

    fn kind(&self) -> (kind: EventKind) {
        REFRESH_RENDERER_2D_EVENT
    }
}

/// Draws into a queue: what is drawn becomes an event for the renderer.
pub struct Draw2d<'a, S, P>(pub &'a mut EventQueue<DrawSpriteEvent<S, P>>);

impl<'a, S, P> Draw2d<'a, S, P> {
    /// Asks for `sprite` to be drawn with `params`: one more event waits in
    /// the queue that is drawn into, which stays the same queue.
    pub fn sprite(&mut self, sprite: S, params: P)
        ensures
            final(self).0@ == old(self).0@.push(DrawSpriteEvent { sprite, params }),
            *final(final(self).0) == *final(old(self).0),
    {
        self.0.push(DrawSpriteEvent { sprite, params })
    }
}

/// Keeps the sprite renderer `R`, once it has been built.
pub struct Renderer2DModule<R> {
    pub renderer: Option<R>,
}

impl<R> Renderer2DModule<R> {
    /// The module before a renderer has been built.
    pub fn new() -> (module: Self)
        ensures
            module.renderer is None,
    {
        Renderer2DModule { renderer: None }
    }

    /// The window is ready: asks for the renderer to be built.
    pub fn on_window_ready(&self, queue: &mut EventQueue<RefreshRenderer2DEvent>)
        ensures
            final(queue)@ == old(queue)@.push(RefreshRenderer2DEvent),
    {
        queue.push(RefreshRenderer2DEvent)
    }

    /// The renderer has been built anew. Hands out the renderer it takes
    /// the place of, if there was one.
    pub fn on_refresh(&mut self, renderer: R) -> (replaced: Option<R>)
        ensures
            replaced == old(self).renderer,
            final(self).renderer == Some(renderer),
    {
        let replaced = self.renderer.take();
        self.renderer = Some(renderer);
        replaced
    }

    /// A frame has been acquired: asks for the sprites of this frame.
    pub fn on_pre_submit(&self, queue: &mut EventQueue<Render2DEvent>)
        ensures
            final(queue)@ == old(queue)@.push(Render2DEvent),
    {
        queue.push(Render2DEvent)
    }

    /// The renderer that is to submit what was drawn, or to follow the
    /// surface in its size: none as long as none has been built.
    pub fn on_submit(&mut self) -> (renderer: Option<&mut R>)
        ensures
            match renderer {
                Some(renderer) => old(self).renderer == Some(*renderer) && final(self).renderer
                    == Some(*final(renderer)),
                None => old(self).renderer is None && final(self).renderer is None,
            },
    {
        self.renderer.as_mut()
    }

    /// The renderer that is to draw a sprite. A sprite can be drawn only
    /// once the renderer has been built.
    pub fn on_draw_sprite(&mut self) -> (renderer: &mut R)
        requires
            old(self).renderer is Some,
        ensures
            old(self).renderer == Some(*renderer),
            final(self).renderer == Some(*final(renderer)),
    {
        self.renderer.as_mut().unwrap()
    }
}

} // verus!
