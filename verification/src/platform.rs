//! The window side of the engine: the events a window system gives rise to,
//! and the module that keeps what is known of the window.

use crate::modules::events::{Event, EventKind, EventQueue};
use crate::modules::names::DebugName;
use crate::modules::standards::{ShutdownEvent, StartEvent, SHUTDOWN_EVENT, START_EVENT};
use vstd::prelude::*;
use vstd::string::StringExecFns;

verus! {

pub const WINDOW_EVENT: EventKind = 16;

pub const WINDOW_READY_EVENT: EventKind = 17;

pub const WINDOW_PLATFORM_UPDATE_EVENT: EventKind = 18;

pub const REQUEST_WINDOW_REDRAW_EVENT: EventKind = 19;

pub const RENDER_READY_EVENT: EventKind = 20;

pub const WINDOW_RESIZE_EVENT: EventKind = 21;

/// The window exists from now on.
pub struct WindowReadyEvent;

/// The window system has handed out all it had and is about to wait.
pub struct OnWindowPlatformUpdate;

/// Asks the window to be drawn anew.
pub struct RequestWindowRedrawEvent;

/// The window is ready to be drawn to.
pub struct RenderReadyEvent;

/// The window has changed its size.
pub struct WindowResizeEvent;

impl Event for WindowReadyEvent {
    open spec fn kind_spec(&self) -> EventKind {
        WINDOW_READY_EVENT
    }

    fn kind(&self) -> (kind: EventKind) {
        WINDOW_READY_EVENT
    }
}

impl Event for OnWindowPlatformUpdate {
    open spec fn kind_spec(&self) -> EventKind {
        WINDOW_PLATFORM_UPDATE_EVENT
    }

    fn kind(&self) -> (kind: EventKind) {
        WINDOW_PLATFORM_UPDATE_EVENT
    }
}

impl Event for RequestWindowRedrawEvent {
    open spec fn kind_spec(&self) -> EventKind {
        REQUEST_WINDOW_REDRAW_EVENT
    }

    fn kind(&self) -> (kind: EventKind) {
        REQUEST_WINDOW_REDRAW_EVENT
    }
}

impl Event for RenderReadyEvent {
    open spec fn kind_spec(&self) -> EventKind {
        RENDER_READY_EVENT
    }

    fn kind(&self) -> (kind: EventKind) {
        RENDER_READY_EVENT
    }
}

impl Event for WindowResizeEvent {
    open spec fn kind_spec(&self) -> EventKind {
        WINDOW_RESIZE_EVENT
    }

    fn kind(&self) -> (kind: EventKind) {
        WINDOW_RESIZE_EVENT
    }
}

/// What the platform module reads of an event of the window system.
pub enum WindowSignal {
    /// The user asked for the window to be closed.
    CloseRequested,
    /// The window system asks for the window's content.
    RedrawRequested,
    /// Anything else.
    Other,
}

impl Event for WindowSignal {
    open spec fn kind_spec(&self) -> EventKind {
        WINDOW_EVENT
    }

    fn kind(&self) -> (kind: EventKind) {
        WINDOW_EVENT
    }
}

/// What is known of the window: whether it is to be closed, and the size it
/// had when it was last measured, once it exists.
pub struct WindowPlatformModule {
    pub should_close: bool,
    pub size: Option<(u32, u32)>,
}

impl WindowPlatformModule {
    /// The module before any window exists.
    pub fn new() -> (module: Self)
        ensures
            !module.should_close,
            module.size is None,
    {
        WindowPlatformModule { should_close: false, size: None }
    }

    /// The inner size of the window, as width and height, once there is one.
    pub fn window_size(&self) -> (size: Option<(u32, u32)>)
        ensures
            size == self.size,
    {
        self.size
    }

    /// Records the size of the window as it was just measured.
    pub fn window_measured(&mut self, width: u32, height: u32)
        ensures
            final(self).size == Some((width, height)),
            final(self).should_close == old(self).should_close,
    {
        self.size = Some((width, height));
    }

    /// Reacts to an event of the window system: a request to close is
    /// remembered, a request to redraw is answered by a [`RenderReadyEvent`].
    pub fn on_window_event(&mut self, signal: &WindowSignal, queue: &mut EventQueue<RenderReadyEvent>)
        ensures
            final(self).size == old(self).size,
            final(self).should_close == (old(self).should_close
                || signal is CloseRequested),
            final(queue)@ == if signal is RedrawRequested {
                old(queue)@.push(RenderReadyEvent)
            } else {
                old(queue)@
            },
    {
        match signal {
            WindowSignal::CloseRequested => {
                self.should_close = true;
            },
            WindowSignal::RedrawRequested => {
                queue.push(RenderReadyEvent);
            },
            WindowSignal::Other => {},
        }
    }
}

/// What the window system tells the layer that runs the engine.
pub enum PlatformCall {
    /// The layer is about to enter the event loop.
    Launched,
    /// The application has come to the foreground.
    Resumed,
    /// The window system has handed out all it had and is about to wait.
    AboutToWait,
    /// The application is about to end.
    Exiting,
}

/// The events the layer that runs the engine gives rise to by itself.
pub enum PlatformEvent {
    Start,
    WindowReady(WindowReadyEvent),
    Update(OnWindowPlatformUpdate),
    Shutdown,
}

impl Event for PlatformEvent {
    open spec fn kind_spec(&self) -> EventKind {
        match self {
            PlatformEvent::Start => START_EVENT,
            PlatformEvent::WindowReady(_) => WINDOW_READY_EVENT,
            PlatformEvent::Update(_) => WINDOW_PLATFORM_UPDATE_EVENT,
            PlatformEvent::Shutdown => SHUTDOWN_EVENT,
        }
    }

    fn kind(&self) -> (kind: EventKind) {
        match self {
            PlatformEvent::Start => START_EVENT,
            PlatformEvent::WindowReady(_) => WINDOW_READY_EVENT,
            PlatformEvent::Update(_) => WINDOW_PLATFORM_UPDATE_EVENT,
            PlatformEvent::Shutdown => SHUTDOWN_EVENT,
        }
    }
}

impl DebugName for PlatformEvent {
    open spec fn path_spec(&self) -> Seq<char> {
        match self {
            PlatformEvent::Start => "rgine::modules::standards::StartEvent"@,
            PlatformEvent::WindowReady(_) => "rgine::platform::WindowReadyEvent"@,
            PlatformEvent::Update(_) => "rgine::platform::OnWindowPlatformUpdate"@,
            PlatformEvent::Shutdown => "rgine::modules::standards::ShutdownEvent"@,
        }
    }

    fn path(&self) -> (path: String) {
        match self {
            PlatformEvent::Start => String::from_str("rgine::modules::standards::StartEvent"),
            PlatformEvent::WindowReady(_) => String::from_str("rgine::platform::WindowReadyEvent"),
            PlatformEvent::Update(_) => String::from_str(
                "rgine::platform::OnWindowPlatformUpdate",
            ),
            PlatformEvent::Shutdown => String::from_str(
                "rgine::modules::standards::ShutdownEvent",
            ),
        }
    }
}

impl StartEvent for PlatformEvent {
    open spec fn start_spec() -> Self {
        PlatformEvent::Start
    }

    fn start() -> (event: Self) {
        PlatformEvent::Start
    }
}

impl ShutdownEvent for PlatformEvent {
    open spec fn shutdown_spec() -> Self {
        PlatformEvent::Shutdown
    }

    fn shutdown() -> (event: Self) {
        PlatformEvent::Shutdown
    }
}

/// The event the engine is to run for a call of the window system.
pub open spec fn event_of(call: PlatformCall) -> PlatformEvent {
    match call {
        PlatformCall::Launched => PlatformEvent::Start,
        PlatformCall::Resumed => PlatformEvent::WindowReady(WindowReadyEvent),
        PlatformCall::AboutToWait => PlatformEvent::Update(OnWindowPlatformUpdate),
        PlatformCall::Exiting => PlatformEvent::Shutdown,
    }
}

/// Which event the engine runs for a call of the window system.
pub fn event_for(call: &PlatformCall) -> (event: PlatformEvent)
    ensures
        event == event_of(*call),
{
    match call {
        PlatformCall::Launched => PlatformEvent::start(),
        PlatformCall::Resumed => PlatformEvent::WindowReady(WindowReadyEvent),
        PlatformCall::AboutToWait => PlatformEvent::Update(OnWindowPlatformUpdate),
        PlatformCall::Exiting => PlatformEvent::shutdown(),
    }
}

/// Whether the event loop is to end once the engine has run the event of
/// `call`: after an update, if the window is to be closed.
pub fn ends_loop(call: &PlatformCall, module: &WindowPlatformModule) -> (ends: bool)
    ensures
        ends == (call is AboutToWait && module.should_close),
{
    match call {
        PlatformCall::AboutToWait => module.should_close,
        _ => false,
    }
}

} // verus!
