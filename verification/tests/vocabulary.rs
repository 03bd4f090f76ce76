use rgine::graphics::{
    GraphicsEvent, GraphicsModule, PreSubmitRenderEvent, RenderPresentEvent, SubmitRenderEvent,
    PRE_SUBMIT_RENDER_EVENT, RENDER_PRESENT_EVENT, SUBMIT_RENDER_EVENT,
};
use rgine::modules::events::{Event, EventList, EventQueue};
use rgine::modules::names::{describe, DebugName};
use rgine::modules::standards::{ShutdownEvent, StartEvent, SHUTDOWN_EVENT, START_EVENT};
use rgine::modules::utils::Take;
use rgine::platform::{
    ends_loop, event_for, OnWindowPlatformUpdate, PlatformCall, PlatformEvent, RenderReadyEvent,
    RequestWindowRedrawEvent, WindowPlatformModule, WindowReadyEvent, WindowResizeEvent,
    WindowSignal, REQUEST_WINDOW_REDRAW_EVENT,
};
use rgine::renderer_2d::{
    Draw2d, DrawSpriteEvent, RefreshRenderer2DEvent, RegisterSpriteEvent, Render2DEvent,
    Renderer2DModule,
};

#[test]
fn queue_keeps_push_order_and_drains_empty() {
    let mut queue: EventQueue<u8> = EventQueue::new();
    assert!(queue.is_empty());
    queue.push(1);
    queue.push(2);
    queue.push(3);
    assert!(!queue.is_empty());
    assert_eq!(queue.drain(), vec![1, 2, 3]);
    assert!(queue.is_empty());
    assert_eq!(queue.drain(), Vec::<u8>::new());
}

#[test]
fn merge_after_puts_own_events_behind_the_others() {
    let mut earlier: EventQueue<u8> = EventQueue::new();
    earlier.push(1);
    earlier.push(2);
    let mut later: EventQueue<u8> = EventQueue::new();
    later.push(3);
    let mut merged = later.merge_after(earlier);
    assert_eq!(merged.drain(), vec![1, 2, 3]);
    let empty: EventQueue<u8> = EventQueue::new();
    let mut other: EventQueue<u8> = EventQueue::new();
    other.push(9);
    assert_eq!(empty.merge_after(other).drain(), vec![9]);
}

#[test]
fn unit_declares_no_interest() {
    assert!(<() as EventList<u8>>::raw_listeners(0).is_empty());
    assert!(<() as EventList<String>>::raw_listeners(17).is_empty());
}

#[test]
fn take_gives_its_value_once() {
    let mut take = Take::new(String::from("asset"));
    assert!(!take.taken());
    assert_eq!(take.get(), "asset");
    take.get_mut().push('s');
    assert_eq!(take.get(), "assets");
    assert_eq!(take.take(), "assets");
    assert!(take.taken());
}

#[test]
fn describe_names_the_type_and_where_it_lives() {
    assert_eq!(describe("game::events::Tick"), "Tick (inside of game::events)");
    assert_eq!(describe("game::Tick"), "Tick (inside of game)");
    assert_eq!(describe("Tick"), "Tick (inside of )");
    assert_eq!(describe(""), " (inside of )");
    assert_eq!(describe("a:::b"), ":b (inside of a)");
    assert_eq!(describe("a::"), " (inside of a)");
    assert_eq!(describe("alloc::vec::Vec<game::Tick>"), "Tick> (inside of alloc::vec::Vec<game)");
}

struct Tick;

impl DebugName for Tick {
    fn path(&self) -> String {
        "game::events::Tick".to_string()
    }
}

#[test]
fn debug_name_is_made_from_the_path() {
    assert_eq!(Tick.of(), "Tick (inside of game::events)");
}

#[test]
fn vocabulary_events_have_distinct_kinds() {
    let mut kinds = vec![
        WindowSignal::Other.kind(),
        WindowReadyEvent.kind(),
        OnWindowPlatformUpdate.kind(),
        RequestWindowRedrawEvent.kind(),
        RenderReadyEvent.kind(),
        WindowResizeEvent.kind(),
        PreSubmitRenderEvent.kind(),
        SubmitRenderEvent.kind(),
        RenderPresentEvent.kind(),
        Render2DEvent.kind(),
        DrawSpriteEvent { sprite: 1u8, params: 2u8 }.kind(),
        RegisterSpriteEvent.kind(),
        RefreshRenderer2DEvent.kind(),
        rgine::assets::ASSETS_EVENT,
    ];
    let count = kinds.len();
    kinds.sort();
    kinds.dedup();
    assert_eq!(kinds.len(), count);
    assert_eq!(WindowSignal::CloseRequested.kind(), WindowSignal::RedrawRequested.kind());
}

#[test]
fn graphics_events_have_the_kinds_of_what_they_carry() {
    assert_eq!(GraphicsEvent::PreSubmitRender(PreSubmitRenderEvent).kind(), PRE_SUBMIT_RENDER_EVENT);
    assert_eq!(GraphicsEvent::SubmitRender(SubmitRenderEvent).kind(), SUBMIT_RENDER_EVENT);
    assert_eq!(GraphicsEvent::RenderPresent(RenderPresentEvent).kind(), RENDER_PRESENT_EVENT);
    assert_eq!(
        GraphicsEvent::RequestWindowRedraw(RequestWindowRedrawEvent).kind(),
        REQUEST_WINDOW_REDRAW_EVENT
    );
}

#[test]
fn window_module_remembers_a_request_to_close() {
    let mut module = WindowPlatformModule::new();
    let mut queue = EventQueue::new();
    assert!(!module.should_close);
    assert_eq!(module.window_size(), None);
    module.on_window_event(&WindowSignal::Other, &mut queue);
    assert!(!module.should_close);
    module.on_window_event(&WindowSignal::CloseRequested, &mut queue);
    assert!(module.should_close);
    module.on_window_event(&WindowSignal::Other, &mut queue);
    assert!(module.should_close);
    assert!(queue.is_empty());
}

#[test]
fn window_module_answers_a_redraw_request() {
    let mut module = WindowPlatformModule::new();
    let mut queue = EventQueue::new();
    module.window_measured(640, 480);
    module.on_window_event(&WindowSignal::RedrawRequested, &mut queue);
    assert_eq!(queue.drain().len(), 1);
    assert!(!module.should_close);
    assert_eq!(module.window_size(), Some((640, 480)));
}

#[test]
fn platform_calls_run_their_events() {
    assert!(matches!(event_for(&PlatformCall::Launched), PlatformEvent::Start));
    assert!(matches!(event_for(&PlatformCall::Resumed), PlatformEvent::WindowReady(_)));
    assert!(matches!(event_for(&PlatformCall::AboutToWait), PlatformEvent::Update(_)));
    assert!(matches!(event_for(&PlatformCall::Exiting), PlatformEvent::Shutdown));
}

#[test]
fn platform_events_have_the_standard_kinds() {
    assert!(matches!(PlatformEvent::start(), PlatformEvent::Start));
    assert!(matches!(PlatformEvent::shutdown(), PlatformEvent::Shutdown));
    assert_eq!(PlatformEvent::start().kind(), START_EVENT);
    assert_eq!(PlatformEvent::shutdown().kind(), SHUTDOWN_EVENT);
    assert_eq!(PlatformEvent::WindowReady(WindowReadyEvent).kind(), WindowReadyEvent.kind());
    assert_eq!(PlatformEvent::Update(OnWindowPlatformUpdate).kind(), OnWindowPlatformUpdate.kind());
    assert!(START_EVENT != SHUTDOWN_EVENT);
}

#[test]
fn vocabulary_events_have_readable_names() {
    assert_eq!(PlatformEvent::Start.of(), "StartEvent (inside of rgine::modules::standards)");
    assert_eq!(
        PlatformEvent::WindowReady(WindowReadyEvent).of(),
        "WindowReadyEvent (inside of rgine::platform)"
    );
    assert_eq!(
        PlatformEvent::Update(OnWindowPlatformUpdate).path(),
        "rgine::platform::OnWindowPlatformUpdate"
    );
    assert_eq!(PlatformEvent::Shutdown.of(), "ShutdownEvent (inside of rgine::modules::standards)");
    assert_eq!(
        GraphicsEvent::PreSubmitRender(PreSubmitRenderEvent).of(),
        "PreSubmitRenderEvent (inside of rgine::graphics)"
    );
    assert_eq!(
        GraphicsEvent::SubmitRender(SubmitRenderEvent).of(),
        "SubmitRenderEvent (inside of rgine::graphics)"
    );
    assert_eq!(
        GraphicsEvent::RenderPresent(RenderPresentEvent).of(),
        "RenderPresentEvent (inside of rgine::graphics)"
    );
    assert_eq!(
        GraphicsEvent::RequestWindowRedraw(RequestWindowRedrawEvent).of(),
        "RequestWindowRedrawEvent (inside of rgine::platform)"
    );
}

#[test]
fn loop_ends_after_an_update_once_the_window_is_to_close() {
    let mut module = WindowPlatformModule::new();
    assert!(!ends_loop(&PlatformCall::AboutToWait, &module));
    module.should_close = true;
    assert!(ends_loop(&PlatformCall::AboutToWait, &module));
    assert!(!ends_loop(&PlatformCall::Resumed, &module));
    assert!(!ends_loop(&PlatformCall::Exiting, &module));
}

#[test]
fn surface_is_configured_only_with_a_context_and_an_extent() {
    let mut module: GraphicsModule<&str, u8> = GraphicsModule::new();
    assert_eq!(module.on_surface_resize((800, 600)), None);
    module.on_window_ready("ctx");
    assert_eq!(module.on_surface_resize((800, 600)), Some((800, 600)));
    assert_eq!(module.on_surface_resize((0, 600)), None);
    assert_eq!(module.on_surface_resize((800, 0)), None);
    assert_eq!(module.on_surface_resize((1, 1)), Some((1, 1)));
}

#[test]
fn frame_goes_from_acquisition_to_presentation() {
    let mut module: GraphicsModule<&str, u8> = GraphicsModule::new();
    module.on_window_ready("ctx");
    let mut queue = EventQueue::new();

    module.on_render_ready(None, &mut queue);
    assert!(queue.is_empty());
    assert_eq!(module.current_frame, None);
    assert_eq!(module.on_render_present(&mut queue), None);
    assert!(queue.is_empty());

    module.on_render_ready(Some(7), &mut queue);
    assert_eq!(module.current_frame, Some(7));
    let kinds: Vec<u64> = queue.drain().iter().map(|event| event.kind()).collect();
    assert_eq!(kinds, vec![PRE_SUBMIT_RENDER_EVENT, SUBMIT_RENDER_EVENT, RENDER_PRESENT_EVENT]);

    assert_eq!(module.on_render_present(&mut queue), Some(7));
    assert_eq!(module.current_frame, None);
    let kinds: Vec<u64> = queue.drain().iter().map(|event| event.kind()).collect();
    assert_eq!(kinds, vec![REQUEST_WINDOW_REDRAW_EVENT]);
}

#[test]
fn shutdown_hands_out_the_context() {
    let mut module: GraphicsModule<&str, u8> = GraphicsModule::new();
    assert_eq!(module.on_shutdown(), None);
    module.on_window_ready("ctx");
    assert_eq!(module.on_shutdown(), Some("ctx"));
    assert_eq!(module.ctx, None);
    assert_eq!(module.on_shutdown(), None);
}

#[test]
fn drawing_a_sprite_queues_an_event() {
    let mut queue: EventQueue<DrawSpriteEvent<&str, u32>> = EventQueue::new();
    let mut draw = Draw2d(&mut queue);
    draw.sprite("hero", 1);
    draw.sprite("foe", 2);
    let events = queue.drain();
    assert_eq!(events.len(), 2);
    assert_eq!((events[0].sprite, events[0].params), ("hero", 1));
    assert_eq!((events[1].sprite, events[1].params), ("foe", 2));
}

#[test]
fn sprite_renderer_is_asked_for_and_kept() {
    let mut module: Renderer2DModule<Vec<&str>> = Renderer2DModule::new();
    assert!(module.renderer.is_none());
    assert!(module.on_submit().is_none());

    let mut refresh = EventQueue::new();
    module.on_window_ready(&mut refresh);
    assert_eq!(refresh.drain().len(), 1);

    assert_eq!(module.on_refresh(vec![]), None);
    module.on_draw_sprite().push("hero");
    module.on_submit().unwrap().push("foe");
    assert_eq!(module.renderer, Some(vec!["hero", "foe"]));
    assert_eq!(module.on_refresh(vec!["new"]), Some(vec!["hero", "foe"]));
    assert_eq!(module.renderer, Some(vec!["new"]));

    let mut render = EventQueue::new();
    module.on_pre_submit(&mut render);
    module.on_pre_submit(&mut render);
    assert_eq!(render.drain().len(), 2);
}
