use rgine::assets::{AssetKind, AssetsEvent, AssetsEventQueueExt, AssetsModule, ASSETS_EVENT};
use rgine::modules::events::{Event, EventQueue, Listener};
use rgine::modules::utils::Take;
use rgine::modules::{Engine, ModuleId};

const SHEETS: AssetKind = 7;
const SOUNDS: AssetKind = 8;
const ASSETS: ModuleId = 1;
const MIRROR: ModuleId = 2;

#[test]
fn asset_events_share_one_kind() {
    let load: AssetsEvent<u32> = AssetsEvent::Load { kind: SHEETS, value: Take::new(3) };
    let reset: AssetsEvent<u32> = AssetsEvent::Reset;
    assert_eq!(load.kind(), ASSETS_EVENT);
    assert_eq!(reset.kind(), ASSETS_EVENT);
}

#[test]
fn load_asset_queues_a_load_event() {
    let mut queue: EventQueue<AssetsEvent<String>> = EventQueue::new();
    queue.load_asset(SHEETS, "sheet".to_string());
    let mut events = queue.drain();
    assert_eq!(events.len(), 1);
    match &mut events[0] {
        AssetsEvent::Load { kind, value } => {
            assert_eq!(*kind, SHEETS);
            assert!(!value.taken());
            assert_eq!(value.take(), "sheet");
        }
        AssetsEvent::Reset => panic!("expected a load event"),
    }
}

#[test]
fn loaded_asset_is_found_by_kind() {
    let mut engine: Engine<AssetsModule<String>> = Engine::new();
    let assets = engine.load_module(ASSETS).unwrap();
    assert!(!assets.read_state(&engine).is_loaded(&SHEETS));
    engine.run_with(AssetsEvent::Load { kind: SHEETS, value: Take::new("sheet".to_string()) });
    assert!(assets.read_state(&engine).is_loaded(&SHEETS));
    assert!(!assets.read_state(&engine).is_loaded(&SOUNDS));
    assert_eq!(assets.read_state(&engine).get(SHEETS), "sheet");
}

#[test]
fn later_asset_of_a_kind_replaces_the_earlier() {
    let mut engine: Engine<AssetsModule<u32>> = Engine::new();
    let assets = engine.load_module(ASSETS).unwrap();
    engine.run_with(AssetsEvent::Load { kind: SHEETS, value: Take::new(1) });
    engine.run_with(AssetsEvent::Load { kind: SOUNDS, value: Take::new(2) });
    engine.run_with(AssetsEvent::Load { kind: SHEETS, value: Take::new(3) });
    assert_eq!(*assets.read_state(&engine).get(SHEETS), 3);
    assert_eq!(*assets.read_state(&engine).get(SOUNDS), 2);
}

#[test]
fn reset_keeps_loaded_assets() {
    let mut engine: Engine<AssetsModule<u32>> = Engine::new();
    let assets = engine.load_module(ASSETS).unwrap();
    engine.run_with(AssetsEvent::Load { kind: SHEETS, value: Take::new(1) });
    engine.run_with(AssetsEvent::Reset);
    assert!(assets.read_state(&engine).is_loaded(&SHEETS));
    assert_eq!(*assets.read_state(&engine).get(SHEETS), 1);
}

#[test]
fn asset_goes_to_the_first_asset_module_only() {
    let mut engine: Engine<AssetsModule<u32>> = Engine::new();
    let first = engine.load_module(ASSETS).unwrap();
    let second = engine.load_module(MIRROR).unwrap();
    engine.run_with(AssetsEvent::Load { kind: SHEETS, value: Take::new(5) });
    assert!(first.read_state(&engine).is_loaded(&SHEETS));
    assert!(!second.read_state(&engine).is_loaded(&SHEETS));
}

#[test]
fn handler_leaves_an_emptied_event_untouched() {
    let mut engine: Engine<AssetsModule<u32>> = Engine::new();
    let handle = engine.load_module(ASSETS).unwrap();
    let mut module = engine_free_module();
    let mut event = AssetsEvent::Load { kind: SHEETS, value: Take::new(9) };
    let mut queue = EventQueue::new();
    module.on_event(&mut event, &mut queue, &engine);
    assert!(module.is_loaded(&SHEETS));
    assert!(queue.is_empty());
    match &event {
        AssetsEvent::Load { value, .. } => assert!(value.taken()),
        AssetsEvent::Reset => panic!("the event changed its form"),
    }
    module.on_event(&mut event, &mut queue, &engine);
    assert_eq!(*module.get(SHEETS), 9);
    assert!(queue.is_empty());
    engine.release(handle);
}

fn engine_free_module() -> AssetsModule<u32> {
    let mut engine: Engine<AssetsModule<u32>> = Engine::new();
    let handle = engine.load_module(ASSETS).unwrap();
    engine.release(handle);
    engine.unload_module(ASSETS).ok().unwrap()
}
