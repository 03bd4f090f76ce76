use rgine::modules::events::{Event, EventKind, EventList, EventQueue, Listener};
use rgine::modules::{Dependency, Engine, Module, ModuleId};

const LOOK: EventKind = 1;

const WATCHER: ModuleId = 1;
const WATCHED: ModuleId = 2;

/// Asks whoever receives it to look at a module through a handle.
struct Look {
    at: Dependency,
}

impl Event for Look {
    fn kind(&self) -> EventKind {
        LOOK
    }
}

/// Remembers, of each look, whether the module could be read.
struct Watcher {
    looks: Vec<(ModuleId, bool)>,
    seen_states: usize,
}

impl Listener<Look> for Watcher {
    fn on_event(&mut self, event: &mut Look, _: &mut EventQueue<Look>, peers: &Engine<Self>) {
        let readable = peers.can_read(&event.at);
        self.looks.push((event.at.module(), readable));
        if readable {
            self.seen_states += event.at.read_state(peers).looks.len() + 1;
        }
    }
}

struct Wiring;

impl EventList<Watcher> for Wiring {
    fn raw_listeners(id: ModuleId) -> Vec<EventKind> {
        if id == WATCHER {
            vec![LOOK]
        } else {
            vec![]
        }
    }
}

impl Module for Watcher {
    type Event = Look;
    type ListeningTo = Wiring;

    fn new(_: ModuleId, _: &mut Engine<Self>) -> Result<Self, String> {
        Ok(Watcher { looks: Vec::new(), seen_states: 0 })
    }
}

#[test]
fn module_cannot_be_read_while_its_own_handler_runs() {
    let mut engine: Engine<Watcher> = Engine::new();
    let watcher = engine.load_module(WATCHER).unwrap();
    let own = engine.dependency(WATCHER).unwrap();
    assert!(engine.can_read(&own));
    engine.run_with(Look { at: own });
    assert!(engine.can_read(&watcher));
    assert_eq!(watcher.read_state(&engine).looks, vec![(WATCHER, false)]);
    assert_eq!(watcher.read_state(&engine).seen_states, 0);
}

#[test]
fn other_modules_can_be_read_while_a_handler_runs() {
    let mut engine: Engine<Watcher> = Engine::new();
    let watcher = engine.load_module(WATCHER).unwrap();
    let watched = engine.load_module(WATCHED).unwrap();
    engine.run_with(Look { at: watched });
    assert_eq!(watcher.read_state(&engine).looks, vec![(WATCHED, true)]);
    assert_eq!(watcher.read_state(&engine).seen_states, 1);
}

#[test]
fn module_that_is_not_loaded_cannot_be_read() {
    let mut engine: Engine<Watcher> = Engine::new();
    let watcher = engine.load_module(WATCHER).unwrap();
    let mut elsewhere: Engine<Watcher> = Engine::new();
    let foreign = elsewhere.load_module(WATCHED).unwrap();
    engine.run_with(Look { at: foreign });
    assert_eq!(watcher.read_state(&engine).looks, vec![(WATCHED, false)]);
}
