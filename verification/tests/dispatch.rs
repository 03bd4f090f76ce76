use rgine::modules::events::{Event, EventKind, EventList, EventQueue, Listener};
use rgine::modules::{Engine, Module, ModuleId};

const SEED: EventKind = 0;
const X: EventKind = 1;
const Y: EventKind = 2;

const A: ModuleId = 10;
const B: ModuleId = 11;

#[derive(Debug, Clone, PartialEq)]
enum Ev {
    Seed,
    X,
    Y,
}

impl Event for Ev {
    fn kind(&self) -> EventKind {
        match self {
            Ev::Seed => SEED,
            Ev::X => X,
            Ev::Y => Y,
        }
    }
}

enum Mods {
    A,
    B { seen: Vec<Ev> },
}

impl Listener<Ev> for Mods {
    fn on_event(&mut self, event: &mut Ev, queue: &mut EventQueue<Ev>, _peers: &Engine<Self>) {
        match self {
            Mods::A => {
                if *event == Ev::Seed {
                    queue.push(Ev::X);
                    queue.push(Ev::Y);
                }
            }
            Mods::B { seen } => seen.push(event.clone()),
        }
    }
}

struct Interests;

impl EventList<Mods> for Interests {
    fn raw_listeners(id: ModuleId) -> Vec<EventKind> {
        if id == A {
            vec![SEED]
        } else {
            vec![X, Y]
        }
    }
}

impl Module for Mods {
    type Event = Ev;
    type ListeningTo = Interests;

    fn new(id: ModuleId, _ctx: &mut Engine<Self>) -> Result<Self, String> {
        if id == A {
            Ok(Mods::A)
        } else if id == B {
            Ok(Mods::B { seen: Vec::new() })
        } else {
            Err(format!("no module {id}"))
        }
    }
}

#[test]
fn events_of_one_round_arrive_in_push_order() {
    let mut engine: Engine<Mods> = Engine::new();
    let _a = engine.load_module(A).unwrap();
    let b = engine.load_module(B).unwrap();
    engine.run_with(Ev::Seed);
    match b.read_state(&engine) {
        Mods::B { seen } => assert_eq!(seen, &vec![Ev::X, Ev::Y]),
        _ => panic!("module B holds another state"),
    }
}
