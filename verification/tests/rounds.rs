use rgine::modules::events::{Event, EventKind, EventList, EventQueue, Listener};
use rgine::modules::standards::StartEvent;
use rgine::modules::{Dependency, Engine, Module, ModuleId};

const START: EventKind = 0;
const COUNT: EventKind = 1;
const PRINT: EventKind = 2;

const STARTER: ModuleId = 1;
const COUNTER: ModuleId = 2;
const AUTO_LOG: ModuleId = 3;
const PRINTER: ModuleId = 4;
const LANGUAGE: ModuleId = 5;
const ECHO: ModuleId = 6;

#[derive(Debug, Clone, PartialEq)]
enum Msg {
    Start,
    Count(u32),
    Print(String),
}

impl Event for Msg {
    fn kind(&self) -> EventKind {
        match self {
            Msg::Start => START,
            Msg::Count(_) => COUNT,
            Msg::Print(_) => PRINT,
        }
    }
}

impl StartEvent for Msg {
    fn start() -> Self {
        Msg::Start
    }
}

enum Part {
    Starter,
    Counter { seen: Vec<u32> },
    AutoLog { lang: Dependency },
    Printer { lines: Vec<String> },
    Language { on_start: String },
    Echo { heard: Vec<Msg> },
}

impl Listener<Msg> for Part {
    fn on_event(&mut self, event: &mut Msg, queue: &mut EventQueue<Msg>, peers: &Engine<Self>) {
        match self {
            Part::Starter => queue.push(Msg::Count(1)),
            Part::Counter { seen } => {
                if let Msg::Count(n) = event {
                    seen.push(*n);
                    if *n < 5 {
                        queue.push(Msg::Count(*n + 1));
                    }
                }
            }
            Part::AutoLog { lang } => {
                if let Part::Language { on_start } = lang.read_state(peers) {
                    queue.push(Msg::Print(on_start.clone()));
                }
            }
            Part::Printer { lines } => {
                if let Msg::Print(message) = event {
                    lines.push(message.clone());
                }
            }
            Part::Language { .. } => {}
            Part::Echo { heard } => heard.push(event.clone()),
        }
    }
}

struct Subscriptions;

impl EventList<Part> for Subscriptions {
    fn raw_listeners(id: ModuleId) -> Vec<EventKind> {
        match id {
            STARTER => vec![START],
            COUNTER => vec![COUNT],
            AUTO_LOG => vec![START],
            PRINTER => vec![PRINT],
            ECHO => vec![START, COUNT, PRINT],
            _ => vec![],
        }
    }
}

impl Module for Part {
    type Event = Msg;
    type ListeningTo = Subscriptions;

    fn new(id: ModuleId, ctx: &mut Engine<Self>) -> Result<Self, String> {
        match id {
            STARTER => Ok(Part::Starter),
            COUNTER => Ok(Part::Counter { seen: Vec::new() }),
            AUTO_LOG => {
                let printer = ctx.dependency(PRINTER).map_err(|e| format!("{:?}", e))?;
                ctx.release(printer);
                let lang = ctx.dependency(LANGUAGE).map_err(|e| format!("{:?}", e))?;
                Ok(Part::AutoLog { lang })
            }
            PRINTER => Ok(Part::Printer { lines: Vec::new() }),
            LANGUAGE => Ok(Part::Language { on_start: "Hello world".to_owned() }),
            ECHO => Ok(Part::Echo { heard: Vec::new() }),
            other => Err(format!("no module {other}")),
        }
    }
}

#[test]
fn counting_cascade_delivers_one_to_five_and_ends() {
    let mut engine: Engine<Part> = Engine::new();
    let starter = engine.load_module(STARTER).unwrap();
    engine.release(starter);
    let counter = engine.load_module(COUNTER).unwrap();
    engine.start();
    match counter.read_state(&engine) {
        Part::Counter { seen } => assert_eq!(seen, &vec![1, 2, 3, 4, 5]),
        _ => panic!("the counter holds another state"),
    }
}

#[test]
fn run_with_a_count_in_the_middle_goes_on_from_there() {
    let mut engine: Engine<Part> = Engine::new();
    let counter = engine.load_module(COUNTER).unwrap();
    engine.run_with(Msg::Count(4));
    match counter.read_state(&engine) {
        Part::Counter { seen } => assert_eq!(seen, &vec![4, 5]),
        _ => panic!("the counter holds another state"),
    }
    engine.run_with(Msg::Count(9));
    match counter.read_state(&engine) {
        Part::Counter { seen } => assert_eq!(seen, &vec![4, 5, 9]),
        _ => panic!("the counter holds another state"),
    }
}

#[test]
fn constructor_loads_what_the_module_depends_on() {
    let mut engine: Engine<Part> = Engine::new();
    let auto_log = engine.load_module(AUTO_LOG).unwrap();
    assert!(engine.is_loaded(AUTO_LOG));
    assert!(engine.is_loaded(PRINTER));
    assert!(engine.is_loaded(LANGUAGE));
    assert!(!engine.is_loaded(COUNTER));
    engine.release(auto_log);
}

#[test]
fn handler_reads_another_module_through_its_handle() {
    let mut engine: Engine<Part> = Engine::new();
    let auto_log = engine.load_module(AUTO_LOG).unwrap();
    engine.release(auto_log);
    engine.start();
    let printer = engine.dependency(PRINTER).unwrap();
    match printer.read_state(&engine) {
        Part::Printer { lines } => assert_eq!(lines, &vec!["Hello world".to_string()]),
        _ => panic!("the printer holds another state"),
    }
}

#[test]
fn module_with_a_handle_held_by_another_stays_in_use() {
    let mut engine: Engine<Part> = Engine::new();
    let auto_log = engine.load_module(AUTO_LOG).unwrap();
    engine.release(auto_log);
    assert!(engine.unload_module(LANGUAGE).is_err());
    assert!(engine.unload_module(PRINTER).is_ok());
    let state = engine.unload_module(AUTO_LOG).ok().unwrap();
    match state {
        Part::AutoLog { lang } => engine.release(lang),
        _ => panic!("the module holds another state"),
    }
    assert!(engine.unload_module(LANGUAGE).is_ok());
}

#[test]
fn events_of_a_round_are_delivered_before_those_they_cause() {
    let mut engine: Engine<Part> = Engine::new();
    for id in [STARTER, AUTO_LOG, COUNTER] {
        let handle = engine.load_module(id).unwrap();
        engine.release(handle);
    }
    let echo = engine.load_module(ECHO).unwrap();
    engine.start();
    match echo.read_state(&engine) {
        Part::Echo { heard } => assert_eq!(
            heard,
            &vec![
                Msg::Start,
                Msg::Count(1),
                Msg::Print("Hello world".to_string()),
                Msg::Count(2),
                Msg::Count(3),
                Msg::Count(4),
                Msg::Count(5),
            ]
        ),
        _ => panic!("the echo holds another state"),
    }
}

#[test]
fn round_by_round_the_batches_follow_push_order() {
    let mut engine: Engine<Part> = Engine::new();
    for id in [STARTER, AUTO_LOG, COUNTER] {
        let handle = engine.load_module(id).unwrap();
        engine.release(handle);
    }
    let mut pending = EventQueue::new();
    pending.push(Msg::Start);
    let mut second = engine.run_round(pending);
    assert_eq!(second.drain(), vec![Msg::Count(1), Msg::Print("Hello world".to_string())]);
    let mut again = EventQueue::new();
    again.push(Msg::Count(1));
    again.push(Msg::Count(7));
    let mut third = engine.run_round(again);
    assert_eq!(third.drain(), vec![Msg::Count(2)]);
    assert!(third.is_empty());
}
