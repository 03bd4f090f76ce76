use rgine::logger::{
    contains_text, decimal, enabled, is_ignored, level_label, level_name, log_origin, render, Level,
    Record,
};

fn levels() -> Vec<(Level, &'static str, &'static str)> {
    vec![
        (Level::Error, "ERROR", "\x1B[31m"),
        (Level::Warn, "WARN", "\x1B[33m"),
        (Level::Info, "INFO", "\x1B[94m"),
        (Level::Debug, "DEBUG", "\x1B[92m"),
        (Level::Trace, "TRACE", "\x1B[35m"),
    ]
}

#[test]
fn levels_have_their_names() {
    for (level, name, _) in levels() {
        assert_eq!(level_name(&level), name);
        assert!(enabled(&level));
    }
}

#[test]
fn level_label_is_the_name_plain_or_in_the_colour_of_the_level() {
    for (level, name, colour) in levels() {
        let label = level_label(&level);
        let coloured = format!("{colour}{name}\x1B[0m");
        assert!(label == name || label == coloured, "unexpected label {:?}", label);
    }
}

#[test]
fn numbers_are_written_in_decimal() {
    assert_eq!(decimal(0), "0");
    assert_eq!(decimal(7), "7");
    assert_eq!(decimal(10), "10");
    assert_eq!(decimal(1905), "1905");
    assert_eq!(decimal(u32::MAX), "4294967295");
}

#[test]
fn origin_is_file_and_line() {
    assert_eq!(log_origin(&Some("src/main.rs".to_string()), Some(42)), "src/main.rs:42");
    assert_eq!(log_origin(&Some("src/main.rs".to_string()), None), "src/main.rs:");
    assert_eq!(log_origin(&None, Some(42)), "");
    assert_eq!(log_origin(&None, None), "");
}

#[test]
fn text_is_found_where_it_stands() {
    assert!(contains_text("wgpu_core::device", "wgpu"));
    assert!(contains_text("my::naga", "naga"));
    assert!(contains_text("abc", ""));
    assert!(contains_text("", ""));
    assert!(contains_text("abc", "abc"));
    assert!(!contains_text("abc", "abcd"));
    assert!(!contains_text("wgp_u", "wgpu"));
    assert!(!contains_text("", "a"));
    assert!(contains_text("héros::état", "état"));
}

#[test]
fn modules_of_the_ignore_list_are_ignored() {
    let ignored = vec!["wgpu".to_string(), "naga".to_string()];
    assert!(is_ignored("wgpu_hal::vulkan", &ignored));
    assert!(is_ignored("deps::naga::front", &ignored));
    assert!(!is_ignored("game::world", &ignored));
    assert!(!is_ignored("wgpu_hal::vulkan", &Vec::new()));
}

#[test]
fn record_is_rendered_as_origin_level_and_message() {
    let record = Record {
        level: Level::Warn,
        target: Some("game::world".to_string()),
        file: Some("src/world.rs".to_string()),
        line: Some(12),
        message: "low on memory".to_string(),
    };
    let line = render(&record, &vec!["wgpu".to_string()]).unwrap();
    assert!(
        line == "src/world.rs:12 WARN | low on memory"
            || line == "src/world.rs:12 \x1B[33mWARN\x1B[0m | low on memory",
        "unexpected line {:?}",
        line
    );
}

#[test]
fn record_without_origin_starts_with_a_blank() {
    let record = Record {
        level: Level::Info,
        target: None,
        file: None,
        line: Some(3),
        message: "ready".to_string(),
    };
    let line = render(&record, &vec!["wgpu".to_string()]).unwrap();
    assert!(
        line == " INFO | ready" || line == " \x1B[94mINFO\x1B[0m | ready",
        "unexpected line {:?}",
        line
    );
}

#[test]
fn record_of_an_ignored_module_is_left_out() {
    let record = Record {
        level: Level::Error,
        target: Some("wgpu_core::device".to_string()),
        file: Some("device.rs".to_string()),
        line: Some(1),
        message: "lost".to_string(),
    };
    assert!(render(&record, &vec!["wgpu".to_string(), "naga".to_string()]).is_none());
    assert!(render(&record, &Vec::new()).is_some());
}

#[test]
fn level_label_is_coloured_when_colours_are_forced() {
    colored::control::set_override(true);
    for (level, name, colour) in levels() {
        assert_eq!(level_label(&level), format!("{colour}{name}\x1B[0m"));
    }
    let record = Record {
        level: Level::Error,
        target: None,
        file: Some("a.rs".to_string()),
        line: Some(7),
        message: "lost".to_string(),
    };
    assert_eq!(render(&record, &Vec::new()).unwrap(), "a.rs:7 \x1B[31mERROR\x1B[0m | lost");
    colored::control::unset_override();
}

#[test]
fn level_label_is_plain_when_colours_are_switched_off() {
    colored::control::set_override(false);
    for (level, name, _) in levels() {
        assert_eq!(level_label(&level), name);
    }
    let record = Record {
        level: Level::Trace,
        target: Some("game".to_string()),
        file: Some("a.rs".to_string()),
        line: None,
        message: "tick".to_string(),
    };
    assert_eq!(render(&record, &Vec::new()).unwrap(), "a.rs: TRACE | tick");
    colored::control::unset_override();
}
