//! What a log line looks like: which records are written, where they come
//! from, and how their level is shown.

use colored::Colorize;
use vstd::prelude::*;
use vstd::string::StringExecFns;
use vstd::utf8::encode_utf8;

verus! {

/// How much a record matters, from the gravest to the slightest.
pub enum Level {
    Error,
    Warn,
    Info,
    Debug,
    Trace,
}

/// What is logged: a message, with what is known of where it comes from.
pub struct Record {
    pub level: Level,
    pub target: Option<String>,
    pub file: Option<String>,
    pub line: Option<u32>,
    pub message: String,
}

/// The name a level is written with.
pub open spec fn level_name_of(level: Level) -> Seq<char> {
    match level {
        Level::Error => "ERROR"@,
        Level::Warn => "WARN"@,
        Level::Info => "INFO"@,
        Level::Debug => "DEBUG"@,
        Level::Trace => "TRACE"@,
    }
}

/// The escape sequence that starts the colour of a level.
pub open spec fn colour_of(level: Level) -> Seq<char> {
    match level {
        Level::Error => "\x1B[31m"@,
        Level::Warn => "\x1B[33m"@,
        Level::Info => "\x1B[94m"@,
        Level::Debug => "\x1B[92m"@,
        Level::Trace => "\x1B[35m"@,
    }
}

/// The text, shown in the colour that `start` starts.
pub open spec fn coloured(start: Seq<char>, text: Seq<char>) -> Seq<char> {
    start + text + "\x1B[0m"@
}

/// No escape character stands in the text.
pub open spec fn plain(text: Seq<char>) -> bool {
    forall|i: int| 0 <= i < text.len() ==> text[i] != '\x1B'
}

/// `colored::Colorize::red` on a string, written out. Where the text holds
/// no escape character, the result is the text itself, when colours are
/// switched off for this process, or the text between the escape sequence
/// for red and the one that resets.
#[verifier::external_body]
fn red(text: &str) -> (painted: String)
    ensures
        plain(text@) ==> painted@ == text@ || painted@ == coloured("\x1B[31m"@, text@),
{
    text.red().to_string()
}

/// `colored::Colorize::yellow` on a string, written out: as for red, with
/// the escape sequence for yellow.
#[verifier::external_body]
fn yellow(text: &str) -> (painted: String)
    ensures
        plain(text@) ==> painted@ == text@ || painted@ == coloured("\x1B[33m"@, text@),
{
    text.yellow().to_string()
}

/// `colored::Colorize::bright_blue` on a string, written out: as for red,
/// with the escape sequence for bright blue.
#[verifier::external_body]
fn bright_blue(text: &str) -> (painted: String)
    ensures
        plain(text@) ==> painted@ == text@ || painted@ == coloured("\x1B[94m"@, text@),
{
    text.bright_blue().to_string()
}

/// `colored::Colorize::bright_green` on a string, written out: as for red,
/// with the escape sequence for bright green.
#[verifier::external_body]
fn bright_green(text: &str) -> (painted: String)
    ensures
        plain(text@) ==> painted@ == text@ || painted@ == coloured("\x1B[92m"@, text@),
{
    text.bright_green().to_string()
}

/// `colored::Colorize::magenta` on a string, written out: as for red, with
/// the escape sequence for magenta.
#[verifier::external_body]
fn magenta(text: &str) -> (painted: String)
    ensures
        plain(text@) ==> painted@ == text@ || painted@ == coloured("\x1B[35m"@, text@),
{
    text.magenta().to_string()
}

/// The name of a level.
pub fn level_name(level: &Level) -> (name: &'static str)
    ensures
        name@ == level_name_of(*level),
        plain(name@),
{
    proof {
        reveal_strlit("ERROR");
        reveal_strlit("WARN");
        reveal_strlit("INFO");
        reveal_strlit("DEBUG");
        reveal_strlit("TRACE");
    }
    match level {
        Level::Error => "ERROR",
        Level::Warn => "WARN",
        Level::Info => "INFO",
        Level::Debug => "DEBUG",
        Level::Trace => "TRACE",
    }
}

/// The name of a level as it is shown: in the level's colour, or plain when
/// colours are switched off for this process.
pub fn level_label(level: &Level) -> (label: String)
    ensures
        label@ == level_name_of(*level) || label@ == coloured(
            colour_of(*level),
            level_name_of(*level),
        ),
{
    let name = level_name(level);
    match level {
        Level::Error => red(name),
        Level::Warn => yellow(name),
        Level::Info => bright_blue(name),
        Level::Debug => bright_green(name),
        Level::Trace => magenta(name),
    }
}

/// Whether records of this level are written: all are.
pub fn enabled(level: &Level) -> (enabled: bool)
    ensures
        enabled,
{
    true
}

/// The character of a digit.
pub open spec fn digit_char(digit: nat) -> char {
    if digit == 0 {
        '0'
    } else if digit == 1 {
        '1'
    } else if digit == 2 {
        '2'
    } else if digit == 3 {
        '3'
    } else if digit == 4 {
        '4'
    } else if digit == 5 {
        '5'
    } else if digit == 6 {
        '6'
    } else if digit == 7 {
        '7'
    } else if digit == 8 {
        '8'
    } else {
        '9'
    }
}

/// A number written in decimal, without leading zeros.
pub open spec fn decimal_of(number: nat) -> Seq<char>
    decreases number,
{
    if number < 10 {
        seq![digit_char(number)]
    } else {
        decimal_of(number / 10).push(digit_char(number % 10))
    }
}

fn digit_text(digit: u32) -> (text: &'static str)
    requires
        digit < 10,
    ensures
        text@ == seq![digit_char(digit as nat)],
{
    proof {
        reveal_strlit("0");
        reveal_strlit("1");
        reveal_strlit("2");
        reveal_strlit("3");
        reveal_strlit("4");
        reveal_strlit("5");
        reveal_strlit("6");
        reveal_strlit("7");
        reveal_strlit("8");
        reveal_strlit("9");
    }
    let text = if digit == 0 {
        "0"
    } else if digit == 1 {
        "1"
    } else if digit == 2 {
        "2"
    } else if digit == 3 {
        "3"
    } else if digit == 4 {
        "4"
    } else if digit == 5 {
        "5"
    } else if digit == 6 {
        "6"
    } else if digit == 7 {
        "7"
    } else if digit == 8 {
        "8"
    } else {
        "9"
    };
    assert(text@ =~= seq![digit_char(digit as nat)]);
    text
}

/// Writes a number in decimal.
pub fn decimal(number: u32) -> (text: String)
    ensures
        text@ == decimal_of(number as nat),
    decreases number,
{
    if number < 10 {
        String::from_str(digit_text(number))
    } else {
        let text = decimal(number / 10).concat(digit_text(number % 10));
        assert(text@ =~= decimal_of((number / 10) as nat).push(digit_char((number % 10) as nat)));
        text
    }
}

/// Where a record comes from: the file, a colon, and the line where it is
/// known; nothing where the file is not known.
pub open spec fn origin_of(file: Option<String>, line: Option<u32>) -> Seq<char> {
    match file {
        Some(file) => match line {
            Some(line) => file@ + ":"@ + decimal_of(line as nat),
            None => file@ + ":"@,
        },
        None => Seq::empty(),
    }
}

pub fn log_origin(file: &Option<String>, line: Option<u32>) -> (origin: String)
    ensures
        origin@ == origin_of(*file, line),
{
    match file {
        Some(file) => {
            let origin = String::from_str(file.as_str()).concat(":");
            match line {
                Some(line) => {
                    let number = decimal(line);
                    origin.concat(number.as_str())
                },
                None => origin,
            }
        },
        None => String::new(),
    }
}

/// `needle` stands somewhere in `hay`.
pub open spec fn occurs(needle: Seq<u8>, hay: Seq<u8>) -> bool {
    exists|at: int|
        0 <= at && at + needle.len() <= hay.len() && #[trigger] hay.subrange(
            at,
            at + needle.len(),
        ) == needle
}

/// Whether `needle` stands in `hay` at `at`.
fn stands_at(needle: &[u8], hay: &[u8], at: usize) -> (stands: bool)
    requires
        at + needle@.len() <= hay@.len(),
    ensures
        stands == (hay@.subrange(at as int, at + needle@.len()) == needle@),
{
    let len = hay.len();
    let mut done: usize = 0;
    while done < needle.len()
        invariant
            done <= needle@.len(),
            at + needle@.len() <= hay@.len(),
            hay@.len() == len,
            forall|i: int| 0 <= i < done ==> hay@[at + i] == needle@[i],
        decreases needle@.len() - done,
    {
        if hay[at + done] != needle[done] {
            assert(hay@.subrange(at as int, at + needle@.len())[done as int] != needle@[done as int]);
            return false;
        }
        done += 1;
    }
    assert(hay@.subrange(at as int, at + needle@.len()) =~= needle@);
    true
}

/// Whether the bytes `needle` stand somewhere in the bytes `hay`.
fn stands_in(needle: &[u8], hay: &[u8]) -> (found: bool)
    ensures
        found == occurs(needle@, hay@),
{
    if needle.len() > hay.len() {
        return false;
    }
    let last = hay.len() - needle.len();
    let mut at: usize = 0;
    while at < last
        invariant
            at <= last,
            last + needle@.len() == hay@.len(),
            forall|i: int|
                0 <= i < at ==> #[trigger] hay@.subrange(i, i + needle@.len()) != needle@,
        decreases last - at,
    {
        if stands_at(needle, hay, at) {
            return true;
        }
        at += 1;
    }
    stands_at(needle, hay, last)
}

/// Whether the text `needle` stands somewhere in the text `hay`.
pub fn contains_text(hay: &str, needle: &str) -> (found: bool)
    ensures
        found == occurs(encode_utf8(needle@), encode_utf8(hay@)),
{
    stands_in(needle.as_bytes(), hay.as_bytes())
}

/// The path of a module names one of the `ignored` texts.
pub open spec fn ignored_by(path: Seq<u8>, ignored: Seq<String>) -> bool {
    exists|i: int| 0 <= i < ignored.len() && occurs(encode_utf8((#[trigger] ignored[i])@), path)
}

/// Whether records from the module at `path` are left out.
pub fn is_ignored(path: &str, ignored: &Vec<String>) -> (left_out: bool)
    ensures
        left_out == ignored_by(encode_utf8(path@), ignored@),
{
    let mut at: usize = 0;
    while at < ignored.len()
        invariant
            at <= ignored@.len(),
            forall|i: int|
                0 <= i < at ==> !occurs(encode_utf8((#[trigger] ignored@[i])@), encode_utf8(path@)),
        decreases ignored@.len() - at,
    {
        if contains_text(path, ignored[at].as_str()) {
            return true;
        }
        at += 1;
    }
    false
}

/// The line of a record: where it comes from, its level as it is shown, and
/// its message.
pub open spec fn line_of(origin: Seq<char>, label: Seq<char>, message: Seq<char>) -> Seq<char> {
    origin + " "@ + label + " | "@ + message
}

/// The line to write for a record, if it is to be written: records from
/// ignored modules are left out.
pub fn render(record: &Record, ignored: &Vec<String>) -> (line: Option<String>)
    ensures
        match line {
            None => record.target matches Some(path) && ignored_by(
                encode_utf8(path@),
                ignored@,
            ),
            Some(line) => {
                &&& !(record.target matches Some(path) && ignored_by(
                    encode_utf8(path@),
                    ignored@,
                ))
                &&& (line@ == line_of(
                    origin_of(record.file, record.line),
                    level_name_of(record.level),
                    record.message@,
                ) || line@ == line_of(
                    origin_of(record.file, record.line),
                    coloured(colour_of(record.level), level_name_of(record.level)),
                    record.message@,
                ))
            },
        },
{
    if enabled(&record.level) {
        match &record.target {
            Some(path) => {
                if is_ignored(path.as_str(), ignored) {
                    return None;
                }
            },
            None => {},
        }
    }
    let origin = log_origin(&record.file, record.line);
    let label = level_label(&record.level);
    let line = origin.concat(" ").concat(label.as_str()).concat(" | ").concat(
        record.message.as_str(),
    );
    Some(line)
}

} // verus!
