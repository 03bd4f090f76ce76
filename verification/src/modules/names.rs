//! Readable names for events and modules, made from the paths of their
//! types.

use vstd::prelude::*;
use vstd::string::{StrSliceExecFns, StringExecFns};

verus! {

/// Where the last `::` of `path` starts, reading from `from` on, left to
/// right, a colon counting for one separator only; `found` where there is
/// none.
pub open spec fn last_separator(path: Seq<char>, from: int, found: int) -> int
    decreases path.len() - from,
{
    if from < 0 || from + 1 >= path.len() {
        found
    } else if path[from] == ':' && path[from + 1] == ':' {
        last_separator(path, from + 2, from)
    } else {
        last_separator(path, from + 1, found)
    }
}

/// The last segment of a path: the name of the type itself.
pub open spec fn segment_of(path: Seq<char>) -> Seq<char> {
    let at = last_separator(path, 0, -1);
    if at < 0 {
        path
    } else {
        path.skip(at + 2)
    }
}

/// What stands before the last segment of a path: where the type lives.
/// Nothing for a path of one segment.
pub open spec fn location_of(path: Seq<char>) -> Seq<char> {
    let at = last_separator(path, 0, -1);
    if at < 0 {
        Seq::empty()
    } else {
        path.take(at)
    }
}

/// The readable name of the type at `path`: its own name, then where it
/// lives.
pub open spec fn described(path: Seq<char>) -> Seq<char> {
    segment_of(path) + " (inside of "@ + location_of(path) + ")"@
}

/// The readable name of the type at `path`, such as `Tick (inside of
/// game::events)` for `game::events::Tick`.
pub fn describe(path: &str) -> (name: String)
    ensures
        name@ == described(path@),
{
    let len = path.unicode_len();
    let mut last: Option<usize> = None;
    let mut at: usize = 0;
    while len - at > 1
        invariant
            at <= len,
            len == path@.len(),
            last matches Some(found) ==> found + 2 <= at,
            last_separator(path@, 0, -1) == last_separator(
                path@,
                at as int,
                match last {
                    Some(found) => found as int,
                    None => -1,
                },
            ),
        decreases len - at,
    {
        if path.get_char(at) == ':' && path.get_char(at + 1) == ':' {
            last = Some(at);
            at += 2;
        } else {
            at += 1;
        }
    }
    match last {
        Some(found) => {
            let name = String::from_str(path.substring_char(found + 2, len));
            let name = name.concat(" (inside of ");
            let name = name.concat(path.substring_char(0, found));
            let name = name.concat(")");
            assert(path@.subrange(found + 2, len as int) =~= path@.skip(found + 2));
            assert(path@.subrange(0, found as int) =~= path@.take(found as int));
            name
        },
        None => {
            let name = String::from_str(path);
            let name = name.concat(" (inside of ");
            let name = name.concat(")");
            assert(name@ =~= described(path@));
            name
        },
    }
}

/// Gives a value a readable name for what it is.
pub trait DebugName {
    /// The path under which the value's type is known. Left open where a
    /// type does not say.
    open spec fn path_spec(&self) -> Seq<char> {
        arbitrary()
    }

    /// The path under which the value's type is known, its segments
    /// separated by `::`.
    fn path(&self) -> (path: String)
        ensures
            path@ == self.path_spec(),
    ;

    /// The readable name of the value's type, made from its path.
    fn of(&self) -> (name: String)
        ensures
            name@ == described(self.path_spec()),
    {
        let path = self.path();
        describe(path.as_str())
    }
}

} // verus!
