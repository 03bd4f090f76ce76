//! Loading a registry of assets from the files of a directory: which files
//! count, under what names they are known, and how they are found again.

use crate::assets::{AssetKind, AssetsEvent, AssetsEventQueueExt};
use crate::modules::events::EventQueue;
use std::collections::HashMap;
use vstd::prelude::*;
use vstd::string::{StrSliceExecFns, StringExecFns};

verus! {

/// The directory, below the working directory, that holds the assets of
/// `subpath`.
pub fn assets_dir(subpath: &str) -> (dir: String)
    ensures
        dir@ == "assets/"@ + subpath@,
{
    String::from_str("assets/").concat(subpath)
}

/// All the items but the last, in their order.
pub fn skip_last<T>(items: Vec<T>) -> (kept: Vec<T>)
    ensures
        kept@ == if items@.len() == 0 {
            items@
        } else {
            items@.drop_last()
        },
{
    let mut kept = items;
    let _ = kept.pop();
    kept
}

/// A character that may stand in a name written in snake case.
pub open spec fn is_word_char(c: char) -> bool {
    ('a' <= c && c <= 'z') || ('A' <= c && c <= 'Z') || ('0' <= c && c <= '9') || c == '_'
}

/// Whether `name` is made of ASCII letters, digits and underscores alone.
pub fn is_snake_case(name: &str) -> (snake: bool)
    ensures
        snake == forall|i: int| 0 <= i < name@.len() ==> is_word_char(#[trigger] name@[i]),
{
    let len = name.unicode_len();
    let mut at: usize = 0;
    while at < len
        invariant
            at <= len,
            len == name@.len(),
            forall|i: int| 0 <= i < at ==> is_word_char(#[trigger] name@[i]),
        decreases len - at,
    {
        let c = name.get_char(at);
        let word = ('a' <= c && c <= 'z') || ('A' <= c && c <= 'Z') || ('0' <= c && c <= '9') || c
            == '_';
        if !word {
            return false;
        }
        at += 1;
    }
    true
}

/// The texts of a list of strings.
pub open spec fn texts(parts: Seq<String>) -> Seq<Seq<char>> {
    Seq::new(parts.len(), |i: int| parts[i]@)
}

/// The parts of `name` that its dots separate: one more than it has dots.
pub open spec fn dotted_parts(name: Seq<char>) -> Seq<Seq<char>>
    decreases name.len(),
{
    if name.len() == 0 {
        seq![Seq::<char>::empty()]
    } else {
        let before = dotted_parts(name.drop_last());
        if name.last() == '.' {
            before.push(Seq::<char>::empty())
        } else {
            before.update(before.len() - 1, before.last().push(name.last()))
        }
    }
}

/// The parts written one after the other.
pub open spec fn joined(parts: Seq<Seq<char>>) -> Seq<char>
    decreases parts.len(),
{
    if parts.len() == 0 {
        Seq::empty()
    } else {
        joined(parts.drop_last()) + parts.last()
    }
}

/// The name under which the asset of a file is known: the parts of the file
/// name but the last, which is its extension, written without the dots.
pub open spec fn asset_name_of(file_name: Seq<char>) -> Seq<char> {
    joined(dotted_parts(file_name).drop_last())
}

/// Splits `name` at its dots.
pub fn split_at_dots(name: &str) -> (parts: Vec<String>)
    ensures
        texts(parts@) == dotted_parts(name@),
{
    let len = name.unicode_len();
    let mut parts: Vec<String> = Vec::new();
    let mut start: usize = 0;
    let mut at: usize = 0;
    assert(name@.take(0) =~= Seq::empty());
    assert(texts(parts@).push(name@.subrange(0, 0)) =~= dotted_parts(name@.take(0)));
    while at < len
        invariant
            start <= at <= len,
            len == name@.len(),
            dotted_parts(name@.take(at as int)) == texts(parts@).push(
                name@.subrange(start as int, at as int),
            ),
        decreases len - at,
    {
        let c = name.get_char(at);
        proof {
            let step = name@.take(at + 1);
            assert(step.drop_last() =~= name@.take(at as int));
            assert(step.last() == c);
        }
        let ghost done = texts(parts@);
        let ghost part = name@.subrange(start as int, at as int);
        if c == '.' {
            parts.push(String::from_str(name.substring_char(start, at)));
            start = at + 1;
            proof {
                assert(texts(parts@) =~= done.push(part));
                assert(name@.subrange(start as int, at + 1) =~= Seq::<char>::empty());
            }
        } else {
            proof {
                assert(part.push(c) =~= name@.subrange(start as int, at + 1));
                let before = done.push(part);
                assert(before.update(before.len() - 1, before.last().push(c)) =~= done.push(
                    part.push(c),
                ));
            }
        }
        at += 1;
    }
    let ghost done = texts(parts@);
    parts.push(String::from_str(name.substring_char(start, len)));
    proof {
        assert(name@.take(len as int) =~= name@);
        assert(texts(parts@) =~= done.push(name@.subrange(start as int, len as int)));
    }
    parts
}

/// Splitting at dots always leaves a last part.
pub proof fn lemma_dotted_parts_nonempty(name: Seq<char>)
    ensures
        dotted_parts(name).len() >= 1,
    decreases name.len(),
{
    if name.len() > 0 {
        lemma_dotted_parts_nonempty(name.drop_last());
    }
}

/// Writes the parts one after the other.
fn join_all(parts: &Vec<String>) -> (text: String)
    ensures
        text@ == joined(texts(parts@)),
{
    let mut text = String::new();
    let mut at: usize = 0;
    assert(texts(parts@).take(0) =~= Seq::empty());
    while at < parts.len()
        invariant
            at <= parts@.len(),
            text@ == joined(texts(parts@).take(at as int)),
        decreases parts@.len() - at,
    {
        proof {
            let step = texts(parts@).take(at + 1);
            assert(step.drop_last() =~= texts(parts@).take(at as int));
            assert(step.last() == parts@[at as int]@);
        }
        text.append(parts[at].as_str());
        at += 1;
    }
    assert(texts(parts@).take(at as int) =~= texts(parts@));
    text
}

/// The name under which the asset of the file `file_name` is known.
pub fn asset_name(file_name: &str) -> (name: String)
    ensures
        name@ == asset_name_of(file_name@),
{
    let parts = split_at_dots(file_name);
    proof {
        lemma_dotted_parts_nonempty(file_name@);
    }
    let ghost all = texts(parts@);
    let kept = skip_last(parts);
    assert(texts(kept@) =~= all.drop_last());
    join_all(&kept)
}

/// What a directory listing tells of one entry.
pub struct FileEntry {
    /// The entry's name within the directory.
    pub file_name: String,
    /// The path under which the entry can be opened.
    pub path: String,
    /// Whether the entry is a regular file.
    pub is_file: bool,
    /// The extension of the entry's path, if it has one.
    pub extension: Option<String>,
}

/// A file that is to be read into a registry, and the name its asset gets.
pub struct PlannedAsset {
    pub name: String,
    pub path: String,
}

impl FileEntry {
    /// The entry is a file with one of the `extensions`.
    pub open spec fn wanted(self, extensions: Seq<Seq<char>>) -> bool {
        &&& self.is_file
        &&& self.extension matches Some(extension) && extensions.contains(extension@)
    }

    /// The name of the entry's asset is written in snake case.
    pub open spec fn well_named(self) -> bool {
        forall|i: int|
            0 <= i < asset_name_of(self.file_name@).len() ==> is_word_char(
                #[trigger] asset_name_of(self.file_name@)[i],
            )
    }

    fn is_wanted(&self, extensions: &Vec<String>) -> (wanted: bool)
        ensures
            wanted == self.wanted(texts(extensions@)),
    {
        if !self.is_file {
            return false;
        }
        match &self.extension {
            None => false,
            Some(extension) => {
                let mut at: usize = 0;
                while at < extensions.len()
                    invariant
                        at <= extensions@.len(),
                        self.is_file,
                        self.extension == Some(*extension),
                        forall|i: int| 0 <= i < at ==> texts(extensions@)[i] != extension@,
                    decreases extensions@.len() - at,
                {
                    if extensions[at] == *extension {
                        assert(texts(extensions@)[at as int] == extension@);
                        assert(texts(extensions@).contains(extension@));
                        return true;
                    }
                    at += 1;
                }
                false
            },
        }
    }
}

/// The names and paths of a list of planned assets.
pub open spec fn plan_of(items: Seq<PlannedAsset>) -> Seq<(Seq<char>, Seq<char>)> {
    Seq::new(items.len(), |i: int| (items[i].name@, items[i].path@))
}

/// What is loaded from a directory with the entries `listing`, as names and
/// paths in the order of the listing. One entry that is no file of the
/// wanted `extensions` and nothing is loaded at all; a file whose asset name
/// is not in snake case is passed over.
pub open spec fn planned(listing: Seq<FileEntry>, extensions: Seq<Seq<char>>) -> Option<
    Seq<(Seq<char>, Seq<char>)>,
>
    decreases listing.len(),
{
    if listing.len() == 0 {
        Some(Seq::empty())
    } else {
        let entry = listing.last();
        match planned(listing.drop_last(), extensions) {
            None => None,
            Some(before) => if !entry.wanted(extensions) {
                None
            } else if entry.well_named() {
                Some(before.push((asset_name_of(entry.file_name@), entry.path@)))
            } else {
                Some(before)
            },
        }
    }
}

/// Decides what to load from a directory, before any file is read.
pub fn plan(listing: &Vec<FileEntry>, extensions: &Vec<String>) -> (plan: Option<Vec<PlannedAsset>>)
    ensures
        match plan {
            Some(items) => planned(listing@, texts(extensions@)) == Some(plan_of(items@)),
            None => planned(listing@, texts(extensions@)) is None,
        },
{
    let mut items: Vec<PlannedAsset> = Vec::new();
    let mut at: usize = 0;
    assert(listing@.take(0) =~= Seq::empty());
    assert(plan_of(items@) =~= Seq::empty());
    while at < listing.len()
        invariant
            at <= listing@.len(),
            planned(listing@.take(at as int), texts(extensions@)) == Some(plan_of(items@)),
        decreases listing@.len() - at,
    {
        let entry = &listing[at];
        proof {
            let step = listing@.take(at + 1);
            assert(step.drop_last() =~= listing@.take(at as int));
            assert(step.last() == *entry);
        }
        if !entry.is_wanted(extensions) {
            proof {
                lemma_planned_stays_abandoned(listing@, at + 1, texts(extensions@));
            }
            return None;
        }
        let name = asset_name(entry.file_name.as_str());
        if is_snake_case(name.as_str()) {
            let ghost before = plan_of(items@);
            items.push(PlannedAsset { name, path: entry.path.clone() });
            assert(plan_of(items@) =~= before.push((asset_name_of(entry.file_name@), entry.path@)));
        }
        at += 1;
    }
    assert(listing@.take(at as int) =~= listing@);
    Some(items)
}

/// Once a part of a listing is given up, so is the whole.
pub proof fn lemma_planned_stays_abandoned(
    listing: Seq<FileEntry>,
    upto: int,
    extensions: Seq<Seq<char>>,
)
    requires
        0 <= upto <= listing.len(),
        planned(listing.take(upto), extensions) is None,
    ensures
        planned(listing, extensions) is None,
    decreases listing.len() - upto,
{
    if upto < listing.len() {
        let step = listing.take(upto + 1);
        assert(step.drop_last() =~= listing.take(upto));
        lemma_planned_stays_abandoned(listing, upto + 1, extensions);
    } else {
        assert(listing.take(upto) =~= listing);
    }
}

/// A kind of asset that lives in files: it knows which files are its own,
/// how to read one, and keeps what it has read.
pub trait FileAssetsRegistry: Sized {
    /// What a caller keeps to find a registered asset again.
    type Handle;

    /// What reading a file gives.
    type Data;

    /// The file extensions of this registry's assets. Left open where a
    /// registry does not say.
    open spec fn extensions() -> Seq<Seq<char>> {
        arbitrary()
    }

    /// Says what a new registry may be. Where a registry does not say, any.
    open spec fn created(registry: Self) -> bool {
        true
    }

    /// Says what reading the file at `path` may give. Where a registry does
    /// not say, anything.
    open spec fn read(path: Seq<char>, data: Self::Data) -> bool {
        true
    }

    /// Says which outcomes registering `data` may have: the registry after,
    /// and the handle given out. Where a registry does not say, any.
    open spec fn registered(before: Self, data: Self::Data, after: Self, handle: Self::Handle) -> bool {
        true
    }

    fn new() -> (registry: Self)
        ensures
            Self::created(registry),
    ;

    fn read_file(path: &str) -> (data: Self::Data)
        ensures
            Self::read(path@, data),
    ;

    fn register(&mut self, data: Self::Data) -> (handle: Self::Handle)
        ensures
            Self::registered(*old(self), data, *final(self), handle),
    ;

    fn file_extensions() -> (extensions: Vec<String>)
        ensures
            texts(extensions@) == Self::extensions(),
    ;
}

/// The handle that `name` is bound to by `bindings`, where a later binding of
/// a name replaces an earlier one.
pub open spec fn bound<H>(bindings: Seq<(String, H)>, name: Seq<char>) -> Option<H>
    decreases bindings.len(),
{
    if bindings.len() == 0 {
        None
    } else if bindings.last().0@ == name {
        Some(bindings.last().1)
    } else {
        bound(bindings.drop_last(), name)
    }
}

/// Finds the handles of loaded assets by the kind of their registry and
/// their name.
pub struct AssetLookup<H> {
    map: HashMap<AssetKind, Vec<(String, H)>>,
}

impl<H> AssetLookup<H> {
    /// The names bound for a registry kind, with their handles, in the order
    /// they were bound.
    pub closed spec fn bindings(&self, registry: AssetKind) -> Option<Seq<(String, H)>> {
        if self.map@.contains_key(registry) {
            Some(self.map@[registry]@)
        } else {
            None
        }
    }

    /// The handle of the asset `key` of the registry kind `registry`.
    pub open spec fn handle_of(&self, registry: AssetKind, key: Seq<char>) -> Option<H> {
        match self.bindings(registry) {
            Some(bindings) => bound(bindings, key),
            None => None,
        }
    }

    pub fn new() -> (lookup: Self)
        ensures
            forall|registry: AssetKind| lookup.bindings(registry) is None,
    {
        AssetLookup { map: HashMap::new() }
    }

    /// Binds the names of a registry kind, in place of what was bound for
    /// that kind before.
    pub fn add_assets(&mut self, registry: AssetKind, map: Vec<(String, H)>)
        ensures
            final(self).bindings(registry) == Some(map@),
            forall|other: AssetKind|
                other != registry ==> final(self).bindings(other) == old(self).bindings(other),
    {
        self.map.insert(registry, map);
    }

    /// The handle that the name `key` is bound to among `bindings`.
    fn find<'a>(bindings: &'a Vec<(String, H)>, key: &str) -> (handle: Option<&'a H>)
        ensures
            match handle {
                Some(handle) => bound(bindings@, key@) == Some(*handle),
                None => bound(bindings@, key@) is None,
            },
    {
        let mut at: usize = bindings.len();
        assert(bindings@.take(at as int) =~= bindings@);
        while at > 0
            invariant
                at <= bindings@.len(),
                bound(bindings@, key@) == bound(bindings@.take(at as int), key@),
            decreases at,
        {
            proof {
                let upto = bindings@.take(at as int);
                assert(upto.drop_last() =~= bindings@.take(at - 1));
                assert(upto.last() == bindings@[at - 1]);
            }
            at -= 1;
            if bindings[at].0.as_str().unicode_len() == key.unicode_len() && same_text(
                bindings[at].0.as_str(),
                key,
            ) {
                return Some(&bindings[at].1);
            }
        }
        assert(bindings@.take(0).len() == 0);
        None
    }

    /// The handle of the asset `key` of the registry kind `registry`. Only
    /// what has been loaded can be asked for.
    pub fn get(&self, registry: AssetKind, key: &str) -> (handle: &H)
        requires
            self.handle_of(registry, key@) is Some,
        ensures
            self.handle_of(registry, key@) == Some(*handle),
    {
        let bindings = self.map.get(&registry).unwrap();
        Self::find(bindings, key).unwrap()
    }
}

/// Whether two texts of one length are the same.
fn same_text(a: &str, b: &str) -> (same: bool)
    requires
        a@.len() == b@.len(),
    ensures
        same == (a@ == b@),
{
    let len = a.unicode_len();
    let mut at: usize = 0;
    while at < len
        invariant
            at <= len,
            len == a@.len(),
            len == b@.len(),
            forall|i: int| 0 <= i < at ==> a@[i] == b@[i],
        decreases len - at,
    {
        if a.get_char(at) != b.get_char(at) {
            return false;
        }
        at += 1;
    }
    assert(a@ =~= b@);
    true
}

/// The names of a list of bindings, in their order.
pub open spec fn names_of<H>(bindings: Seq<(String, H)>) -> Seq<Seq<char>> {
    Seq::new(bindings.len(), |i: int| bindings[i].0@)
}

/// The names of a plan, in their order.
pub open spec fn planned_names(plan: Seq<(Seq<char>, Seq<char>)>) -> Seq<Seq<char>> {
    Seq::new(plan.len(), |i: int| plan[i].0)
}

/// `registry` is a new registry into which the files of `plan` have been
/// read and registered, one after the other, and `bindings` binds the name
/// of each to the handle its registration gave.
pub open spec fn filled<R: FileAssetsRegistry>(
    plan: Seq<(Seq<char>, Seq<char>)>,
    bindings: Seq<(String, R::Handle)>,
    registry: R,
) -> bool
    decreases plan.len(),
{
    if plan.len() == 0 {
        bindings.len() == 0 && R::created(registry)
    } else {
        &&& bindings.len() == plan.len()
        &&& bindings.last().0@ == plan.last().0
        &&& exists|before: R, data: R::Data|
            {
                &&& filled(plan.drop_last(), bindings.drop_last(), before)
                &&& R::read(plan.last().1, data)
                &&& #[trigger] R::registered(before, data, registry, bindings.last().1)
            }
    }
}

/// The registry that a load event carries.
pub open spec fn queued_registry<R>(event: AssetsEvent<R>) -> R {
    match event {
        AssetsEvent::Load { kind, value } => value@->Some_0,
        AssetsEvent::Reset => arbitrary(),
    }
}

/// Lets a handler load a registry of assets from the files of a directory.
pub trait FileAssetsEventQueueExt<R: FileAssetsRegistry> {
    fn load_asset_registry_from_disk(
        &mut self,
        kind: AssetKind,
        listing: &Vec<FileEntry>,
        lookup: &mut AssetLookup<R::Handle>,
    );
}

impl<R: FileAssetsRegistry> FileAssetsEventQueueExt<R> for EventQueue<AssetsEvent<R>> {
    /// Reads the files of `listing` that the plan names into a new registry,
    /// binds their names in `lookup` under `kind`, and queues the registry as
    /// the asset of `kind`. Where the plan gives the directory up, nothing
    /// is read and nothing changes.
    fn load_asset_registry_from_disk(
        &mut self,
        kind: AssetKind,
        listing: &Vec<FileEntry>,
        lookup: &mut AssetLookup<R::Handle>,
    )
        ensures
            match planned(listing@, R::extensions()) {
                None => final(self)@ == old(self)@ && forall|other: AssetKind|
                    final(lookup).bindings(other) == old(lookup).bindings(other),
                Some(plan) => {
                    &&& final(self)@.len() == old(self)@.len() + 1
                    &&& final(self)@.drop_last() == old(self)@
                    &&& final(self)@.last() matches AssetsEvent::Load { kind: queued, value }
                        && queued == kind && value@ is Some
                    &&& final(lookup).bindings(kind) matches Some(bindings) && names_of(bindings)
                        == planned_names(plan) && filled(
                        plan,
                        bindings,
                        queued_registry(final(self)@.last()),
                    )
                    &&& forall|other: AssetKind|
                        other != kind ==> final(lookup).bindings(other) == old(lookup).bindings(
                            other,
                        )
                },
            },
    {
        let extensions = R::file_extensions();
        let items = match plan(listing, &extensions) {
            Some(items) => items,
            None => {
                return ;
            },
        };
        let ghost planned = plan_of(items@);
        let mut registry = R::new();
        let mut bindings: Vec<(String, R::Handle)> = Vec::new();
        let mut at: usize = 0;
        assert(names_of(bindings@) =~= planned_names(planned.take(0)));
        assert(planned.take(0) =~= Seq::empty());
        while at < items.len()
            invariant
                at <= items@.len(),
                planned == plan_of(items@),
                names_of(bindings@) == planned_names(planned.take(at as int)),
                filled(planned.take(at as int), bindings@, registry),
            decreases items@.len() - at,
        {
            let ghost emptier = registry;
            let ghost bound_before = bindings@;
            let data = R::read_file(items[at].path.as_str());
            let handle = registry.register(data);
            let ghost before = names_of(bindings@);
            bindings.push((items[at].name.clone(), handle));
            proof {
                assert(names_of(bindings@) =~= before.push(items@[at as int].name@));
                assert(planned_names(planned.take(at + 1)) =~= planned_names(
                    planned.take(at as int),
                ).push(planned[at as int].0));
                let step = planned.take(at + 1);
                assert(step.drop_last() =~= planned.take(at as int));
                assert(bindings@.drop_last() =~= bound_before);
                assert(R::registered(emptier, data, registry, bindings@.last().1));
            }
            at += 1;
        }
        assert(planned.take(at as int) =~= planned);
        lookup.add_assets(kind, bindings);
        self.load_asset(kind, registry);
    }
}

} // verus!
