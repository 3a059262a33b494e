//! The registry of worlds: the local ones, found by glob patterns, and those
//! in `com.mojang`.

use vstd::prelude::*;
use crate::error::{Error, ErrorView};
use crate::text::texts;
use crate::path::{file_name, final_segment, is_segment, lemma_final_segment_is_segment};

verus! {

/// One path that a glob pattern matched, or the failure to read one.
#[derive(Debug, Clone, PartialEq, Eq)]
pub enum PathScan {
    /// A path that matched.
    Found(String),
    /// A path that could not be read while matching.
    Unreadable { path: String, source: String },
}

/// What one glob pattern of the config came to.
#[derive(Debug, PartialEq, Eq)]
pub struct PatternScan {
    /// The pattern as the config has it.
    pub pattern: String,
    /// The paths it matched, in the order they were found, or what is wrong
    /// with its syntax.
    pub outcome: Result<Vec<PathScan>, String>,
}

/// One entry met while walking the `com.mojang` directory, one level deep.
#[derive(Debug, Clone, PartialEq, Eq)]
pub enum WalkEntry {
    /// A directory, by its path.
    Directory(String),
    /// Anything that is not a directory.
    Other,
    /// An entry that could not be read. `source` is the text of the operating
    /// system's error if there is one, and `not_found` says that this error
    /// was that the entry does not exist.
    Failed { path: Option<String>, source: Option<String>, not_found: bool },
}

/// A world of the local project.
#[derive(Debug, Clone, PartialEq, Eq)]
pub struct LocalWorld {
    /// The name: the final segment of `path`.
    pub name: String,
    /// The directory that holds the world.
    pub path: String,
}

/// A [`LocalWorld`] as texts.
pub ghost struct World {
    pub name: Seq<char>,
    pub path: Seq<char>,
}

impl View for LocalWorld {
    type V = World;

    open spec fn view(&self) -> World {
        World { name: self.name@, path: self.path@ }
    }
}

/// The views of a list of local worlds, in order.
pub open spec fn worlds_of(worlds: Seq<LocalWorld>) -> Seq<World> {
    worlds.map_values(|w: LocalWorld| w@)
}

/// The names of a list of worlds, in order.
pub open spec fn names_of(worlds: Seq<World>) -> Seq<Seq<char>> {
    worlds.map_values(|w: World| w.name)
}

/// Where the world called `name` stands in `worlds`: the first place, should
/// there be several.
pub open spec fn lookup(worlds: Seq<World>, name: Seq<char>) -> Option<int>
    decreases worlds.len(),
{
    if worlds.len() == 0 {
        None
    } else {
        match lookup(worlds.drop_last(), name) {
            Some(index) => Some(index),
            None => if worlds.last().name == name {
                Some(worlds.len() - 1)
            } else {
                None
            },
        }
    }
}

/// The first pattern whose syntax is wrong.
pub open spec fn first_invalid(scans: Seq<PatternScan>) -> Option<int>
    decreases scans.len(),
{
    if scans.len() == 0 {
        None
    } else {
        match first_invalid(scans.drop_last()) {
            Some(index) => Some(index),
            None => if scans.last().outcome is Err {
                Some(scans.len() - 1)
            } else {
                None
            },
        }
    }
}

/// All that the patterns matched, pattern after pattern.
pub open spec fn matched(scans: Seq<PatternScan>) -> Seq<PathScan>
    decreases scans.len(),
{
    if scans.len() == 0 {
        Seq::empty()
    } else {
        matched(scans.drop_last()) + match scans.last().outcome {
            Ok(paths) => paths@,
            Err(_) => Seq::empty(),
        }
    }
}

/// The local collection that the matched paths make, taken in order.
///
/// The first path that cannot be read, or whose name is taken, is the error.
/// There is no answer (`None`) where a path without a final segment is met
/// before that: such a path names no world.
pub open spec fn registered(paths: Seq<PathScan>) -> Option<Result<Seq<World>, ErrorView>>
    decreases paths.len(),
{
    if paths.len() == 0 {
        Some(Ok(Seq::empty()))
    } else {
        match registered(paths.drop_last()) {
            Some(Ok(worlds)) => match paths.last() {
                PathScan::Unreadable { path, source } => Some(
                    Err(ErrorView::WorldAccessFailure { source: source@, path: path@ }),
                ),
                PathScan::Found(path) => match final_segment(path@) {
                    None => None,
                    Some(name) => match lookup(worlds, name) {
                        Some(index) => Some(
                            Err(
                                ErrorView::LocalWorldNameConflict {
                                    world_a: path@,
                                    world_b: worlds[index].path,
                                },
                            ),
                        ),
                        None => Some(Ok(worlds.push(World { name, path: path@ }))),
                    },
                },
            },
            other => other,
        }
    }
}

/// Whether a failed entry of the walk ends the construction: it does where
/// the operating system gave an error other than that the entry is missing,
/// and the path it failed on is known.
pub open spec fn surfaces(path: Option<String>, source: Option<String>, not_found: bool) -> bool {
    path is Some && source is Some && !not_found
}

/// The names in `com.mojang` that the walk yields, taken in order: one for
/// each directory, each name once.
///
/// The first failure that [`surfaces`] is the error. There is no answer
/// (`None`) where a directory without a final segment is met before that.
pub open spec fn walked(entries: Seq<WalkEntry>) -> Option<Result<Seq<Seq<char>>, ErrorView>>
    decreases entries.len(),
{
    if entries.len() == 0 {
        Some(Ok(Seq::empty()))
    } else {
        match walked(entries.drop_last()) {
            Some(Ok(names)) => match entries.last() {
                WalkEntry::Directory(path) => match final_segment(path@) {
                    None => None,
                    Some(name) => if names.contains(name) {
                        Some(Ok(names))
                    } else {
                        Some(Ok(names.push(name)))
                    },
                },
                WalkEntry::Other => Some(Ok(names)),
                WalkEntry::Failed { path, source, not_found } => if surfaces(
                    path,
                    source,
                    not_found,
                ) {
                    Some(
                        Err(
                            ErrorView::WorldAccessFailure {
                                source: source->Some_0@,
                                path: path->Some_0@,
                            },
                        ),
                    )
                } else {
                    Some(Ok(names))
                },
            },
            other => other,
        }
    }
}

/// The registry as texts: what a [`WorldManager`] stands for.
pub ghost struct Registry {
    /// The local worlds, in the order they were found.
    pub local: Seq<World>,
    /// The names of the worlds in `com.mojang`, in the order they were found.
    pub target: Seq<Seq<char>>,
    /// The `com.mojang` directory.
    pub dir: Seq<char>,
}

impl Registry {
    /// No name stands twice in either collection, every local world is
    /// named by the final segment of its path, and every name in
    /// `com.mojang` can be the final segment of one.
    pub open spec fn wf(self) -> bool {
        &&& names_of(self.local).no_duplicates()
        &&& forall|i: int|
            0 <= i < self.local.len() ==> final_segment(#[trigger] self.local[i].path) == Some(
                self.local[i].name,
            )
        &&& self.target.no_duplicates()
        &&& forall|i: int| 0 <= i < self.target.len() ==> is_segment(#[trigger] self.target[i])
    }
}

/// The registry that a scan of both sides makes.
///
/// A pattern with wrong syntax is the error before any path is looked at; then
/// come the local paths, then the walk of `com.mojang`. There is no answer
/// (`None`) where that order meets a path without a final segment.
pub open spec fn constructed(scans: Seq<PatternScan>, walk: Seq<WalkEntry>, dir: Seq<char>)
    -> Option<Result<Registry, ErrorView>> {
    match first_invalid(scans) {
        Some(index) => Some(
            Err(
                ErrorView::InvalidWorldGlob {
                    source: scans[index].outcome->Err_0@,
                    pattern: scans[index].pattern@,
                },
            ),
        ),
        None => match registered(matched(scans)) {
            Some(Ok(local)) => match walked(walk) {
                Some(Ok(target)) => Some(Ok(Registry { local, target, dir })),
                Some(Err(error)) => Some(Err(error)),
                None => None,
            },
            Some(Err(error)) => Some(Err(error)),
            None => None,
        },
    }
}

/// Holds the local worlds and the worlds in `com.mojang`, each under its name.
#[derive(Debug)]
pub struct WorldManager {
    local_worlds: Vec<LocalWorld>,
    com_mojang_worlds: Vec<String>,
    com_mojang: String,
}

impl View for WorldManager {
    type V = Registry;

    closed spec fn view(&self) -> Registry {
        Registry {
            local: worlds_of(self.local_worlds@),
            target: texts(self.com_mojang_worlds@),
            dir: self.com_mojang@,
        }
    }
}

/// What a construction came to, as texts.
pub open spec fn outcome_view(outcome: Option<Result<WorldManager, Error>>) -> Option<
    Result<Registry, ErrorView>,
> {
    match outcome {
        Some(Ok(manager)) => Some(Ok(manager@)),
        Some(Err(error)) => Some(Err(error@)),
        None => None,
    }
}

/// A name that `lookup` finds stands at the place it gives, and nowhere
/// before; one that it does not find stands nowhere.
pub proof fn lemma_lookup(worlds: Seq<World>, name: Seq<char>)
    ensures
        match lookup(worlds, name) {
            Some(index) => {
                &&& 0 <= index < worlds.len()
                &&& worlds[index].name == name
                &&& forall|i: int| 0 <= i < index ==> worlds[i].name != name
            },
            None => !names_of(worlds).contains(name),
        },
    decreases worlds.len(),
{
    if worlds.len() > 0 {
        let front = worlds.drop_last();
        lemma_lookup(front, name);
        match lookup(front, name) {
            Some(index) => {
                assert(worlds[index] == front[index]);
                assert forall|i: int| 0 <= i < index implies worlds[i].name != name by {
                    assert(worlds[i] == front[i]);
                }
            },
            None => {
                assert forall|i: int| 0 <= i < front.len() implies worlds[i].name != name by {
                    assert(names_of(front)[i] == front[i].name);
                    assert(worlds[i] == front[i]);
                }
                if worlds.last().name != name {
                    assert forall|i: int| 0 <= i < worlds.len() implies names_of(worlds)[i]
                        != name by {}
                }
            },
        }
    }
}

/// What `lookup` finds among the first worlds, it finds among all of them.
pub proof fn lemma_lookup_prefix(worlds: Seq<World>, count: int, name: Seq<char>)
    requires
        0 <= count <= worlds.len(),
        lookup(worlds.take(count), name) is Some,
    ensures
        lookup(worlds, name) == lookup(worlds.take(count), name),
    decreases worlds.len() - count,
{
    if count < worlds.len() {
        assert(worlds.drop_last().take(count) =~= worlds.take(count));
        lemma_lookup_prefix(worlds.drop_last(), count, name);
    } else {
        assert(worlds.take(count) =~= worlds);
    }
}

/// The first wrong pattern among the first scans is the first wrong one of all.
pub proof fn lemma_first_invalid_prefix(scans: Seq<PatternScan>, count: int)
    requires
        0 <= count <= scans.len(),
        first_invalid(scans.take(count)) is Some,
    ensures
        first_invalid(scans) == first_invalid(scans.take(count)),
    decreases scans.len() - count,
{
    if count < scans.len() {
        assert(scans.drop_last().take(count) =~= scans.take(count));
        lemma_first_invalid_prefix(scans.drop_last(), count);
    } else {
        assert(scans.take(count) =~= scans);
    }
}

/// What the patterns matched is what the first of them matched, followed by
/// what the others did.
pub proof fn lemma_matched_split(scans: Seq<PatternScan>, count: int)
    requires
        0 <= count <= scans.len(),
    ensures
        matched(scans) == matched(scans.take(count)) + matched(scans.skip(count)),
    decreases scans.len(),
{
    if count == scans.len() {
        assert(scans.take(count) =~= scans);
        assert(matched(scans.skip(count)) =~= Seq::empty());
        assert(matched(scans) =~= matched(scans) + Seq::empty());
    } else {
        let front = scans.drop_last();
        lemma_matched_split(front, count);
        assert(front.take(count) =~= scans.take(count));
        assert(scans.skip(count).drop_last() =~= front.skip(count));
        assert(scans.skip(count).last() == scans.last());
        let tail = match scans.last().outcome {
            Ok(paths) => paths@,
            Err(_) => Seq::empty(),
        };
        assert(matched(scans) =~= matched(scans.take(count)) + (matched(front.skip(count))
            + tail));
    }
}

/// Once the local paths have come to an error, or to no answer, the paths
/// behind change nothing.
pub proof fn lemma_registered_sticky(paths: Seq<PathScan>, more: Seq<PathScan>)
    requires
        !(registered(paths) matches Some(Ok(_))),
    ensures
        registered(paths + more) == registered(paths),
    decreases more.len(),
{
    if more.len() == 0 {
        assert(paths + more =~= paths);
    } else {
        lemma_registered_sticky(paths, more.drop_last());
        assert((paths + more).drop_last() =~= paths + more.drop_last());
    }
}

/// Once the walk has come to an error, or to no answer, the entries behind
/// change nothing.
pub proof fn lemma_walked_sticky(entries: Seq<WalkEntry>, more: Seq<WalkEntry>)
    requires
        !(walked(entries) matches Some(Ok(_))),
    ensures
        walked(entries + more) == walked(entries),
    decreases more.len(),
{
    if more.len() == 0 {
        assert(entries + more =~= entries);
    } else {
        lemma_walked_sticky(entries, more.drop_last());
        assert((entries + more).drop_last() =~= entries + more.drop_last());
    }
}

/// A local collection made from matched paths holds no name twice, and names
/// each world by the final segment of its path.
pub proof fn lemma_registered_valid(paths: Seq<PathScan>)
    ensures
        registered(paths) matches Some(Ok(worlds)) ==> {
            &&& names_of(worlds).no_duplicates()
            &&& forall|i: int|
                0 <= i < worlds.len() ==> final_segment(#[trigger] worlds[i].path) == Some(
                    worlds[i].name,
                )
        },
    decreases paths.len(),
{
    if paths.len() > 0 {
        lemma_registered_valid(paths.drop_last());
        if let Some(Ok(front)) = registered(paths.drop_last()) {
            if let Some(Ok(worlds)) = registered(paths) {
                let name = worlds.last().name;
                lemma_lookup(front, name);
                assert(worlds.drop_last() =~= front);
                assert forall|i: int, j: int|
                    0 <= i < worlds.len() && 0 <= j < worlds.len() && i != j implies names_of(
                    worlds,
                )[i] != names_of(worlds)[j] by {
                    if i < front.len() && j < front.len() {
                        assert(names_of(front)[i] == names_of(worlds)[i]);
                        assert(names_of(front)[j] == names_of(worlds)[j]);
                    } else if i < front.len() {
                        assert(names_of(front)[i] == names_of(worlds)[i]);
                    } else {
                        assert(names_of(front)[j] == names_of(worlds)[j]);
                    }
                }
                assert forall|i: int| 0 <= i < worlds.len() implies final_segment(
                    #[trigger] worlds[i].path,
                ) == Some(worlds[i].name) by {
                    if i < front.len() {
                        assert(worlds[i] == front[i]);
                    }
                }
            }
        }
    }
}

/// The names that a walk yields hold none twice, and each of them can be
/// the final segment of a path.
pub proof fn lemma_walked_valid(entries: Seq<WalkEntry>)
    ensures
        walked(entries) matches Some(Ok(names)) ==> {
            &&& names.no_duplicates()
            &&& forall|i: int| 0 <= i < names.len() ==> is_segment(#[trigger] names[i])
        },
    decreases entries.len(),
{
    if entries.len() > 0 {
        lemma_walked_valid(entries.drop_last());
        if let WalkEntry::Directory(path) = entries.last() {
            lemma_final_segment_is_segment(path@);
        }
    }
}

/// Where the world called `name` stands in `worlds`.
pub(crate) fn find_world(worlds: &Vec<LocalWorld>, name: &String) -> (found: Option<usize>)
    ensures
        found is Some == lookup(worlds_of(worlds@), name@) is Some,
        found matches Some(index) ==> index < worlds.len() && lookup(worlds_of(worlds@), name@)
            == Some(index as int),
{
    let ghost all = worlds_of(worlds@);
    let mut index: usize = 0;
    while index < worlds.len()
        invariant
            index <= worlds.len(),
            all == worlds_of(worlds@),
            lookup(all.take(index as int), name@) is None,
        decreases worlds.len() - index,
    {
        proof {
            assert(all.take(index + 1).drop_last() =~= all.take(index as int));
            assert(all.take(index + 1).last() == worlds[index as int]@);
        }
        if worlds[index].name == *name {
            proof {
                lemma_lookup_prefix(all, index + 1, name@);
            }
            return Some(index);
        }
        index = index + 1;
    }
    proof {
        assert(all.take(index as int) =~= all);
    }
    None
}

/// Whether `names` holds `name`.
pub(crate) fn holds_name(names: &Vec<String>, name: &String) -> (held: bool)
    ensures
        held == texts(names@).contains(name@),
{
    let mut index: usize = 0;
    while index < names.len()
        invariant
            index <= names.len(),
            forall|i: int| 0 <= i < index ==> texts(names@)[i] != name@,
        decreases names.len() - index,
    {
        if names[index] == *name {
            assert(texts(names@)[index as int] == name@);
            return true;
        }
        index = index + 1;
    }
    false
}

impl WorldManager {
    #[verifier::type_invariant]
    spec fn valid(self) -> bool {
        self@.wf()
    }

    /// Makes the registry from a scan of both sides, where the scan can be
    /// answered at all: `None` where it meets a path without a final segment
    /// before it meets an error.
    pub fn try_new(scans: Vec<PatternScan>, walk: Vec<WalkEntry>, com_mojang: String) -> (outcome:
        Option<Result<WorldManager, Error>>)
        ensures
            outcome_view(outcome) == constructed(scans@, walk@, com_mojang@),
            outcome matches Some(Ok(manager)) ==> manager@.wf(),
    {
        let mut at: usize = 0;
        while at < scans.len()
            invariant
                at <= scans.len(),
                first_invalid(scans@.take(at as int)) is None,
            decreases scans.len() - at,
        {
            proof {
                assert(scans@.take(at + 1).drop_last() =~= scans@.take(at as int));
            }
            match &scans[at].outcome {
                Err(source) => {
                    proof {
                        lemma_first_invalid_prefix(scans@, at + 1);
                    }
                    return Some(
                        Err(
                            Error::InvalidWorldGlob {
                                source: source.clone(),
                                pattern: scans[at].pattern.clone(),
                            },
                        ),
                    );
                },
                Ok(_) => {},
            }
            at = at + 1;
        }
        proof {
            assert(scans@.take(at as int) =~= scans@);
        }

        let mut local_worlds: Vec<LocalWorld> = Vec::new();
        let mut at: usize = 0;
        proof {
            assert(scans@.take(0) =~= Seq::empty());
            assert(worlds_of(local_worlds@) =~= Seq::empty());
        }
        while at < scans.len()
            invariant
                at <= scans.len(),
                first_invalid(scans@) is None,
                registered(matched(scans@.take(at as int))) == Some(
                    Ok::<Seq<World>, ErrorView>(worlds_of(local_worlds@)),
                ),
            decreases scans.len() - at,
        {
            let ghost before = matched(scans@.take(at as int));
            proof {
                assert(scans@.take(at + 1).drop_last() =~= scans@.take(at as int));
                lemma_matched_split(scans@, at + 1);
            }
            match &scans[at].outcome {
                Err(_) => {
                    proof {
                        assert(matched(scans@.take(at + 1)) =~= before);
                    }
                },
                Ok(paths) => {
                    let mut next: usize = 0;
                    while next < paths.len()
                        invariant
                            next <= paths.len(),
                            at < scans.len(),
                            scans[at as int].outcome == Ok::<Vec<PathScan>, String>(*paths),
                            before == matched(scans@.take(at as int)),
                            matched(scans@) == matched(scans@.take(at + 1)) + matched(
                                scans@.skip(at + 1),
                            ),
                            matched(scans@.take(at + 1)) == before + paths@,
                            first_invalid(scans@) is None,
                            registered(before + paths@.take(next as int)) == Some(
                                Ok::<Seq<World>, ErrorView>(worlds_of(local_worlds@)),
                            ),
                        decreases paths.len() - next,
                    {
                        let ghost done = before + paths@.take(next as int);
                        let ghost with_next = before + paths@.take(next + 1);
                        let ghost rest = paths@.skip(next + 1) + matched(scans@.skip(at + 1));
                        proof {
                            assert(with_next.drop_last() =~= done);
                            assert(with_next.last() == paths[next as int]);
                            assert(matched(scans@) =~= with_next + rest);
                        }
                        match &paths[next] {
                            PathScan::Unreadable { path, source } => {
                                proof {
                                    lemma_registered_sticky(with_next, rest);
                                }
                                return Some(
                                    Err(
                                        Error::WorldAccessFailure {
                                            source: source.clone(),
                                            path: path.clone(),
                                        },
                                    ),
                                );
                            },
                            PathScan::Found(path) => {
                                match file_name(path.as_str()) {
                                    None => {
                                        proof {
                                            lemma_registered_sticky(with_next, rest);
                                        }
                                        return None;
                                    },
                                    Some(name) => {
                                        match find_world(&local_worlds, &name) {
                                            Some(index) => {
                                                proof {
                                                    lemma_registered_sticky(with_next, rest);
                                                }
                                                return Some(
                                                    Err(
                                                        Error::LocalWorldNameConflict {
                                                            world_a: path.clone(),
                                                            world_b: local_worlds[index].path.clone(),
                                                        },
                                                    ),
                                                );
                                            },
                                            None => {
                                                let ghost old_worlds = worlds_of(local_worlds@);
                                                let world = LocalWorld { name, path: path.clone() };
                                                local_worlds.push(world);
                                                proof {
                                                    assert(worlds_of(local_worlds@)
                                                        =~= old_worlds.push(world@));
                                                }
                                            },
                                        }
                                    },
                                }
                            },
                        }
                        next = next + 1;
                    }
                    proof {
                        assert(paths@.take(next as int) =~= paths@);
                    }
                },
            }
            at = at + 1;
        }
        proof {
            assert(scans@.take(at as int) =~= scans@);
            lemma_registered_valid(matched(scans@));
        }

        let mut com_mojang_worlds: Vec<String> = Vec::new();
        let mut at: usize = 0;
        proof {
            assert(walk@.take(0) =~= Seq::empty());
            assert(texts(com_mojang_worlds@) =~= Seq::empty());
        }
        while at < walk.len()
            invariant
                at <= walk.len(),
                first_invalid(scans@) is None,
                registered(matched(scans@)) == Some(
                    Ok::<Seq<World>, ErrorView>(worlds_of(local_worlds@)),
                ),
                walked(walk@.take(at as int)) == Some(
                    Ok::<Seq<Seq<char>>, ErrorView>(texts(com_mojang_worlds@)),
                ),
            decreases walk.len() - at,
        {
            let ghost with_next = walk@.take(at + 1);
            let ghost rest = walk@.skip(at + 1);
            proof {
                assert(with_next.drop_last() =~= walk@.take(at as int));
                assert(with_next.last() == walk[at as int]);
                assert(walk@ =~= with_next + rest);
            }
            match &walk[at] {
                WalkEntry::Directory(path) => {
                    match file_name(path.as_str()) {
                        None => {
                            proof {
                                lemma_walked_sticky(with_next, rest);
                            }
                            return None;
                        },
                        Some(name) => {
                            if !holds_name(&com_mojang_worlds, &name) {
                                let ghost old_names = texts(com_mojang_worlds@);
                                com_mojang_worlds.push(name);
                                proof {
                                    assert(texts(com_mojang_worlds@) =~= old_names.push(name@));
                                }
                            }
                        },
                    }
                },
                WalkEntry::Other => {},
                WalkEntry::Failed { path, source, not_found } => {
                    if !*not_found {
                        match (path, source) {
                            (Some(path), Some(source)) => {
                                proof {
                                    lemma_walked_sticky(with_next, rest);
                                }
                                return Some(
                                    Err(
                                        Error::WorldAccessFailure {
                                            source: source.clone(),
                                            path: path.clone(),
                                        },
                                    ),
                                );
                            },
                            _ => {},
                        }
                    }
                },
            }
            at = at + 1;
        }
        proof {
            assert(walk@.take(at as int) =~= walk@);
            lemma_walked_valid(walk@);
        }
        Some(Ok(WorldManager { local_worlds, com_mojang_worlds, com_mojang }))
    }

    /// Makes the registry from a scan of both sides: what each pattern
    /// matched, and what a walk of `com_mojang` met.
    ///
    /// Every path that the construction comes to must have a final segment.
    pub fn new(scans: Vec<PatternScan>, walk: Vec<WalkEntry>, com_mojang: String) -> (outcome:
        Result<WorldManager, Error>)
        requires
            constructed(scans@, walk@, com_mojang@) is Some,
        ensures
            outcome_view(Some(outcome)) == constructed(scans@, walk@, com_mojang@),
            outcome matches Ok(manager) ==> manager@.wf(),
    {
        WorldManager::try_new(scans, walk, com_mojang).unwrap()
    }

    /// The local worlds, in the order they were found. No two of them have
    /// the same name.
    pub fn local_worlds(&self) -> (worlds: &Vec<LocalWorld>)
        ensures
            worlds_of(worlds@) == self@.local,
            self@.wf(),
    {
        proof {
            use_type_invariant(self);
        }
        &self.local_worlds
    }

    /// The names of the worlds in `com.mojang`, in the order they were found,
    /// each name once.
    pub fn com_mojang_worlds(&self) -> (names: &Vec<String>)
        ensures
            texts(names@) == self@.target,
            self@.wf(),
    {
        proof {
            use_type_invariant(self);
        }
        &self.com_mojang_worlds
    }

    /// The `com.mojang` directory.
    pub fn com_mojang(&self) -> (dir: &String)
        ensures
            dir@ == self@.dir,
    {
        &self.com_mojang
    }
}

} // verus!
