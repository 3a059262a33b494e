//! What holds of the registry and of the transfers, whatever the input.

use vstd::prelude::*;
use crate::com_mojang::{found_and_checked, located, Fallback};
use crate::engine::{ActionView, ProgressView, Run, Stage};
use crate::error::ErrorView;
use crate::text::quoted;
use crate::path::{
    final_segment, is_segment, joined, lemma_final_segment_is_segment,
    lemma_final_segment_of_joined,
};
use crate::listing::{local_branch, target_branch};
use crate::transfer::{distinct, lemma_planned_sticky, missing, planned, Direction, Plan, Step};
use crate::world::{
    constructed, first_invalid, lemma_first_invalid_prefix, lemma_lookup, lemma_registered_sticky,
    lemma_registered_valid, lemma_walked_sticky, lemma_walked_valid, lookup, matched, names_of,
    registered, surfaces, walked, PathScan, PatternScan, Registry, WalkEntry, World,
};

verus! {

/// The world that the matched path `scan` stands for.
pub open spec fn world_at(scan: PathScan) -> World
    recommends
        scan is Found,
{
    World { name: final_segment(scan->Found_0@).unwrap(), path: scan->Found_0@ }
}

/// Whether the first `count` of `paths` are paths that were found, each with
/// a name, and no two of them with the same.
pub open spec fn distinct_worlds(paths: Seq<PathScan>, count: int) -> bool {
    &&& 0 <= count <= paths.len()
    &&& forall|i: int|
        0 <= i < count ==> (#[trigger] paths[i]) is Found && final_segment(paths[i]->Found_0@)
            is Some
    &&& forall|i: int, j: int|
        0 <= i < j < count ==> final_segment((#[trigger] paths[i])->Found_0@) != final_segment(
            (#[trigger] paths[j])->Found_0@,
        )
}

/// Where every pattern is valid, none is the first invalid one.
pub proof fn lemma_all_valid(scans: Seq<PatternScan>)
    requires
        forall|i: int| 0 <= i < scans.len() ==> (#[trigger] scans[i]).outcome is Ok,
    ensures
        first_invalid(scans) is None,
    decreases scans.len(),
{
    if scans.len() > 0 {
        let front = scans.drop_last();
        assert forall|i: int| 0 <= i < front.len() implies (#[trigger] front[i]).outcome is Ok by {
            assert(front[i] == scans[i]);
        }
        lemma_all_valid(front);
        assert(scans.last() == scans[scans.len() - 1]);
    }
}

/// Paths that were found, each with a name of its own, make one world each,
/// in their order.
pub proof fn lemma_registered_distinct(paths: Seq<PathScan>, count: int)
    requires
        distinct_worlds(paths, count),
    ensures
        registered(paths.take(count)) == Some(
            Ok::<Seq<World>, ErrorView>(Seq::new(count as nat, |i: int| world_at(paths[i]))),
        ),
    decreases count,
{
    let expected = Seq::new(count as nat, |i: int| world_at(paths[i]));
    if count == 0 {
        assert(paths.take(0) =~= Seq::empty());
        assert(expected =~= Seq::empty());
    } else {
        lemma_registered_distinct(paths, count - 1);
        let before = Seq::new((count - 1) as nat, |i: int| world_at(paths[i]));
        let next = paths[count - 1];
        let name = final_segment(next->Found_0@).unwrap();
        assert(paths.take(count).drop_last() =~= paths.take(count - 1));
        assert(paths.take(count).last() == next);
        lemma_lookup(before, name);
        if let Some(index) = lookup(before, name) {
            assert(before[index] == world_at(paths[index]));
            assert(final_segment(paths[index]->Found_0@) == final_segment(next->Found_0@));
            assert(false);
        }
        assert(before.push(world_at(next)) =~= expected);
    }
}

/// Construction succeeds where every pattern is valid, every matched path
/// was found and has a name, no two of them have the same, and the walk of
/// `com.mojang` goes through. The local collection then holds exactly one
/// world for each matched path, in the order of the paths.
pub proof fn lemma_distinct_names_construct(
    scans: Seq<PatternScan>,
    walk: Seq<WalkEntry>,
    dir: Seq<char>,
)
    requires
        forall|i: int| 0 <= i < scans.len() ==> (#[trigger] scans[i]).outcome is Ok,
        distinct_worlds(matched(scans), matched(scans).len() as int),
        walked(walk) matches Some(Ok(_)),
    ensures
        constructed(scans, walk, dir) matches Some(Ok(registry)) && {
            &&& registry.wf()
            &&& registry.dir == dir
            &&& Some(Ok::<Seq<Seq<char>>, ErrorView>(registry.target)) == walked(walk)
            &&& registry.local.len() == matched(scans).len()
            &&& forall|i: int|
                0 <= i < registry.local.len() ==> #[trigger] registry.local[i] == world_at(
                    matched(scans)[i],
                )
        },
{
    let paths = matched(scans);
    lemma_all_valid(scans);
    lemma_registered_distinct(paths, paths.len() as int);
    assert(paths.take(paths.len() as int) =~= paths);
    lemma_registered_valid(paths);
    lemma_walked_valid(walk);
}

/// Construction fails with a naming conflict where every pattern is valid
/// and a matched path has the name of a path matched before it, all paths up
/// to there found and named, and those before with names of their own. The
/// error holds the later path first, then the earlier one.
pub proof fn lemma_shared_name_conflicts(
    scans: Seq<PatternScan>,
    walk: Seq<WalkEntry>,
    dir: Seq<char>,
    earlier: int,
    later: int,
)
    requires
        forall|i: int| 0 <= i < scans.len() ==> (#[trigger] scans[i]).outcome is Ok,
        0 <= earlier < later < matched(scans).len(),
        distinct_worlds(matched(scans), later),
        matched(scans)[later] is Found,
        final_segment(matched(scans)[later]->Found_0@) == final_segment(
            matched(scans)[earlier]->Found_0@,
        ),
    ensures
        constructed(scans, walk, dir) == Some(
            Err::<Registry, ErrorView>(
                ErrorView::LocalWorldNameConflict {
                    world_a: matched(scans)[later]->Found_0@,
                    world_b: matched(scans)[earlier]->Found_0@,
                },
            ),
        ),
{
    let paths = matched(scans);
    lemma_all_valid(scans);
    lemma_registered_distinct(paths, later);
    let before = Seq::new(later as nat, |i: int| world_at(paths[i]));
    let name = final_segment(paths[later]->Found_0@).unwrap();
    assert(paths.take(later + 1).drop_last() =~= paths.take(later));
    assert(paths.take(later + 1).last() == paths[later]);
    lemma_lookup(before, name);
    assert(before[earlier] == world_at(paths[earlier]));
    assert(names_of(before)[earlier] == name);
    let index = lookup(before, name).unwrap();
    assert(before[index] == world_at(paths[index]));
    if index != earlier {
        if index < earlier {
            assert(final_segment(paths[index]->Found_0@) != final_segment(
                paths[earlier]->Found_0@,
            ));
        } else {
            assert(final_segment(paths[earlier]->Found_0@) != final_segment(
                paths[index]->Found_0@,
            ));
        }
    }
    assert(paths =~= paths.take(later + 1) + paths.skip(later + 1));
    lemma_registered_sticky(paths.take(later + 1), paths.skip(later + 1));
}

/// Construction fails with an access failure where every pattern is valid
/// and a matched path could not be read, all paths before it found, named,
/// and with names of their own. The error holds that path and why it could
/// not be read.
pub proof fn lemma_unreadable_path_fails(
    scans: Seq<PatternScan>,
    walk: Seq<WalkEntry>,
    dir: Seq<char>,
    at: int,
)
    requires
        forall|i: int| 0 <= i < scans.len() ==> (#[trigger] scans[i]).outcome is Ok,
        0 <= at < matched(scans).len(),
        distinct_worlds(matched(scans), at),
        matched(scans)[at] is Unreadable,
    ensures
        constructed(scans, walk, dir) == Some(
            Err::<Registry, ErrorView>(
                ErrorView::WorldAccessFailure {
                    source: matched(scans)[at]->Unreadable_source@,
                    path: matched(scans)[at]->Unreadable_path@,
                },
            ),
        ),
{
    let paths = matched(scans);
    lemma_all_valid(scans);
    lemma_registered_distinct(paths, at);
    assert(paths.take(at + 1).drop_last() =~= paths.take(at));
    assert(paths.take(at + 1).last() == paths[at]);
    assert(paths =~= paths.take(at + 1) + paths.skip(at + 1));
    lemma_registered_sticky(paths.take(at + 1), paths.skip(at + 1));
}

/// Whether the walk gets past `entry`: it does unless the entry is a
/// directory without a name or a failure that surfaces.
pub open spec fn passable(entry: WalkEntry) -> bool {
    match entry {
        WalkEntry::Directory(path) => final_segment(path@) is Some,
        WalkEntry::Other => true,
        WalkEntry::Failed { path, source, not_found } => !surfaces(path, source, not_found),
    }
}

/// A walk gets past entries that are all passable.
pub proof fn lemma_walked_passable(entries: Seq<WalkEntry>)
    requires
        forall|i: int| 0 <= i < entries.len() ==> passable(#[trigger] entries[i]),
    ensures
        walked(entries) matches Some(Ok(_)),
    decreases entries.len(),
{
    if entries.len() > 0 {
        let front = entries.drop_last();
        assert forall|i: int| 0 <= i < front.len() implies passable(#[trigger] front[i]) by {
            assert(front[i] == entries[i]);
        }
        lemma_walked_passable(front);
        assert(passable(entries[entries.len() - 1]));
    }
}

/// Construction fails with an access failure where the local worlds are in
/// order and the walk of `com.mojang` meets a failure that surfaces, with
/// nothing before it that the walk does not get past. The error holds the
/// path of that entry and why it failed. A failure that does not surface,
/// because the entry is missing or its path or its cause is not known, is
/// passed over.
pub proof fn lemma_walk_failure_fails(
    scans: Seq<PatternScan>,
    walk: Seq<WalkEntry>,
    dir: Seq<char>,
    at: int,
)
    requires
        first_invalid(scans) is None,
        registered(matched(scans)) matches Some(Ok(_)),
        0 <= at < walk.len(),
        forall|i: int| 0 <= i < at ==> passable(#[trigger] walk[i]),
        walk[at] matches WalkEntry::Failed { path, source, not_found } && surfaces(
            path,
            source,
            not_found,
        ),
    ensures
        constructed(scans, walk, dir) == Some(
            Err::<Registry, ErrorView>(
                ErrorView::WorldAccessFailure {
                    source: walk[at]->Failed_source->Some_0@,
                    path: walk[at]->Failed_path->Some_0@,
                },
            ),
        ),
{
    let front = walk.take(at);
    assert forall|i: int| 0 <= i < front.len() implies passable(#[trigger] front[i]) by {
        assert(front[i] == walk[i]);
    }
    lemma_walked_passable(front);
    assert(walk.take(at + 1).drop_last() =~= front);
    assert(walk.take(at + 1).last() == walk[at]);
    assert(walk =~= walk.take(at + 1) + walk.skip(at + 1));
    lemma_walked_sticky(walk.take(at + 1), walk.skip(at + 1));
}

/// Construction fails on the first pattern whose syntax is wrong, with that
/// pattern in the error, whatever the other patterns matched and whatever
/// the walk of `com.mojang` met.
pub proof fn lemma_invalid_pattern_fails(
    scans: Seq<PatternScan>,
    walk: Seq<WalkEntry>,
    dir: Seq<char>,
    index: int,
)
    requires
        0 <= index < scans.len(),
        scans[index].outcome is Err,
        forall|i: int| 0 <= i < index ==> (#[trigger] scans[i]).outcome is Ok,
    ensures
        constructed(scans, walk, dir) == Some(
            Err::<Registry, ErrorView>(
                ErrorView::InvalidWorldGlob {
                    source: scans[index].outcome->Err_0@,
                    pattern: scans[index].pattern@,
                },
            ),
        ),
{
    let front = scans.take(index);
    assert forall|i: int| 0 <= i < front.len() implies (#[trigger] front[i]).outcome is Ok by {
        assert(front[i] == scans[i]);
    }
    lemma_all_valid(front);
    assert(scans.take(index + 1).drop_last() =~= front);
    assert(scans.take(index + 1).last() == scans[index]);
    lemma_first_invalid_prefix(scans, index + 1);
}

/// Whether `entry` is a directory called `name`.
pub open spec fn directory_named(entry: WalkEntry, name: Seq<char>) -> bool {
    entry is Directory && final_segment(entry->Directory_0@) == Some(name)
}

/// The names that a walk yields are the names of the directories it met:
/// each of those, and nothing else.
pub proof fn lemma_walked_names(entries: Seq<WalkEntry>)
    ensures
        walked(entries) matches Some(Ok(names)) ==> forall|name: Seq<char>|
            names.contains(name) <==> exists|i: int|
                0 <= i < entries.len() && directory_named(#[trigger] entries[i], name),
    decreases entries.len(),
{
    if entries.len() > 0 {
        let front = entries.drop_last();
        lemma_walked_names(front);
        if let Some(Ok(names)) = walked(entries) {
            let before = walked(front)->Some_0->Ok_0;
            assert forall|name: Seq<char>|
                names.contains(name) <==> exists|i: int|
                    0 <= i < entries.len() && directory_named(#[trigger] entries[i], name) by {
                if names.contains(name) {
                    if before.contains(name) {
                        let at = choose|i: int|
                            0 <= i < front.len() && directory_named(#[trigger] front[i], name);
                        assert(entries[at] == front[at]);
                    } else {
                        let place = choose|i: int| 0 <= i < names.len() && names[i] == name;
                        if place < before.len() {
                            assert(before[place] == name);
                        }
                        assert(directory_named(entries[entries.len() - 1], name));
                    }
                }
                if exists|i: int|
                    0 <= i < entries.len() && directory_named(#[trigger] entries[i], name) {
                    let at = choose|i: int|
                        0 <= i < entries.len() && directory_named(#[trigger] entries[i], name);
                    if at < front.len() {
                        assert(front[at] == entries[at]);
                        assert(before.contains(name));
                    }
                    if before.contains(name) {
                        let place = choose|i: int| 0 <= i < before.len() && before[i] == name;
                        assert(names[place] == name);
                    } else {
                        assert(names.last() == name);
                    }
                }
            }
        }
    }
}

/// A world keeps its name when it is exported: the directory it is read
/// from and the directory it is written to both end in that name, so that
/// the next walk of `com.mojang` finds it under the same name.
pub proof fn lemma_export_keeps_name(registry: Registry, name: Seq<char>, overwrite: bool)
    requires
        registry.wf(),
        names_of(registry.local).contains(name),
    ensures
        registry.export_decision(name, overwrite) matches Ok(step) ==> {
            &&& final_segment(step.from) == Some(name)
            &&& final_segment(step.to) == Some(name)
        },
{
    lemma_lookup(registry.local, name);
    let index = lookup(registry.local, name).unwrap();
    lemma_final_segment_is_segment(registry.local[index].path);
    lemma_final_segment_of_joined(registry.dir, name);
}

/// A world keeps its name when it is imported: the directory it is read
/// from and the directory it is written to both end in that name.
pub proof fn lemma_import_keeps_name(registry: Registry, name: Seq<char>)
    requires
        registry.wf(),
        registry.target.contains(name),
    ensures
        registry.import_decision(name) matches Ok(step) ==> {
            &&& final_segment(step.from) == Some(name)
            &&& final_segment(step.to) == Some(name)
        },
{
    lemma_lookup(registry.local, name);
    let place = choose|i: int| 0 <= i < registry.target.len() && registry.target[i] == name;
    lemma_final_segment_of_joined(registry.dir, name);
}

/// Names kept where they stand first are the same names, each once.
pub proof fn lemma_distinct(names: Seq<Seq<char>>)
    ensures
        distinct(names).no_duplicates(),
        forall|name: Seq<char>| distinct(names).contains(name) <==> names.contains(name),
    decreases names.len(),
{
    if names.len() > 0 {
        let front = names.drop_last();
        let kept = distinct(front);
        lemma_distinct(front);
        assert forall|name: Seq<char>| distinct(names).contains(name) <==> names.contains(
            name,
        ) by {
            if names.contains(name) {
                let at = choose|i: int| 0 <= i < names.len() && names[i] == name;
                if at < front.len() {
                    assert(front[at] == name);
                    assert(front.contains(name));
                    assert(kept.contains(name));
                    let place = choose|i: int| 0 <= i < kept.len() && kept[i] == name;
                    assert(distinct(names)[place] == name);
                } else if !kept.contains(name) {
                    assert(distinct(names).last() == name);
                }
            }
            if distinct(names).contains(name) {
                let place = choose|i: int|
                    0 <= i < distinct(names).len() && distinct(names)[i] == name;
                if place < kept.len() {
                    assert(kept[place] == name);
                    assert(front.contains(name));
                    let at = choose|i: int| 0 <= i < front.len() && front[i] == name;
                    assert(names[at] == name);
                } else {
                    assert(names[names.len() - 1] == name);
                }
            }
        }
    }
}

/// Names of which none stands twice are kept as they are.
pub proof fn lemma_distinct_already(names: Seq<Seq<char>>)
    requires
        names.no_duplicates(),
    ensures
        distinct(names) == names,
    decreases names.len(),
{
    if names.len() > 0 {
        let front = names.drop_last();
        lemma_distinct_already(front);
        if front.contains(names.last()) {
            let at = choose|i: int| 0 <= i < front.len() && front[i] == names.last();
            assert(names[at] == names[names.len() - 1]);
        }
        assert(front.push(names.last()) =~= names);
    } else {
        assert(names =~= Seq::empty());
    }
}

/// The missing names are the wanted names that the collection lacks.
pub proof fn lemma_missing(wanted: Seq<Seq<char>>, held: Seq<Seq<char>>)
    ensures
        forall|name: Seq<char>|
            missing(wanted, held).contains(name) <==> wanted.contains(name) && !held.contains(
                name,
            ),
        wanted.no_duplicates() ==> missing(wanted, held).no_duplicates(),
    decreases wanted.len(),
{
    reveal(Seq::filter);
    if wanted.len() > 0 {
        let front = wanted.drop_last();
        let absent = missing(front, held);
        lemma_missing(front, held);
        assert forall|name: Seq<char>|
            missing(wanted, held).contains(name) <==> wanted.contains(name) && !held.contains(
                name,
            ) by {
            if wanted.contains(name) && !held.contains(name) {
                let at = choose|i: int| 0 <= i < wanted.len() && wanted[i] == name;
                if at < front.len() {
                    assert(front[at] == name);
                    assert(front.contains(name));
                    assert(absent.contains(name));
                    let place = choose|i: int| 0 <= i < absent.len() && absent[i] == name;
                    assert(missing(wanted, held)[place] == name);
                } else {
                    assert(missing(wanted, held).last() == name);
                }
            }
            if missing(wanted, held).contains(name) {
                let place = choose|i: int|
                    0 <= i < missing(wanted, held).len() && missing(wanted, held)[i] == name;
                if place < absent.len() {
                    assert(absent[place] == name);
                    assert(absent.contains(name));
                    let at = choose|i: int| 0 <= i < front.len() && front[i] == name;
                    assert(wanted[at] == name);
                } else {
                    assert(wanted[wanted.len() - 1] == name);
                }
            }
        }
        if wanted.no_duplicates() {
            if !held.contains(wanted.last()) && absent.contains(wanted.last()) {
                let at = choose|i: int| 0 <= i < front.len() && front[i] == wanted.last();
                assert(wanted[at] == wanted[wanted.len() - 1]);
            }
        }
    }
}

/// A plan holds the steps up to the first refusal, and that refusal; where
/// nothing is refused it holds every step and no error.
pub proof fn lemma_planned_upto(decisions: Seq<Result<Step, ErrorView>>, count: int)
    requires
        0 <= count <= decisions.len(),
        forall|i: int| 0 <= i < count ==> (#[trigger] decisions[i]) is Ok,
        count < decisions.len() ==> decisions[count] is Err,
    ensures
        planned(decisions) == (Plan {
            steps: Seq::new(count as nat, |i: int| decisions[i]->Ok_0),
            halt: if count < decisions.len() {
                Some(decisions[count]->Err_0)
            } else {
                None
            },
        }),
{
    lemma_planned_steps(decisions, count);
    if count < decisions.len() {
        assert(decisions.take(count + 1).drop_last() =~= decisions.take(count));
        assert(decisions.take(count + 1).last() == decisions[count]);
        assert(decisions =~= decisions.take(count + 1) + decisions.skip(count + 1));
        lemma_planned_sticky(decisions.take(count + 1), decisions.skip(count + 1));
    } else {
        assert(decisions.take(count) =~= decisions);
    }
}

/// Decisions that all allow their step make a plan of those steps.
proof fn lemma_planned_steps(decisions: Seq<Result<Step, ErrorView>>, count: int)
    requires
        0 <= count <= decisions.len(),
        forall|i: int| 0 <= i < count ==> (#[trigger] decisions[i]) is Ok,
    ensures
        planned(decisions.take(count)) == (Plan {
            steps: Seq::new(count as nat, |i: int| decisions[i]->Ok_0),
            halt: None,
        }),
    decreases count,
{
    if count == 0 {
        assert(decisions.take(0) =~= Seq::empty());
        assert(Seq::new(0, |i: int| decisions[i]->Ok_0) =~= Seq::<Step>::empty());
    } else {
        lemma_planned_steps(decisions, count - 1);
        assert(decisions.take(count).drop_last() =~= decisions.take(count - 1));
        assert(decisions.take(count).last() == decisions[count - 1]);
        assert(Seq::new((count - 1) as nat, |i: int| decisions[i]->Ok_0).push(
            decisions[count - 1]->Ok_0,
        ) =~= Seq::new(count as nat, |i: int| decisions[i]->Ok_0));
    }
}

/// An export that asks for a name that is no local world fails, and copies
/// and removes nothing. The error lists the names asked for that are no
/// local worlds: all of them, each once, and none else.
pub proof fn lemma_export_unknown(registry: Registry, names: Seq<Seq<char>>, overwrite: bool)
    requires
        exists|i: int| 0 <= i < names.len() && !names_of(registry.local).contains(names[i]),
    ensures
        registry.exported(names, overwrite) matches Err(
            ErrorView::NoMatchingWorlds { names: absent },
        ) && {
            &&& absent.no_duplicates()
            &&& forall|name: Seq<char>|
                absent.contains(name) <==> names.contains(name) && !names_of(
                    registry.local,
                ).contains(name)
        },
{
    let unknown = choose|i: int|
        0 <= i < names.len() && !names_of(registry.local).contains(names[i]);
    lemma_distinct(names);
    lemma_missing(distinct(names), names_of(registry.local));
    assert(names.contains(names[unknown]));
    let absent = missing(distinct(names), names_of(registry.local));
    assert(absent.contains(names[unknown]));
}

/// An export of one name that is no local world fails with an error that
/// lists exactly that name.
pub proof fn lemma_export_unknown_name(registry: Registry, name: Seq<char>, overwrite: bool)
    requires
        !names_of(registry.local).contains(name),
    ensures
        registry.exported(seq![name], overwrite) == Err::<Plan, ErrorView>(
            ErrorView::NoMatchingWorlds { names: seq![name] },
        ),
{
    lemma_single(name, names_of(registry.local));
}

/// An import that asks for a name that `com.mojang` lacks fails, and copies
/// and removes nothing. The error lists the names asked for that
/// `com.mojang` lacks: all of them, each once, and none else.
pub proof fn lemma_import_unknown(registry: Registry, names: Seq<Seq<char>>)
    requires
        exists|i: int| 0 <= i < names.len() && !registry.target.contains(names[i]),
    ensures
        registry.imported(names) matches Err(ErrorView::NoMatchingWorlds { names: absent }) && {
            &&& absent.no_duplicates()
            &&& forall|name: Seq<char>|
                absent.contains(name) <==> names.contains(name) && !registry.target.contains(
                    name,
                )
        },
{
    let unknown = choose|i: int| 0 <= i < names.len() && !registry.target.contains(names[i]);
    lemma_distinct(names);
    lemma_missing(distinct(names), registry.target);
    assert(names.contains(names[unknown]));
    let absent = missing(distinct(names), registry.target);
    assert(absent.contains(names[unknown]));
}

/// One name is kept as it is, and is missing from a collection exactly if
/// the collection lacks it.
proof fn lemma_single(name: Seq<char>, held: Seq<Seq<char>>)
    ensures
        distinct(seq![name]) == seq![name],
        missing(seq![name], held) == if held.contains(name) {
            Seq::<Seq<char>>::empty()
        } else {
            seq![name]
        },
{
    reveal(Seq::filter);
    let one = seq![name];
    lemma_distinct_already(one);
    assert(one.drop_last() =~= Seq::empty());
    assert(Seq::<Seq<char>>::empty().push(name) =~= one);
    assert(one.last() == name);
    assert(missing(one.drop_last(), held) =~= Seq::empty());
}

/// An export without leave to overwrite stops at the first name that
/// `com.mojang` holds already: the plan ends in the error for that name and
/// holds a step for each name before it, none for the name itself and none
/// for those behind it. The names are taken each once, in the order given.
pub proof fn lemma_export_refused(registry: Registry, names: Seq<Seq<char>>, held: int)
    requires
        missing(distinct(names), names_of(registry.local)).len() == 0,
        0 <= held < distinct(names).len(),
        registry.target.contains(distinct(names)[held]),
        forall|i: int| 0 <= i < held ==> !registry.target.contains(#[trigger] distinct(names)[i]),
    ensures
        registry.exported(names, false) matches Ok(plan) && {
            &&& plan.halt == Some(
                ErrorView::ExportWithoutOverwriteAllowed { name: distinct(names)[held] },
            )
            &&& plan.steps.len() == held
            &&& forall|i: int|
                0 <= i < held ==> #[trigger] plan.steps[i] == (Step {
                    direction: Direction::Export,
                    from: registry.path_of(distinct(names)[i]),
                    to: joined(registry.dir, distinct(names)[i]),
                    replace: false,
                })
        },
{
    let decisions = registry.export_decisions(distinct(names), false);
    lemma_planned_upto(decisions, held);
}

/// An export of one local world that `com.mojang` holds already, without
/// leave to overwrite, is refused for that name: nothing is copied and
/// nothing removed.
pub proof fn lemma_export_refused_name(registry: Registry, name: Seq<char>)
    requires
        names_of(registry.local).contains(name),
        registry.target.contains(name),
    ensures
        registry.exported(seq![name], false) == Ok::<Plan, ErrorView>(
            Plan {
                steps: Seq::empty(),
                halt: Some(ErrorView::ExportWithoutOverwriteAllowed { name }),
            },
        ),
{
    lemma_single(name, names_of(registry.local));
    lemma_export_refused(registry, seq![name], 0);
    let plan = registry.exported(seq![name], false)->Ok_0;
    assert(plan.steps =~= Seq::empty());
}

/// An export with leave to overwrite refuses nothing: the plan holds one
/// step for each name, in order, from the local directory of that name to
/// its place below `com.mojang`; the step removes what is there exactly if
/// `com.mojang` holds the name. Each step is reported by one line that holds
/// both paths.
pub proof fn lemma_export_overwrites(registry: Registry, names: Seq<Seq<char>>)
    requires
        missing(distinct(names), names_of(registry.local)).len() == 0,
    ensures
        registry.exported(names, true) matches Ok(plan) && {
            &&& plan.halt is None
            &&& plan.steps.len() == distinct(names).len()
            &&& forall|i: int|
                0 <= i < plan.steps.len() ==> {
                    &&& #[trigger] plan.steps[i] == (Step {
                        direction: Direction::Export,
                        from: registry.path_of(distinct(names)[i]),
                        to: joined(registry.dir, distinct(names)[i]),
                        replace: registry.target.contains(distinct(names)[i]),
                    })
                    &&& plan.steps[i].log_line() == "exported "@ + plan.steps[i].from + " to "@
                        + plan.steps[i].to
                }
        },
{
    let wanted = distinct(names);
    let decisions = registry.export_decisions(wanted, true);
    lemma_planned_upto(decisions, wanted.len() as int);
}

/// An export of worlds that `com.mojang` does not hold refuses nothing,
/// with or without leave to overwrite: the plan holds one step for each
/// name, in order, from the local directory of that name to its place below
/// `com.mojang`, and no step removes anything. Each step is reported by one
/// line: `exported`, the path it read from, ` to `, and the path it wrote to.
pub proof fn lemma_export_to_free_names(
    registry: Registry,
    names: Seq<Seq<char>>,
    overwrite: bool,
)
    requires
        missing(distinct(names), names_of(registry.local)).len() == 0,
        forall|i: int|
            0 <= i < distinct(names).len() ==> !registry.target.contains(
                #[trigger] distinct(names)[i],
            ),
    ensures
        registry.exported(names, overwrite) matches Ok(plan) && {
            &&& plan.halt is None
            &&& plan.steps.len() == distinct(names).len()
            &&& forall|i: int|
                0 <= i < plan.steps.len() ==> {
                    &&& #[trigger] plan.steps[i] == (Step {
                        direction: Direction::Export,
                        from: registry.path_of(distinct(names)[i]),
                        to: joined(registry.dir, distinct(names)[i]),
                        replace: false,
                    })
                    &&& plan.steps[i].log_line() == "exported "@ + plan.steps[i].from + " to "@
                        + plan.steps[i].to
                }
        },
{
    let wanted = distinct(names);
    let decisions = registry.export_decisions(wanted, overwrite);
    lemma_planned_upto(decisions, wanted.len() as int);
}

/// An export of one local world that `com.mojang` holds already, with leave
/// to overwrite, is one step: what is there is removed, and the local
/// directory copied in its place.
pub proof fn lemma_export_overwrites_name(registry: Registry, name: Seq<char>)
    requires
        names_of(registry.local).contains(name),
        registry.target.contains(name),
    ensures
        registry.exported(seq![name], true) == Ok::<Plan, ErrorView>(
            Plan {
                steps: seq![
                    Step {
                        direction: Direction::Export,
                        from: registry.path_of(name),
                        to: joined(registry.dir, name),
                        replace: true,
                    },
                ],
                halt: None,
            },
        ),
{
    lemma_single(name, names_of(registry.local));
    lemma_export_overwrites(registry, seq![name]);
    let plan = registry.exported(seq![name], true)->Ok_0;
    assert(plan.steps =~= seq![plan.steps[0]]);
}

/// An import stops at the first name that no local world bears: the plan
/// ends in the error for that name and holds a step for each name before
/// it, none that reads or writes the world of that name, and none for those
/// behind it. The names are taken each once, in the order given.
pub proof fn lemma_import_unmatched(registry: Registry, names: Seq<Seq<char>>, unmatched: int)
    requires
        missing(distinct(names), registry.target).len() == 0,
        0 <= unmatched < distinct(names).len(),
        lookup(registry.local, distinct(names)[unmatched]) is None,
        forall|i: int|
            0 <= i < unmatched ==> lookup(registry.local, #[trigger] distinct(names)[i]) is Some,
    ensures
        registry.imported(names) matches Ok(plan) && {
            &&& plan.halt == Some(
                ErrorView::ImportWithoutLocalMatch { name: distinct(names)[unmatched] },
            )
            &&& plan.steps.len() == unmatched
            &&& forall|i: int|
                0 <= i < unmatched ==> #[trigger] plan.steps[i] == (Step {
                    direction: Direction::Import,
                    from: joined(registry.dir, distinct(names)[i]),
                    to: registry.path_of(distinct(names)[i]),
                    replace: true,
                })
        },
{
    let decisions = registry.import_decisions(distinct(names));
    lemma_planned_upto(decisions, unmatched);
}

/// An import of one world of `com.mojang` that no local world matches is
/// refused for that name: nothing is copied and nothing removed.
pub proof fn lemma_import_unmatched_name(registry: Registry, name: Seq<char>)
    requires
        registry.target.contains(name),
        !names_of(registry.local).contains(name),
    ensures
        registry.imported(seq![name]) == Ok::<Plan, ErrorView>(
            Plan { steps: Seq::empty(), halt: Some(ErrorView::ImportWithoutLocalMatch { name }) },
        ),
{
    lemma_single(name, registry.target);
    lemma_lookup(registry.local, name);
    if let Some(index) = lookup(registry.local, name) {
        assert(names_of(registry.local)[index] == name);
    }
    lemma_import_unmatched(registry, seq![name], 0);
    let plan = registry.imported(seq![name])->Ok_0;
    assert(plan.steps =~= Seq::empty());
}

/// Exporting a local world and importing it again brings it back to where
/// it came from: the export writes to a directory of `com.mojang` that ends
/// in the name of the world, the import reads what the export wrote, and
/// writes where the export read. `before` is the registry at the export,
/// `after` the one at the import, with the same local worlds and the
/// exported world now in `com.mojang`.
pub proof fn lemma_round_trip(
    before: Registry,
    after: Registry,
    name: Seq<char>,
    overwrite: bool,
)
    requires
        names_of(before.local).contains(name),
        overwrite || !before.target.contains(name),
        before.wf(),
        after.local == before.local,
        after.dir == before.dir,
        after.target.contains(name),
    ensures
        before.exported(seq![name], overwrite) matches Ok(out) && after.imported(seq![name])
            matches Ok(back) && {
            &&& out.halt is None
            &&& back.halt is None
            &&& out.steps.len() == 1
            &&& back.steps.len() == 1
            &&& out.steps[0].from == before.path_of(name)
            &&& final_segment(out.steps[0].to) == Some(name)
            &&& back.steps[0].from == out.steps[0].to
            &&& back.steps[0].to == out.steps[0].from
            &&& back.steps[0].replace
        },
{
    lemma_single(name, names_of(before.local));
    lemma_single(name, after.target);
    lemma_lookup(before.local, name);
    lemma_planned_upto(before.export_decisions(seq![name], overwrite), 1);
    lemma_planned_upto(after.import_decisions(seq![name]), 1);
    lemma_export_keeps_name(before, name, overwrite);
}

/// Where there are no local worlds, the listing has no branch for them: it
/// is the branch of `com.mojang` alone. Likewise without worlds in
/// `com.mojang`; and with no worlds at all the tree is empty.
pub proof fn lemma_list_omits_empty(registry: Registry)
    ensures
        registry.local.len() == 0 && registry.target.len() > 0 ==> registry.tree()
            == target_branch(registry.target),
        registry.local.len() > 0 && registry.target.len() == 0 ==> registry.tree()
            == local_branch(registry.local, false),
        registry.local.len() == 0 && registry.target.len() == 0 ==> registry.tree()
            == Seq::<char>::empty(),
{
    assert(Seq::<char>::empty() + target_branch(registry.target) =~= target_branch(
        registry.target,
    ));
    assert(local_branch(registry.local, false) + Seq::<char>::empty() =~= local_branch(
        registry.local,
        false,
    ));
    assert(Seq::<char>::empty() + Seq::<char>::empty() =~= Seq::<char>::empty());
}

/// What a step asks for, in order: the removal of its destination if it
/// replaces that, then the copy, then the report.
pub open spec fn actions_of(step: Step) -> Seq<ActionView> {
    if step.replace {
        seq![step.removal(), step.copy(), step.report()]
    } else {
        seq![step.copy(), step.report()]
    }
}

/// What the steps ask for, step after step.
pub open spec fn all_actions(steps: Seq<Step>) -> Seq<ActionView>
    decreases steps.len(),
{
    if steps.len() == 0 {
        Seq::empty()
    } else {
        actions_of(steps.first()) + all_actions(steps.drop_first())
    }
}

/// The actions that a run asks for while none of them fails, and how it
/// ends, if it ends within `moves` moves.
pub open spec fn unfailing(run: Run, moves: nat) -> (Seq<ActionView>, Option<Result<(), ErrorView>>)
    decreases moves,
{
    if moves == 0 {
        (Seq::empty(), None)
    } else {
        match run.advanced(None) {
            ProgressView::Done(ending) => (Seq::empty(), Some(ending)),
            ProgressView::Next(action, next) => {
                let (actions, ending) = unfailing(next, (moves - 1) as nat);
                (seq![action] + actions, ending)
            },
        }
    }
}

/// A run that waits for a report goes on as the run that is ready for the
/// next transfer does.
proof fn lemma_unfailing_after_report(reporting: Run, moves: nat)
    requires
        reporting.stage == Stage::Reporting,
    ensures
        unfailing(reporting, moves) == unfailing(
            Run { plan: reporting.plan, at: reporting.at + 1, stage: Stage::Ready },
            moves,
        ),
{
}

/// A run on which nothing fails asks for what the steps that are left ask
/// for, in their order, and ends as the plan ends.
pub proof fn lemma_run_follows_plan(run: Run, moves: nat)
    requires
        run.wf(),
        run.stage == Stage::Ready,
        moves > 3 * (run.plan.steps.len() - run.at),
    ensures
        unfailing(run, moves) == (
            all_actions(run.plan.steps.skip(run.at)),
            Some(run.plan.ending()),
        ),
    decreases run.plan.steps.len() - run.at,
{
    let steps = run.plan.steps;
    let left = steps.skip(run.at);
    if run.at == steps.len() {
        assert(all_actions(left) =~= Seq::empty());
    } else {
        let step = steps[run.at];
        let next = Run { plan: run.plan, at: run.at + 1, stage: Stage::Ready };
        let removing = run.waiting_for(Stage::Removing);
        let copying = run.waiting_for(Stage::Copying);
        let reporting = run.waiting_for(Stage::Reporting);
        assert(left.first() == step);
        assert(left.drop_first() =~= steps.skip(run.at + 1));
        let spent: nat = if step.replace {
            3
        } else {
            2
        };
        let after = (moves - spent) as nat;
        lemma_run_follows_plan(next, after);
        lemma_unfailing_after_report(reporting, after);
        let rest = all_actions(steps.skip(run.at + 1));
        let ending = Some(run.plan.ending());
        assert(unfailing(reporting, after) == (rest, ending));
        assert(unfailing(copying, after + 1) == (seq![step.report()] + rest, ending));
        if step.replace {
            assert(unfailing(removing, after + 2) == (
                seq![step.copy()] + (seq![step.report()] + rest),
                ending,
            ));
            assert(unfailing(run, moves) == (
                seq![step.removal()] + (seq![step.copy()] + (seq![step.report()] + rest)),
                ending,
            ));
            assert(seq![step.removal()] + (seq![step.copy()] + (seq![step.report()] + rest))
                =~= actions_of(step) + rest);
        } else {
            assert(unfailing(run, moves) == (
                seq![step.copy()] + (seq![step.report()] + rest),
                ending,
            ));
            assert(seq![step.copy()] + (seq![step.report()] + rest) =~= actions_of(step) + rest);
        }
    }
}

/// Carrying out a plan from its start, with nothing failing, asks for all
/// that its steps ask for, in their order, and ends as the plan ends.
pub proof fn lemma_started_run_follows_plan(plan: Plan, moves: nat)
    requires
        moves > 3 * plan.steps.len(),
    ensures
        unfailing(Run { plan, at: 0, stage: Stage::Ready }, moves) == (
            all_actions(plan.steps),
            Some(plan.ending()),
        ),
{
    lemma_run_follows_plan(Run { plan, at: 0, stage: Stage::Ready }, moves);
    assert(plan.steps.skip(0) =~= plan.steps);
}

/// A removal or a copy that fails ends the run at once, with an error that
/// holds why it failed and the paths of the transfer: nothing more is asked
/// for, neither for this transfer nor for those behind it.
pub proof fn lemma_failure_ends_run(run: Run, source: Seq<char>)
    requires
        run.wf(),
    ensures
        run.stage == Stage::Removing ==> run.advanced(Some(source)) == ProgressView::Done(
            Err(ErrorView::WorldAccessFailure { source, path: run.plan.steps[run.at].to }),
        ),
        run.stage == Stage::Copying ==> run.advanced(Some(source)) == ProgressView::Done(
            Err(
                ErrorView::WorldCopyFailure {
                    source,
                    from: run.plan.steps[run.at].from,
                    to: run.plan.steps[run.at].to,
                },
            ),
        ),
{
}

/// A transfer that replaces its destination asks for three things in this
/// order: the removal of the destination, the copy into it, and one line of
/// report that holds both paths. After them the run is ready for the next
/// transfer.
pub proof fn lemma_replacing_transfer(run: Run)
    requires
        run.wf(),
        run.stage == Stage::Ready,
        run.at < run.plan.steps.len(),
        run.plan.steps[run.at].replace,
    ensures
        ({
            let step = run.plan.steps[run.at];
            let removing = run.waiting_for(Stage::Removing);
            let copying = run.waiting_for(Stage::Copying);
            let reporting = run.waiting_for(Stage::Reporting);
            let next = Run { plan: run.plan, at: run.at + 1, stage: Stage::Ready };
            &&& run.advanced(None) == ProgressView::Next(
                ActionView::Remove { path: step.to },
                removing,
            )
            &&& removing.advanced(None) == ProgressView::Next(
                ActionView::Copy { from: step.from, to: step.to },
                copying,
            )
            &&& copying.advanced(None) == ProgressView::Next(
                ActionView::Report { line: step.log_line() },
                reporting,
            )
            &&& reporting.advanced(None) == next.advanced(None)
        }),
{
}

/// Exporting a world that `com.mojang` holds already, with leave to
/// overwrite, comes to three actions when nothing fails: what is there is
/// removed, the local directory is copied in its place, and one line that
/// holds both paths reports it. Then the run ends well.
pub proof fn lemma_overwriting_export_actions(registry: Registry, name: Seq<char>)
    requires
        names_of(registry.local).contains(name),
        registry.target.contains(name),
    ensures
        registry.exported(seq![name], true) matches Ok(plan) && unfailing(
            Run { plan, at: 0, stage: Stage::Ready },
            4,
        ) == (
            seq![
                ActionView::Remove { path: joined(registry.dir, name) },
                ActionView::Copy { from: registry.path_of(name), to: joined(registry.dir, name) },
                ActionView::Report {
                    line: "exported "@ + registry.path_of(name) + " to "@ + joined(
                        registry.dir,
                        name,
                    ),
                },
            ],
            Some(Ok::<(), ErrorView>(())),
        ),
{
    lemma_export_overwrites_name(registry, name);
    let plan = registry.exported(seq![name], true)->Ok_0;
    lemma_started_run_follows_plan(plan, 4);
    assert(plan.steps.drop_first() =~= Seq::empty());
    assert(all_actions(plan.steps) =~= actions_of(plan.steps[0])) by {
        reveal_with_fuel(all_actions, 2);
    }
}

/// Exporting a world that `com.mojang` holds already, without leave to
/// overwrite, comes to no action at all: the run ends at once, with the
/// error for that name.
pub proof fn lemma_refused_export_actions(registry: Registry, name: Seq<char>)
    requires
        names_of(registry.local).contains(name),
        registry.target.contains(name),
    ensures
        registry.exported(seq![name], false) matches Ok(plan) && unfailing(
            Run { plan, at: 0, stage: Stage::Ready },
            1,
        ) == (
            Seq::<ActionView>::empty(),
            Some(Err::<(), ErrorView>(ErrorView::ExportWithoutOverwriteAllowed { name })),
        ),
{
    lemma_export_refused_name(registry, name);
    let plan = registry.exported(seq![name], false)->Ok_0;
    lemma_started_run_follows_plan(plan, 1);
}

/// Importing a world that no local world matches comes to no action at all:
/// the run ends at once, with the error for that name, and the world in
/// `com.mojang` is neither read nor changed.
pub proof fn lemma_unmatched_import_actions(registry: Registry, name: Seq<char>)
    requires
        registry.target.contains(name),
        !names_of(registry.local).contains(name),
    ensures
        registry.imported(seq![name]) matches Ok(plan) && unfailing(
            Run { plan, at: 0, stage: Stage::Ready },
            1,
        ) == (
            Seq::<ActionView>::empty(),
            Some(Err::<(), ErrorView>(ErrorView::ImportWithoutLocalMatch { name })),
        ),
{
    lemma_import_unmatched_name(registry, name);
    let plan = registry.imported(seq![name])->Ok_0;
    lemma_started_run_follows_plan(plan, 1);
}

/// Exporting a world that `com.mojang` does not hold comes to two actions
/// when nothing fails: the local directory is copied to its place below
/// `com.mojang`, and one line reports it, which reads `exported`, the local
/// path, ` to `, and the path below `com.mojang`. Then the run ends well.
pub proof fn lemma_fresh_export_actions(registry: Registry, name: Seq<char>, overwrite: bool)
    requires
        names_of(registry.local).contains(name),
        !registry.target.contains(name),
    ensures
        registry.exported(seq![name], overwrite) matches Ok(plan) && unfailing(
            Run { plan, at: 0, stage: Stage::Ready },
            4,
        ) == (
            seq![
                ActionView::Copy { from: registry.path_of(name), to: joined(registry.dir, name) },
                ActionView::Report {
                    line: "exported "@ + registry.path_of(name) + " to "@ + joined(
                        registry.dir,
                        name,
                    ),
                },
            ],
            Some(Ok::<(), ErrorView>(())),
        ),
{
    lemma_single(name, names_of(registry.local));
    lemma_export_to_free_names(registry, seq![name], overwrite);
    let plan = registry.exported(seq![name], overwrite)->Ok_0;
    lemma_started_run_follows_plan(plan, 4);
    assert(plan.steps.drop_first() =~= Seq::empty());
    assert(all_actions(plan.steps) =~= actions_of(plan.steps[0])) by {
        reveal_with_fuel(all_actions, 2);
    }
}

/// Where `COM_MOJANG` is set, the fallback is never asked: the directory is
/// the same with any fallback and with none.
pub proof fn lemma_variable_before_fallback(
    com_mojang_var: Result<String, String>,
    fallback: Option<Fallback>,
    exists: Result<bool, String>,
)
    requires
        com_mojang_var is Ok,
    ensures
        located(com_mojang_var, fallback) == located(com_mojang_var, None),
        found_and_checked(com_mojang_var, fallback, exists) == found_and_checked(
            com_mojang_var,
            None,
            exists,
        ),
{
}

} // verus!
