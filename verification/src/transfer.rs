//! Transfers of worlds between the local project and `com.mojang`, and
//! the plans that an export and an import make of them.

use vstd::prelude::*;
use vstd::string::*;
use crate::error::{Error, ErrorView, NoMatchingWorldsError};
use crate::text::{push_quoted, quoted, texts};
use crate::path::{join, joined};
use crate::world::{
    find_world, holds_name, lemma_lookup, lookup, names_of, worlds_of, LocalWorld, Registry,
    WorldManager,
};

verus! {

/// Which way a world goes.
#[derive(Debug, Clone, Copy, PartialEq, Eq, Structural)]
pub enum Direction {
    /// From the local project to `com.mojang`.
    Export,
    /// From `com.mojang` to the local project.
    Import,
}

/// One world to copy. The contents of `from` go into `to`, which is removed
/// with all it holds beforehand if `replace` is set.
#[derive(Debug, Clone, PartialEq, Eq)]
pub struct Transfer {
    pub direction: Direction,
    pub from: String,
    pub to: String,
    pub replace: bool,
}

/// A [`Transfer`] as texts.
pub ghost struct Step {
    pub direction: Direction,
    pub from: Seq<char>,
    pub to: Seq<char>,
    pub replace: bool,
}

impl View for Transfer {
    type V = Step;

    open spec fn view(&self) -> Step {
        Step { direction: self.direction, from: self.from@, to: self.to@, replace: self.replace }
    }
}

/// The views of a list of transfers, in order.
pub open spec fn steps_of(transfers: Seq<Transfer>) -> Seq<Step> {
    transfers.map_values(|t: Transfer| t@)
}

impl Step {
    /// The line that reports the transfer once it is done. An export is
    /// reported with its two paths as they are, an import with each of them
    /// between backticks.
    pub open spec fn log_line(self) -> Seq<char> {
        match self.direction {
            Direction::Export => "exported "@ + self.from + " to "@ + self.to,
            Direction::Import => "imported "@ + quoted(self.from) + " to "@ + quoted(self.to),
        }
    }
}

impl Transfer {
    /// The line that reports the transfer once it is done.
    pub fn log_line(&self) -> (line: String)
        ensures
            line@ == self@.log_line(),
    {
        match self.direction {
            Direction::Export => {
                let mut line = String::from_str("exported ");
                line.append(self.from.as_str());
                line.append(" to ");
                line.append(self.to.as_str());
                line
            },
            Direction::Import => {
                let mut line = String::from_str("imported ");
                push_quoted(&mut line, self.from.as_str());
                line.append(" to ");
                push_quoted(&mut line, self.to.as_str());
                line
            },
        }
    }

    /// The error for a destination that could not be removed.
    pub fn access_failure(&self, source: String) -> (error: Error)
        ensures
            error@ == (ErrorView::WorldAccessFailure { source: source@, path: self@.to }),
    {
        Error::WorldAccessFailure { source, path: self.to.clone() }
    }

    /// The error for a copy that failed.
    pub fn copy_failure(&self, source: String) -> (error: Error)
        ensures
            error@ == (ErrorView::WorldCopyFailure {
                source: source@,
                from: self@.from,
                to: self@.to,
            }),
    {
        Error::WorldCopyFailure { source, from: self.from.clone(), to: self.to.clone() }
    }
}

/// What an export or an import has to do: the transfers, in order, and after
/// the last of them the error that ends the run, if one does.
///
/// A transfer that fails ends the run as well; those before it stay done.
#[derive(Debug, Clone, PartialEq, Eq)]
pub struct TransferPlan {
    pub transfers: Vec<Transfer>,
    pub halt: Option<Error>,
}

/// A [`TransferPlan`] as texts.
pub ghost struct Plan {
    pub steps: Seq<Step>,
    pub halt: Option<ErrorView>,
}

impl View for TransferPlan {
    type V = Plan;

    open spec fn view(&self) -> Plan {
        Plan {
            steps: steps_of(self.transfers@),
            halt: match self.halt {
                Some(error) => Some(error@),
                None => None,
            },
        }
    }
}

/// What an export or an import came to, as texts.
pub open spec fn plan_view(outcome: Result<TransferPlan, Error>) -> Result<Plan, ErrorView> {
    match outcome {
        Ok(plan) => Ok(plan@),
        Err(error) => Err(error@),
    }
}

/// `names` with each name kept where it stands first.
pub open spec fn distinct(names: Seq<Seq<char>>) -> Seq<Seq<char>>
    decreases names.len(),
{
    if names.len() == 0 {
        Seq::empty()
    } else {
        let front = distinct(names.drop_last());
        if front.contains(names.last()) {
            front
        } else {
            front.push(names.last())
        }
    }
}

/// The names of `wanted` that `held` lacks, in order.
pub open spec fn missing(wanted: Seq<Seq<char>>, held: Seq<Seq<char>>) -> Seq<Seq<char>> {
    wanted.filter(|name: Seq<char>| !held.contains(name))
}

/// The plan that a row of decisions makes, one decision for each name: the
/// steps up to the first refusal, and that refusal.
pub open spec fn planned(decisions: Seq<Result<Step, ErrorView>>) -> Plan
    decreases decisions.len(),
{
    if decisions.len() == 0 {
        Plan { steps: Seq::empty(), halt: None }
    } else {
        let front = planned(decisions.drop_last());
        if front.halt is Some {
            front
        } else {
            match decisions.last() {
                Ok(step) => Plan { steps: front.steps.push(step), halt: None },
                Err(error) => Plan { steps: front.steps, halt: Some(error) },
            }
        }
    }
}

impl Registry {
    /// The local directory of the world called `name`.
    pub open spec fn path_of(self, name: Seq<char>) -> Seq<char>
        recommends
            lookup(self.local, name) is Some,
    {
        self.local[lookup(self.local, name).unwrap()].path
    }

    /// What exporting the local world `name` comes to: refused where
    /// `com.mojang` holds the name and nothing may be overwritten, else a
    /// copy into `com.mojang` that replaces what is there.
    pub open spec fn export_decision(self, name: Seq<char>, overwrite: bool) -> Result<
        Step,
        ErrorView,
    > {
        if self.target.contains(name) && !overwrite {
            Err(ErrorView::ExportWithoutOverwriteAllowed { name })
        } else {
            Ok(
                Step {
                    direction: Direction::Export,
                    from: self.path_of(name),
                    to: joined(self.dir, name),
                    replace: self.target.contains(name),
                },
            )
        }
    }

    /// What importing `name` from `com.mojang` comes to: refused where no
    /// local world bears the name, else a copy that replaces that world.
    pub open spec fn import_decision(self, name: Seq<char>) -> Result<Step, ErrorView> {
        match lookup(self.local, name) {
            Some(index) => Ok(
                Step {
                    direction: Direction::Import,
                    from: joined(self.dir, name),
                    to: self.local[index].path,
                    replace: true,
                },
            ),
            None => Err(ErrorView::ImportWithoutLocalMatch { name }),
        }
    }

    /// The decisions on exporting each of `names`.
    pub open spec fn export_decisions(self, names: Seq<Seq<char>>, overwrite: bool) -> Seq<
        Result<Step, ErrorView>,
    > {
        Seq::new(names.len(), |i: int| self.export_decision(names[i], overwrite))
    }

    /// The decisions on importing each of `names`.
    pub open spec fn import_decisions(self, names: Seq<Seq<char>>) -> Seq<Result<Step, ErrorView>> {
        Seq::new(names.len(), |i: int| self.import_decision(names[i]))
    }

    /// What an export of `names` comes to. Names given twice count once. If
    /// any of them is no local world, nothing is done and the error lists
    /// all of those.
    pub open spec fn exported(self, names: Seq<Seq<char>>, overwrite: bool) -> Result<
        Plan,
        ErrorView,
    > {
        let wanted = distinct(names);
        let absent = missing(wanted, names_of(self.local));
        if absent.len() > 0 {
            Err(ErrorView::NoMatchingWorlds { names: absent })
        } else {
            Ok(planned(self.export_decisions(wanted, overwrite)))
        }
    }

    /// What an import of `names` comes to. Names given twice count once. If
    /// `com.mojang` lacks any of them, nothing is done and the error lists
    /// all of those.
    pub open spec fn imported(self, names: Seq<Seq<char>>) -> Result<Plan, ErrorView> {
        let wanted = distinct(names);
        let absent = missing(wanted, self.target);
        if absent.len() > 0 {
            Err(ErrorView::NoMatchingWorlds { names: absent })
        } else {
            Ok(planned(self.import_decisions(wanted)))
        }
    }
}

/// Once a plan has come to a refusal, the decisions behind change nothing.
pub proof fn lemma_planned_sticky(
    decisions: Seq<Result<Step, ErrorView>>,
    more: Seq<Result<Step, ErrorView>>,
)
    requires
        planned(decisions).halt is Some,
    ensures
        planned(decisions + more) == planned(decisions),
    decreases more.len(),
{
    if more.len() == 0 {
        assert(decisions + more =~= decisions);
    } else {
        lemma_planned_sticky(decisions, more.drop_last());
        assert((decisions + more).drop_last() =~= decisions + more.drop_last());
    }
}

/// Where none of `wanted` is missing, `held` holds each of them.
pub proof fn lemma_none_missing(wanted: Seq<Seq<char>>, held: Seq<Seq<char>>, index: int)
    requires
        missing(wanted, held).len() == 0,
        0 <= index < wanted.len(),
    ensures
        held.contains(wanted[index]),
    decreases wanted.len(),
{
    reveal(Seq::filter);
    if index < wanted.len() - 1 {
        lemma_none_missing(wanted.drop_last(), held, index);
    }
}

/// `names` with each name kept where it stands first.
fn distinct_names(names: &Vec<String>) -> (wanted: Vec<String>)
    ensures
        texts(wanted@) == distinct(texts(names@)),
{
    let mut wanted: Vec<String> = Vec::new();
    let mut at: usize = 0;
    proof {
        assert(texts(names@).take(0) =~= Seq::empty());
        assert(texts(wanted@) =~= Seq::empty());
    }
    while at < names.len()
        invariant
            at <= names.len(),
            texts(wanted@) == distinct(texts(names@).take(at as int)),
        decreases names.len() - at,
    {
        proof {
            assert(texts(names@).take(at + 1).drop_last() =~= texts(names@).take(at as int));
        }
        if !holds_name(&wanted, &names[at]) {
            let ghost before = texts(wanted@);
            wanted.push(names[at].clone());
            proof {
                assert(texts(wanted@) =~= before.push(names[at as int]@));
            }
        }
        at = at + 1;
    }
    proof {
        assert(texts(names@).take(at as int) =~= texts(names@));
    }
    wanted
}

/// The names of `wanted` that `held` lacks, in order.
fn missing_names(wanted: &Vec<String>, held: &Vec<String>) -> (absent: Vec<String>)
    ensures
        texts(absent@) == missing(texts(wanted@), texts(held@)),
{
    let ghost all = texts(wanted@);
    let mut absent: Vec<String> = Vec::new();
    let mut at: usize = 0;
    proof {
        reveal(Seq::filter);
        assert(all.take(0) =~= Seq::empty());
        assert(texts(absent@) =~= Seq::empty());
    }
    while at < wanted.len()
        invariant
            at <= wanted.len(),
            all == texts(wanted@),
            texts(absent@) == missing(all.take(at as int), texts(held@)),
        decreases wanted.len() - at,
    {
        proof {
            reveal(Seq::filter);
            assert(all.take(at + 1).drop_last() =~= all.take(at as int));
        }
        if !holds_name(held, &wanted[at]) {
            let ghost before = texts(absent@);
            absent.push(wanted[at].clone());
            proof {
                assert(texts(absent@) =~= before.push(wanted[at as int]@));
            }
        }
        at = at + 1;
    }
    proof {
        assert(all.take(at as int) =~= all);
    }
    absent
}

/// The names of `worlds`, in order.
fn local_names(worlds: &Vec<LocalWorld>) -> (names: Vec<String>)
    ensures
        texts(names@) == names_of(worlds_of(worlds@)),
{
    let mut names: Vec<String> = Vec::new();
    let mut at: usize = 0;
    while at < worlds.len()
        invariant
            at <= worlds.len(),
            names.len() == at,
            forall|i: int| 0 <= i < at ==> (#[trigger] names[i])@ == worlds[i].name@,
        decreases worlds.len() - at,
    {
        names.push(worlds[at].name.clone());
        at = at + 1;
    }
    proof {
        assert(texts(names@) =~= names_of(worlds_of(worlds@)));
    }
    names
}

impl WorldManager {
    /// Plans the export of the local worlds called `names` to `com.mojang`,
    /// in the order the names are given.
    pub fn export(self, names: Vec<String>, overwrite: bool) -> (outcome: Result<
        TransferPlan,
        Error,
    >)
        ensures
            plan_view(outcome) == self@.exported(texts(names@), overwrite),
    {
        let local_worlds = self.local_worlds();
        let com_mojang_worlds = self.com_mojang_worlds();
        let com_mojang = self.com_mojang();
        let wanted = distinct_names(&names);
        let absent = missing_names(&wanted, &local_names(local_worlds));
        if absent.len() > 0 {
            return Err(Error::NoMatchingWorlds(NoMatchingWorldsError { names: absent }));
        }
        let ghost all = texts(wanted@);
        let ghost decisions = self@.export_decisions(all, overwrite);
        let mut transfers: Vec<Transfer> = Vec::new();
        let mut at: usize = 0;
        proof {
            assert(decisions.take(0) =~= Seq::empty());
            assert(steps_of(transfers@) =~= Seq::empty());
        }
        while at < wanted.len()
            invariant
                worlds_of(local_worlds@) == self@.local,
                texts(com_mojang_worlds@) == self@.target,
                com_mojang@ == self@.dir,
                at <= wanted.len(),
                all == texts(wanted@),
                all == distinct(texts(names@)),
                missing(all, names_of(self@.local)).len() == 0,
                decisions == self@.export_decisions(all, overwrite),
                planned(decisions.take(at as int)) == (Plan {
                    steps: steps_of(transfers@),
                    halt: None,
                }),
            decreases wanted.len() - at,
        {
            let name = &wanted[at];
            proof {
                assert(decisions.take(at + 1).drop_last() =~= decisions.take(at as int));
                assert(decisions =~= decisions.take(at + 1) + decisions.skip(at + 1));
                lemma_none_missing(all, names_of(self@.local), at as int);
                lemma_lookup(self@.local, name@);
            }
            let held = holds_name(com_mojang_worlds, name);
            if held && !overwrite {
                proof {
                    lemma_planned_sticky(decisions.take(at + 1), decisions.skip(at + 1));
                }
                return Ok(
                    TransferPlan {
                        transfers,
                        halt: Some(Error::ExportWithoutOverwriteAllowed { name: name.clone() }),
                    },
                );
            }
            let index = find_world(local_worlds, name).unwrap();
            let transfer = Transfer {
                direction: Direction::Export,
                from: local_worlds[index].path.clone(),
                to: join(com_mojang.as_str(), name.as_str()),
                replace: held,
            };
            let ghost before = steps_of(transfers@);
            transfers.push(transfer);
            proof {
                assert(steps_of(transfers@) =~= before.push(transfer@));
            }
            at = at + 1;
        }
        proof {
            assert(decisions.take(at as int) =~= decisions);
        }
        Ok(TransferPlan { transfers, halt: None })
    }

    /// Plans the import of the worlds called `names` from `com.mojang` into
    /// the local worlds of the same names, in the order the names are given.
    pub fn import(self, names: Vec<String>) -> (outcome: Result<TransferPlan, Error>)
        ensures
            plan_view(outcome) == self@.imported(texts(names@)),
    {
        let local_worlds = self.local_worlds();
        let com_mojang_worlds = self.com_mojang_worlds();
        let com_mojang = self.com_mojang();
        let wanted = distinct_names(&names);
        let absent = missing_names(&wanted, com_mojang_worlds);
        if absent.len() > 0 {
            return Err(Error::NoMatchingWorlds(NoMatchingWorldsError { names: absent }));
        }
        let ghost all = texts(wanted@);
        let ghost decisions = self@.import_decisions(all);
        let mut transfers: Vec<Transfer> = Vec::new();
        let mut at: usize = 0;
        proof {
            assert(decisions.take(0) =~= Seq::empty());
            assert(steps_of(transfers@) =~= Seq::empty());
        }
        while at < wanted.len()
            invariant
                worlds_of(local_worlds@) == self@.local,
                com_mojang@ == self@.dir,
                at <= wanted.len(),
                all == texts(wanted@),
                all == distinct(texts(names@)),
                missing(all, self@.target).len() == 0,
                decisions == self@.import_decisions(all),
                planned(decisions.take(at as int)) == (Plan {
                    steps: steps_of(transfers@),
                    halt: None,
                }),
            decreases wanted.len() - at,
        {
            let name = &wanted[at];
            proof {
                assert(decisions.take(at + 1).drop_last() =~= decisions.take(at as int));
                assert(decisions =~= decisions.take(at + 1) + decisions.skip(at + 1));
            }
            match find_world(local_worlds, name) {
                None => {
                    proof {
                        lemma_planned_sticky(decisions.take(at + 1), decisions.skip(at + 1));
                    }
                    return Ok(
                        TransferPlan {
                            transfers,
                            halt: Some(Error::ImportWithoutLocalMatch { name: name.clone() }),
                        },
                    );
                },
                Some(index) => {
                    let transfer = Transfer {
                        direction: Direction::Import,
                        from: join(com_mojang.as_str(), name.as_str()),
                        to: local_worlds[index].path.clone(),
                        replace: true,
                    };
                    let ghost before = steps_of(transfers@);
                    transfers.push(transfer);
                    proof {
                        assert(steps_of(transfers@) =~= before.push(transfer@));
                    }
                },
            }
            at = at + 1;
        }
        proof {
            assert(decisions.take(at as int) =~= decisions);
        }
        Ok(TransferPlan { transfers, halt: None })
    }
}

} // verus!
