//! The commands, and what each of them asks of the registry.

use vstd::prelude::*;
use crate::error::{Error, ErrorView};
use crate::text::texts;
use crate::transfer::{Plan, TransferPlan};
use crate::world::{Registry, WorldManager};

verus! {

/// What the user asks for.
#[derive(Debug, Clone, PartialEq, Eq)]
pub enum Commands {
    /// Copy local worlds to `com.mojang`.
    Export {
        /// The names of the worlds to export.
        names: Vec<String>,
        /// Whether worlds that `com.mojang` holds already may be replaced.
        overwrite: bool,
    },
    /// Copy worlds of `com.mojang` to the local worlds of the same names.
    Import {
        /// The names of the worlds to import.
        names: Vec<String>,
    },
    /// List the worlds on both sides.
    List,
}

/// What a command leaves to be done.
#[derive(Debug, Clone, PartialEq, Eq)]
pub enum Outcome {
    /// Worlds to copy.
    Transfers(TransferPlan),
    /// A text to show.
    Listing(String),
}

/// An [`Outcome`] as texts.
pub ghost enum OutcomeView {
    Transfers(Plan),
    Listing(Seq<char>),
}

impl View for Outcome {
    type V = OutcomeView;

    open spec fn view(&self) -> OutcomeView {
        match *self {
            Outcome::Transfers(plan) => OutcomeView::Transfers(plan@),
            Outcome::Listing(text) => OutcomeView::Listing(text@),
        }
    }
}

/// What a command came to, as texts.
pub open spec fn outcome_view(outcome: Result<Outcome, Error>) -> Result<OutcomeView, ErrorView> {
    match outcome {
        Ok(done) => Ok(done@),
        Err(error) => Err(error@),
    }
}

impl Commands {
    /// What the command comes to on `registry`.
    pub open spec fn applied(self, registry: Registry) -> Result<OutcomeView, ErrorView> {
        match self {
            Commands::Export { names, overwrite } => match registry.exported(
                texts(names@),
                overwrite,
            ) {
                Ok(plan) => Ok(OutcomeView::Transfers(plan)),
                Err(error) => Err(error),
            },
            Commands::Import { names } => match registry.imported(texts(names@)) {
                Ok(plan) => Ok(OutcomeView::Transfers(plan)),
                Err(error) => Err(error),
            },
            Commands::List => Ok(OutcomeView::Listing(registry.listing())),
        }
    }

    /// Runs the command on `manager`, which is used up by it.
    pub fn run(self, manager: WorldManager) -> (outcome: Result<Outcome, Error>)
        ensures
            outcome_view(outcome) == self.applied(manager@),
    {
        match self {
            Commands::Export { names, overwrite } => match manager.export(names, overwrite) {
                Ok(plan) => Ok(Outcome::Transfers(plan)),
                Err(error) => Err(error),
            },
            Commands::Import { names } => match manager.import(names) {
                Ok(plan) => Ok(Outcome::Transfers(plan)),
                Err(error) => Err(error),
            },
            Commands::List => Ok(Outcome::Listing(manager.list())),
        }
    }
}

} // verus!
