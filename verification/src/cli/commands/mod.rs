//! The decisions of each command, apart from the reading and writing around them, and
//! the running of the effects they plan.
pub mod commit;
pub mod init;
pub mod status;
pub mod validate;

use vstd::prelude::*;
use crate::cli::documents::effect_doc;
use crate::cli::output::{Printer, Rendered, RenderedView, by_mode, preview_lines};
use crate::domain::effect::Effect;
use crate::domain::error::{Error, ErrorView};

verus! {

/// What the running of effects asks for next.
#[derive(Debug)]
pub enum RunStep {
    /// Show this preview of an effect (a dry run).
    Show(Rendered),
    /// Carry out the effect at this position, then report how it went.
    Perform(usize),
    /// All is done: every effect was shown or carried out, or one failed with this
    /// error and nothing after it was run.
    Done(Result<(), Error>),
}

/// Runs planned effects in order, once each: in a dry run each is only shown; otherwise
/// each is carried out in turn, and the first that fails stops the run.
pub struct EffectRun {
    effects: Vec<Effect>,
    position: usize,
    dry_run: bool,
    awaiting: Option<usize>,
    failure: Option<Error>,
    succeeded: Ghost<Seq<int>>,
}

/// The view of an optional error.
pub open spec fn opt_error_view(e: Option<Error>) -> Option<ErrorView> {
    match e {
        Some(x) => Some(x@),
        None => None,
    }
}

impl EffectRun {
    /// The effects, in order.
    pub closed spec fn effects(&self) -> Seq<Effect> {
        self.effects@
    }

    /// How many effects have been handed out (shown or given to be carried out).
    pub closed spec fn position(&self) -> int {
        self.position as int
    }

    /// Whether this is a dry run.
    pub closed spec fn dry_run(&self) -> bool {
        self.dry_run
    }

    /// The effect being carried out, whose outcome is awaited.
    pub closed spec fn awaiting(&self) -> Option<int> {
        match self.awaiting {
            Some(i) => Some(i as int),
            None => None,
        }
    }

    /// The error an effect failed with, if one did.
    pub closed spec fn failure(&self) -> Option<ErrorView> {
        opt_error_view(self.failure)
    }

    /// The positions of the effects carried out successfully, in order.
    pub closed spec fn succeeded(&self) -> Seq<int> {
        self.succeeded@
    }

    /// The run's state is consistent: handed-out effects are a prefix; in a dry run none
    /// is carried out; otherwise the ones before the awaited or failed one all succeeded,
    /// in order.
    pub closed spec fn wf(&self) -> bool {
        &&& self.position <= self.effects@.len()
        &&& self.dry_run ==> self.awaiting is None && self.failure is None && self.succeeded@.len() == 0
        &&& !self.dry_run ==> {
            let done = if self.awaiting is Some || self.failure is Some {
                self.position - 1
            } else {
                self.position as int
            };
            &&& (self.awaiting is Some || self.failure is Some) ==> self.position > 0
            &&& !(self.awaiting is Some && self.failure is Some)
            &&& self.awaiting matches Some(i) ==> i == self.position - 1
            &&& self.succeeded@ == Seq::new(done as nat, |k: int| k)
        }
    }

    /// A dry run carries out nothing: at every step of it (the run keeps its flag and stays
    /// well-formed) no effect is awaited, none failed and none succeeded, so no ref is
    /// written and nothing is pushed; `next_step` only shows the effects, in order, and
    /// then ends with success. What a split reports is worked out before the run, with no
    /// use of the flag, so a dry run reports what a real run would.
    pub proof fn lemma_dry_run_carries_out_nothing(self)
        requires
            self.wf(),
            self.dry_run(),
        ensures
            self.awaiting() is None,
            self.failure() is None,
            self.succeeded().len() == 0,
    {
    }

    /// Start running effects.
    pub fn new(effects: Vec<Effect>, dry_run: bool) -> (r: Self)
        ensures
            r.wf(),
            r.effects() == effects@,
            r.position() == 0,
            r.dry_run() == dry_run,
            r.awaiting() is None,
            r.failure() is None,
            r.succeeded().len() == 0,
    {
        let r = EffectRun {
            effects,
            position: 0,
            dry_run,
            awaiting: None,
            failure: None,
            succeeded: Ghost(Seq::empty()),
        };
        assert(Seq::new(0nat, |k: int| k) =~= Seq::<int>::empty());
        r
    }

    /// The effect at a position.
    pub fn effect(&self, i: usize) -> (r: &Effect)
        requires
            i < self.effects().len(),
        ensures
            *r == self.effects()[i as int],
    {
        &self.effects[i]
    }

    /// The next thing to do. While an effect's outcome is awaited, it is asked for
    /// again; after a failure, or once every effect was handed out, the run is done. A
    /// dry run shows the next effect; otherwise the next effect is to be carried out, and
    /// every effect before it was carried out successfully.
    pub fn next_step(&mut self, printer: &Printer) -> (r: RunStep)
        requires
            old(self).wf(),
        ensures
            final(self).wf(),
            final(self).effects() == old(self).effects(),
            final(self).dry_run() == old(self).dry_run(),
            final(self).failure() == old(self).failure(),
            final(self).succeeded() == old(self).succeeded(),
            match old(self).awaiting() {
                Some(i) => r matches RunStep::Perform(j) && j == i && *final(self) == *old(self),
                None => match old(self).failure() {
                    Some(e) => r matches RunStep::Done(Err(x)) && x@ == e && final(self).position()
                        == old(self).position() && final(self).awaiting() is None,
                    None => if old(self).position() == old(self).effects().len() {
                        r matches RunStep::Done(Ok(_)) && final(self).position() == old(
                            self,
                        ).position() && final(self).awaiting() is None
                    } else if old(self).dry_run() {
                        r matches RunStep::Show(x) && x@ == by_mode(
                            printer.mode,
                            preview_lines(
                                old(self).effects()[old(self).position()],
                                printer.verbosity > 0,
                            ),
                            effect_doc(old(self).effects()[old(self).position()]),
                            true,
                        ) && final(self).position() == old(self).position() + 1
                            && final(self).awaiting() is None
                    } else {
                        &&& r matches RunStep::Perform(j) && j == old(self).position()
                        &&& final(self).position() == old(self).position() + 1
                        &&& final(self).awaiting() == Some(old(self).position())
                        &&& old(self).succeeded() == Seq::new(
                            old(self).position() as nat,
                            |k: int| k,
                        )
                    },
                },
            },
    {
        if let Some(i) = self.awaiting {
            return RunStep::Perform(i);
        }
        match &self.failure {
            Some(e) => {
                let err = copy_error(e);
                return RunStep::Done(Err(err));
            },
            None => {},
        }
        if self.position == self.effects.len() {
            return RunStep::Done(Ok(()));
        }
        let p = self.position;
        if self.dry_run {
            let shown = printer.print_effect_preview(&self.effects[p]);
            self.position = p + 1;
            RunStep::Show(shown)
        } else {
            self.position = p + 1;
            self.awaiting = Some(p);
            RunStep::Perform(p)
        }
    }

    /// Report how the awaited effect went (nothing happens when none is awaited): a
    /// success is recorded, a failure stops the run.
    pub fn report(&mut self, outcome: Result<(), Error>)
        requires
            old(self).wf(),
        ensures
            final(self).wf(),
            final(self).effects() == old(self).effects(),
            final(self).dry_run() == old(self).dry_run(),
            final(self).position() == old(self).position(),
            final(self).awaiting() is None,
            match old(self).awaiting() {
                Some(i) => match outcome {
                    Ok(_) => final(self).failure() is None && final(self).succeeded() == old(
                        self,
                    ).succeeded().push(i),
                    Err(e) => final(self).failure() == Some(e@) && final(self).succeeded()
                        == old(self).succeeded(),
                },
                None => final(self).failure() == old(self).failure() && final(self).succeeded()
                    == old(self).succeeded(),
            },
    {
        let i = match self.awaiting {
            Some(i) => i,
            None => {
                return;
            },
        };
        self.awaiting = None;
        match outcome {
            Ok(()) => {
                proof {
                    let s = self.succeeded@;
                    self.succeeded@ = s.push(i as int);
                    assert(Seq::new((self.position - 1) as nat, |k: int| k).push(i as int)
                        =~= Seq::new(self.position as nat, |k: int| k));
                }
            },
            Err(e) => {
                self.failure = Some(e);
            },
        }
    }
}

fn copy_error(e: &Error) -> (r: Error)
    ensures
        r@ == e@,
{
    crate::domain::error::copy_error(e)
}

} // verus!
