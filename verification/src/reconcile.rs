//! Reconciliation: holding the registry against the directories on disk and
//! cloning what is missing.
//!
//! The rules are a state machine. It decides; whoever drives it does the
//! outside work. `Reconciler::next_action` says what is to be done now (look
//! for a repository, ask the user, clone), and `Reconciler::step` takes what
//! came of it. The projects come in the registry's order, one after the
//! other; each is looked for once, asked about at most once and cloned at
//! most once, and a clone that fails does not stop the batch.

use vstd::prelude::*;
use vstd::string::*;

use crate::address::ToUrl;
use crate::project::{Project, ProjectView, ToPath};

verus! {

/// What became of one project.
#[derive(Debug, PartialEq, Eq)]
pub enum Outcome {
    /// A repository stood in the project's directory.
    Present,
    /// None stood there, and the user declined the clone.
    Skipped,
    /// None stood there, and the clone succeeded.
    Cloned,
    /// None stood there, and the clone failed, for the reason given.
    CloneFailed(String),
}

/// An outcome as plain values.
pub enum OutcomeView {
    Present,
    Skipped,
    Cloned,
    CloneFailed(Seq<char>),
}

impl View for Outcome {
    type V = OutcomeView;

    open spec fn view(&self) -> OutcomeView {
        match self {
            Outcome::Present => OutcomeView::Present,
            Outcome::Skipped => OutcomeView::Skipped,
            Outcome::Cloned => OutcomeView::Cloned,
            Outcome::CloneFailed(reason) => OutcomeView::CloneFailed(reason@),
        }
    }
}

/// The outside work that the machine asks for.
#[derive(Debug, PartialEq, Eq)]
pub enum Action {
    /// See whether a repository stands at `path`; answer with `Event::Found`.
    Probe { path: String },
    /// Put `prompt` to the user; answer with `Event::Answered`.
    Ask { prompt: String },
    /// Clone `url` into `path`; answer with `Event::Fetched`.
    Fetch { url: String, path: String },
    /// Nothing: every project has its outcome.
    Finish,
}

/// An action as plain values.
pub enum ActionView {
    Probe { path: Seq<char> },
    Ask { prompt: Seq<char> },
    Fetch { url: Seq<char>, path: Seq<char> },
    Finish,
}

impl View for Action {
    type V = ActionView;

    open spec fn view(&self) -> ActionView {
        match self {
            Action::Probe { path } => ActionView::Probe { path: path@ },
            Action::Ask { prompt } => ActionView::Ask { prompt: prompt@ },
            Action::Fetch { url, path } => ActionView::Fetch { url: url@, path: path@ },
            Action::Finish => ActionView::Finish,
        }
    }
}

/// What came of the outside work.
#[derive(Debug, PartialEq, Eq)]
pub enum Event {
    /// Whether a repository stands in the directory.
    Found(bool),
    /// Whether the user agreed to the clone.
    Answered(bool),
    /// How the clone ended: well, or badly with a reason.
    Fetched(Result<(), String>),
}

/// An event as plain values.
pub enum EventView {
    Found(bool),
    Answered(bool),
    Fetched(Result<(), Seq<char>>),
}

impl View for Event {
    type V = EventView;

    open spec fn view(&self) -> EventView {
        match self {
            Event::Found(found) => EventView::Found(*found),
            Event::Answered(agreed) => EventView::Answered(*agreed),
            Event::Fetched(Ok(_)) => EventView::Fetched(Ok(())),
            Event::Fetched(Err(reason)) => EventView::Fetched(Err(reason@)),
        }
    }
}

/// What the machine waits for.
#[derive(Clone, Copy, Debug, PartialEq, Eq, Structural)]
pub enum Stage {
    /// The answer to a probe of the current project's directory.
    Probing,
    /// The user's answer about the current project.
    Asking,
    /// The end of the current project's clone.
    Fetching,
    /// Nothing: the batch is over.
    Finished,
}

/// What reconciling one project takes: the directory to look in, the
/// question to put if nothing is there, and the address to clone from, or
/// the reason why no clone can be tried.
#[derive(Debug, PartialEq, Eq)]
pub struct Plan {
    pub path: String,
    pub prompt: String,
    pub address: Result<String, String>,
}

/// A plan as plain values.
pub struct PlanView {
    pub path: Seq<char>,
    pub prompt: Seq<char>,
    pub address: Result<Seq<char>, Seq<char>>,
}

impl View for Plan {
    type V = PlanView;

    open spec fn view(&self) -> PlanView {
        PlanView {
            path: self.path@,
            prompt: self.prompt@,
            address: match self.address {
                Ok(url) => Ok(url@),
                Err(reason) => Err(reason@),
            },
        }
    }
}

/// The plan for `project` with its directory under `root`: its canonical
/// path, the question whether to clone it, and its remote address, or the
/// notice that none could be had.
pub open spec fn plan_of(project: ProjectView, root: Seq<char>) -> PlanView {
    PlanView {
        path: project.path_under(root),
        prompt: project.missing_prompt(),
        address: match project.address() {
            Some(url) => Ok(url),
            None => Err(project.failure_notice("url"@)),
        },
    }
}

/// The plans for `projects`, in their order.
pub open spec fn plans_of(projects: Seq<Project>, root: Seq<char>) -> Seq<PlanView> {
    Seq::new(projects.len(), |i: int| plan_of(projects[i]@, root))
}

/// The state of a batch as plain values: the plans of its projects, the
/// outcomes so far (one for each project that is done, in the projects'
/// order), what is waited for, and how many clones were asked for so far.
pub struct Batch {
    pub plans: Seq<PlanView>,
    pub report: Seq<OutcomeView>,
    pub stage: Stage,
    pub fetches: nat,
}

impl Batch {
    /// A batch at its start.
    pub open spec fn initial(plans: Seq<PlanView>) -> Batch {
        Batch {
            plans,
            report: Seq::empty(),
            stage: if plans.len() == 0 {
                Stage::Finished
            } else {
                Stage::Probing
            },
            fetches: 0,
        }
    }

    /// The plan of the project that the batch is at. It has a meaning while
    /// the batch is not over.
    pub open spec fn current(self) -> PlanView {
        self.plans[self.report.len() as int]
    }

    /// The states that a batch can be in.
    pub open spec fn well_formed(self) -> bool {
        &&& self.report.len() <= self.plans.len()
        &&& self.stage is Finished <==> self.report.len() == self.plans.len()
        &&& self.stage is Fetching ==> self.current().address is Ok
        &&& self.fetches <= self.report.len() + (if self.stage is Fetching {
            1nat
        } else {
            0nat
        })
    }

    /// The outside work that the batch waits for.
    pub open spec fn pending(self) -> ActionView {
        match self.stage {
            Stage::Probing => ActionView::Probe { path: self.current().path },
            Stage::Asking => ActionView::Ask { prompt: self.current().prompt },
            Stage::Fetching => ActionView::Fetch {
                url: self.current().address->Ok_0,
                path: self.current().path,
            },
            Stage::Finished => ActionView::Finish,
        }
    }

    /// `event` answers the work that the batch waits for.
    pub open spec fn accepts(self, event: EventView) -> bool {
        match (self.stage, event) {
            (Stage::Probing, EventView::Found(_)) => true,
            (Stage::Asking, EventView::Answered(_)) => true,
            (Stage::Fetching, EventView::Fetched(_)) => true,
            _ => false,
        }
    }

    /// The batch once the current project has its outcome: the next project
    /// is to be probed, or the batch is over.
    pub open spec fn settled(self, outcome: OutcomeView) -> Batch {
        Batch {
            report: self.report.push(outcome),
            stage: if self.report.len() + 1 == self.plans.len() {
                Stage::Finished
            } else {
                Stage::Probing
            },
            ..self
        }
    }

    /// The batch after `event`. A repository that is found settles the
    /// project as present; one that is missing leads to the question. A
    /// refusal settles it as skipped. Consent leads to the clone, unless the
    /// plan has no address, which settles the project as failed without a
    /// clone. The end of the clone settles it as cloned or as failed. An
    /// event that answers nothing changes nothing.
    pub open spec fn next(self, event: EventView) -> Batch {
        match (self.stage, event) {
            (Stage::Probing, EventView::Found(true)) => self.settled(OutcomeView::Present),
            (Stage::Probing, EventView::Found(false)) => Batch { stage: Stage::Asking, ..self },
            (Stage::Asking, EventView::Answered(false)) => self.settled(OutcomeView::Skipped),
            (Stage::Asking, EventView::Answered(true)) => match self.current().address {
                Ok(_) => Batch { stage: Stage::Fetching, fetches: self.fetches + 1, ..self },
                Err(reason) => self.settled(OutcomeView::CloneFailed(reason)),
            },
            (Stage::Fetching, EventView::Fetched(Ok(_))) => self.settled(OutcomeView::Cloned),
            (Stage::Fetching, EventView::Fetched(Err(reason))) => self.settled(
                OutcomeView::CloneFailed(reason),
            ),
            _ => self,
        }
    }

    /// The batch after a row of events, each taken in its turn.
    pub open spec fn run(self, events: Seq<EventView>) -> Batch
        decreases events.len(),
    {
        if events.len() == 0 {
            self
        } else {
            self.run(events.drop_last()).next(events.last())
        }
    }
}

/// The plans as plain values.
pub open spec fn plan_views(plans: Seq<Plan>) -> Seq<PlanView> {
    plans.map_values(|plan: Plan| plan@)
}

/// The outcomes as plain values.
pub open spec fn outcome_views(report: Seq<Outcome>) -> Seq<OutcomeView> {
    report.map_values(|outcome: Outcome| outcome@)
}

/// Makes the plan for `project` with its directory under `root`.
pub fn plan_for(project: &Project, root: &str) -> (plan: Plan)
    ensures
        plan@ == plan_of(project@, root@),
{
    Plan {
        path: project.to_path(root),
        prompt: project.missing_prompt(),
        address: match project.to_url() {
            Ok(url) => Ok(url),
            Err(_) => Err(project.failure_notice("url")),
        },
    }
}

/// A batch under way. Every batch that `new` or `from_plans` made, whatever
/// `step` has done to it since, is well formed.
pub struct Reconciler {
    plans: Vec<Plan>,
    report: Vec<Outcome>,
    stage: Stage,
    fetches: usize,
}

impl View for Reconciler {
    type V = Batch;

    closed spec fn view(&self) -> Batch {
        Batch {
            plans: plan_views(self.plans@),
            report: outcome_views(self.report@),
            stage: self.stage,
            fetches: self.fetches as nat,
        }
    }
}

impl Reconciler {
    /// A batch over `plans`, in their order.
    pub fn from_plans(plans: Vec<Plan>) -> (batch: Reconciler)
        ensures
            batch@ == Batch::initial(plan_views(plans@)),
            batch@.well_formed(),
    {
        let stage = if plans.len() == 0 {
            Stage::Finished
        } else {
            Stage::Probing
        };
        let batch = Reconciler { plans, report: Vec::new(), stage, fetches: 0 };
        assert(batch@.report =~= Seq::empty());
        batch
    }

    /// A batch over `projects`, in their order, with their directories under
    /// `root`.
    pub fn new(projects: Vec<Project>, root: &str) -> (batch: Reconciler)
        ensures
            batch@ == Batch::initial(plans_of(projects@, root@)),
            batch@.well_formed(),
    {
        let mut plans: Vec<Plan> = Vec::new();
        let mut i: usize = 0;
        while i < projects.len()
            invariant
                i <= projects.len(),
                plans.len() == i,
                plan_views(plans@) == plans_of(projects@, root@).take(i as int),
            decreases projects.len() - i,
        {
            let ghost earlier = plans@;
            let ghost before = plan_views(plans@);
            let plan = plan_for(&projects[i], root);
            plans.push(plan);
            assert forall|k: int| 0 <= k < i + 1 implies plan_views(plans@)[k] == plans_of(
                projects@,
                root@,
            )[k] by {
                if k < i {
                    assert(plans@[k] == earlier[k]);
                    assert(before[k] == earlier[k]@);
                    assert(before[k] == plans_of(projects@, root@).take(i as int)[k]);
                }
            }
            assert(plan_views(plans@) =~= plans_of(projects@, root@).take(i + 1));
            i += 1;
        }
        assert(plan_views(plans@) =~= plans_of(projects@, root@));
        Reconciler::from_plans(plans)
    }

    /// Whether every project has its outcome.
    pub fn is_finished(&self) -> (finished: bool)
        ensures
            finished == (self@.stage is Finished),
    {
        self.stage == Stage::Finished
    }

    /// How many clones the batch has asked for so far.
    pub fn fetches(&self) -> (fetches: usize)
        ensures
            fetches == self@.fetches,
    {
        self.fetches
    }

    /// The outcomes so far: one for each project that is done, in the
    /// projects' order.
    pub fn report(&self) -> (report: &Vec<Outcome>)
        ensures
            outcome_views(report@) == self@.report,
            report@.len() == self@.report.len(),
            forall|i: int| 0 <= i < report@.len() ==> (#[trigger] report@[i])@ == self@.report[i],
    {
        &self.report
    }

    /// Ends the batch and hands out the outcomes.
    pub fn into_report(self) -> (report: Vec<Outcome>)
        ensures
            outcome_views(report@) == self@.report,
            report@.len() == self@.report.len(),
            forall|i: int| 0 <= i < report@.len() ==> (#[trigger] report@[i])@ == self@.report[i],
    {
        self.report
    }

    /// The outside work that the batch waits for.
    pub fn next_action(&self) -> (action: Action)
        requires
            self@.well_formed(),
        ensures
            action@ == self@.pending(),
    {
        if self.stage == Stage::Finished {
            return Action::Finish;
        }
        let plan = &self.plans[self.report.len()];
        assert(self@.current() == plan@);
        match self.stage {
            Stage::Probing => Action::Probe { path: plan.path.clone() },
            Stage::Asking => Action::Ask { prompt: plan.prompt.clone() },
            _ => match &plan.address {
                Ok(url) => Action::Fetch { url: url.clone(), path: plan.path.clone() },
                // A batch waits for a clone only where the plan has an address.
                Err(_) => Action::Finish,
            },
        }
    }

    /// Gives the current project its outcome and moves on.
    fn settle(&mut self, outcome: Outcome)
        requires
            old(self)@.well_formed(),
            !(old(self)@.stage is Finished),
        ensures
            final(self)@ == old(self)@.settled(outcome@),
            final(self)@.well_formed(),
    {
        self.report.push(outcome);
        self.stage = if self.report.len() == self.plans.len() {
            Stage::Finished
        } else {
            Stage::Probing
        };
        assert(final(self)@.report =~= old(self)@.report.push(outcome@));
    }

    /// Takes what came of the outside work. Returns whether `event` answered
    /// what the batch waited for; if not, the batch is as it was.
    pub fn step(&mut self, event: Event) -> (accepted: bool)
        requires
            old(self)@.well_formed(),
        ensures
            accepted == old(self)@.accepts(event@),
            final(self)@ == old(self)@.next(event@),
            final(self)@.well_formed(),
    {
        match (self.stage, event) {
            (Stage::Probing, Event::Found(true)) => {
                self.settle(Outcome::Present);
                true
            },
            (Stage::Probing, Event::Found(false)) => {
                self.stage = Stage::Asking;
                true
            },
            (Stage::Asking, Event::Answered(false)) => {
                self.settle(Outcome::Skipped);
                true
            },
            (Stage::Asking, Event::Answered(true)) => {
                assert(self.fetches <= self.report.len() < self.plans.len());
                let plan = &self.plans[self.report.len()];
                assert(self@.current() == plan@);
                match &plan.address {
                    Ok(_) => {
                        self.stage = Stage::Fetching;
                        self.fetches = self.fetches + 1;
                    },
                    Err(reason) => {
                        let reason = reason.clone();
                        self.settle(Outcome::CloneFailed(reason));
                    },
                }
                true
            },
            (Stage::Fetching, Event::Fetched(Ok(_))) => {
                self.settle(Outcome::Cloned);
                true
            },
            (Stage::Fetching, Event::Fetched(Err(reason))) => {
                self.settle(Outcome::CloneFailed(reason));
                true
            },
            _ => false,
        }
    }
}

/// An event takes a batch that can be to a batch that can be, over the same
/// plans; it adds at most one outcome and asks for at most one more clone,
/// and the outcomes that stand are left as they are.
pub proof fn lemma_next_keeps_well_formed(batch: Batch, event: EventView)
    requires
        batch.well_formed(),
    ensures
        batch.next(event).well_formed(),
        batch.next(event).plans == batch.plans,
        batch.report.is_prefix_of(batch.next(event).report),
        batch.next(event).report.len() <= batch.report.len() + 1,
        batch.fetches <= batch.next(event).fetches <= batch.fetches + 1,
        !batch.accepts(event) ==> batch.next(event) == batch,
{
    assert(batch.report.is_prefix_of(batch.report));
    assert(batch.report.is_prefix_of(batch.report.push(OutcomeView::Present)));
}

/// A clone is asked for only after consent: the batch waits for a clone
/// after `event` only if it waited for the user's answer before, the answer
/// was yes, and the plan has an address, which is the one to clone from.
pub proof fn lemma_fetch_needs_consent(batch: Batch, event: EventView)
    requires
        batch.well_formed(),
        batch.accepts(event),
        batch.next(event).pending() is Fetch,
    ensures
        batch.stage is Asking,
        event == EventView::Answered(true),
        batch.current().address is Ok,
        batch.next(event).fetches == batch.fetches + 1,
        batch.next(event).pending() == (ActionView::Fetch {
            url: batch.current().address->Ok_0,
            path: batch.current().path,
        }),
{
}

/// Where every directory holds its repository, nothing is cloned and
/// nothing is asked: after `k` probes that found a repository the first `k`
/// projects are present, no clone was asked for, and the batch waits for the
/// next probe, or is over once every project is done. This holds of every
/// batch over such a registry, the first and each one after it.
pub proof fn lemma_all_present(plans: Seq<PlanView>, events: Seq<EventView>)
    requires
        events.len() <= plans.len(),
        forall|i: int| 0 <= i < events.len() ==> events[i] == EventView::Found(true),
    ensures
        ({
            let batch = Batch::initial(plans).run(events);
            &&& batch.well_formed()
            &&& batch.plans == plans
            &&& batch.report == Seq::new(events.len(), |i: int| OutcomeView::Present)
            &&& batch.fetches == 0
            &&& batch.pending() == if events.len() == plans.len() {
                ActionView::Finish
            } else {
                ActionView::Probe { path: plans[events.len() as int].path }
            }
        }),
    decreases events.len(),
{
    if events.len() > 0 {
        let shorter = events.drop_last();
        lemma_all_present(plans, shorter);
        let before = Batch::initial(plans).run(shorter);
        let after = before.next(events.last());
        assert(Batch::initial(plans).run(events) == after);
        assert(after.report =~= Seq::new(events.len(), |i: int| OutcomeView::Present));
    } else {
        assert(Batch::initial(plans).report =~= Seq::new(0, |i: int| OutcomeView::Present));
    }
}

/// Whatever comes in, a batch that can be stays one, keeps its plans and
/// their order, keeps the outcomes it has given, and asks for no more clones
/// than events came in.
pub proof fn lemma_run_keeps_well_formed(batch: Batch, events: Seq<EventView>)
    requires
        batch.well_formed(),
    ensures
        batch.run(events).well_formed(),
        batch.run(events).plans == batch.plans,
        batch.report.is_prefix_of(batch.run(events).report),
        batch.run(events).report.len() <= batch.report.len() + events.len(),
        batch.fetches <= batch.run(events).fetches <= batch.fetches + events.len(),
    decreases events.len(),
{
    if events.len() > 0 {
        lemma_run_keeps_well_formed(batch, events.drop_last());
        lemma_next_keeps_well_formed(batch.run(events.drop_last()), events.last());
    } else {
        assert(batch.report.is_prefix_of(batch.report));
    }
}

/// The outcome that the answers of the outside give to a project with the
/// plan `plan`: present where a repository was found; else skipped where the
/// user declined; else failed where the plan has no address or the clone
/// failed; else cloned. `agreed` counts only where nothing was found,
/// `fetched` only where the user agreed and the plan has an address.
pub open spec fn outcome_of(
    plan: PlanView,
    found: bool,
    agreed: bool,
    fetched: Result<(), Seq<char>>,
) -> OutcomeView {
    if found {
        OutcomeView::Present
    } else if !agreed {
        OutcomeView::Skipped
    } else {
        match (plan.address, fetched) {
            (Err(reason), _) => OutcomeView::CloneFailed(reason),
            (Ok(_), Ok(_)) => OutcomeView::Cloned,
            (Ok(_), Err(reason)) => OutcomeView::CloneFailed(reason),
        }
    }
}

/// The events that the batch takes for a project under those answers: the
/// probe's, then the user's if nothing was found, then the clone's if the
/// user agreed and the plan has an address.
pub open spec fn events_of(
    plan: PlanView,
    found: bool,
    agreed: bool,
    fetched: Result<(), Seq<char>>,
) -> Seq<EventView> {
    if found {
        seq![EventView::Found(true)]
    } else if !agreed {
        seq![EventView::Found(false), EventView::Answered(false)]
    } else if plan.address is Err {
        seq![EventView::Found(false), EventView::Answered(true)]
    } else {
        seq![EventView::Found(false), EventView::Answered(true), EventView::Fetched(fetched)]
    }
}

/// One project, from its probe to its outcome: a batch that waits for a
/// probe gives the current project the outcome that the answers call for and
/// goes on to the next project. It has asked for one clone more exactly where
/// nothing was found, the user agreed and the plan has an address.
pub proof fn lemma_project_outcome(
    batch: Batch,
    found: bool,
    agreed: bool,
    fetched: Result<(), Seq<char>>,
)
    requires
        batch.well_formed(),
        batch.stage is Probing,
    ensures
        batch.run(events_of(batch.current(), found, agreed, fetched)) == (Batch {
            fetches: if !found && agreed && batch.current().address is Ok {
                batch.fetches + 1
            } else {
                batch.fetches
            },
            ..batch.settled(outcome_of(batch.current(), found, agreed, fetched))
        }),
{
    let events = events_of(batch.current(), found, agreed, fetched);
    let empty = Seq::<EventView>::empty();
    assert(batch.run(empty) == batch);
    if events.len() == 1 {
        assert(events.drop_last() =~= empty);
    } else if events.len() == 2 {
        let one = events.drop_last();
        assert(one.drop_last() =~= empty);
        assert(batch.run(one) == batch.next(one.last()));
    } else {
        let two = events.drop_last();
        let one = two.drop_last();
        assert(one.drop_last() =~= empty);
        assert(batch.run(one) == batch.next(one.last()));
        assert(batch.run(two) == batch.run(one).next(two.last()));
    }
}

} // verus!
