//! One update pass over all targets, as a state machine: the caller performs
//! each action that `Run::step` hands out against the registrar and hands
//! back the result as the next event.

use crate::error::{ClientError, TargetError};
use crate::label::{derive_host_label, host_label_of, under_domain};
use crate::matcher::Target;
use crate::plan::{lemma_plan_idempotent, plan_spec, plan_writes, written, DnsRecord, Write};
use crate::resolver::{resolve_spec, DomainCache, RegistrarDomain};
use vstd::prelude::*;

verus! {

/// How one target ended.
#[derive(Clone, Copy, Debug, PartialEq, Eq, Structural)]
pub enum Outcome {
    /// The host had no record; one was created.
    Created,
    /// `count` stale records of the host were updated.
    Updated { count: usize },
    /// Every record of the host already held the target address.
    AlreadyCurrent,
    /// Listing the host's records failed; nothing was written.
    Skipped { cause: ClientError },
    /// The target was abandoned.
    Failed { cause: TargetError },
}

/// Where the run stands.
pub enum Phase {
    /// Not started.
    Idle,
    /// Waiting for the registrar's domain listing.
    AwaitDomains,
    /// Waiting for the records of `host` in domain `domain_id`.
    AwaitRecords { domain_id: i32, host: String },
    /// Waiting for the result of write `next` of `writes`.
    Writing { domain_id: i32, host: String, writes: Vec<Write>, next: usize },
    /// Every target has been dealt with.
    Done,
}

/// What the registrar answered to the last action.
pub enum Event {
    /// The first event of a run.
    Start,
    DomainsListed(Result<Vec<RegistrarDomain>, ClientError>),
    RecordsListed(Result<Vec<DnsRecord>, ClientError>),
    WriteDone(Result<(), ClientError>),
}

/// The next call to make to the registrar.
pub enum Action {
    ListDomains,
    ListRecords { domain_id: i32, host: String },
    CreateRecord { domain_id: i32, host: String, data: String },
    UpdateRecord { domain_id: i32, record_id: i64, host: String, data: String },
    /// The run is over; nothing more to do.
    Finished,
}

pub ghost enum PhaseV {
    Idle,
    AwaitDomains,
    AwaitRecords { domain_id: i32, host: Seq<char> },
    Writing { domain_id: i32, host: Seq<char>, writes: Seq<Write>, next: nat },
    Done,
}

pub ghost enum EventV {
    Start,
    DomainsListed(Result<Seq<RegistrarDomain>, ClientError>),
    RecordsListed(Result<Seq<DnsRecord>, ClientError>),
    WriteDone(Result<(), ClientError>),
}

pub ghost enum ActionV {
    ListDomains,
    ListRecords { domain_id: i32, host: Seq<char> },
    CreateRecord { domain_id: i32, host: Seq<char>, data: Seq<char> },
    UpdateRecord { domain_id: i32, record_id: i64, host: Seq<char>, data: Seq<char> },
    Finished,
}

/// The state of a run: the targets, the domain cache, the index of the
/// current target, the phase, and the outcome of each target before it.
pub ghost struct RunV {
    pub targets: Seq<Target>,
    pub loaded: bool,
    pub domains: Seq<RegistrarDomain>,
    pub pos: nat,
    pub phase: PhaseV,
    pub outcomes: Seq<Outcome>,
}

impl View for Phase {
    type V = PhaseV;

    open spec fn view(&self) -> PhaseV {
        match self {
            Phase::Idle => PhaseV::Idle,
            Phase::AwaitDomains => PhaseV::AwaitDomains,
            Phase::AwaitRecords { domain_id, host } => PhaseV::AwaitRecords {
                domain_id: *domain_id,
                host: host@,
            },
            Phase::Writing { domain_id, host, writes, next } => PhaseV::Writing {
                domain_id: *domain_id,
                host: host@,
                writes: writes@,
                next: *next as nat,
            },
            Phase::Done => PhaseV::Done,
        }
    }
}

impl View for Event {
    type V = EventV;

    open spec fn view(&self) -> EventV {
        match self {
            Event::Start => EventV::Start,
            Event::DomainsListed(Ok(v)) => EventV::DomainsListed(Ok(v@)),
            Event::DomainsListed(Err(e)) => EventV::DomainsListed(Err(*e)),
            Event::RecordsListed(Ok(v)) => EventV::RecordsListed(Ok(v@)),
            Event::RecordsListed(Err(e)) => EventV::RecordsListed(Err(*e)),
            Event::WriteDone(r) => EventV::WriteDone(*r),
        }
    }
}

impl View for Action {
    type V = ActionV;

    open spec fn view(&self) -> ActionV {
        match self {
            Action::ListDomains => ActionV::ListDomains,
            Action::ListRecords { domain_id, host } => ActionV::ListRecords {
                domain_id: *domain_id,
                host: host@,
            },
            Action::CreateRecord { domain_id, host, data } => ActionV::CreateRecord {
                domain_id: *domain_id,
                host: host@,
                data: data@,
            },
            Action::UpdateRecord { domain_id, record_id, host, data } => ActionV::UpdateRecord {
                domain_id: *domain_id,
                record_id: *record_id,
                host: host@,
                data: data@,
            },
            Action::Finished => ActionV::Finished,
        }
    }
}

/// The registrar domain id and host label of target `t`, or why there are none.
pub open spec fn start_spec(doms: Seq<RegistrarDomain>, t: Target) -> Result<
    (i32, Seq<char>),
    TargetError,
> {
    match resolve_spec(doms, t.domain@) {
        Err(e) => Err(e),
        Ok(i) => if under_domain(t.fqdn@, doms[i].name@) {
            Ok((doms[i].id, host_label_of(t.fqdn@, doms[i].name@)))
        } else {
            Err(TargetError::SuffixMismatch)
        },
    }
}

/// From target `m.pos` on: record the targets that cannot start as failed,
/// and ask for what the first one that can start needs (the domain listing
/// where it is not loaded yet, else its records).
pub open spec fn advance_spec(m: RunV) -> (RunV, ActionV)
    decreases m.targets.len() - m.pos,
{
    if m.pos >= m.targets.len() {
        (RunV { phase: PhaseV::Done, ..m }, ActionV::Finished)
    } else if !m.loaded {
        (RunV { phase: PhaseV::AwaitDomains, ..m }, ActionV::ListDomains)
    } else {
        match start_spec(m.domains, m.targets[m.pos as int]) {
            Err(e) => advance_spec(
                RunV {
                    pos: m.pos + 1,
                    outcomes: m.outcomes.push(Outcome::Failed { cause: e }),
                    ..m
                },
            ),
            Ok((id, host)) => (
                RunV { phase: PhaseV::AwaitRecords { domain_id: id, host }, ..m },
                ActionV::ListRecords { domain_id: id, host },
            ),
        }
    }
}

/// Close the current target with `o` and go on with the next.
pub open spec fn finish_spec(m: RunV, o: Outcome) -> (RunV, ActionV) {
    advance_spec(RunV { pos: m.pos + 1, outcomes: m.outcomes.push(o), ..m })
}

/// The call that performs `w` for the current target.
pub open spec fn write_action(w: Write, id: i32, host: Seq<char>, data: Seq<char>) -> ActionV {
    match w {
        Write::Create => ActionV::CreateRecord { domain_id: id, host, data },
        Write::Update { record_id } => ActionV::UpdateRecord {
            domain_id: id,
            record_id,
            host,
            data,
        },
    }
}

/// The outcome of a target whose writes `ws` all succeeded.
pub open spec fn written_outcome(ws: Seq<Write>) -> Outcome {
    if ws.len() == 1 && ws[0] == Write::Create {
        Outcome::Created
    } else {
        Outcome::Updated { count: ws.len() as usize }
    }
}

/// The action that the run waits on the answer to.
pub open spec fn pending(m: RunV) -> ActionV {
    match m.phase {
        PhaseV::AwaitDomains => ActionV::ListDomains,
        PhaseV::AwaitRecords { domain_id, host } => ActionV::ListRecords { domain_id, host },
        PhaseV::Writing { domain_id, host, writes, next } => write_action(
            writes[next as int],
            domain_id,
            host,
            m.targets[m.pos as int].data@,
        ),
        _ => ActionV::Finished,
    }
}

/// One transition: the next state, and the next action. An event that does
/// not answer the pending action leaves the state as it is and asks for the
/// pending action again; a run that is done stays done.
pub open spec fn step_spec(m: RunV, ev: EventV) -> (RunV, ActionV) {
    match m.phase {
        PhaseV::Idle => advance_spec(m),
        PhaseV::AwaitDomains => match ev {
            EventV::DomainsListed(Ok(list)) => advance_spec(
                RunV { loaded: true, domains: list, ..m },
            ),
            EventV::DomainsListed(Err(e)) => finish_spec(
                m,
                Outcome::Failed { cause: TargetError::Client(e) },
            ),
            _ => (m, pending(m)),
        },
        PhaseV::AwaitRecords { domain_id, host } => match ev {
            EventV::RecordsListed(Ok(recs)) => {
                let ws = plan_spec(recs, m.targets[m.pos as int].data@);
                if ws.len() == 0 {
                    finish_spec(m, Outcome::AlreadyCurrent)
                } else {
                    (
                        RunV {
                            phase: PhaseV::Writing { domain_id, host, writes: ws, next: 0 },
                            ..m
                        },
                        write_action(ws[0], domain_id, host, m.targets[m.pos as int].data@),
                    )
                }
            },
            EventV::RecordsListed(Err(e)) => finish_spec(m, Outcome::Skipped { cause: e }),
            _ => (m, pending(m)),
        },
        PhaseV::Writing { domain_id, host, writes, next } => match ev {
            EventV::WriteDone(Ok(())) => if next + 1 < writes.len() {
                (
                    RunV {
                        phase: PhaseV::Writing { domain_id, host, writes, next: next + 1 },
                        ..m
                    },
                    write_action(
                        writes[next + 1 as int],
                        domain_id,
                        host,
                        m.targets[m.pos as int].data@,
                    ),
                )
            } else {
                finish_spec(m, written_outcome(writes))
            },
            EventV::WriteDone(Err(e)) => finish_spec(
                m,
                Outcome::Failed { cause: TargetError::Client(e) },
            ),
            _ => (m, pending(m)),
        },
        PhaseV::Done => (m, ActionV::Finished),
    }
}

/// States that a run can reach.
pub open spec fn run_wf(m: RunV) -> bool {
    &&& m.pos <= m.targets.len()
    &&& m.outcomes.len() == m.pos
    &&& m.targets.len() <= usize::MAX
    &&& match m.phase {
        PhaseV::Idle => m.pos == 0,
        PhaseV::AwaitDomains => m.pos < m.targets.len(),
        PhaseV::AwaitRecords { .. } => m.pos < m.targets.len(),
        PhaseV::Writing { writes, next, .. } => m.pos < m.targets.len() && next < writes.len()
            && writes.len() <= usize::MAX,
        PhaseV::Done => m.pos == m.targets.len(),
    }
}

/// One update pass over a list of targets.
pub struct Run {
    targets: Vec<Target>,
    cache: DomainCache,
    pos: usize,
    phase: Phase,
    outcomes: Vec<Outcome>,
}

impl View for Run {
    type V = RunV;

    closed spec fn view(&self) -> RunV {
        RunV {
            targets: self.targets@,
            loaded: self.cache.spec_loaded(),
            domains: self.cache.spec_domains(),
            pos: self.pos as nat,
            phase: self.phase@,
            outcomes: self.outcomes@,
        }
    }
}

fn start_target(cache: &DomainCache, t: &Target) -> (r: Result<(i32, String), TargetError>)
    ensures
        r matches Ok((id, h)) ==> start_spec(cache.spec_domains(), *t) == Ok::<
            (i32, Seq<char>),
            TargetError,
        >((id, h@)),
        r matches Err(e) ==> start_spec(cache.spec_domains(), *t) == Err::<
            (i32, Seq<char>),
            TargetError,
        >(e),
{
    match cache.resolve(t.domain.as_str()) {
        Err(e) => Err(e),
        Ok(d) => match derive_host_label(t.fqdn.as_str(), d.name.as_str()) {
            Err(e) => Err(e),
            Ok(h) => Ok((d.id, h)),
        },
    }
}

fn action_for(w: Write, id: i32, host: &String, data: &String) -> (r: Action)
    ensures
        r@ == write_action(w, id, host@, data@),
{
    match w {
        Write::Create => Action::CreateRecord { domain_id: id, host: host.clone(), data: data.clone() },
        Write::Update { record_id } => Action::UpdateRecord {
            domain_id: id,
            record_id,
            host: host.clone(),
            data: data.clone(),
        },
    }
}

impl Run {
    /// A run over `targets`, not started.
    pub fn new(targets: Vec<Target>) -> (r: Run)
        ensures
            r@.targets == targets@,
            !r@.loaded,
            r@.pos == 0,
            r@.phase == PhaseV::Idle,
            r@.outcomes == Seq::<Outcome>::empty(),
            run_wf(r@),
    {
        let _n = targets.len();
        Run {
            targets,
            cache: DomainCache::new(),
            pos: 0,
            phase: Phase::Idle,
            outcomes: Vec::new(),
        }
    }

    /// The outcome of each target dealt with so far, in target order.
    pub fn outcomes(&self) -> (r: &Vec<Outcome>)
        ensures
            r@ == self@.outcomes,
    {
        &self.outcomes
    }

    /// The targets of the run.
    pub fn targets(&self) -> (r: &Vec<Target>)
        ensures
            r@ == self@.targets,
    {
        &self.targets
    }

    fn advance(&mut self) -> (r: Action)
        requires
            old(self)@.pos <= old(self)@.targets.len(),
            old(self)@.outcomes.len() == old(self)@.pos,
            old(self)@.targets.len() <= usize::MAX,
        ensures
            (final(self)@, r@) == advance_spec(old(self)@),
            run_wf(final(self)@),
    {
        let ghost goal = advance_spec(self@);
        loop
            invariant
                self@.pos <= self@.targets.len(),
                self@.outcomes.len() == self@.pos,
                self@.targets.len() <= usize::MAX,
                advance_spec(self@) == goal,
                goal == advance_spec(old(self)@),
            decreases self.targets.len() - self.pos,
        {
            if self.pos >= self.targets.len() {
                self.phase = Phase::Done;
                return Action::Finished;
            }
            if !self.cache.is_loaded() {
                self.phase = Phase::AwaitDomains;
                return Action::ListDomains;
            }
            match start_target(&self.cache, &self.targets[self.pos]) {
                Err(e) => {
                    self.outcomes.push(Outcome::Failed { cause: e });
                    self.pos = self.pos + 1;
                },
                Ok((id, host)) => {
                    let h = host.clone();
                    self.phase = Phase::AwaitRecords { domain_id: id, host };
                    return Action::ListRecords { domain_id: id, host: h };
                },
            }
        }
    }

    fn finish(&mut self, o: Outcome) -> (r: Action)
        requires
            run_wf(old(self)@),
            old(self)@.pos < old(self)@.targets.len(),
        ensures
            (final(self)@, r@) == finish_spec(old(self)@, o),
            run_wf(final(self)@),
    {
        self.outcomes.push(o);
        self.pos = self.pos + 1;
        self.advance()
    }

    /// Takes the answer to the last action and returns the next action (see
    /// `step_spec`).
    pub fn step(&mut self, ev: Event) -> (r: Action)
        requires
            run_wf(old(self)@),
        ensures
            (final(self)@, r@) == step_spec(old(self)@, ev@),
            run_wf(final(self)@),
    {
        let mut cur = Phase::Done;
        core::mem::swap(&mut self.phase, &mut cur);
        match cur {
            Phase::Idle => {
                self.phase = Phase::Idle;
                self.advance()
            },
            Phase::AwaitDomains => match ev {
                Event::DomainsListed(Ok(list)) => {
                    self.phase = Phase::AwaitDomains;
                    self.cache.load(list);
                    self.advance()
                },
                Event::DomainsListed(Err(e)) => {
                    self.phase = Phase::AwaitDomains;
                    self.finish(Outcome::Failed { cause: TargetError::Client(e) })
                },
                _ => {
                    self.phase = Phase::AwaitDomains;
                    Action::ListDomains
                },
            },
            Phase::AwaitRecords { domain_id, host } => match ev {
                Event::RecordsListed(Ok(recs)) => {
                    let writes = plan_writes(&recs, &self.targets[self.pos].data);
                    if writes.len() == 0 {
                        self.phase = Phase::AwaitRecords { domain_id, host };
                        self.finish(Outcome::AlreadyCurrent)
                    } else {
                        let a = action_for(writes[0], domain_id, &host, &self.targets[self.pos].data);
                        self.phase = Phase::Writing { domain_id, host, writes, next: 0 };
                        a
                    }
                },
                Event::RecordsListed(Err(e)) => {
                    self.phase = Phase::AwaitRecords { domain_id, host };
                    self.finish(Outcome::Skipped { cause: e })
                },
                _ => {
                    let h = host.clone();
                    self.phase = Phase::AwaitRecords { domain_id, host };
                    Action::ListRecords { domain_id, host: h }
                },
            },
            Phase::Writing { domain_id, host, writes, next } => match ev {
                Event::WriteDone(Ok(())) => {
                    if next + 1 < writes.len() {
                        let a = action_for(
                            writes[next + 1],
                            domain_id,
                            &host,
                            &self.targets[self.pos].data,
                        );
                        self.phase = Phase::Writing { domain_id, host, writes, next: next + 1 };
                        a
                    } else {
                        let o = if writes.len() == 1 && writes[0] == Write::Create {
                            Outcome::Created
                        } else {
                            Outcome::Updated { count: writes.len() }
                        };
                        self.phase = Phase::Writing { domain_id, host, writes, next };
                        self.finish(o)
                    }
                },
                Event::WriteDone(Err(e)) => {
                    self.phase = Phase::Writing { domain_id, host, writes, next };
                    self.finish(Outcome::Failed { cause: TargetError::Client(e) })
                },
                _ => {
                    let a = action_for(writes[next], domain_id, &host, &self.targets[self.pos].data);
                    self.phase = Phase::Writing { domain_id, host, writes, next };
                    a
                },
            },
            Phase::Done => {
                self.phase = Phase::Done;
                Action::Finished
            },
        }
    }
}

/// Reconciling a target twice with no change at the registrar in between:
/// with no record, the first pass asks to create one with the target
/// address; when the records it then finds are those that the first pass's
/// writes left, the second pass closes the target as already current,
/// without a write.
pub proof fn lemma_second_pass_writes_nothing(
    m: RunV,
    before: Seq<DnsRecord>,
    after: Seq<DnsRecord>,
)
    requires
        run_wf(m),
        (m.phase is AwaitRecords),
        written(before, after, m.targets[m.pos as int].data@),
    ensures
        before.len() == 0 ==> step_spec(m, EventV::RecordsListed(Ok(before))).1
            == (ActionV::CreateRecord {
            domain_id: m.phase->AwaitRecords_domain_id,
            host: m.phase->AwaitRecords_host,
            data: m.targets[m.pos as int].data@,
        }),
        step_spec(m, EventV::RecordsListed(Ok(after))) == finish_spec(m, Outcome::AlreadyCurrent),
{
    lemma_plan_idempotent(before, after, m.targets[m.pos as int].data@);
}

/// A target that cannot start (its domain does not resolve, or its name is not
/// under the registrar domain) does not hold up the others: once the
/// domains are loaded, the run records each such target as failed, with its
/// cause, and goes on to ask for the records of the first target after them
/// that can start.
pub proof fn lemma_failed_targets_do_not_block(m: RunV, j: nat)
    requires
        m.loaded,
        m.pos <= j < m.targets.len(),
        forall|k: int| m.pos <= k < j ==> start_spec(m.domains, #[trigger] m.targets[k]) is Err,
        start_spec(m.domains, m.targets[j as int]) is Ok,
    ensures
        ({
            let (next, act) = advance_spec(m);
            let (id, host) = start_spec(m.domains, m.targets[j as int])->Ok_0;
            &&& next.pos == j
            &&& next.phase == PhaseV::AwaitRecords { domain_id: id, host }
            &&& act == ActionV::ListRecords { domain_id: id, host }
            &&& next.outcomes.len() == m.outcomes.len() + (j - m.pos)
            &&& forall|k: int| 0 <= k < m.outcomes.len() ==> next.outcomes[k] == m.outcomes[k]
            &&& forall|k: int|
                m.pos <= k < j ==> next.outcomes[m.outcomes.len() + k - m.pos] == Outcome::Failed {
                    cause: start_spec(m.domains, #[trigger] m.targets[k])->Err_0,
                }
        }),
    decreases j - m.pos,
{
    if m.pos < j {
        let e = start_spec(m.domains, m.targets[m.pos as int])->Err_0;
        let m2 = RunV {
            pos: m.pos + 1,
            outcomes: m.outcomes.push(Outcome::Failed { cause: e }),
            ..m
        };
        assert(start_spec(m.domains, m.targets[m.pos as int]) is Err);
        assert(advance_spec(m) == advance_spec(m2));
        lemma_failed_targets_do_not_block(m2, j);
        let next = advance_spec(m).0;
        assert forall|k: int| m.pos <= k < j implies next.outcomes[m.outcomes.len() + k - m.pos]
            == Outcome::Failed { cause: start_spec(m.domains, #[trigger] m.targets[k])->Err_0 } by {
            if k == m.pos {
                assert(next.outcomes[m.outcomes.len() as int] == m2.outcomes[m.outcomes.len() as int]);
            } else {
                assert(m2.pos <= k < j);
            }
        }
    }
}

} // verus!
