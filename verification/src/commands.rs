//! What the user's commands do.
//!
//! Stopping takes seconds: the process is signalled, and after a while the listeners are
//! listed again to see whether its ports are free. The application does the signalling,
//! the waiting and the listing; a [`StopFlow`] tells it what to do next and decides what
//! came of it.
use crate::domain::classify;
use crate::domain::model::{Kind, SelfPids};
use crate::domain::project;
use crate::ipc;
use crate::ipc::{
    GroupView, HealthWire, OutcomeView, ServerRow, Snapshot, StopOutcome, StopResult,
};
use crate::keeplist;
use crate::numeral;
use crate::platform::{copy_ports, listener_views, PortBinding, RawListener, RawListenerView};
use crate::scanner::fingerprint;
use crate::scanner::pipeline;
use crate::scanner::pipeline::{ClassifyDeps, Judged, ProbeDeps};
use crate::scanner::renew;
use crate::scanner::server;
use crate::scanner::server::{
    attribution_root, resolve, resolved, root_of, server_views, what_this_stops, ScannedServer,
    ScannedView,
};
use crate::scanner::snapshot;
use crate::scanner::state;
use crate::scanner::state::ScannerState;
use crate::scanner::stop;
use crate::scanner::stop::{FailedPoliteStop, FailedPoliteStops, FailureView};
use crate::text;
use crate::time::Timestamp;
use vstd::prelude::*;

verus! {

/// How many seconds after a signal the ports are looked at.
pub const POLITE_STOP_WAIT: u64 = 3;

// ---------------------------------------------------------------------------------
// Outcomes.
// ---------------------------------------------------------------------------------

/// A refusal with its reason.
pub open spec fn refused(id: Seq<char>, reason: Seq<char>) -> OutcomeView {
    OutcomeView { id, result: StopResult::Refused, message: reason }
}

/// What is answered where no Server has the id.
pub open spec fn not_found(id: Seq<char>) -> OutcomeView {
    refused(id, "This Server is no longer listed — it may have already stopped."@)
}

/// What is answered where the Server is never stopped.
pub open spec fn watch_only(id: Seq<char>) -> OutcomeView {
    refused(id, "This Server is Watch Only and is never stopped through this tool."@)
}

/// What the user is told of a stop.
pub open spec fn message_for(s: ScannedView, result: StopResult) -> Seq<char> {
    let text = server::stop_text(s.kind, s.attribution, s.belongs_to);
    match result {
        StopResult::StillRunning => text + " It did not stop — you can Force Stop it."@,
        _ => text,
    }
}

/// A refusal with its reason.
fn refuse(id: &str, reason: &str) -> (r: StopOutcome)
    ensures
        r@ == refused(id@, reason@),
{
    StopOutcome { id: id.to_owned(), result: StopResult::Refused, message: reason.to_owned() }
}

/// What is answered where no Server has the id.
pub fn not_found_outcome(id: &str) -> (r: StopOutcome)
    ensures
        r@ == not_found(id@),
{
    refuse(id, "This Server is no longer listed — it may have already stopped.")
}

/// What is answered where the Server is never stopped.
pub fn watch_only_outcome(id: &str) -> (r: StopOutcome)
    ensures
        r@ == watch_only(id@),
{
    refuse(id, "This Server is Watch Only and is never stopped through this tool.")
}

/// What the user is told of a stop.
pub fn stop_message(server: &ScannedServer, result: StopResult) -> (r: String)
    ensures
        r@ == message_for(server@, result),
{
    let mut r = what_this_stops(server);
    match result {
        StopResult::StillRunning => {
            r.append(" It did not stop — you can Force Stop it.");
        },
        _ => {},
    }
    r
}

// ---------------------------------------------------------------------------------
// The stop flow.
// ---------------------------------------------------------------------------------

/// How a Server is stopped.
#[derive(Debug, Clone, Copy, PartialEq, Eq, Structural)]
pub enum StopMode {
    /// It is asked to stop.
    Polite,
    /// It is ended without being asked.
    Force,
}

/// What a stop is waiting for.
#[derive(Debug, Clone, Copy, PartialEq, Eq, Structural)]
pub enum StopPhase {
    /// A fresh listing, to see whether the Server is still itself.
    Verify,
    /// The signal to be sent.
    Signal,
    /// Time to pass.
    Wait,
    /// A fresh listing, to see whether its ports are free.
    Check,
    /// Nothing more.
    Done,
}

/// One stop under way.
pub struct StopFlow {
    pub mode: StopMode,
    /// The id that the stop was asked for with.
    pub id: String,
    pub target: ScannedServer,
    pub phase: StopPhase,
}

/// What a [`StopFlow`] holds.
#[verifier::ext_equal]
pub struct FlowView {
    pub mode: StopMode,
    pub id: Seq<char>,
    pub target: ScannedView,
    pub phase: StopPhase,
}

impl View for StopFlow {
    type V = FlowView;

    open spec fn view(&self) -> FlowView {
        FlowView { mode: self.mode, id: self.id@, target: self.target@, phase: self.phase }
    }
}

/// What the application is to do next.
pub enum StopAction {
    /// List the listeners.
    List,
    /// Ask this process to stop.
    RequestStop(u32),
    /// End this process.
    ForceStop(u32),
    /// Let so many seconds pass.
    Wait(u64),
    /// Answer the user.
    Finish(StopOutcome),
    /// Answer that the command failed.
    Fail(String),
    /// Nothing: the stop is over.
    Over,
}

/// What a [`StopAction`] holds.
#[verifier::ext_equal]
pub enum ActionView {
    List,
    RequestStop(u32),
    ForceStop(u32),
    Wait(u64),
    Finish(OutcomeView),
    Fail(Seq<char>),
    Over,
}

impl View for StopAction {
    type V = ActionView;

    open spec fn view(&self) -> ActionView {
        match self {
            StopAction::List => ActionView::List,
            StopAction::RequestStop(p) => ActionView::RequestStop(*p),
            StopAction::ForceStop(p) => ActionView::ForceStop(*p),
            StopAction::Wait(s) => ActionView::Wait(*s),
            StopAction::Finish(o) => ActionView::Finish(o@),
            StopAction::Fail(e) => ActionView::Fail(e@),
            StopAction::Over => ActionView::Over,
        }
    }
}

/// What the application has done.
pub enum StopEvent {
    /// It listed the listeners, or could not.
    Listed(Result<Vec<RawListener>, String>),
    /// It sent the signal, or could not: whether the stop worked is told by the ports.
    Signalled,
    /// The time has passed.
    Waited,
}

/// What a [`StopEvent`] holds. Why a listing failed does not matter.
#[verifier::ext_equal]
pub enum EventView {
    Listed(Option<Seq<RawListenerView>>),
    Signalled,
    Waited,
}

impl View for StopEvent {
    type V = EventView;

    open spec fn view(&self) -> EventView {
        match self {
            StopEvent::Listed(Ok(l)) => EventView::Listed(Some(listener_views(l@))),
            StopEvent::Listed(Err(_)) => EventView::Listed(None),
            StopEvent::Signalled => EventView::Signalled,
            StopEvent::Waited => EventView::Waited,
        }
    }
}

/// The polite stops that failed, by Server.
pub type Failures = Map<Seq<char>, FailureView>;

/// A stop, what the application is to do next, and the failures on record.
#[verifier::ext_equal]
pub struct Step {
    pub flow: FlowView,
    pub action: ActionView,
    pub failed: Failures,
}

/// What the application is to do while a stop is in a phase.
pub open spec fn pending_action(flow: FlowView) -> ActionView {
    match flow.phase {
        StopPhase::Verify => ActionView::List,
        StopPhase::Signal => signal_for(flow),
        StopPhase::Wait => ActionView::Wait(POLITE_STOP_WAIT),
        StopPhase::Check => ActionView::List,
        StopPhase::Done => ActionView::Over,
    }
}

/// The signal of a stop.
pub open spec fn signal_for(flow: FlowView) -> ActionView {
    match flow.mode {
        StopMode::Polite => ActionView::RequestStop(flow.target.pid),
        StopMode::Force => ActionView::ForceStop(flow.target.pid),
    }
}

/// A stop in its next phase.
pub open spec fn in_phase(flow: FlowView, phase: StopPhase) -> FlowView {
    FlowView { phase, ..flow }
}

/// A stop that goes on.
pub open spec fn go_on(flow: FlowView, phase: StopPhase, failed: Failures) -> Step {
    let next = in_phase(flow, phase);
    Step { flow: next, action: pending_action(next), failed }
}

/// A stop that ends.
pub open spec fn end_with(flow: FlowView, action: ActionView, failed: Failures) -> Step {
    Step { flow: in_phase(flow, StopPhase::Done), action, failed }
}

/// The fresh listing before the signal. Nothing is signalled unless the Server is still
/// itself; a stop that is refused here was never tried, so it leaves no failure behind
/// and takes away the permission that a forced one came with.
pub open spec fn verified(flow: FlowView, listed: Option<Seq<RawListenerView>>, failed: Failures) -> Step {
    match listed {
        None => match flow.mode {
            StopMode::Polite => end_with(
                flow,
                ActionView::Finish(
                    refused(
                        flow.id,
                        "Couldn't check this Server just now — nothing was stopped."@,
                    ),
                ),
                failed,
            ),
            StopMode::Force => end_with(
                flow,
                ActionView::Fail("could not enumerate to verify force_stop target"@),
                failed,
            ),
        },
        Some(fresh) => if stop::still_itself(fresh, flow.target) {
            go_on(flow, StopPhase::Signal, failed)
        } else {
            end_with(
                flow,
                ActionView::Finish(refused(flow.id, stop::identity_refusal(fresh, flow.target))),
                match flow.mode {
                    StopMode::Polite => failed,
                    StopMode::Force => failed.remove(flow.id),
                },
            )
        },
    }
}

/// What the listing after the wait tells. A Server has stopped only where nothing holds
/// any of its addresses; where that could not be looked at it counts as running.
pub open spec fn check_result(target: ScannedView, listed: Option<Seq<RawListenerView>>) -> StopResult {
    match listed {
        Some(listeners) => if stop::any_holds(listeners, target.ports) {
            StopResult::StillRunning
        } else {
            StopResult::Stopped
        },
        None => StopResult::StillRunning,
    }
}

/// The failures on record after a polite stop: one more where it failed, none of this
/// Server where it worked.
pub open spec fn recorded(
    failed: Failures,
    id: Seq<char>,
    target: ScannedView,
    result: StopResult,
    now: Timestamp,
) -> Failures {
    match result {
        StopResult::StillRunning => failed.insert(
            id,
            FailureView { ports: target.ports, recorded_at: now },
        ),
        _ => failed.remove(id),
    }
}

/// The listing after the wait. A permission to force is used up by using it.
pub open spec fn checked(
    flow: FlowView,
    listed: Option<Seq<RawListenerView>>,
    failed: Failures,
    now: Timestamp,
) -> Step {
    let result = check_result(flow.target, listed);
    end_with(
        flow,
        ActionView::Finish(
            OutcomeView { id: flow.id, result, message: message_for(flow.target, result) },
        ),
        match flow.mode {
            StopMode::Polite => recorded(failed, flow.id, flow.target, result, now),
            StopMode::Force => failed.remove(flow.id),
        },
    )
}

/// One step of a stop. An event that the stop does not wait for changes nothing.
pub open spec fn step(flow: FlowView, event: EventView, failed: Failures, now: Timestamp) -> Step {
    match (flow.phase, event) {
        (StopPhase::Verify, EventView::Listed(listed)) => verified(flow, listed, failed),
        (StopPhase::Signal, EventView::Signalled) => go_on(flow, StopPhase::Wait, failed),
        (StopPhase::Wait, EventView::Waited) => go_on(flow, StopPhase::Check, failed),
        (StopPhase::Check, EventView::Listed(listed)) => checked(flow, listed, failed, now),
        _ => Step { flow, action: pending_action(flow), failed },
    }
}

/// What record a polite stop leaves.
pub fn record_polite_stop_result(
    failed: &mut FailedPoliteStops,
    id: &str,
    target: &ScannedServer,
    result: StopResult,
    now: Timestamp,
)
    ensures
        stop::failures(final(failed)@) == recorded(
            stop::failures(old(failed)@),
            id@,
            target@,
            result,
            now,
        ),
{
    match result {
        StopResult::StillRunning => {
            let record = FailedPoliteStop::new(copy_ports(&target.ports), now);
            let ghost rv = record@;
            failed.insert(id.to_owned(), record);
            proof {
                assert(stop::failures(failed@) =~= stop::failures(old(failed)@).insert(id@, rv));
            }
        },
        _ => {
            drop_failure(failed, id);
        },
    }
}

/// Take a failure off the record.
fn drop_failure(failed: &mut FailedPoliteStops, id: &str)
    ensures
        stop::failures(final(failed)@) == stop::failures(old(failed)@).remove(id@),
{
    failed.remove(id);
    proof {
        assert(stop::failures(failed@) =~= stop::failures(old(failed)@).remove(id@));
    }
}

impl StopFlow {
    /// A stop of `target` that is about to begin.
    fn start(mode: StopMode, id: &str, target: &ScannedServer) -> (r: StopFlow)
        ensures
            r@ == (FlowView { mode, id: id@, target: target@, phase: StopPhase::Verify }),
    {
        StopFlow {
            mode,
            id: id.to_owned(),
            target: target.clone_for_stop(),
            phase: StopPhase::Verify,
        }
    }

    /// What the application is to do next.
    pub fn pending(&self) -> (r: StopAction)
        ensures
            r@ == pending_action(self@),
    {
        match self.phase {
            StopPhase::Verify => StopAction::List,
            StopPhase::Signal => match self.mode {
                StopMode::Polite => StopAction::RequestStop(self.target.pid),
                StopMode::Force => StopAction::ForceStop(self.target.pid),
            },
            StopPhase::Wait => StopAction::Wait(POLITE_STOP_WAIT),
            StopPhase::Check => StopAction::List,
            StopPhase::Done => StopAction::Over,
        }
    }

    /// Take in what the application has done, and tell what it is to do next.
    pub fn advance(&mut self, event: StopEvent, failed: &mut FailedPoliteStops, now: Timestamp) -> (r:
        StopAction)
        ensures
            step(old(self)@, event@, stop::failures(old(failed)@), now) == (Step {
                flow: final(self)@,
                action: r@,
                failed: stop::failures(final(failed)@),
            }),
    {
        match (self.phase, event) {
            (StopPhase::Verify, StopEvent::Listed(listed)) => self.verify(listed, failed),
            (StopPhase::Signal, StopEvent::Signalled) => {
                self.phase = StopPhase::Wait;
                self.pending()
            },
            (StopPhase::Wait, StopEvent::Waited) => {
                self.phase = StopPhase::Check;
                self.pending()
            },
            (StopPhase::Check, StopEvent::Listed(listed)) => self.check(listed, failed, now),
            _ => self.pending(),
        }
    }

    /// The fresh listing before the signal.
    fn verify(&mut self, listed: Result<Vec<RawListener>, String>, failed: &mut FailedPoliteStops) -> (r:
        StopAction)
        requires
            old(self).phase == StopPhase::Verify,
        ensures
            verified(
                old(self)@,
                (match listed {
                    Ok(l) => Some(listener_views(l@)),
                    Err(_) => None,
                }),
                stop::failures(old(failed)@),
            ) == (Step {
                flow: final(self)@,
                action: r@,
                failed: stop::failures(final(failed)@),
            }),
    {
        match listed {
            Err(_) => {
                self.phase = StopPhase::Done;
                match self.mode {
                    StopMode::Polite => StopAction::Finish(
                        refuse(
                            self.id.as_str(),
                            "Couldn't check this Server just now — nothing was stopped.",
                        ),
                    ),
                    StopMode::Force => StopAction::Fail(
                        "could not enumerate to verify force_stop target".to_owned(),
                    ),
                }
            },
            Ok(fresh) => match stop::refuse_if_identity_changed(&fresh, &self.target) {
                None => {
                    self.phase = StopPhase::Signal;
                    self.pending()
                },
                Some(reason) => {
                    self.phase = StopPhase::Done;
                    match self.mode {
                        StopMode::Polite => {},
                        StopMode::Force => {
                            drop_failure(failed, self.id.as_str());
                        },
                    }
                    StopAction::Finish(refuse(self.id.as_str(), reason))
                },
            },
        }
    }

    /// The listing after the wait.
    fn check(
        &mut self,
        listed: Result<Vec<RawListener>, String>,
        failed: &mut FailedPoliteStops,
        now: Timestamp,
    ) -> (r: StopAction)
        requires
            old(self).phase == StopPhase::Check,
        ensures
            checked(
                old(self)@,
                (match listed {
                    Ok(l) => Some(listener_views(l@)),
                    Err(_) => None,
                }),
                stop::failures(old(failed)@),
                now,
            ) == (Step {
                flow: final(self)@,
                action: r@,
                failed: stop::failures(final(failed)@),
            }),
    {
        let result = match listed {
            Ok(listeners) => {
                if stop::still_held(&listeners, &self.target.ports) {
                    StopResult::StillRunning
                } else {
                    StopResult::Stopped
                }
            },
            Err(_) => StopResult::StillRunning,
        };
        match self.mode {
            StopMode::Polite => {
                record_polite_stop_result(failed, self.id.as_str(), &self.target, result, now);
            },
            StopMode::Force => {
                drop_failure(failed, self.id.as_str());
            },
        }
        self.phase = StopPhase::Done;
        StopAction::Finish(
            StopOutcome {
                id: self.id.clone(),
                result,
                message: stop_message(&self.target, result),
            },
        )
    }
}

// ---------------------------------------------------------------------------------
// Beginning a stop.
// ---------------------------------------------------------------------------------

/// How a stop begins: with an answer, or with a flow to be run.
pub enum StopStart {
    Answer(StopOutcome),
    Begin(StopFlow),
}

/// What a [`StopStart`] holds.
#[verifier::ext_equal]
pub enum StartView {
    Answer(OutcomeView),
    Begin(FlowView),
}

impl View for StopStart {
    type V = StartView;

    open spec fn view(&self) -> StartView {
        match self {
            StopStart::Answer(o) => StartView::Answer(o@),
            StopStart::Begin(f) => StartView::Begin(f@),
        }
    }
}

/// How the stop of a Server begins, where it was found. One that is never stopped is
/// refused before anything else.
pub open spec fn start_for(mode: StopMode, id: Seq<char>, target: Option<ScannedView>) -> StartView {
    match target {
        None => StartView::Answer(not_found(id)),
        Some(s) => if s.kind.watch_only() {
            StartView::Answer(watch_only(id))
        } else {
            StartView::Begin(FlowView { mode, id, target: s, phase: StopPhase::Verify })
        },
    }
}

/// Begin the stop of a Server that was looked up.
fn begin(mode: StopMode, id: &str, target: Option<&ScannedServer>) -> (r: StopStart)
    ensures
        r@ == start_for(
            mode,
            id@,
            (match target {
                Some(s) => Some(s@),
                None => None,
            }),
        ),
{
    match target {
        None => StopStart::Answer(not_found_outcome(id)),
        Some(s) => {
            if stop::refuse_if_watch_only(s.kind).is_some() {
                StopStart::Answer(watch_only_outcome(id))
            } else {
                StopStart::Begin(StopFlow::start(mode, id, s))
            }
        },
    }
}

/// Begin to stop a Server politely. What is never stopped is the only thing refused
/// here: a part of an application and a background service can be stopped.
pub fn stop_server(servers: &Vec<ScannedServer>, id: &str) -> (r: StopStart)
    ensures
        r@ == start_for(StopMode::Polite, id@, resolved(server_views(servers@), id@)),
{
    begin(StopMode::Polite, id, resolve(servers, id))
}

/// Which Server a forced stop is aimed at: the one with the id, or else one that now
/// holds an address of it.
pub open spec fn force_target(
    servers: Seq<ScannedView>,
    id: Seq<char>,
    ports: Seq<PortBinding>,
) -> Option<ScannedView> {
    match resolved(servers, id) {
        Some(s) => Some(s),
        None => stop::holder_of(servers, ports),
    }
}

/// How a forced stop begins. Without a polite stop of the same Server that failed a
/// short while ago it is refused, and what is on record is of no further use.
pub open spec fn force_start(
    failed: Failures,
    servers: Seq<ScannedView>,
    id: Seq<char>,
    now: Timestamp,
) -> (StartView, Failures) {
    if stop::may_force(failed, id, now) {
        (
            start_for(StopMode::Force, id, force_target(servers, id, failed[id].ports)),
            failed,
        )
    } else {
        (StartView::Answer(refused(id, stop::force_refusal(failed, id))), failed.remove(id))
    }
}

/// Begin to force a Server to stop.
pub fn force_stop(
    failed: &mut FailedPoliteStops,
    servers: &Vec<ScannedServer>,
    id: &str,
    now: Timestamp,
) -> (r: StopStart)
    ensures
        (r@, stop::failures(final(failed)@)) == force_start(
            stop::failures(old(failed)@),
            server_views(servers@),
            id@,
            now,
        ),
{
    match stop::refuse_force_stop_without_prior_failure(failed, id, now) {
        Some(reason) => {
            let answer = StopStart::Answer(refuse(id, reason));
            drop_failure(failed, id);
            answer
        },
        None => {
            let ports = match failed.get(id) {
                Some(record) => copy_ports(&record.ports),
                None => Vec::new(),
            };
            match resolve(servers, id) {
                Some(s) => begin(StopMode::Force, id, Some(s)),
                None => begin(StopMode::Force, id, stop::find_current_holder(servers, &ports)),
            }
        },
    }
}

/// The flows that stopping everything runs, one after the other: a polite one for the
/// id of each development server.
pub open spec fn bulk_flows(servers: Seq<ScannedView>, ids: Seq<Seq<char>>) -> Seq<FlowView>
    decreases ids.len(),
{
    if ids.len() == 0 {
        Seq::empty()
    } else {
        let before = bulk_flows(servers, ids.drop_last());
        match resolved(servers, ids.last()) {
            Some(s) => before.push(
                FlowView { mode: StopMode::Polite, id: s.id, target: s, phase: StopPhase::Verify },
            ),
            None => before,
        }
    }
}

/// What each flow of a list holds.
pub open spec fn flow_views(v: Seq<StopFlow>) -> Seq<FlowView> {
    v.map_values(|f: StopFlow| f@)
}

/// The flows that stopping everything runs, one after the other.
pub fn stop_all_dev_servers(servers: &Vec<ScannedServer>) -> (r: Vec<StopFlow>)
    ensures
        flow_views(r@) == bulk_flows(
            server_views(servers@),
            stop::bulk_ids(server_views(servers@)),
        ),
{
    let ids = stop::eligible_for_bulk_stop(servers);
    let ghost all = stop::bulk_ids(server_views(servers@));
    let mut r: Vec<StopFlow> = Vec::new();
    let mut i: usize = 0;
    proof {
        assert(ids@.len() == all.len());
        assert(all.take(0) =~= Seq::<Seq<char>>::empty());
        assert(flow_views(r@) =~= Seq::<FlowView>::empty());
    }
    while i < ids.len()
        invariant
            0 <= i <= ids@.len(),
            ids@.len() == all.len(),
            text::views(ids@) == all,
            flow_views(r@) == bulk_flows(server_views(servers@), all.take(i as int)),
        decreases ids@.len() - i,
    {
        let ghost before = flow_views(r@);
        proof {
            assert(text::views(ids@)[i as int] == ids@[i as int]@);
            assert(all.take(i + 1).drop_last() =~= all.take(i as int));
        }
        match resolve(servers, ids[i].as_str()) {
            Some(s) => {
                let flow = StopFlow::start(StopMode::Polite, s.id.as_str(), s);
                let ghost fv = flow@;
                r.push(flow);
                proof {
                    assert(flow_views(r@) =~= before.push(fv));
                }
            },
            None => {},
        }
        i = i + 1;
    }
    proof {
        assert(all.take(i as int) =~= all);
    }
    r
}

/// Whether a listing taken after a stop leads from one state to the other.
pub open spec fn adopted<
    O: Fn(&str) -> Option<String>,
    F: Fn(&str) -> bool,
    L: Fn(&Vec<Vec<PortBinding>>) -> Vec<(usize, bool)>,
    B: Fn(&Vec<(usize, PortBinding)>) -> Vec<(usize, Option<String>)>,
    T: Fn(&PortBinding) -> Option<String>,
>(
    before: ScannerState,
    after: ScannerState,
    listeners: Seq<RawListenerView>,
    self_pids: SelfPids,
    deps: ClassifyDeps<O, F>,
    probes: ProbeDeps<L, B, T>,
) -> bool {
    &&& state::same_otherwise(after, before)
    &&& after.pressure_history@ == before.pressure_history@
    &&& after.last_fingerprint == Some(state::fingerprint_of(listeners))
    &&& exists|
        judged: Seq<Judged>,
        answers: Seq<(usize, bool)>,
        found: Seq<(usize, Option<Seq<char>>)>,
    | #[trigger]
        renew::renews(
            server_views(before.servers@),
            listeners,
            self_pids,
            deps,
            probes,
            before.title_cache@,
            judged,
            answers,
            found,
            server_views(after.servers@),
            after.title_cache@,
        )
}

/// Take over a listing that was taken to check a stop, so that what is shown next is how
/// things are now.
pub fn adopt_listing<
    O: Fn(&str) -> Option<String>,
    F: Fn(&str) -> bool,
    L: Fn(&Vec<Vec<PortBinding>>) -> Vec<(usize, bool)>,
    B: Fn(&Vec<(usize, PortBinding)>) -> Vec<(usize, Option<String>)>,
    T: Fn(&PortBinding) -> Option<String>,
>(
    state: &mut ScannerState,
    listeners: &Vec<RawListener>,
    self_pids: SelfPids,
    deps: &ClassifyDeps<O, F>,
    probes: &ProbeDeps<L, B, T>,
)
    requires
        classify::nameable(deps.owning_app),
        project::askable(deps.path_exists),
        pipeline::probeable(*probes),
    ensures
        adopted(
            *old(state),
            *final(state),
            listener_views(listeners@),
            self_pids,
            *deps,
            *probes,
        ),
{
    let servers = renew::renew(
        &state.servers,
        listeners,
        self_pids,
        deps,
        probes,
        &mut state.title_cache,
    );
    let ghost views = server_views(servers@);
    let ghost titles_after = state.title_cache@;
    state.servers = servers;
    state.last_fingerprint = Some(fingerprint::fingerprint(listeners));
    proof {
        let (judged, answers, found) = choose|
            judged: Seq<Judged>,
            answers: Seq<(usize, bool)>,
            found: Seq<(usize, Option<Seq<char>>)>,
        | #[trigger]
            renew::renews(
                server_views(old(state).servers@),
                listener_views(listeners@),
                self_pids,
                *deps,
                *probes,
                old(state).title_cache@,
                judged,
                answers,
                found,
                views,
                titles_after,
            );
        assert(renew::renews(
            server_views(old(state).servers@),
            listener_views(listeners@),
            self_pids,
            *deps,
            *probes,
            old(state).title_cache@,
            judged,
            answers,
            found,
            server_views(state.servers@),
            state.title_cache@,
        ));
    }
}

/// What the listing that a stop waits for after its signal shows, where `event` is that
/// listing and it worked.
pub open spec fn final_listing(flow: FlowView, event: EventView) -> Option<Seq<RawListenerView>> {
    match (flow.phase, event) {
        (StopPhase::Check, EventView::Listed(listed)) => listed,
        _ => None,
    }
}

/// Take in what the application has done for a stop, and tell what it is to do next. The
/// listing that shows whether the ports are free also becomes the state; nothing else
/// does.
pub fn advance_stop<
    O: Fn(&str) -> Option<String>,
    F: Fn(&str) -> bool,
    L: Fn(&Vec<Vec<PortBinding>>) -> Vec<(usize, bool)>,
    B: Fn(&Vec<(usize, PortBinding)>) -> Vec<(usize, Option<String>)>,
    T: Fn(&PortBinding) -> Option<String>,
>(
    state: &mut ScannerState,
    flow: &mut StopFlow,
    event: StopEvent,
    self_pids: SelfPids,
    deps: &ClassifyDeps<O, F>,
    probes: &ProbeDeps<L, B, T>,
    now: Timestamp,
) -> (r: StopAction)
    requires
        classify::nameable(deps.owning_app),
        project::askable(deps.path_exists),
        pipeline::probeable(*probes),
    ensures
        step(old(flow)@, event@, stop::failures(old(state).failed_polite_stops@), now) == (Step {
            flow: final(flow)@,
            action: r@,
            failed: stop::failures(final(state).failed_polite_stops@),
        }),
        ({
            let shown = ScannerState {
                failed_polite_stops: old(state).failed_polite_stops,
                ..*final(state)
            };
            match final_listing(old(flow)@, event@) {
                Some(listeners) => adopted(
                    *old(state),
                    shown,
                    listeners,
                    self_pids,
                    *deps,
                    *probes,
                ),
                None => shown == *old(state),
            }
        }),
{
    match (flow.phase, &event) {
        (StopPhase::Check, StopEvent::Listed(Ok(listeners))) => {
            adopt_listing(state, listeners, self_pids, deps, probes);
        },
        _ => {},
    }
    flow.advance(event, &mut state.failed_polite_stops, now)
}

// ---------------------------------------------------------------------------------
// Keep Running.
// ---------------------------------------------------------------------------------

/// The project root and the command that a Server with this id is kept running by, where
/// it has a Project.
pub open spec fn kept_by(servers: Seq<ScannedView>, id: Seq<char>) -> Option<(Seq<char>, Seq<char>)> {
    match resolved(servers, id) {
        Some(s) => match root_of(s.attribution) {
            Some(root) => Some((root, s.command)),
            None => None,
        },
        None => None,
    }
}

/// The mark that a Server with this id is kept running by, where it has a Project.
pub open spec fn mark_of(servers: Seq<ScannedView>, id: Seq<char>) -> Option<keeplist::MarkKey> {
    match kept_by(servers, id) {
        Some((root, command)) => Some(keeplist::key_for(root, command)),
        None => None,
    }
}

/// Mark a Server to be kept running, or take the mark back, and tell whether there is
/// anything to save. A Server that is gone, or has no Project, has no mark.
pub fn set_keep_running(state: &mut ScannerState, id: &str, keep: bool) -> (r: bool)
    ensures
        r == (mark_of(server_views(old(state).servers@), id@) is Some),
        match kept_by(server_views(old(state).servers@), id@) {
            Some((root, command)) => final(state).keeplist@ == keeplist::after_set(
                old(state).keeplist@,
                keeplist::key_for(root, command),
                keep,
            ) && final(state).keeplist.spellings() == keeplist::spellings_after(
                old(state).keeplist.spellings(),
                root,
                command,
                keep,
            ),
            None => *final(state) == *old(state),
        },
        *final(state) == (ScannerState { keeplist: final(state).keeplist, ..*old(state) }),
{
    let (root, command) = match resolve(&state.servers, id) {
        Some(s) => match attribution_root(&s.attribution) {
            Some(root) => (root, s.command.clone()),
            None => return false,
        },
        None => return false,
    };
    state.keeplist.set(root.as_str(), command.as_str(), keep);
    true
}

// ---------------------------------------------------------------------------------
// Opening a Project.
// ---------------------------------------------------------------------------------

/// Which editor a Project is opened in. A closed set: a value from outside only ever
/// picks one of these, and is never itself run.
#[derive(Debug, Clone, Copy, PartialEq, Eq, Structural)]
pub enum Editor {
    VsCode,
    Cursor,
    Zed,
    Sublime,
    /// No editor: the folder is opened in Finder.
    FinderOnly,
}

/// The editor that a value names. Without a value it is Visual Studio Code; a value that
/// names none stands for Finder.
pub open spec fn editor_named(value: Option<Seq<char>>) -> Editor {
    match value {
        None => Editor::VsCode,
        Some(v) => if v == "vscode"@ {
            Editor::VsCode
        } else if v == "cursor"@ {
            Editor::Cursor
        } else if v == "zed"@ {
            Editor::Zed
        } else if v == "sublime"@ {
            Editor::Sublime
        } else {
            Editor::FinderOnly
        },
    }
}

/// The command and the application of an editor.
pub open spec fn programs_of(editor: Editor) -> Option<(Seq<char>, Seq<char>)> {
    match editor {
        Editor::VsCode => Some(("code"@, "Visual Studio Code"@)),
        Editor::Cursor => Some(("cursor"@, "Cursor"@)),
        Editor::Zed => Some(("zed"@, "Zed"@)),
        Editor::Sublime => Some(("subl"@, "Sublime Text"@)),
        Editor::FinderOnly => None,
    }
}

impl Editor {
    /// The editor that a value names.
    pub fn from_wire(value: Option<&str>) -> (r: Editor)
        ensures
            r == editor_named(
                (match value {
                    Some(v) => Some(v@),
                    None => None,
                }),
            ),
    {
        match value {
            None => Editor::VsCode,
            Some(v) => {
                if text::same(v, "vscode") {
                    Editor::VsCode
                } else if text::same(v, "cursor") {
                    Editor::Cursor
                } else if text::same(v, "zed") {
                    Editor::Zed
                } else if text::same(v, "sublime") {
                    Editor::Sublime
                } else {
                    Editor::FinderOnly
                }
            },
        }
    }

    /// The command and the application of an editor.
    pub fn chain(self) -> (r: Option<(&'static str, &'static str)>)
        ensures
            programs_of(self) == (match r {
                Some((cli, app)) => Some((cli@, app@)),
                None => None,
            }),
    {
        match self {
            Editor::VsCode => Some(("code", "Visual Studio Code")),
            Editor::Cursor => Some(("cursor", "Cursor")),
            Editor::Zed => Some(("zed", "Zed")),
            Editor::Sublime => Some(("subl", "Sublime Text")),
            Editor::FinderOnly => None,
        }
    }
}

/// A program to be run with these arguments, each handed over as it is.
#[derive(Debug, PartialEq, Eq)]
pub struct Launch {
    pub program: String,
    pub args: Vec<String>,
}

/// What a [`Launch`] holds.
#[verifier::ext_equal]
pub struct LaunchView {
    pub program: Seq<char>,
    pub args: Seq<Seq<char>>,
}

impl View for Launch {
    type V = LaunchView;

    open spec fn view(&self) -> LaunchView {
        LaunchView { program: self.program@, args: text::views(self.args@) }
    }
}

/// What each launch of a list holds.
pub open spec fn launch_views(v: Seq<Launch>) -> Seq<LaunchView> {
    v.map_values(|l: Launch| l@)
}

/// What is tried to open the folder `root`, in this order, until one works.
///
/// For `finder` the folder is shown in the one above it, or else opened. For anything
/// else the editor's command is tried, which an application started from Finder seldom
/// finds; then the editor as an application; and in the end the folder is handed to
/// Finder.
pub open spec fn launches(root: Seq<char>, how: Seq<char>, editor: Editor) -> Seq<LaunchView> {
    let open_it = LaunchView { program: "open"@, args: seq![root] };
    if how == "finder"@ {
        seq![LaunchView { program: "open"@, args: seq!["-R"@, root] }, open_it]
    } else {
        match programs_of(editor) {
            Some((cli, app)) => seq![
                LaunchView { program: cli, args: seq![root] },
                LaunchView { program: "open"@, args: seq!["-a"@, app, root] },
                open_it,
            ],
            None => seq![open_it],
        }
    }
}

/// A program to be run with one argument.
fn launch_one(program: &str, a: &str) -> (r: Launch)
    ensures
        r@ == (LaunchView { program: program@, args: seq![a@] }),
{
    let mut args: Vec<String> = Vec::new();
    args.push(a.to_owned());
    proof {
        assert(text::views(args@) =~= seq![a@]);
    }
    Launch { program: program.to_owned(), args }
}

/// What is tried to open the folder `root`, in this order, until one works.
pub fn launch_for_project(root: &str, how: &str, editor: Editor) -> (r: Vec<Launch>)
    ensures
        launch_views(r@) == launches(root@, how@, editor),
{
    let mut r: Vec<Launch> = Vec::new();
    if text::same(how, "finder") {
        let mut args: Vec<String> = Vec::new();
        args.push("-R".to_owned());
        args.push(root.to_owned());
        proof {
            assert(text::views(args@) =~= seq!["-R"@, root@]);
        }
        r.push(Launch { program: "open".to_owned(), args });
        r.push(launch_one("open", root));
    } else {
        match editor.chain() {
            Some((cli, app)) => {
                r.push(launch_one(cli, root));
                let mut args: Vec<String> = Vec::new();
                args.push("-a".to_owned());
                args.push(app.to_owned());
                args.push(root.to_owned());
                proof {
                    assert(text::views(args@) =~= seq!["-a"@, app@, root@]);
                }
                r.push(Launch { program: "open".to_owned(), args });
            },
            None => {},
        }
        r.push(launch_one("open", root));
    }
    proof {
        assert(launch_views(r@) =~= launches(root@, how@, editor));
    }
    r
}

/// The folder that opening the Project of a Server opens: the root of a development
/// server's Project. Any other Server's Project is a guess or none, and is not opened.
pub open spec fn folder_of(servers: Seq<ScannedView>, id: Seq<char>) -> Option<Seq<char>> {
    match resolved(servers, id) {
        Some(s) => if s.kind == Kind::DevServer {
            root_of(s.attribution)
        } else {
            None
        },
        None => None,
    }
}

/// What is tried to open the Project of a Server: nothing where it has none to open. The
/// folder comes from the Servers, never from the user interface.
pub fn open_project(servers: &Vec<ScannedServer>, id: &str, how: &str, editor: Option<&str>) -> (r:
    Vec<Launch>)
    ensures
        launch_views(r@) == (match folder_of(server_views(servers@), id@) {
            Some(root) => launches(
                root,
                how@,
                editor_named(
                    (match editor {
                        Some(v) => Some(v@),
                        None => None,
                    }),
                ),
            ),
            None => Seq::empty(),
        }),
{
    let root = match resolve(servers, id) {
        Some(s) => {
            if s.kind == Kind::DevServer {
                attribution_root(&s.attribution)
            } else {
                None
            }
        },
        None => None,
    };
    match root {
        Some(root) => launch_for_project(root.as_str(), how, Editor::from_wire(editor)),
        None => {
            let r: Vec<Launch> = Vec::new();
            proof {
                assert(launch_views(r@) =~= Seq::<LaunchView>::empty());
            }
            r
        },
    }
}

/// For how many milliseconds a program that was started is watched for failing.
pub const LAUNCH_EXIT_CHECK_MILLIS: u64 = 250;

/// How many milliseconds pass between two looks at it.
pub const LAUNCH_POLL_INTERVAL_MILLIS: u64 = 25;

/// What a look at a program that was started shows.
#[derive(Debug, Clone, Copy, PartialEq, Eq, Structural)]
pub enum LaunchStatus {
    /// It has ended and said that all is well.
    Succeeded,
    /// It has ended and said otherwise.
    Failed,
    /// It is still running.
    Running,
    /// It could not be looked at.
    Unknown,
}

/// Whether a program counts as launched, once that can be told. To have been started is
/// not enough: the program that opens an application starts well where the application
/// is missing, and fails right after. One that is still running when the time is up has
/// launched.
pub fn launch_verdict(status: LaunchStatus, past_deadline: bool) -> (r: Option<bool>)
    ensures
        r == (match status {
            LaunchStatus::Succeeded => Some(true),
            LaunchStatus::Failed => Some(false),
            LaunchStatus::Running => if past_deadline {
                Some(true)
            } else {
                None
            },
            LaunchStatus::Unknown => Some(false),
        }),
{
    match status {
        LaunchStatus::Succeeded => Some(true),
        LaunchStatus::Failed => Some(false),
        LaunchStatus::Running => {
            if past_deadline {
                Some(true)
            } else {
                None
            }
        },
        LaunchStatus::Unknown => Some(false),
    }
}

/// What the answer is once `tried` of `total` programs have been started, the last of
/// which worked or did not. There is none while the next one is still to be tried.
pub open spec fn launch_answer(tried: nat, total: nat, worked: bool) -> Option<bool> {
    if worked {
        Some(true)
    } else if tried >= total {
        Some(false)
    } else {
        None
    }
}

/// What the answer is after one of the programs was started, or that the next one is to
/// be tried.
pub fn after_launch(tried: usize, total: usize, worked: bool) -> (r: Option<bool>)
    ensures
        r == launch_answer(tried as nat, total as nat, worked),
{
    if worked {
        Some(true)
    } else if tried >= total {
        Some(false)
    } else {
        None
    }
}

/// Whether starting programs one after the other may come to this: `worked` tells of each
/// that was tried, in order, whether it worked. All but the last that was tried failed;
/// all are tried unless one works; and the answer is whether one did.
pub open spec fn launched_by<S: Fn(&Launch) -> bool>(
    start: S,
    launches: Seq<Launch>,
    worked: Seq<bool>,
    answer: bool,
) -> bool {
    &&& worked.len() <= launches.len()
    &&& forall|i: int|
        0 <= i < worked.len() ==> call_ensures(start, (&launches[i],), #[trigger] worked[i])
    &&& forall|i: int| 0 <= i < worked.len() - 1 ==> !(#[trigger] worked[i])
    &&& answer == worked.contains(true)
    &&& !answer ==> worked.len() == launches.len()
}

/// Start the programs one after the other until one works, and tell whether one did.
pub fn launch_first<S: Fn(&Launch) -> bool>(launches: &Vec<Launch>, start: &S) -> (r: bool)
    requires
        forall|l: &Launch| #[trigger] call_requires(*start, (l,)),
    ensures
        exists|worked: Seq<bool>| #[trigger] launched_by(*start, launches@, worked, r),
{
    let ghost mut worked: Seq<bool> = Seq::empty();
    let mut i: usize = 0;
    while i < launches.len()
        invariant
            0 <= i <= launches@.len(),
            forall|l: &Launch| #[trigger] call_requires(*start, (l,)),
            worked.len() == i,
            forall|k: int|
                0 <= k < i ==> call_ensures(*start, (&launches@[k],), #[trigger] worked[k]),
            forall|k: int| 0 <= k < i ==> !(#[trigger] worked[k]),
        decreases launches@.len() - i,
    {
        let launched = start(&launches[i]);
        proof {
            worked = worked.push(launched);
        }
        match after_launch(i + 1, launches.len(), launched) {
            Some(answer) => {
                proof {
                    assert(worked[i as int] == launched);
                    assert(launched_by(*start, launches@, worked, answer));
                }
                return answer;
            },
            None => {},
        }
        i = i + 1;
    }
    proof {
        assert(launched_by(*start, launches@, worked, false));
    }
    false
}

// ---------------------------------------------------------------------------------
// The tray.
// ---------------------------------------------------------------------------------

/// Whether a row shows a Server that does not answer.
pub open spec fn silent(row: ServerRow) -> bool {
    row.health == HealthWire::NotResponding
}

/// Whether a development server among the groups does not answer.
pub open spec fn any_silent(groups: Seq<GroupView>) -> bool {
    exists|g: int, i: int|
        0 <= g < groups.len() && 0 <= i < groups[g].servers.len() && silent(
            #[trigger] groups[g].servers[i],
        )
}

/// What the menu bar shows: how many development servers there are, and an exclamation
/// mark where one of them does not answer.
pub open spec fn tray_text(groups: Seq<GroupView>) -> Seq<char> {
    let count = numeral::decimal(snapshot::row_count(groups));
    if any_silent(groups) {
        count.push('!')
    } else {
        count
    }
}

/// Whether a row of a group does not answer.
fn has_silent(rows: &Vec<ipc::ServerWire>) -> (r: bool)
    ensures
        r == exists|i: int| 0 <= i < rows@.len() && silent(#[trigger] ipc::rows(rows@)[i]),
{
    let ghost all = ipc::rows(rows@);
    let mut i: usize = 0;
    while i < rows.len()
        invariant
            0 <= i <= rows@.len(),
            all == ipc::rows(rows@),
            forall|k: int| 0 <= k < i ==> !silent(#[trigger] all[k]),
        decreases rows@.len() - i,
    {
        proof {
            assert(all[i as int] == rows@[i as int]@);
        }
        if rows[i].health == HealthWire::NotResponding {
            proof {
                assert(silent(all[i as int]));
            }
            return true;
        }
        i = i + 1;
    }
    false
}

/// What the menu bar shows. Never more than this: nothing pops up.
pub fn tray_title(snapshot: &Snapshot) -> (r: String)
    ensures
        r@ == tray_text(snapshot@.projects),
{
    let ghost all = snapshot@.projects;
    let mut count: u128 = 0;
    let mut any = false;
    let mut i: usize = 0;
    proof {
        assert(all.skip(0) =~= all);
    }
    while i < snapshot.projects.len()
        invariant
            0 <= i <= snapshot.projects@.len(),
            all == ipc::groups(snapshot.projects@),
            count <= i * u64::MAX,
            count + snapshot::row_count(all.skip(i as int)) == snapshot::row_count(all),
            any == any_silent(all.take(i as int)),
        decreases snapshot.projects@.len() - i,
    {
        let group = &snapshot.projects[i];
        proof {
            assert(all[i as int] == group@);
            assert(all.skip(i as int).skip(1) =~= all.skip(i + 1));
            assert(all.skip(i as int)[0] == all[i as int]);
        }
        proof {
            assert((i + 1) * u64::MAX == i * u64::MAX + u64::MAX) by (nonlinear_arith);
            assert((i + 1) * u64::MAX <= u64::MAX * u64::MAX) by (nonlinear_arith)
                requires
                    i < u64::MAX,
            ;
        }
        count = count + group.servers.len() as u128;
        let here = has_silent(&group.servers);
        proof {
            lemma_any_silent_step(all, i as int);
        }
        if here {
            any = true;
        }
        i = i + 1;
    }
    proof {
        assert(all.take(i as int) =~= all);
    }
    let mut r = numeral::to_decimal(count);
    if any {
        r.push('!');
    }
    r
}

/// Whether one of one more group does not answer.
proof fn lemma_any_silent_step(groups: Seq<GroupView>, i: int)
    requires
        0 <= i < groups.len(),
    ensures
        any_silent(groups.take(i + 1)) == (any_silent(groups.take(i)) || exists|k: int|
            0 <= k < groups[i].servers.len() && silent(#[trigger] groups[i].servers[k])),
{
    let a = groups.take(i);
    let b = groups.take(i + 1);
    if any_silent(a) {
        let (g, k) = choose|g: int, k: int|
            0 <= g < a.len() && 0 <= k < a[g].servers.len() && silent(#[trigger] a[g].servers[k]);
        assert(b[g] == a[g]);
        assert(silent(b[g].servers[k]));
    }
    if exists|k: int| 0 <= k < groups[i].servers.len() && silent(#[trigger] groups[i].servers[k]) {
        let k = choose|k: int|
            0 <= k < groups[i].servers.len() && silent(#[trigger] groups[i].servers[k]);
        assert(b[i] == groups[i]);
        assert(silent(b[i].servers[k]));
    }
    if any_silent(b) {
        let (g, k) = choose|g: int, k: int|
            0 <= g < b.len() && 0 <= k < b[g].servers.len() && silent(#[trigger] b[g].servers[k]);
        if g < i {
            assert(a[g] == b[g]);
            assert(silent(a[g].servers[k]));
        } else {
            assert(silent(groups[i].servers[k]));
        }
    }
}

} // verus!
