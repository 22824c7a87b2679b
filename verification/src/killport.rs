//! Candidates for termination and the engine that gathers them for one
//! port and acts on them.

use crate::cli::Mode;
use crate::docker::DockerContainer;
use crate::error::KillportError;
use crate::signal::KillportSignal;
use crate::unix::UnixProcess;
use crate::windows::WindowsProcess;
use vstd::prelude::*;
use vstd::string::*;

verus! {

/// The class a candidate belongs to.
#[derive(Debug, Clone, Copy, PartialEq, Eq, Structural)]
pub enum KillableType {
    /// A process native to the host.
    Process,
    /// A container managed by the container runtime.
    Container,
}

impl KillableType {
    /// The word the class is shown by.
    pub fn to_string(&self) -> (word: String)
        ensures
            word@ == match *self {
                KillableType::Process => "process"@,
                KillableType::Container => "container"@,
            },
    {
        let word = match *self {
            KillableType::Process => "process",
            KillableType::Container => "container",
        };
        word.to_owned()
    }
}

/// A process native to the host, in the shape in which the resolver of its
/// platform reports it.
#[derive(Debug)]
pub enum NativeProcess {
    /// A process of a unix-like system.
    Unix(UnixProcess),
    /// A process of Windows, with the parents recorded for it.
    Windows(WindowsProcess),
}

impl NativeProcess {
    /// The display name.
    pub open spec fn spec_name(&self) -> Seq<char> {
        match self {
            NativeProcess::Unix(process) => process@.name,
            NativeProcess::Windows(process) => process@[0].name,
        }
    }

    /// A native process is always of the process class.
    pub fn get_type(&self) -> (kind: KillableType)
        ensures
            kind == KillableType::Process,
    {
        KillableType::Process
    }

    /// The display name.
    pub fn get_name(&self) -> (name: String)
        ensures
            name@ == self.spec_name(),
    {
        match self {
            NativeProcess::Unix(process) => process.get_name(),
            NativeProcess::Windows(process) => process.get_name(),
        }
    }
}

/// A candidate for termination: a native process or a container. Its class
/// and its identity are fixed when it is made.
#[derive(Debug)]
pub enum Killable {
    Process(NativeProcess),
    Container(DockerContainer),
}

impl Killable {
    /// The class of the candidate.
    pub open spec fn spec_type(&self) -> KillableType {
        match self {
            Killable::Process(_) => KillableType::Process,
            Killable::Container(_) => KillableType::Container,
        }
    }

    /// The display name of the candidate.
    pub open spec fn spec_name(&self) -> Seq<char> {
        match self {
            Killable::Process(process) => process.spec_name(),
            Killable::Container(container) => container@,
        }
    }

    /// What is reported of the candidate once it was acted on: its class
    /// and its name.
    pub open spec fn report(&self) -> (KillableType, Seq<char>) {
        (self.spec_type(), self.spec_name())
    }

    /// The class of the candidate.
    pub fn get_type(&self) -> (kind: KillableType)
        ensures
            kind == self.spec_type(),
    {
        match self {
            Killable::Process(_) => KillableType::Process,
            Killable::Container(_) => KillableType::Container,
        }
    }

    /// The display name of the candidate.
    pub fn get_name(&self) -> (name: String)
        ensures
            name@ == self.spec_name(),
    {
        match self {
            Killable::Process(process) => process.get_name(),
            Killable::Container(container) => container.get_name(),
        }
    }
}

/// `text` with every character in lower case, as `str::to_lowercase` gives
/// it.
pub uninterp spec fn lowercase(text: Seq<char>) -> Seq<char>;

/// `str::to_lowercase` maps each character to its lower case by the rules
/// of Unicode, which depend on the text alone.
pub assume_specification[ str::to_lowercase ](text: &str) -> (lower: String)
    ensures
        lower@ == lowercase(text@),
;

/// Whether `marker` stands in `text` at index `at`.
pub open spec fn occurs_at(marker: Seq<char>, text: Seq<char>, at: int) -> bool {
    0 <= at && at + marker.len() <= text.len() && text.subrange(at, at + marker.len()) == marker
}

/// Whether `marker` stands somewhere in `text`.
pub open spec fn occurs_in(marker: Seq<char>, text: Seq<char>) -> bool {
    exists|at: int| occurs_at(marker, text, at)
}

/// Whether a process of this name belongs to the container runtime itself:
/// its name holds `docker`, in whatever case.
pub open spec fn is_runtime_shim(name: Seq<char>) -> bool {
    occurs_in("docker"@, lowercase(name))
}

/// Decides whether `marker` stands somewhere in `text`.
pub fn contains_text(text: &str, marker: &str) -> (found: bool)
    ensures
        found == occurs_in(marker@, text@),
{
    let n = text.unicode_len();
    let m = marker.unicode_len();
    if m > n {
        return false;
    }
    let mut at: usize = 0;
    while at <= n - m
        invariant
            n == text@.len(),
            m == marker@.len(),
            m <= n,
            at <= n - m + 1,
            forall|earlier: int| 0 <= earlier < at ==> !occurs_at(marker@, text@, earlier),
        decreases n - m + 1 - at,
    {
        let mut j: usize = 0;
        while j < m && text.get_char(at + j) == marker.get_char(j)
            invariant
                n == text@.len(),
                m == marker@.len(),
                at + m <= n,
                j <= m,
                forall|k: int| 0 <= k < j ==> text@[at + k] == marker@[k],
            decreases m - j,
        {
            j += 1;
        }
        if j == m {
            assert(text@.subrange(at as int, at + m) =~= marker@);
            assert(occurs_at(marker@, text@, at as int));
            return true;
        }
        assert(!occurs_at(marker@, text@, at as int)) by {
            if occurs_at(marker@, text@, at as int) {
                assert(text@.subrange(at as int, at + m)[j as int] == marker@[j as int]);
            }
        }
        at += 1;
    }
    false
}

/// Decides whether a process of this name belongs to the container runtime
/// itself.
pub fn is_shim_name(name: &str) -> (shim: bool)
    ensures
        shim == is_runtime_shim(name@),
{
    let lowered = name.to_lowercase();
    contains_text(lowered.as_str(), "docker")
}

/// Whether `process` stays a candidate: a process of the runtime is left
/// out where the runtime is present, since its containers are candidates in
/// their own right.
pub open spec fn stays(process: NativeProcess, docker_present: bool) -> bool {
    !(docker_present && is_runtime_shim(process.spec_name()))
}

/// The process candidates: the resolved processes that stay, in their
/// order.
pub open spec fn process_candidates(processes: Seq<NativeProcess>, docker_present: bool) -> Seq<
    Killable,
> {
    processes.filter(|p: NativeProcess| stays(p, docker_present)).map_values(
        |p: NativeProcess| Killable::Process(p),
    )
}

/// The container candidates: the resolved containers, in their order.
pub open spec fn container_candidates(containers: Seq<DockerContainer>) -> Seq<Killable> {
    containers.map_values(|c: DockerContainer| Killable::Container(c))
}

/// The candidate set of a mode: the process candidates unless the mode is
/// for containers only, then the container candidates where the runtime is
/// present and the mode is not for processes only.
pub open spec fn target_killables(
    mode: Mode,
    docker_present: bool,
    processes: Seq<NativeProcess>,
    containers: Seq<DockerContainer>,
) -> Seq<Killable> {
    (if mode != Mode::Container {
        process_candidates(processes, docker_present)
    } else {
        Seq::empty()
    }) + (if docker_present && mode != Mode::Process {
        container_candidates(containers)
    } else {
        Seq::empty()
    })
}

/// What is reported of each of `candidates`, in their order.
pub open spec fn reports(candidates: Seq<Killable>) -> Seq<(KillableType, Seq<char>)> {
    candidates.map_values(|k: Killable| k.report())
}

/// What a list of reports stands for.
pub open spec fn report_views(results: Seq<(KillableType, String)>) -> Seq<
    (KillableType, Seq<char>),
> {
    results.map_values(|r: (KillableType, String)| (r.0, r.1@))
}

/// Appends to `targets` the processes that stay candidates.
pub fn add_process_candidates(
    targets: &mut Vec<Killable>,
    processes: Vec<NativeProcess>,
    docker_present: bool,
)
    ensures
        final(targets)@ == old(targets)@ + process_candidates(processes@, docker_present),
{
    let ghost all = processes@;
    let ghost before = targets@;
    let ghost keep = |p: NativeProcess| stays(p, docker_present);
    let ghost wrap = |p: NativeProcess| Killable::Process(p);
    let mut processes = processes;
    let ghost mut seen: int = 0;
    proof {
        reveal(Seq::filter);
        assert(all.take(0) =~= Seq::empty());
        assert(targets@ =~= before + all.take(0).filter(keep).map_values(wrap));
        assert(all.skip(0) =~= all);
    }
    while processes.len() > 0
        invariant
            0 <= seen <= all.len(),
            processes@ == all.skip(seen),
            keep == |p: NativeProcess| stays(p, docker_present),
            wrap == |p: NativeProcess| Killable::Process(p),
            targets@ == before + all.take(seen).filter(keep).map_values(wrap),
        decreases processes.len(),
    {
        let process = processes.remove(0);
        proof {
            reveal(Seq::filter);
            let now = all.take(seen + 1);
            assert(process == all[seen]);
            assert(now.drop_last() =~= all.take(seen));
            assert(now.last() == process);
            assert(processes@ =~= all.skip(seen + 1));
            let kept = all.take(seen).filter(keep);
            if keep(process) {
                assert(now.filter(keep) == kept.push(process));
                assert(kept.push(process).map_values(wrap) =~= kept.map_values(wrap).push(
                    Killable::Process(process),
                ));
            } else {
                assert(now.filter(keep) == kept);
            }
            seen = seen + 1;
        }
        let name = process.get_name();
        if !(docker_present && is_shim_name(name.as_str())) {
            targets.push(Killable::Process(process));
        }
    }
    assert(all.take(seen) =~= all);
}

/// Appends the resolved containers to `targets`.
pub fn add_container_candidates(targets: &mut Vec<Killable>, containers: Vec<DockerContainer>)
    ensures
        final(targets)@ == old(targets)@ + container_candidates(containers@),
{
    let ghost all = containers@;
    let ghost before = targets@;
    let ghost wrap = |c: DockerContainer| Killable::Container(c);
    let mut containers = containers;
    let ghost mut seen: int = 0;
    proof {
        assert(targets@ =~= before + all.take(0).map_values(wrap));
        assert(all.skip(0) =~= all);
    }
    while containers.len() > 0
        invariant
            0 <= seen <= all.len(),
            containers@ == all.skip(seen),
            wrap == |c: DockerContainer| Killable::Container(c),
            targets@ == before + all.take(seen).map_values(wrap),
        decreases containers.len(),
    {
        let container = containers.remove(0);
        proof {
            assert(container == all[seen]);
            assert(containers@ =~= all.skip(seen + 1));
            assert(all.take(seen + 1).map_values(wrap) =~= all.take(seen).map_values(wrap).push(
                Killable::Container(container),
            ));
            seen = seen + 1;
        }
        targets.push(Killable::Container(container));
    }
    assert(all.take(seen) =~= all);
}

/// Where the pass over one port stands.
#[derive(Debug, Clone, Copy, PartialEq, Eq, Structural)]
pub enum Phase {
    /// The runtime is being probed.
    Start,
    /// The native processes that own the port are being resolved.
    GatherProcesses,
    /// The containers that publish the port are being resolved.
    GatherContainers,
    /// A candidate is being terminated.
    Act,
    /// The pass is over.
    Done,
}

/// What the engine asks of its caller next.
#[derive(Debug, Clone, Copy, PartialEq, Eq, Structural)]
pub enum Action {
    /// Probe whether the container runtime can be reached.
    ProbeRuntime,
    /// Resolve the native processes that own the port.
    ResolveProcesses,
    /// Resolve the containers that publish the port.
    ResolveContainers,
    /// Terminate the candidate that `target` names, with the signal of the
    /// pass.
    Terminate,
    /// Nothing more: the pass is over and `finish` gives its result.
    Finish,
}

/// What the caller found when it did what it was asked.
#[derive(Debug)]
pub enum Event {
    /// The probe was made; `true` where the runtime answered.
    RuntimeProbed(bool),
    /// The processes that own the port.
    ProcessesResolved(Vec<NativeProcess>),
    /// The containers that publish the port.
    ContainersResolved(Vec<DockerContainer>),
    /// The owners could not be resolved, for the reason given.
    ResolutionFailed(String),
    /// The candidate was signalled; `true` where it was terminated.
    Terminated(bool),
    /// The candidate could not be terminated, for the reason given.
    TerminationFailed(String),
}

/// The state of a pass.
pub struct EngineView {
    pub port: u16,
    pub signal: Seq<char>,
    pub mode: Mode,
    pub dry_run: bool,
    pub phase: Phase,
    /// Whether the runtime was found present.
    pub docker_present: bool,
    /// The candidates gathered so far.
    pub candidates: Seq<Killable>,
    /// How many of the candidates have been acted on.
    pub cursor: int,
    /// What is reported of the candidates acted on so far.
    pub results: Seq<(KillableType, Seq<char>)>,
    /// Why the pass failed, if it did.
    pub failure: Option<KillportError>,
}

/// The pass ends in failure.
pub open spec fn failed(state: EngineView, error: KillportError) -> (EngineView, Action) {
    (EngineView { phase: Phase::Done, failure: Some(error), ..state }, Action::Finish)
}

/// The candidates are gathered and are acted on. In a dry run all of them
/// are reported at once and none is touched; else they are terminated one
/// by one.
pub open spec fn act(state: EngineView) -> (EngineView, Action) {
    if state.dry_run {
        (
            EngineView {
                phase: Phase::Done,
                cursor: state.candidates.len() as int,
                results: reports(state.candidates),
                ..state
            },
            Action::Finish,
        )
    } else if state.cursor < state.candidates.len() {
        (EngineView { phase: Phase::Act, ..state }, Action::Terminate)
    } else {
        (EngineView { phase: Phase::Done, ..state }, Action::Finish)
    }
}

/// How a pass begins: the runtime is probed unless the mode is for
/// processes only, in which case the runtime counts as absent.
pub open spec fn begin(port: u16, signal: Seq<char>, mode: Mode, dry_run: bool) -> (
    EngineView,
    Action,
) {
    let state = EngineView {
        port,
        signal,
        mode,
        dry_run,
        phase: Phase::Start,
        docker_present: false,
        candidates: Seq::empty(),
        cursor: 0,
        results: Seq::empty(),
        failure: None,
    };
    if mode == Mode::Process {
        (EngineView { phase: Phase::GatherProcesses, ..state }, Action::ResolveProcesses)
    } else {
        (state, Action::ProbeRuntime)
    }
}

/// How a pass goes on when the caller reports `event`.
pub open spec fn next(state: EngineView, event: Event) -> (EngineView, Action) {
    match state.phase {
        Phase::Done => (state, Action::Finish),
        Phase::Start => match event {
            Event::RuntimeProbed(present) => {
                let probed = EngineView { docker_present: present, ..state };
                if state.mode != Mode::Container {
                    (
                        EngineView { phase: Phase::GatherProcesses, ..probed },
                        Action::ResolveProcesses,
                    )
                } else if present {
                    (
                        EngineView { phase: Phase::GatherContainers, ..probed },
                        Action::ResolveContainers,
                    )
                } else {
                    act(probed)
                }
            },
            _ => failed(state, KillportError::UnexpectedEvent),
        },
        Phase::GatherProcesses => match event {
            Event::ProcessesResolved(processes) => {
                let gathered = EngineView {
                    candidates: state.candidates + process_candidates(
                        processes@,
                        state.docker_present,
                    ),
                    ..state
                };
                if state.docker_present && state.mode != Mode::Process {
                    (
                        EngineView { phase: Phase::GatherContainers, ..gathered },
                        Action::ResolveContainers,
                    )
                } else {
                    act(gathered)
                }
            },
            Event::ResolutionFailed(reason) => failed(state, KillportError::Resolution(reason)),
            _ => failed(state, KillportError::UnexpectedEvent),
        },
        Phase::GatherContainers => match event {
            Event::ContainersResolved(containers) => act(
                EngineView {
                    candidates: state.candidates + container_candidates(containers@),
                    ..state
                },
            ),
            Event::ResolutionFailed(reason) => failed(state, KillportError::Resolution(reason)),
            _ => failed(state, KillportError::UnexpectedEvent),
        },
        Phase::Act => match event {
            Event::Terminated(gone) => act(
                EngineView {
                    cursor: state.cursor + 1,
                    results: if gone {
                        state.results.push(state.candidates[state.cursor].report())
                    } else {
                        state.results
                    },
                    ..state
                },
            ),
            Event::TerminationFailed(reason) => failed(state, KillportError::Termination(reason)),
            _ => failed(state, KillportError::UnexpectedEvent),
        },
    }
}

/// The result of a pass in state `state`: its failure if it failed, what it
/// reported if it is over, and a failure if it was cut short.
pub open spec fn outcome(state: EngineView) -> Result<Seq<(KillableType, Seq<char>)>, KillportError> {
    match state.failure {
        Some(error) => Err(error),
        None => if state.phase is Done {
            Ok(state.results)
        } else {
            Err(KillportError::UnexpectedEvent)
        },
    }
}

/// What the engine for one port offers to begin with: the rule by which
/// candidates are chosen, and the pass that acts on them.
pub trait KillportOperations: Sized {
    /// Gathers the candidates of one port from what was resolved for it:
    /// the processes that stay, then the containers, as `mode` admits them.
    fn find_target_killables(
        mode: Mode,
        docker_present: bool,
        processes: Vec<NativeProcess>,
        containers: Vec<DockerContainer>,
    ) -> (targets: Vec<Killable>)
        ensures
            targets@ == target_killables(mode, docker_present, processes@, containers@),
    ;

    /// Begins the pass over `port`: the candidates are gathered according
    /// to `mode` and then terminated with `signal`, or only reported where
    /// `dry_run` is set. The runtime is probed first, unless the mode is
    /// for processes only.
    fn kill_service_by_port(port: u16, signal: KillportSignal, mode: Mode, dry_run: bool) -> (begun:
        (Self, Action))
        ensures
            begun.1 == begin(port, signal@, mode, dry_run).1,
    ;
}

/// The engine for one pass over one port. It gathers the candidates from
/// what its caller resolves and says what to do with them; it touches
/// nothing itself.
pub struct Killport {
    port: u16,
    signal: KillportSignal,
    mode: Mode,
    dry_run: bool,
    phase: Phase,
    docker_present: bool,
    candidates: Vec<Killable>,
    cursor: usize,
    results: Vec<(KillableType, String)>,
    failure: Option<KillportError>,
}

impl View for Killport {
    type V = EngineView;

    closed spec fn view(&self) -> EngineView {
        EngineView {
            port: self.port,
            signal: self.signal@,
            mode: self.mode,
            dry_run: self.dry_run,
            phase: self.phase,
            docker_present: self.docker_present,
            candidates: self.candidates@,
            cursor: self.cursor as int,
            results: report_views(self.results@),
            failure: self.failure,
        }
    }
}

impl Killport {
    #[verifier::type_invariant]
    closed spec fn well_formed(&self) -> bool {
        &&& self.cursor <= self.candidates@.len()
        &&& self.phase is Act ==> self.cursor < self.candidates@.len()
    }

    /// The port of the pass.
    pub fn port(&self) -> (port: u16)
        ensures
            port == self@.port,
    {
        self.port
    }

    /// The signal of the pass.
    pub fn signal(&self) -> (signal: &KillportSignal)
        ensures
            signal@ == self@.signal,
    {
        &self.signal
    }

    /// The candidate to terminate, while the engine asks for one.
    pub fn target(&self) -> (target: Option<&Killable>)
        ensures
            target == if self@.phase is Act && 0 <= self@.cursor < self@.candidates.len() {
                Some(&self@.candidates[self@.cursor])
            } else {
                None
            },
    {
        proof {
            use_type_invariant(self);
        }
        match self.phase {
            Phase::Act => Some(&self.candidates[self.cursor]),
            _ => None,
        }
    }

    fn fail(self, error: KillportError) -> (ended: (Self, Action))
        ensures
            (ended.0@, ended.1) == failed(self@, error),
    {
        proof {
            use_type_invariant(&self);
        }
        (Killport { phase: Phase::Done, failure: Some(error), ..self }, Action::Finish)
    }

    fn report_all(candidates: &Vec<Killable>) -> (listed: Vec<(KillableType, String)>)
        ensures
            report_views(listed@) == reports(candidates@),
    {
        let mut listed: Vec<(KillableType, String)> = Vec::new();
        let mut i: usize = 0;
        assert(report_views(listed@) =~= reports(candidates@.take(0)));
        while i < candidates.len()
            invariant
                i <= candidates.len(),
                report_views(listed@) == reports(candidates@.take(i as int)),
            decreases candidates.len() - i,
        {
            let ghost before = listed@;
            let kind = candidates[i].get_type();
            let name = candidates[i].get_name();
            listed.push((kind, name));
            assert(report_views(listed@) =~= report_views(before).push((kind, name@)));
            assert(reports(candidates@.take(i as int + 1)) =~= reports(
                candidates@.take(i as int),
            ).push(candidates@[i as int].report()));
            i += 1;
        }
        assert(candidates@.take(i as int) =~= candidates@);
        listed
    }

    fn act_on_candidates(self) -> (acting: (Self, Action))
        ensures
            (acting.0@, acting.1) == act(self@),
    {
        proof {
            use_type_invariant(&self);
        }
        if self.dry_run {
            let results = Self::report_all(&self.candidates);
            let cursor = self.candidates.len();
            (Killport { phase: Phase::Done, cursor, results, ..self }, Action::Finish)
        } else if self.cursor < self.candidates.len() {
            (Killport { phase: Phase::Act, ..self }, Action::Terminate)
        } else {
            (Killport { phase: Phase::Done, ..self }, Action::Finish)
        }
    }

    /// Takes what the caller found when it did what it was asked, and says
    /// what to do next.
    ///
    /// The first candidate that cannot be terminated ends the pass in
    /// failure, and so does a resolution that fails, or an event that was
    /// not asked for. Once the pass is over nothing changes it.
    pub fn advance(self, event: Event) -> (advanced: (Self, Action))
        ensures
            (advanced.0@, advanced.1) == next(self@, event),
    {
        proof {
            use_type_invariant(&self);
        }
        match self.phase {
            Phase::Done => (self, Action::Finish),
            Phase::Start => match event {
                Event::RuntimeProbed(present) => {
                    let probed = Killport { docker_present: present, ..self };
                    if probed.mode != Mode::Container {
                        (
                            Killport { phase: Phase::GatherProcesses, ..probed },
                            Action::ResolveProcesses,
                        )
                    } else if present {
                        (
                            Killport { phase: Phase::GatherContainers, ..probed },
                            Action::ResolveContainers,
                        )
                    } else {
                        probed.act_on_candidates()
                    }
                },
                _ => self.fail(KillportError::UnexpectedEvent),
            },
            Phase::GatherProcesses => match event {
                Event::ProcessesResolved(processes) => {
                    let mut candidates = self.candidates;
                    add_process_candidates(&mut candidates, processes, self.docker_present);
                    let gathered = Killport { candidates, ..self };
                    if gathered.docker_present && gathered.mode != Mode::Process {
                        (
                            Killport { phase: Phase::GatherContainers, ..gathered },
                            Action::ResolveContainers,
                        )
                    } else {
                        gathered.act_on_candidates()
                    }
                },
                Event::ResolutionFailed(reason) => self.fail(KillportError::Resolution(reason)),
                _ => self.fail(KillportError::UnexpectedEvent),
            },
            Phase::GatherContainers => match event {
                Event::ContainersResolved(containers) => {
                    let mut candidates = self.candidates;
                    add_container_candidates(&mut candidates, containers);
                    let gathered = Killport { candidates, ..self };
                    gathered.act_on_candidates()
                },
                Event::ResolutionFailed(reason) => self.fail(KillportError::Resolution(reason)),
                _ => self.fail(KillportError::UnexpectedEvent),
            },
            Phase::Act => match event {
                Event::Terminated(gone) => {
                    let mut results = self.results;
                    if gone {
                        let ghost before = results@;
                        let kind = self.candidates[self.cursor].get_type();
                        let name = self.candidates[self.cursor].get_name();
                        results.push((kind, name));
                        assert(report_views(results@) =~= report_views(before).push(
                            (kind, name@),
                        ));
                    }
                    let cursor = if self.cursor < self.candidates.len() {
                        self.cursor + 1
                    } else {
                        self.cursor
                    };
                    let acted = Killport { phase: Phase::Done, cursor, results, ..self };
                    acted.act_on_candidates()
                },
                Event::TerminationFailed(reason) => self.fail(KillportError::Termination(reason)),
                _ => self.fail(KillportError::UnexpectedEvent),
            },
        }
    }

    /// Ends the pass and gives its result: what was acted on, in order, or
    /// why the pass failed. A pass that is cut short before the engine said
    /// `Finish` fails as one that was told of an event it had not asked
    /// for.
    pub fn finish(self) -> (result: Result<Vec<(KillableType, String)>, KillportError>)
        ensures
            match (result, outcome(self@)) {
                (Ok(acted), Ok(reported)) => report_views(acted@) == reported,
                (Err(error), Err(failure)) => error == failure,
                _ => false,
            },
    {
        match self.failure {
            Some(error) => Err(error),
            None => match self.phase {
                Phase::Done => Ok(self.results),
                _ => Err(KillportError::UnexpectedEvent),
            },
        }
    }
}

impl KillportOperations for Killport {
    fn find_target_killables(
        mode: Mode,
        docker_present: bool,
        processes: Vec<NativeProcess>,
        containers: Vec<DockerContainer>,
    ) -> (targets: Vec<Killable>) {
        let mut targets: Vec<Killable> = Vec::new();
        if mode != Mode::Container {
            add_process_candidates(&mut targets, processes, docker_present);
        }
        if docker_present && mode != Mode::Process {
            add_container_candidates(&mut targets, containers);
        }
        assert(targets@ =~= target_killables(mode, docker_present, processes@, containers@));
        targets
    }

    fn kill_service_by_port(port: u16, signal: KillportSignal, mode: Mode, dry_run: bool) -> (begun:
        (Self, Action))
        ensures
            (begun.0@, begun.1) == begin(port, signal@, mode, dry_run),
    {
        let (phase, action) = if mode == Mode::Process {
            (Phase::GatherProcesses, Action::ResolveProcesses)
        } else {
            (Phase::Start, Action::ProbeRuntime)
        };
        let engine = Killport {
            port,
            signal,
            mode,
            dry_run,
            phase,
            docker_present: false,
            candidates: Vec::new(),
            cursor: 0,
            results: Vec::new(),
            failure: None,
        };
        assert(report_views(engine.results@) =~= Seq::empty());
        (engine, action)
    }
}

/// The state of a pass, and what it asks next, after the caller answered
/// its requests with `events` in turn.
pub open spec fn run(begun: (EngineView, Action), events: Seq<Event>) -> (EngineView, Action)
    decreases events.len(),
{
    if events.len() == 0 {
        begun
    } else {
        next(run(begun, events.drop_last()).0, events.last())
    }
}

/// Whether the containers count in a pass: the runtime answered, and the
/// mode is not for processes only.
pub open spec fn runtime_counts(mode: Mode, present: bool) -> bool {
    present && mode != Mode::Process
}

/// The events by which a caller answers a pass that finds the runtime
/// `present` or not, the processes `processes` and the containers
/// `containers`: one for each request the mode gives rise to.
pub open spec fn answers(
    mode: Mode,
    present: bool,
    processes: Vec<NativeProcess>,
    containers: Vec<DockerContainer>,
) -> Seq<Event> {
    (if mode != Mode::Process {
        seq![Event::RuntimeProbed(present)]
    } else {
        Seq::empty()
    }) + (if mode != Mode::Container {
        seq![Event::ProcessesResolved(processes)]
    } else {
        Seq::empty()
    }) + (if runtime_counts(mode, present) {
        seq![Event::ContainersResolved(containers)]
    } else {
        Seq::empty()
    })
}

/// Once the caller has answered the requests of a pass, the engine holds
/// the candidate set of the mode and has not failed. In a dry run the pass
/// is over at once and reports every candidate, in order; where there is
/// no candidate it is over with nothing reported; else the first candidate
/// is to be terminated.
pub proof fn lemma_gathering(
    port: u16,
    signal: Seq<char>,
    mode: Mode,
    dry_run: bool,
    present: bool,
    processes: Vec<NativeProcess>,
    containers: Vec<DockerContainer>,
)
    ensures
        ({
            let (state, action) = run(
                begin(port, signal, mode, dry_run),
                answers(mode, present, processes, containers),
            );
            let candidates = target_killables(
                mode,
                runtime_counts(mode, present),
                processes@,
                containers@,
            );
            &&& state.candidates == candidates
            &&& state.failure is None
            &&& state.dry_run == dry_run
            &&& if dry_run {
                action is Finish && (outcome(state) matches Ok(reported) && reported == reports(
                    candidates,
                ))
            } else if candidates.len() == 0 {
                action is Finish && (outcome(state) matches Ok(reported) && reported.len() == 0)
            } else {
                action is Terminate && state.phase is Act && state.cursor == 0
                    && state.results.len() == 0
            }
        }),
{
    let begun = begin(port, signal, mode, dry_run);
    let events = answers(mode, present, processes, containers);
    let candidates = target_killables(
        mode,
        runtime_counts(mode, present),
        processes@,
        containers@,
    );
    let probed = Event::RuntimeProbed(present);
    let resolved = Event::ProcessesResolved(processes);
    let listed = Event::ContainersResolved(containers);
    let none = Seq::<Event>::empty();
    reveal_with_fuel(run, 4);
    assert(reports(Seq::<Killable>::empty()) =~= Seq::empty());
    match mode {
        Mode::Process => {
            assert(events =~= seq![resolved]);
            assert(events.drop_last() =~= none);
            assert(Seq::<Killable>::empty() + process_candidates(processes@, false) =~= candidates);
        },
        Mode::Container => {
            if present {
                assert(events =~= seq![probed, listed]);
                assert(events.drop_last() =~= seq![probed]);
                assert(events.drop_last().drop_last() =~= none);
                assert(Seq::<Killable>::empty() + container_candidates(containers@)
                    =~= candidates);
            } else {
                assert(events =~= seq![probed]);
                assert(events.drop_last() =~= none);
                assert(Seq::<Killable>::empty() =~= candidates);
            }
        },
        Mode::Auto => {
            let found = process_candidates(processes@, present);
            assert(Seq::<Killable>::empty() + found =~= found);
            if present {
                assert(events =~= seq![probed, resolved, listed]);
                assert(events.drop_last() =~= seq![probed, resolved]);
                assert(events.drop_last().drop_last() =~= seq![probed]);
                assert(events.drop_last().drop_last().drop_last() =~= none);
                assert(found + container_candidates(containers@) =~= candidates);
            } else {
                assert(events =~= seq![probed, resolved]);
                assert(events.drop_last() =~= seq![probed]);
                assert(events.drop_last().drop_last() =~= none);
                assert(found =~= candidates);
            }
        },
    }
}

/// A dry run touches nothing: whatever the caller reports, the engine
/// never asks for a candidate to be terminated, and the pass stays a dry
/// run.
pub proof fn lemma_dry_run_touches_nothing(state: EngineView, event: Event)
    requires
        state.dry_run,
    ensures
        !(next(state, event).1 is Terminate),
        next(state, event).0.dry_run,
        !(begin(state.port, state.signal, state.mode, true).1 is Terminate),
{
}

/// Outside a dry run a candidate is reported only after the caller found
/// it terminated: a step either leaves the reports as they are, or it
/// follows such a finding and adds the report of the candidate that was to
/// be terminated.
pub proof fn lemma_report_follows_termination(state: EngineView, event: Event)
    requires
        !state.dry_run,
    ensures
        next(state, event).0.results == state.results || (state.phase is Act && event
            == Event::Terminated(true) && next(state, event).0.results == state.results.push(
            state.candidates[state.cursor].report(),
        )),
{
}

/// No candidate is acted on twice: while candidates are being terminated
/// the candidate set stays as it is, and each finding of the caller either
/// ends the pass or moves it on to the candidate after the one that was
/// to be terminated.
pub proof fn lemma_each_candidate_is_asked_once(state: EngineView, event: Event)
    requires
        state.phase is Act,
    ensures
        next(state, event).0.candidates == state.candidates,
        next(state, event).1 is Finish || (next(state, event).1 is Terminate && next(
            state,
            event,
        ).0.cursor == state.cursor + 1),
{
}

/// The first candidate that cannot be terminated ends the pass: the pass
/// fails with the reason given and reports nothing.
pub proof fn lemma_first_failure_ends_pass(state: EngineView, reason: String)
    requires
        state.phase is Act,
    ensures
        next(state, Event::TerminationFailed(reason)).1 is Finish,
        outcome(next(state, Event::TerminationFailed(reason)).0) matches Err(error) && error
            == KillportError::Termination(reason),
{
}

/// Where nothing was resolved there is no candidate, whatever the mode.
pub proof fn lemma_nothing_resolved_no_candidate(mode: Mode, docker_present: bool)
    ensures
        target_killables(mode, docker_present, Seq::empty(), Seq::empty())
            == Seq::<Killable>::empty(),
{
    reveal(Seq::filter);
    assert(process_candidates(Seq::empty(), docker_present) =~= Seq::empty());
    assert(container_candidates(Seq::empty()) =~= Seq::empty());
    assert(target_killables(mode, docker_present, Seq::empty(), Seq::empty())
        =~= Seq::<Killable>::empty());
}

/// In the mode for containers only, no process is a candidate: with no
/// container publishing the port there is no candidate at all.
pub proof fn lemma_container_mode_excludes_processes(
    docker_present: bool,
    processes: Seq<NativeProcess>,
)
    ensures
        target_killables(Mode::Container, docker_present, processes, Seq::empty())
            == Seq::<Killable>::empty(),
{
    assert(container_candidates(Seq::empty()) =~= Seq::empty());
    assert(target_killables(Mode::Container, docker_present, processes, Seq::empty())
        =~= Seq::<Killable>::empty());
}

/// In the other modes a process that owns the port alone is the one
/// candidate, unless it is a process of the runtime and the runtime is
/// present.
pub proof fn lemma_process_counts_in_other_modes(
    mode: Mode,
    docker_present: bool,
    process: NativeProcess,
)
    requires
        mode != Mode::Container,
        stays(process, docker_present),
    ensures
        target_killables(mode, docker_present, seq![process], Seq::empty()) == seq![
            Killable::Process(process),
        ],
{
    let keep = |p: NativeProcess| stays(p, docker_present);
    reveal_with_fuel(Seq::filter, 2);
    assert(seq![process].drop_last() =~= Seq::empty());
    assert(seq![process].filter(keep) =~= seq![process]);
    assert(container_candidates(Seq::empty()) =~= Seq::empty());
    assert(target_killables(mode, docker_present, seq![process], Seq::empty()) =~= seq![
        Killable::Process(process),
    ]);
}

} // verus!
