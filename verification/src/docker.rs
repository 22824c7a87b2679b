//! Matching containers to a port: a running container owns the port if it
//! publishes it.

use crate::error::{describe_refusal, refusal};
use crate::killport::{Event, KillableType};
use crate::signal::KillportSignal;
use vstd::prelude::*;
use vstd::string::*;

verus! {

/// A container that publishes the target port, known by its name.
#[derive(Debug)]
pub struct DockerContainer {
    pub name: String,
}

impl View for DockerContainer {
    type V = Seq<char>;

    open spec fn view(&self) -> Seq<char> {
        self.name@
    }
}

/// The names of a sequence of containers, in the same order.
pub open spec fn container_names(containers: Seq<DockerContainer>) -> Seq<Seq<char>> {
    containers.map_values(|c: DockerContainer| c@)
}

/// One publication record of a container: a port of the container and the
/// port of the host it is published on, if it is published.
#[derive(Debug, Clone, Copy, PartialEq, Eq, Structural)]
pub struct PortMapping {
    pub private_port: u16,
    pub public_port: Option<u16>,
}

/// What the runtime reports of one container.
#[derive(Debug)]
pub struct ContainerSummary {
    /// The names of the container, each with the leading separator the
    /// runtime writes.
    pub names: Option<Vec<String>>,
    /// The publication records, one for each protocol and address family.
    pub ports: Option<Vec<PortMapping>>,
    /// The state of the container, such as `running` or `exited`.
    pub state: Option<String>,
}

/// What the reachability probe of the runtime came to.
#[derive(Debug, Clone, Copy, PartialEq, Eq, Structural)]
pub enum RuntimeProbe {
    /// The runtime answered with its version.
    Answered,
    /// No connection to the runtime could be made.
    Unreachable,
    /// The runtime was reached and did not answer.
    Silent,
}

/// The request that terminates a container: its name and the name of the
/// signal, which the runtime knows by the same names as the system.
#[derive(Debug)]
pub struct KillContainerRequest {
    pub container: String,
    pub signal: String,
}

/// `name` without the separator the runtime may write before it.
pub open spec fn stripped(name: Seq<char>) -> Seq<char> {
    if name.len() > 0 && name[0] == '/' {
        name.drop_first()
    } else {
        name
    }
}

/// Whether one of the records publishes on the host port `port`.
pub open spec fn publishes(ports: Seq<PortMapping>, port: u16) -> bool {
    exists|i: int| 0 <= i < ports.len() && (#[trigger] ports[i]).public_port == Some(port)
}

/// Whether `container` is a target for `port`: it runs, it publishes the
/// port, and it has a name.
pub open spec fn is_target(container: ContainerSummary, port: u16) -> bool {
    &&& container.state matches Some(state) && state@ == "running"@
    &&& container.ports matches Some(ports) && publishes(ports@, port)
    &&& container.names matches Some(names) && names@.len() > 0
}

/// The names of the targets among `containers`, in the order of the list:
/// the first name of each, without its separator.
pub open spec fn target_names(containers: Seq<ContainerSummary>, port: u16) -> Seq<Seq<char>>
    decreases containers.len(),
{
    if containers.len() == 0 {
        Seq::empty()
    } else {
        let earlier = target_names(containers.drop_last(), port);
        if is_target(containers.last(), port) {
            earlier.push(stripped(containers.last().names->0@[0]@))
        } else {
            earlier
        }
    }
}

/// Where no container that runs publishes the port, there is no target.
pub proof fn lemma_no_publisher_no_target(containers: Seq<ContainerSummary>, port: u16)
    requires
        forall|i: int| 0 <= i < containers.len() ==> !is_target(#[trigger] containers[i], port),
    ensures
        target_names(containers, port) == Seq::<Seq<char>>::empty(),
    decreases containers.len(),
{
    if containers.len() > 0 {
        let shorter = containers.drop_last();
        assert forall|i: int| 0 <= i < shorter.len() implies !is_target(
            #[trigger] shorter[i],
            port,
        ) by {
            assert(shorter[i] == containers[i]);
        }
        lemma_no_publisher_no_target(shorter, port);
    }
}

/// Each target is reported once, however many of its records publish the
/// port: there are as many names as there are targets.
pub proof fn lemma_one_name_per_target(containers: Seq<ContainerSummary>, port: u16)
    ensures
        target_names(containers, port).len() == containers.filter(
            |c: ContainerSummary| is_target(c, port),
        ).len(),
    decreases containers.len(),
{
    reveal(Seq::filter);
    if containers.len() > 0 {
        lemma_one_name_per_target(containers.drop_last(), port);
    }
}

/// Removes the separator the runtime may write before a name.
pub fn strip_separator(name: &str) -> (bare: String)
    ensures
        bare@ == stripped(name@),
{
    let len = name.unicode_len();
    if len > 0 && name.get_char(0) == '/' {
        name.substring_char(1, len).to_owned()
    } else {
        name.to_owned()
    }
}

/// Decides whether one of the records publishes on the host port `port`.
/// The first such record settles it; the rest is not looked at.
pub fn publishes_port(ports: &Vec<PortMapping>, port: u16) -> (found: bool)
    ensures
        found == publishes(ports@, port),
{
    let mut i: usize = 0;
    while i < ports.len()
        invariant
            i <= ports.len(),
            forall|j: int| 0 <= j < i ==> (#[trigger] ports@[j]).public_port != Some(port),
        decreases ports.len() - i,
    {
        match ports[i].public_port {
            Some(public) => {
                if public == port {
                    return true;
                }
            },
            None => {},
        }
        i += 1;
    }
    false
}

/// Decides whether `container` is a target for `port`.
pub fn is_target_container(container: &ContainerSummary, port: u16) -> (target: bool)
    ensures
        target == is_target(*container, port),
{
    let running = match &container.state {
        Some(state) => {
            let wanted = "running".to_owned();
            *state == wanted
        },
        None => false,
    };
    let published = match &container.ports {
        Some(ports) => publishes_port(ports, port),
        None => false,
    };
    let named = match &container.names {
        Some(names) => names.len() > 0,
        None => false,
    };
    running && published && named
}

impl DockerContainer {
    /// Says whether the runtime is there to be asked. Only an answer counts:
    /// a runtime that cannot be reached, or does not answer, is absent.
    pub fn is_docker_present(probe: RuntimeProbe) -> (present: bool)
        ensures
            present == (probe is Answered),
    {
        match probe {
            RuntimeProbe::Answered => true,
            RuntimeProbe::Unreachable => false,
            RuntimeProbe::Silent => false,
        }
    }

    /// Finds the containers that own `port` among those the runtime lists.
    ///
    /// A container is a target if it runs and publishes the port. It is
    /// reported once, however many of its records publish the port, under
    /// its first name without the leading separator.
    pub fn find_target_containers(containers: &Vec<ContainerSummary>, port: u16) -> (targets: Vec<
        Self,
    >)
        ensures
            container_names(targets@) == target_names(containers@, port),
    {
        let mut targets: Vec<DockerContainer> = Vec::new();
        let mut i: usize = 0;
        assert(containers@.take(0) =~= Seq::empty());
        assert(container_names(targets@) =~= Seq::empty());
        while i < containers.len()
            invariant
                i <= containers.len(),
                container_names(targets@) == target_names(containers@.take(i as int), port),
            decreases containers.len() - i,
        {
            assert(containers@.take(i as int + 1).drop_last() =~= containers@.take(i as int));
            let container = &containers[i];
            if is_target_container(container, port) {
                match &container.names {
                    Some(names) => {
                        let name = strip_separator(names[0].as_str());
                        let ghost before = targets@;
                        targets.push(DockerContainer { name });
                        assert(container_names(targets@) =~= container_names(before).push(name@));
                    },
                    None => {},
                }
            }
            i += 1;
        }
        assert(containers@.take(i as int) =~= containers@);
        targets
    }

    /// Makes the request that terminates the container `name` with
    /// `signal`.
    pub fn kill_container(name: &str, signal: &KillportSignal) -> (request: KillContainerRequest)
        ensures
            request.container@ == name@,
            request.signal@ == signal@,
    {
        KillContainerRequest { container: name.to_owned(), signal: signal.to_string() }
    }

    /// A container candidate is always of the container class.
    pub fn get_type(&self) -> (kind: KillableType)
        ensures
            kind == KillableType::Container,
    {
        KillableType::Container
    }

    /// The display name.
    pub fn get_name(&self) -> (name: String)
        ensures
            name@ == self@,
    {
        self.name.clone()
    }

    /// Judges what the request to terminate the container came to: the
    /// container is terminated where the runtime accepted the request, and
    /// every error of the runtime or of the way to it is a failure, told
    /// with the name of the container.
    pub fn kill(&self, answer: Result<(), String>) -> (event: Event)
        ensures
            match answer {
                Ok(_) => event == Event::Terminated(true),
                Err(reason) => event matches Event::TerminationFailed(text) && text@ == refusal(
                    self@,
                    reason@,
                ),
            },
    {
        match answer {
            Ok(_) => Event::Terminated(true),
            Err(reason) => Event::TerminationFailed(
                describe_refusal(self.name.as_str(), reason.as_str()),
            ),
        }
    }
}

} // verus!
