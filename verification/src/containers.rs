//! The scripts a node runs: each running container under its ULID, which of them are
//! kept as startup scripts, and what listing and stopping them gives.
//!
//! The container's task and its stop channel stay outside, as the type parameter `J`.
use vstd::prelude::*;

use crate::cid::{ulid_text, ulid_to_string};
use crate::future_map::FutureMap;

verus! {

/// A running container: its ULID, the image it runs, the script's name if it has one,
/// and the task that runs it.
pub struct ContainerHandle<J> {
    pub id: u128,
    pub image_name: String,
    pub script_name: Option<String>,
    pub task: J,
}

/// A running script as a listing shows it.
#[derive(Debug, Clone, PartialEq, Eq)]
pub struct RunningScript {
    pub id: u128,
    pub image: String,
    pub name: Option<String>,
}

/// Why running or stopping a script failed, where this module decides it.
#[derive(Debug, Clone, PartialEq, Eq)]
pub enum ExecutionError {
    /// No container runs under this ULID.
    ContainerNotFound(u128),
    /// The script runs, but could not be kept as a startup script.
    Persistence(String),
    /// The directory shared with the container has a path that is not UTF-8.
    SharedDirPathInvalid,
}

/// The ports to keep a deployed script's startup entry with: its ports where it is to
/// persist, none where not.
pub fn persisted_ports(persistent: bool, ports: &Vec<u16>) -> (r: Option<Vec<u16>>)
    ensures
        persistent ==> (r matches Some(p) && p@ == ports@),
        !persistent ==> r is None,
{
    if persistent {
        Some(ports.clone())
    } else {
        None
    }
}

/// The result of a deployment whose container started under `id`: its ULID, unless
/// keeping it as a startup script (`stored`, where it was asked for) failed.
pub fn deploy_result(id: u128, stored: Option<Result<(), String>>) -> (r: Result<u128, ExecutionError>)
    ensures
        r == match stored {
            Some(Err(e)) => Err(ExecutionError::Persistence(e)),
            _ => Ok(id),
        },
{
    match stored {
        Some(Err(e)) => Err(ExecutionError::Persistence(e)),
        _ => Ok(id),
    }
}

/// Where a port of a container is exposed on the host: on every IPv4 or on every IPv6
/// address, at the same port.
#[derive(Debug, Clone, Copy, PartialEq, Eq, Structural)]
pub enum PortBind {
    AnyV4,
    AnyV6,
}

/// How a script's container is set up: its name, the host paths mounted into it, its
/// environment, and its exposed ports.
#[derive(Debug, Clone, PartialEq, Eq)]
pub struct ContainerSetup {
    pub name: String,
    pub volumes: Vec<(String, String)>,
    pub env: Vec<(String, String)>,
    pub ports: Vec<(u16, PortBind)>,
}

/// Each port exposed on every IPv4 address, then on every IPv6 address, in order.
pub open spec fn port_binds(ports: Seq<u16>) -> Seq<(u16, PortBind)>
    decreases ports.len(),
{
    if ports.len() == 0 {
        Seq::empty()
    } else {
        port_binds(ports.drop_last()).push((ports.last(), PortBind::AnyV4)).push((ports.last(), PortBind::AnyV6))
    }
}

/// The path of the bridge socket inside a container.
pub open spec fn bridge_socket_in_container() -> Seq<char> {
    "/var/run/bridge.sock"@
}

/// How a script's container is set up: named by its ULID; the shared directory
/// (`shared_dir`, `None` where its path is not UTF-8) mounted at `shared_dir_in_container`
/// and the bridge socket at `/var/run/bridge.sock`; both places given in its environment;
/// each of `ports` exposed on every IPv4 and every IPv6 address. A shared directory whose
/// path is not UTF-8 is the error.
pub fn container_setup(
    ulid: u128,
    shared_dir: Option<String>,
    shared_dir_in_container: &str,
    socket_path: String,
    ports: &Vec<u16>,
) -> (r: Result<ContainerSetup, ExecutionError>)
    ensures
        shared_dir is None ==> r == Err::<ContainerSetup, ExecutionError>(ExecutionError::SharedDirPathInvalid),
        shared_dir matches Some(dir) ==> (r matches Ok(setup) && {
            &&& setup.name@ == ulid_text(ulid)
            &&& setup.volumes@.len() == 2
            &&& setup.volumes@[0].0@ == dir@ && setup.volumes@[0].1@ == shared_dir_in_container@
            &&& setup.volumes@[1].0@ == socket_path@ && setup.volumes@[1].1@ == bridge_socket_in_container()
            &&& setup.env@.len() == 2
            &&& setup.env@[0].0@ == "P2P_INDUSTRIES_SHARED_DIR"@ && setup.env@[0].1@ == shared_dir_in_container@
            &&& setup.env@[1].0@ == "P2P_INDUSTRIES_BRIDGE_SOCKET"@ && setup.env@[1].1@ == bridge_socket_in_container()
            &&& setup.ports@ == port_binds(ports@)
        }),
{
    let dir = match shared_dir {
        Some(d) => d,
        None => return Err(ExecutionError::SharedDirPathInvalid),
    };
    let socket_in_container = "/var/run/bridge.sock".to_owned();
    let volumes = vec![
        (dir, shared_dir_in_container.to_owned()),
        (socket_path, socket_in_container.clone()),
    ];
    let env = vec![
        ("P2P_INDUSTRIES_SHARED_DIR".to_owned(), shared_dir_in_container.to_owned()),
        ("P2P_INDUSTRIES_BRIDGE_SOCKET".to_owned(), socket_in_container),
    ];
    let mut binds: Vec<(u16, PortBind)> = Vec::new();
    let mut i: usize = 0;
    while i < ports.len()
        invariant
            i <= ports.len(),
            binds@ == port_binds(ports@.take(i as int)),
        decreases ports.len() - i,
    {
        proof {
            assert(ports@.take(i + 1).drop_last() =~= ports@.take(i as int));
        }
        binds.push((ports[i], PortBind::AnyV4));
        binds.push((ports[i], PortBind::AnyV6));
        i = i + 1;
    }
    proof {
        assert(ports@.take(i as int) =~= ports@);
    }
    Ok(ContainerSetup { name: ulid_to_string(ulid), volumes, env, ports: binds })
}

/// The running containers, by ULID.
pub struct Containers<J> {
    container_handles: FutureMap<ContainerHandle<J>>,
}

impl<J> View for Containers<J> {
    type V = Map<u128, ContainerHandle<J>>;

    closed spec fn view(&self) -> Map<u128, ContainerHandle<J>> {
        self.container_handles@
    }
}

impl<J> Containers<J> {
    /// Each container runs under its own ULID.
    pub closed spec fn well_formed(&self) -> bool {
        &&& self.container_handles.well_formed()
        &&& forall|k: u128| #[trigger] self.container_handles@.contains_key(k) ==> self.container_handles@[k].id == k
    }

    /// No container runs.
    pub fn new() -> (r: Self)
        ensures
            r.well_formed(),
            r@ == Map::<u128, ContainerHandle<J>>::empty(),
    {
        Containers { container_handles: FutureMap::new() }
    }

    /// A container started: it runs under its ULID. Where it is to persist, the result
    /// is the startup entry to store: its image with `persisted` ports.
    pub fn add_handle(&mut self, handle: ContainerHandle<J>, persisted: Option<Vec<u16>>) -> (r: Option<(String, Vec<u16>)>)
        requires
            old(self).well_formed(),
        ensures
            final(self).well_formed(),
            final(self)@ == old(self)@.insert(handle.id, handle),
            r == match persisted {
                Some(ports) => Some((handle.image_name, ports)),
                None => None::<(String, Vec<u16>)>,
            },
    {
        let id = handle.id;
        let image = handle.image_name.clone();
        let _ = self.container_handles.insert(id, handle);
        match persisted {
            Some(ports) => Some((image, ports)),
            None => None,
        }
    }

    /// The running scripts: each container's ULID, image and name, each once.
    pub fn list_containers(&self) -> (r: Vec<RunningScript>)
        requires
            self.well_formed(),
        ensures
            forall|i: int| 0 <= i < r@.len() ==> self@.contains_key(#[trigger] r@[i].id)
                && r@[i].image == self@[r@[i].id].image_name
                && r@[i].name == self@[r@[i].id].script_name,
            forall|k: u128| self@.contains_key(k) ==> exists|i: int| 0 <= i < r@.len() && #[trigger] r@[i].id == k,
            forall|i: int, j: int| 0 <= i < j < r@.len() ==> r@[i].id != r@[j].id,
    {
        let entries = self.container_handles.iter();
        let mut r: Vec<RunningScript> = Vec::new();
        let mut i: usize = 0;
        while i < entries.len()
            invariant
                i <= entries.len(),
                r@.len() == i,
                forall|a: int| 0 <= a < entries@.len() ==> self@.contains_key(#[trigger] entries@[a].0) && *entries@[a].1 == self@[entries@[a].0],
                forall|a: int| 0 <= a < i ==> (#[trigger] r@[a]).id == entries@[a].0
                    && r@[a].image == entries@[a].1.image_name
                    && r@[a].name == entries@[a].1.script_name,
            decreases entries.len() - i,
        {
            let (id, handle) = entries[i];
            let name = match &handle.script_name {
                Some(n) => Some(n.clone()),
                None => None,
            };
            r.push(RunningScript { id, image: handle.image_name.clone(), name });
            i = i + 1;
        }
        proof {
            assert forall|k: u128| self@.contains_key(k) implies exists|a: int| 0 <= a < r@.len() && #[trigger] r@[a].id == k by {
                let a = choose|a: int| 0 <= a < entries@.len() && #[trigger] entries@[a].0 == k;
                assert(r@[a].id == k);
            }
        }
        r
    }

    /// Stops keeping track of the container under `id`, handing it out to be stopped;
    /// where none runs under `id`, that is the error.
    pub fn stop_container(&mut self, id: u128) -> (r: Result<ContainerHandle<J>, ExecutionError>)
        requires
            old(self).well_formed(),
        ensures
            final(self).well_formed(),
            final(self)@ == old(self)@.remove(id),
            r == (if old(self)@.contains_key(id) {
                Ok(old(self)@[id])
            } else {
                Err(ExecutionError::ContainerNotFound(id))
            }),
    {
        match self.container_handles.remove(id) {
            Some(handle) => Ok(handle),
            None => Err(ExecutionError::ContainerNotFound(id)),
        }
    }

    /// Hands out every running container, to be stopped; none is kept track of after.
    pub fn stop_all_containers(&mut self) -> (r: Vec<ContainerHandle<J>>)
        requires
            old(self).well_formed(),
        ensures
            final(self).well_formed(),
            final(self)@ == Map::<u128, ContainerHandle<J>>::empty(),
            r@.len() == old(self)@.dom().len(),
            forall|i: int| 0 <= i < r@.len() ==> old(self)@.contains_key(#[trigger] r@[i].id) && old(self)@[r@[i].id] == r@[i],
            forall|k: u128| old(self)@.contains_key(k) ==> exists|i: int| 0 <= i < r@.len() && #[trigger] r@[i].id == k,
    {
        let ghost m0 = self@;
        let entries = self.container_handles.iter();
        let mut ids: Vec<u128> = Vec::new();
        let mut i: usize = 0;
        while i < entries.len()
            invariant
                i <= entries.len(),
                ids@.len() == i,
                forall|a: int| 0 <= a < i ==> ids@[a] == (#[trigger] entries@[a]).0,
            decreases entries.len() - i,
        {
            ids.push(entries[i].0);
            i = i + 1;
        }
        proof {
            assert forall|a: int, b: int| 0 <= a < b < ids@.len() implies ids@[a] != ids@[b] by {
                assert(ids@[a] == entries@[a].0 && ids@[b] == entries@[b].0);
            }
            assert forall|k: u128| m0.contains_key(k) implies ids@.contains(k) by {
                let a = choose|a: int| 0 <= a < entries@.len() && #[trigger] entries@[a].0 == k;
                assert(ids@[a] == k);
            }
            assert forall|a: int| 0 <= a < ids@.len() implies m0.contains_key(#[trigger] ids@[a]) by {
                assert(ids@[a] == entries@[a].0);
            }
        }
        let mut r: Vec<ContainerHandle<J>> = Vec::new();
        let mut n: usize = 0;
        while n < ids.len()
            invariant
                n <= ids.len(),
                self.well_formed(),
                forall|a: int, b: int| 0 <= a < b < ids@.len() ==> ids@[a] != ids@[b],
                forall|k: u128| m0.contains_key(k) ==> ids@.contains(k),
                forall|a: int| 0 <= a < ids@.len() ==> m0.contains_key(#[trigger] ids@[a]),
                forall|k: u128| self@.contains_key(k) <==> m0.contains_key(k) && !ids@.take(n as int).contains(k),
                forall|k: u128| #[trigger] self@.contains_key(k) ==> self@[k] == m0[k],
                r@.len() == n,
                forall|a: int| 0 <= a < n ==> (#[trigger] r@[a]).id == ids@[a] && r@[a] == m0[ids@[a]],
            decreases ids.len() - n,
        {
            let id = ids[n];
            proof {
                assert(!ids@.take(n as int).contains(id)) by {
                    if ids@.take(n as int).contains(id) {
                        let a = choose|a: int| 0 <= a < n && ids@.take(n as int)[a] == id;
                        assert(ids@[a] == ids@[n as int]);
                    }
                }
                assert(self@.contains_key(id));
            }
            let ghost before = self@;
            let h = self.container_handles.remove(id);
            match h {
                Some(handle) => {
                    proof {
                        assert(handle == m0[id]);
                        assert(handle.id == id);
                        let t0 = ids@.take(n as int);
                        let t1 = ids@.take(n + 1);
                        assert(t1 =~= t0.push(id));
                        assert forall|k: u128| self@.contains_key(k) <==> m0.contains_key(k) && !t1.contains(k) by {
                            assert(self@ == before.remove(id));
                            if t1.contains(k) && k != id {
                                let a = choose|a: int| 0 <= a < t1.len() && t1[a] == k;
                                assert(t0[a] == k);
                            }
                            if t0.contains(k) {
                                let a = choose|a: int| 0 <= a < t0.len() && t0[a] == k;
                                assert(t1[a] == k);
                            }
                            if k == id {
                                assert(t1[n as int] == k);
                            }
                        }
                    }
                    r.push(handle);
                },
                None => {
                    proof {
                        assert(false);
                    }
                },
            }
            n = n + 1;
        }
        proof {
            assert(ids@.take(n as int) =~= ids@);
            assert(self@ =~= Map::<u128, ContainerHandle<J>>::empty()) by {
                assert forall|k: u128| !self@.contains_key(k) by {
                    if m0.contains_key(k) {
                        assert(ids@.contains(k));
                    }
                }
            }
            assert forall|k: u128| m0.contains_key(k) implies exists|a: int| 0 <= a < r@.len() && #[trigger] r@[a].id == k by {
                let a = choose|a: int| 0 <= a < ids@.len() && ids@[a] == k;
                assert(r@[a].id == k);
            }
            assert(m0.dom() =~= ids@.to_set()) by {
                assert forall|k: u128| m0.dom().contains(k) <==> ids@.to_set().contains(k) by {
                    if ids@.contains(k) {
                        let a = choose|a: int| 0 <= a < ids@.len() && ids@[a] == k;
                    }
                }
            }
            ids@.unique_seq_to_set();
        }
        r
    }
}

} // verus!
