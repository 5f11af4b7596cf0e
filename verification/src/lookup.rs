//! The lookup table's write side: installing and removing pods, with the
//! guarantee that a reader never observes a partially installed pod.

use vstd::prelude::*;
use crate::defaults::spec_default_inbound;
use crate::inbound::{
    clone_authz_list, ClientAuthentication, ClientAuthorization, ClientAuthorizationView,
    InboundServer, InboundServerView, KubeletIps,
};
use crate::index::{
    alist_first, alist_has, find_entry, group_deep, lemma_alist_first, Index, IndexView,
    LookupEntry, LookupEntryView, LookupTable, PodPortView, PodView,
};
use crate::net::{ClientNetwork, ClientNetworkView};

verus! {

broadcast use group_deep;

/// What a discovery reader holds for one (pod, port): the node's kubelet
/// addresses, the current configuration behind the port's two channel
/// levels, and both channels' versions.
#[derive(Debug)]
pub struct Rx {
    pub kubelet_ips: KubeletIps,
    pub server: InboundServer,
    pub outer_version: u64,
    pub inner_version: u64,
}

#[verifier::ext_equal]
pub struct RxView {
    pub kubelet_ips: Seq<crate::net::IpAddress>,
    pub server: InboundServerView,
    pub outer_version: u64,
    pub inner_version: u64,
}

impl View for Rx {
    type V = RxView;

    open spec fn view(&self) -> RxView {
        RxView {
            kubelet_ips: self.kubelet_ips@,
            server: self.server@,
            outer_version: self.outer_version,
            inner_version: self.inner_version,
        }
    }
}

/// The configuration currently behind a pod port: the owning server's last
/// snapshot, or the pod's default when no server owns it (or the named
/// server is gone).
pub open spec fn spec_target_snapshot(
    idx: IndexView,
    nsv: crate::index::NamespaceView,
    pod: PodView,
    port: PodPortView,
) -> InboundServerView {
    match port.server_name {
        Some(n) => if alist_has(nsv.servers, n) {
            nsv.servers[alist_first(nsv.servers, n)].1.snapshot
        } else {
            spec_default_inbound(pod.default_allow, idx.cluster_nets, idx.detect_timeout_ms)
        },
        None => spec_default_inbound(pod.default_allow, idx.cluster_nets, idx.detect_timeout_ms),
    }
}

/// The inner channel's version behind a pod port: the owning server's, or
/// zero for a default channel (a default never changes).
pub open spec fn spec_target_version(nsv: crate::index::NamespaceView, port: PodPortView) -> u64 {
    match port.server_name {
        Some(n) => if alist_has(nsv.servers, n) {
            nsv.servers[alist_first(nsv.servers, n)].1.version
        } else {
            0
        },
        None => 0,
    }
}

/// The position of the first port record with the container port.
pub open spec fn port_first(ports: Seq<PodPortView>, cp: u16) -> int
    decreases ports.len(),
{
    if ports.len() == 0 {
        0
    } else if ports[0].container_port == cp {
        0
    } else {
        1 + port_first(ports.drop_first(), cp)
    }
}

/// What the first port position satisfies.
pub proof fn lemma_port_first(ports: Seq<PodPortView>, cp: u16)
    ensures
        0 <= port_first(ports, cp) <= ports.len(),
        crate::index::pod::has_port(ports, cp) <==> port_first(ports, cp) < ports.len(),
        port_first(ports, cp) < ports.len() ==> ports[port_first(ports, cp)].container_port == cp,
        forall|j: int|
            0 <= j < port_first(ports, cp) ==> (#[trigger] ports[j]).container_port != cp,
    decreases ports.len(),
{
    if ports.len() == 0 {
        assert(!crate::index::pod::has_port(ports, cp));
    } else if ports[0].container_port == cp {
        assert(crate::index::pod::has_port(ports, cp));
    } else {
        lemma_port_first(ports.drop_first(), cp);
        if crate::index::pod::has_port(ports.drop_first(), cp) {
            let i = choose|i: int|
                0 <= i < ports.drop_first().len() && (#[trigger] ports.drop_first()[i]).container_port
                    == cp;
            assert(ports[i + 1].container_port == cp);
            assert(crate::index::pod::has_port(ports, cp));
        }
        if crate::index::pod::has_port(ports, cp) {
            let i = choose|i: int|
                0 <= i < ports.len() && (#[trigger] ports[i]).container_port == cp;
            assert(i > 0);
            assert(ports.drop_first()[i - 1].container_port == cp);
            assert(crate::index::pod::has_port(ports.drop_first(), cp));
        }
        assert forall|j: int| 0 <= j < port_first(ports, cp) implies (
        #[trigger] ports[j]).container_port != cp by {
            if j > 0 {
                assert(ports.drop_first()[j - 1].container_port != cp);
            }
        }
    }
}

/// What a lookup of (namespace, pod, port) observes: nothing unless the
/// pod is installed with that port; else the kubelet addresses and the
/// configuration and versions currently behind the port.
pub open spec fn spec_lookup(idx: IndexView, ns: Seq<char>, pod: Seq<char>, cp: u16) -> Option<
    RxView,
> {
    if !(alist_has(idx.lookups, ns) && alist_has(
        idx.lookups[alist_first(idx.lookups, ns)].1,
        pod,
    )) {
        None
    } else {
        let entry = idx.lookups[alist_first(idx.lookups, ns)].1[alist_first(
            idx.lookups[alist_first(idx.lookups, ns)].1,
            pod,
        )].1;
        if !(alist_has(idx.namespaces, ns) && alist_has(
            idx.namespaces[alist_first(idx.namespaces, ns)].1.pods,
            pod,
        )) {
            None
        } else {
            let nsv = idx.namespaces[alist_first(idx.namespaces, ns)].1;
            let podv = nsv.pods[alist_first(nsv.pods, pod)].1;
            if !crate::index::pod::has_port(podv.ports, cp) {
                None
            } else {
                let port = podv.ports[port_first(podv.ports, cp)];
                Some(
                    RxView {
                        kubelet_ips: entry.kubelet,
                        server: spec_target_snapshot(idx, nsv, podv, port),
                        outer_version: port.outer_version,
                        inner_version: spec_target_version(nsv, port),
                    },
                )
            }
        }
    }
}

impl Index {
    /// Looks a (namespace, pod, port) up for discovery: the pod's kubelet
    /// addresses and the configuration currently behind the port.
    pub fn lookup(&self, ns: &str, pod: &str, port: u16) -> (r: Option<Rx>)
        ensures
            match r {
                Some(rx) => spec_lookup(self@, ns@, pod@, port) == Some(rx@),
                None => spec_lookup(self@, ns@, pod@, port) is None,
            },
    {
        let li = match find_entry(&self.lookups.entries, ns) {
            Some(i) => i,
            None => {
                return None;
            },
        };
        let lj = match find_entry(&self.lookups.entries[li].1, pod) {
            Some(j) => j,
            None => {
                return None;
            },
        };
        let ni = match find_entry(&self.namespaces, ns) {
            Some(i) => i,
            None => {
                return None;
            },
        };
        let nj = match find_entry(&self.namespaces[ni].1.pods.entries, pod) {
            Some(j) => j,
            None => {
                return None;
            },
        };
        let ghost nsv = self@.namespaces[ni as int].1;
        let ghost podv = nsv.pods[nj as int].1;
        let ports = &self.namespaces[ni].1.pods.entries[nj].1.ports;
        let mut k: usize = 0;
        proof {
            lemma_port_first(podv.ports, port);
        }
        while k < ports.len()
            invariant
                k <= ports@.len(),
                podv.ports.len() == ports@.len(),
                podv.ports == ports.deep_view(),
                alist_has(self@.lookups, ns@),
                li == alist_first(self@.lookups, ns@),
                li < self.lookups.entries@.len(),
                alist_has(self@.lookups[li as int].1, pod@),
                lj == alist_first(self@.lookups[li as int].1, pod@),
                lj < self.lookups.entries@[li as int].1@.len(),
                alist_has(self@.namespaces, ns@),
                ni == alist_first(self@.namespaces, ns@),
                ni < self.namespaces@.len(),
                nsv == self@.namespaces[ni as int].1,
                alist_has(nsv.pods, pod@),
                nj == alist_first(nsv.pods, pod@),
                nj < self.namespaces@[ni as int].1.pods.entries@.len(),
                podv == nsv.pods[nj as int].1,
                forall|j: int| 0 <= j < k ==> (#[trigger] podv.ports[j]).container_port != port,
            decreases ports@.len() - k,
        {
            if ports[k].container_port == port {
                proof {
                    lemma_port_first(podv.ports, port);
                    assert(podv.ports[k as int].container_port == port);
                    assert(crate::index::pod::has_port(podv.ports, port));
                    let f = port_first(podv.ports, port);
                    if f < k {
                        assert(podv.ports[f].container_port == port);
                    }
                    if k < f {
                        assert(podv.ports[k as int].container_port != port);
                    }
                }
                let kubelet = self.lookups.entries[li].1[lj].1.kubelet.clone();
                let (server, inner_version) = match &ports[k].server_name {
                    Some(n) => {
                        match find_entry(&self.namespaces[ni].1.servers.entries, n.as_str()) {
                            Some(sj) => {
                                let snap = self.namespaces[ni].1.servers.entries[sj].1.snapshot.clone();
                                let v = self.namespaces[ni].1.servers.entries[sj].1.version;
                                (snap, v)
                            },
                            None => (
                                crate::defaults::default_inbound_server(
                                    self.namespaces[ni].1.pods.entries[nj].1.default_allow,
                                    &self.cluster_nets,
                                    self.detect_timeout_ms,
                                ),
                                0,
                            ),
                        }
                    },
                    None => (
                        crate::defaults::default_inbound_server(
                            self.namespaces[ni].1.pods.entries[nj].1.default_allow,
                            &self.cluster_nets,
                            self.detect_timeout_ms,
                        ),
                        0,
                    ),
                };
                let rx = Rx {
                    kubelet_ips: kubelet,
                    server,
                    outer_version: ports[k].outer_version,
                    inner_version,
                };
                proof {
                    assert(spec_lookup(self@, ns@, pod@, port) =~~= Some(rx@));
                }
                return Some(rx);
            }
            k += 1;
        }
        proof {
            if crate::index::pod::has_port(podv.ports, port) {
                let w = choose|w: int|
                    0 <= w < podv.ports.len() && (#[trigger] podv.ports[w]).container_port == port;
            }
        }
        None
    }
}

/// The configuration a reader hands on, with the implicit health-check
/// authorization appended: the kubelet addresses, unauthenticated.
pub open spec fn spec_mk_server(
    kubelet: Seq<crate::net::IpAddress>,
    inner: InboundServerView,
) -> InboundServerView {
    InboundServerView {
        protocol: inner.protocol,
        authorizations: inner.authorizations.push(
            (
                "_health_check"@,
                ClientAuthorizationView {
                    networks: Seq::new(
                        kubelet.len(),
                        |i: int|
                            ClientNetworkView {
                                net: kubelet[i].spec_host_cidr(),
                                except: Seq::empty(),
                            },
                    ),
                    authentication: crate::inbound::AuthenticationView::Unauthenticated,
                },
            ),
        ),
    }
}

/// Appends the implicit health-check authorization for the pod's kubelet
/// addresses.
pub fn mk_server(kubelet: &KubeletIps, inner: InboundServer) -> (r: InboundServer)
    requires
        forall|i: int| 0 <= i < kubelet@.len() ==> (#[trigger] kubelet@[i]).wf(),
    ensures
        r@ == spec_mk_server(kubelet@, inner@),
{
    let mut networks: Vec<ClientNetwork> = Vec::new();
    let mut i: usize = 0;
    while i < kubelet.addrs.len()
        invariant
            i <= kubelet.addrs@.len(),
            forall|j: int| 0 <= j < kubelet@.len() ==> (#[trigger] kubelet@[j]).wf(),
            kubelet@.len() == kubelet.addrs@.len(),
            networks@.len() == i,
            forall|j: int|
                0 <= j < i ==> (#[trigger] networks@[j])@ == (ClientNetworkView {
                    net: kubelet@[j].spec_host_cidr(),
                    except: Seq::empty(),
                }),
        decreases kubelet.addrs@.len() - i,
    {
        networks.push(ClientNetwork::from_address(kubelet.addrs[i]));
        i += 1;
    }
    let authz = ClientAuthorization {
        networks,
        authentication: ClientAuthentication::Unauthenticated,
    };
    let mut r = inner;
    r.authorizations.push((String::from_str("_health_check"), authz));
    proof {
        assert(r@ =~~= spec_mk_server(kubelet@, inner@));
    }
    r
}

impl Rx {
    /// The current configuration, with the health-check authorization
    /// appended.
    pub fn get(&self) -> (r: InboundServer)
        requires
            forall|i: int| 0 <= i < self@.kubelet_ips.len() ==> (#[trigger] self@.kubelet_ips[i]).wf(),
        ensures
            r@ == spec_mk_server(self@.kubelet_ips, self@.server),
    {
        mk_server(&self.kubelet_ips, self.server.clone())
    }
}

/// The table after installing a pod's entry: refused when the pod is
/// already installed; a namespace level appears with its first pod.
pub open spec fn spec_lookup_set(
    lookups: Seq<(Seq<char>, Seq<(Seq<char>, LookupEntryView)>)>,
    ns: Seq<char>,
    pod: Seq<char>,
    entry: LookupEntryView,
) -> Option<Seq<(Seq<char>, Seq<(Seq<char>, LookupEntryView)>)>> {
    if alist_has(lookups, ns) {
        let i = alist_first(lookups, ns);
        let pods = lookups[i].1;
        if alist_has(pods, pod) {
            None
        } else {
            Some(lookups.update(i, (lookups[i].0, pods.push((pod, entry)))))
        }
    } else {
        Some(lookups.push((ns, seq![(pod, entry)])))
    }
}

/// The table after removing a pod's entry: refused when the namespace or
/// pod is unknown; a namespace level disappears with its last pod.
pub open spec fn spec_lookup_unset(
    lookups: Seq<(Seq<char>, Seq<(Seq<char>, LookupEntryView)>)>,
    ns: Seq<char>,
    pod: Seq<char>,
) -> Option<Seq<(Seq<char>, Seq<(Seq<char>, LookupEntryView)>)>> {
    if !alist_has(lookups, ns) {
        None
    } else {
        let i = alist_first(lookups, ns);
        let pods = lookups[i].1;
        if !alist_has(pods, pod) {
            None
        } else {
            let pods2 = pods.remove(alist_first(pods, pod));
            if pods2.len() == 0 {
                Some(lookups.remove(i))
            } else {
                Some(lookups.update(i, (lookups[i].0, pods2)))
            }
        }
    }
}

/// Installing an entry keeps the table well-formed: unique keys at both
/// levels, and no empty namespace level.
pub proof fn lemma_lookup_set_wf(
    lookups: Seq<(Seq<char>, Seq<(Seq<char>, LookupEntryView)>)>,
    ns: Seq<char>,
    pod: Seq<char>,
    entry: LookupEntryView,
)
    requires
        crate::index::alist_unique(lookups),
        forall|x: int|
            0 <= x < lookups.len() ==> crate::index::alist_unique((#[trigger] lookups[x]).1),
        forall|x: int| 0 <= x < lookups.len() ==> (#[trigger] lookups[x]).1.len() > 0,
    ensures
        match spec_lookup_set(lookups, ns, pod, entry) {
            Some(l2) => crate::index::alist_unique(l2) && (forall|x: int|
                0 <= x < l2.len() ==> crate::index::alist_unique((#[trigger] l2[x]).1)) && (
            forall|x: int| 0 <= x < l2.len() ==> (#[trigger] l2[x]).1.len() > 0),
            None => true,
        },
{
    lemma_alist_first(lookups, ns);
    match spec_lookup_set(lookups, ns, pod, entry) {
        Some(l2) => {
            if alist_has(lookups, ns) {
                let i = alist_first(lookups, ns);
                let pods = lookups[i].1;
                assert forall|x: int, y: int| 0 <= x < y < l2.len() implies (
                #[trigger] l2[x]).0 != (#[trigger] l2[y]).0 by {
                    assert(lookups[x].0 != lookups[y].0);
                }
                assert forall|x: int|
                    0 <= x < l2.len() implies crate::index::alist_unique((#[trigger] l2[x]).1)
                    && l2[x].1.len() > 0 by {
                    assert(crate::index::alist_unique(lookups[x].1));
                    assert(lookups[x].1.len() > 0);
                    if x == i {
                        let p2 = pods.push((pod, entry));
                        assert forall|a: int, b: int| 0 <= a < b < p2.len() implies (
                        #[trigger] p2[a]).0 != (#[trigger] p2[b]).0 by {
                            if b == pods.len() {
                                assert(p2[a] == pods[a]);
                                if p2[a].0 == pod {
                                    assert(alist_has(pods, pod));
                                }
                            } else {
                                assert(pods[a].0 != pods[b].0);
                            }
                        }
                    }
                }
            } else {
                assert forall|x: int, y: int| 0 <= x < y < l2.len() implies (
                #[trigger] l2[x]).0 != (#[trigger] l2[y]).0 by {
                    if y < lookups.len() {
                        assert(lookups[x].0 != lookups[y].0);
                    } else {
                        assert(l2[x] == lookups[x]);
                        if l2[x].0 == ns {
                            assert(alist_has(lookups, ns));
                        }
                    }
                }
                assert forall|x: int|
                    0 <= x < l2.len() implies crate::index::alist_unique((#[trigger] l2[x]).1)
                    && l2[x].1.len() > 0 by {
                    if x < lookups.len() {
                        assert(crate::index::alist_unique(lookups[x].1));
                        assert(lookups[x].1.len() > 0);
                    } else {
                        let row = seq![(pod, entry)];
                        assert(crate::index::alist_unique(row));
                    }
                }
            }
        },
        None => {},
    }
}

impl LookupTable {
    /// Whether the pod is installed.
    pub fn contains(&self, ns: &str, pod: &str) -> (r: bool)
        ensures
            r == (alist_has(self@, ns@) && alist_has(
                self@[alist_first(self@, ns@)].1,
                pod@,
            )),
    {
        match find_entry(&self.entries, ns) {
            Some(i) => find_entry(&self.entries[i].1, pod).is_some(),
            None => false,
        }
    }

    /// Installs a pod's entry; a pod installed twice is refused, so readers
    /// never observe a partial installation.
    pub fn set(&mut self, ns: &str, pod: &str, entry: LookupEntry) -> (r: Result<
        (),
        crate::index::IndexError,
    >)
        ensures
            match spec_lookup_set(old(self)@, ns@, pod@, entry@) {
                Some(t) => r is Ok && final(self)@ == t,
                None => r == Err::<(), crate::index::IndexError>(
                    crate::index::IndexError::PodAlreadyExists,
                ) && final(self)@ == old(self)@,
            },
    {
        match find_entry(&self.entries, ns) {
            Some(i) => {
                match find_entry(&self.entries[i].1, pod) {
                    Some(_) => Err(crate::index::IndexError::PodAlreadyExists),
                    None => {
                        let ghost pods_pre = self.entries@[i as int].1.deep_view();
                        self.entries[i].1.push((pod.to_owned(), entry));
                        proof {
                            assert(self.entries@[i as int].1.deep_view() =~~= pods_pre.push(
                                (pod@, entry@),
                            ));
                            assert(self@ =~~= old(self)@.update(
                                i as int,
                                (old(self)@[i as int].0, pods_pre.push((pod@, entry@))),
                            ));
                        }
                        Ok(())
                    },
                }
            },
            None => {
                let mut pods: Vec<(String, LookupEntry)> = Vec::new();
                pods.push((pod.to_owned(), entry));
                self.entries.push((ns.to_owned(), pods));
                proof {
                    assert(self@ =~~= old(self)@.push((ns@, seq![(pod@, entry@)])));
                }
                Ok(())
            },
        }
    }

    /// Removes a pod's entry, and its namespace level when it becomes
    /// empty.
    pub fn unset(&mut self, ns: &str, pod: &str) -> (r: Result<(), crate::index::IndexError>)
        ensures
            match spec_lookup_unset(old(self)@, ns@, pod@) {
                Some(t) => r is Ok && final(self)@ == t,
                None => r is Err && final(self)@ == old(self)@,
            },
    {
        let i = match find_entry(&self.entries, ns) {
            Some(i) => i,
            None => {
                return Err(crate::index::IndexError::MissingNamespace);
            },
        };
        let j = match find_entry(&self.entries[i].1, pod) {
            Some(j) => j,
            None => {
                return Err(crate::index::IndexError::MissingPod);
            },
        };
        let ghost pods_pre = self.entries@[i as int].1.deep_view();
        self.entries[i].1.remove(j);
        proof {
            assert(self.entries@[i as int].1.deep_view() =~~= pods_pre.remove(
                alist_first(pods_pre, pod@),
            ));
        }
        if self.entries[i].1.len() == 0 {
            self.entries.remove(i);
            proof {
                assert(self@ =~~= old(self)@.remove(alist_first(old(self)@, ns@)));
            }
        } else {
            proof {
                assert(self@ =~~= old(self)@.update(
                    i as int,
                    (
                        old(self)@[i as int].0,
                        pods_pre.remove(alist_first(pods_pre, pod@)),
                    ),
                ));
            }
        }
        Ok(())
    }
}

} // verus!
