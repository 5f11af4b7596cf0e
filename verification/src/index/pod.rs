//! Pod handling: harvesting container ports, resolving the pod's default
//! policy, holding pods pending until their node is known, and admitting
//! them into the namespace and lookup table.

use vstd::prelude::*;
use crate::defaults::{annotation_key, DefaultAllow};
use crate::index::refresh::{refresh_namespace, spec_refresh_ns};
use crate::index::server::lemma_ns_update_wf;
use crate::index::{
    alist_first, alist_has, find_entry, group_deep, lemma_alist_first, Index, IndexError,
    IndexView, LookupEntry, LookupEntryView, NamespaceView, Pod, PodPort, PodPortView, PodView,
};
use crate::inbound::KubeletIps;
use crate::lookup::{spec_lookup_set, spec_lookup_unset};
use crate::net::IpAddress;
use crate::resource::{ContainerSpec, ContainerPortView, ContainerView, PodResource, PodResourceView};
use crate::text::str_eq;

verus! {

broadcast use group_deep;

/// Whether some port entry carries the container port.
pub open spec fn has_port(ports: Seq<PodPortView>, cp: u16) -> bool {
    exists|i: int| 0 <= i < ports.len() && (#[trigger] ports[i]).container_port == cp
}

/// The harvested ports, extended by a container port: a port seen before is
/// kept once; a new one starts pointed at the default.
pub open spec fn spec_add_port(ports: Seq<PodPortView>, cp: u16) -> Seq<PodPortView> {
    if has_port(ports, cp) {
        ports
    } else {
        ports.push(PodPortView { container_port: cp, server_name: None, outer_version: 0 })
    }
}

/// The harvested ports after one container's ports.
pub open spec fn spec_ports_of_container(
    acc: Seq<PodPortView>,
    ps: Seq<ContainerPortView>,
    n: int,
) -> Seq<PodPortView>
    decreases n,
{
    if n <= 0 {
        acc
    } else {
        spec_add_port(spec_ports_of_container(acc, ps, n - 1), ps[n - 1].port)
    }
}

/// The harvested ports of the first `n` containers.
pub open spec fn spec_ports_of(
    acc: Seq<PodPortView>,
    containers: Seq<ContainerView>,
    n: int,
) -> Seq<PodPortView>
    decreases n,
{
    if n <= 0 {
        acc
    } else {
        let prev = spec_ports_of(acc, containers, n - 1);
        spec_ports_of_container(prev, containers[n - 1].ports, containers[n - 1].ports.len() as int)
    }
}

/// The declared port names, extended by one container port.
pub open spec fn spec_add_name(
    names: Seq<(Seq<char>, Seq<u16>)>,
    nm: Option<Seq<char>>,
    cp: u16,
) -> Seq<(Seq<char>, Seq<u16>)> {
    match nm {
        None => names,
        Some(n) => if alist_has(names, n) {
            let i = alist_first(names, n);
            names.update(i, (n, names[i].1.push(cp)))
        } else {
            names.push((n, seq![cp]))
        },
    }
}

/// The declared port names after one container's ports.
pub open spec fn spec_names_of_container(
    acc: Seq<(Seq<char>, Seq<u16>)>,
    ps: Seq<ContainerPortView>,
    n: int,
) -> Seq<(Seq<char>, Seq<u16>)>
    decreases n,
{
    if n <= 0 {
        acc
    } else {
        spec_add_name(spec_names_of_container(acc, ps, n - 1), ps[n - 1].name, ps[n - 1].port)
    }
}

/// The declared port names of the first `n` containers.
pub open spec fn spec_names_of(
    acc: Seq<(Seq<char>, Seq<u16>)>,
    containers: Seq<ContainerView>,
    n: int,
) -> Seq<(Seq<char>, Seq<u16>)>
    decreases n,
{
    if n <= 0 {
        acc
    } else {
        let prev = spec_names_of(acc, containers, n - 1);
        spec_names_of_container(prev, containers[n - 1].ports, containers[n - 1].ports.len() as int)
    }
}

/// Harvested ports are pairwise distinct.
pub proof fn lemma_add_port_unique(ports: Seq<PodPortView>, cp: u16)
    requires
        forall|i: int, j: int|
            0 <= i < j < ports.len() ==> (#[trigger] ports[i]).container_port != (
            #[trigger] ports[j]).container_port,
    ensures
        forall|i: int, j: int|
            0 <= i < j < spec_add_port(ports, cp).len() ==> (#[trigger] spec_add_port(
                ports,
                cp,
            )[i]).container_port != (#[trigger] spec_add_port(ports, cp)[j]).container_port,
{
    let r = spec_add_port(ports, cp);
    if !has_port(ports, cp) {
        assert forall|i: int, j: int|
            0 <= i < j < r.len() implies (#[trigger] r[i]).container_port != (
        #[trigger] r[j]).container_port by {
            if j == ports.len() {
                if r[i].container_port == cp {
                    assert(has_port(ports, cp));
                }
            } else {
                assert(ports[i].container_port != ports[j].container_port);
            }
        }
    }
}

/// Whether some harvested port entry carries the container port.
fn port_exists(ports: &Vec<PodPort>, cp: u16) -> (r: bool)
    ensures
        r == has_port(ports.deep_view(), cp),
{
    let mut i: usize = 0;
    while i < ports.len()
        invariant
            i <= ports@.len(),
            forall|j: int| 0 <= j < i ==> (#[trigger] ports@[j]).container_port != cp,
        decreases ports@.len() - i,
    {
        if ports[i].container_port == cp {
            assert(ports.deep_view()[i as int].container_port == cp);
            return true;
        }
        i += 1;
    }
    proof {
        if has_port(ports.deep_view(), cp) {
            let w = choose|w: int|
                0 <= w < ports.deep_view().len() && (#[trigger] ports.deep_view()[w]).container_port
                    == cp;
            assert(ports@[w].container_port == cp);
        }
    }
    false
}

/// Harvests a pod's exposed ports and their declared names from its
/// containers.
fn harvest_ports(containers: &Vec<ContainerSpec>) -> (r: (Vec<PodPort>, Vec<(String, Vec<u16>)>))
    ensures
        r.0.deep_view() == spec_ports_of(
            Seq::empty(),
            containers.deep_view(),
            containers.deep_view().len() as int,
        ),
        r.1.deep_view() == spec_names_of(
            Seq::empty(),
            containers.deep_view(),
            containers.deep_view().len() as int,
        ),
{
    let ghost cs = containers.deep_view();
    let mut ports: Vec<PodPort> = Vec::new();
    let mut names: Vec<(String, Vec<u16>)> = Vec::new();
    let mut i: usize = 0;
    proof {
        assert(ports.deep_view() =~~= spec_ports_of(Seq::empty(), cs, 0));
        assert(names.deep_view() =~~= spec_names_of(Seq::empty(), cs, 0));
    }
    while i < containers.len()
        invariant
            i <= containers@.len(),
            cs == containers.deep_view(),
            cs.len() == containers@.len(),
            ports.deep_view() == spec_ports_of(Seq::empty(), cs, i as int),
            names.deep_view() == spec_names_of(Seq::empty(), cs, i as int),
        decreases containers@.len() - i,
    {
        let mut k: usize = 0;
        proof {
            assert(cs[i as int] == containers@[i as int]@);
        }
        while k < containers[i].ports.len()
            invariant
                0 <= i < containers@.len(),
                cs == containers.deep_view(),
                cs.len() == containers@.len(),
                k <= containers@[i as int].ports@.len(),
                cs[i as int].ports.len() == containers@[i as int].ports@.len(),
                ports.deep_view() == spec_ports_of_container(
                    spec_ports_of(Seq::empty(), cs, i as int),
                    cs[i as int].ports,
                    k as int,
                ),
                names.deep_view() == spec_names_of_container(
                    spec_names_of(Seq::empty(), cs, i as int),
                    cs[i as int].ports,
                    k as int,
                ),
            decreases containers@[i as int].ports@.len() - k,
        {
            let cp = containers[i].ports[k].port;
            proof {
                assert(cs[i as int].ports[k as int] == containers@[i as int].ports@[k as int]@);
            }
            let ghost ports_pre = ports.deep_view();
            let ghost names_pre = names.deep_view();
            if !port_exists(&ports, cp) {
                ports.push(PodPort { container_port: cp, server_name: None, outer_version: 0 });
                proof {
                    assert(ports.deep_view() =~~= spec_add_port(ports_pre, cp));
                }
            }
            match &containers[i].ports[k].name {
                Some(nm) => {
                    match find_entry(&names, nm.as_str()) {
                        Some(x) => {
                            let ghost row = names@[x as int].1@;
                            names[x].1.push(cp);
                            proof {
                                assert(names@[x as int].1@ =~= row.push(cp));
                                assert(names.deep_view() =~~= spec_add_name(
                                    names_pre,
                                    Some(nm@),
                                    cp,
                                ));
                            }
                        },
                        None => {
                            let mut row: Vec<u16> = Vec::new();
                            row.push(cp);
                            names.push((nm.clone(), row));
                            proof {
                                assert(names.deep_view() =~~= spec_add_name(
                                    names_pre,
                                    Some(nm@),
                                    cp,
                                ));
                            }
                        },
                    }
                },
                None => {},
            }
            k += 1;
        }
        i += 1;
        proof {
            assert(ports.deep_view() == spec_ports_of(Seq::empty(), cs, i as int));
            assert(names.deep_view() == spec_names_of(Seq::empty(), cs, i as int));
        }
    }
    (ports, names)
}

/// The default policy a pod resolves to: its own annotation when it parses,
/// else the namespace's mode.
pub open spec fn spec_pod_default(
    annotations: Seq<(Seq<char>, Seq<char>)>,
    ns_mode: DefaultAllow,
) -> DefaultAllow {
    if alist_has(annotations, "policy.linkerd.io/default-inbound-policy"@) {
        let v = annotations[alist_first(annotations, "policy.linkerd.io/default-inbound-policy"@)].1;
        match DefaultAllow::spec_parse(v) {
            Some(d) => d,
            None => ns_mode,
        }
    } else {
        ns_mode
    }
}

/// The default policy a pod resolves to.
fn pod_default(annotations: &Vec<(String, String)>, ns_mode: DefaultAllow) -> (r: DefaultAllow)
    ensures
        r == spec_pod_default(annotations.deep_view(), ns_mode),
{
    match find_entry(annotations, annotation_key()) {
        Some(i) => match DefaultAllow::parse(annotations[i].1.as_str()) {
            Some(d) => d,
            None => ns_mode,
        },
        None => ns_mode,
    }
}

/// The record a pod is indexed under: its labels, its resolved default,
/// and its harvested ports, each initially pointed at the default.
pub open spec fn spec_pod_record(res: PodResourceView, ns_mode: DefaultAllow) -> PodView {
    PodView {
        labels: res.labels,
        default_allow: spec_pod_default(res.annotations, ns_mode),
        ports: spec_ports_of(Seq::empty(), res.containers, res.containers.len() as int),
        port_names: spec_names_of(Seq::empty(), res.containers, res.containers.len() as int),
    }
}

/// The container ports of the harvested port list, in order.
pub open spec fn spec_cp_list(ports: Seq<PodPortView>) -> Seq<u16> {
    Seq::new(ports.len(), |i: int| ports[i].container_port)
}

/// The index after a pod is admitted (its node being known, with the given
/// kubelet addresses): its namespace exists; a pod indexed under the name
/// has its labels and default updated; a new pod is installed in the
/// namespace and the lookup table together.
pub open spec fn spec_admit_core(idx: IndexView, res: PodResourceView, ips: Seq<IpAddress>) -> IndexView {
    let idx1 = crate::index::spec_create_ns(idx, res.ns);
    let i = alist_first(idx1.namespaces, res.ns);
    let nsv = idx1.namespaces[i].1;
    if alist_has(nsv.pods, res.name) {
        let j = alist_first(nsv.pods, res.name);
        let p0 = nsv.pods[j].1;
        let p1 = PodView {
            labels: res.labels,
            default_allow: spec_pod_default(res.annotations, nsv.default_mode),
            ports: p0.ports,
            port_names: p0.port_names,
        };
        let ns2 = spec_refresh_ns(NamespaceView { pods: nsv.pods.update(j, (res.name, p1)), ..nsv });
        IndexView { namespaces: idx1.namespaces.update(i, (res.ns, ns2)), ..idx1 }
    } else {
        let pod = spec_pod_record(res, nsv.default_mode);
        let entry = LookupEntryView { kubelet: ips, ports: spec_cp_list(pod.ports) };
        match spec_lookup_set(idx1.lookups, res.ns, res.name, entry) {
            None => idx1,
            Some(l2) => {
                let ns2 = spec_refresh_ns(
                    NamespaceView { pods: nsv.pods.push((res.name, pod)), ..nsv },
                );
                IndexView {
                    namespaces: idx1.namespaces.update(i, (res.ns, ns2)),
                    lookups: l2,
                    ..idx1
                }
            },
        }
    }
}

/// Whether installing the pod in the lookup table would succeed.
pub open spec fn spec_lookup_set_ok(
    lookups: Seq<(Seq<char>, Seq<(Seq<char>, LookupEntryView)>)>,
    ns: Seq<char>,
    pod: Seq<char>,
) -> bool {
    !(alist_has(lookups, ns) && alist_has(lookups[alist_first(lookups, ns)].1, pod))
}

impl Index {
    /// Admits a pod whose node is known: indexes it, links its ports, and
    /// installs it in the lookup table.
    pub(crate) fn admit_pod_core(&mut self, pod: PodResource, ips: KubeletIps) -> (r: Result<
        (),
        IndexError,
    >)
        ensures
            final(self)@ == spec_admit_core(old(self)@, pod@, ips@),
            r is Ok <==> spec_admit_result_ok(old(self)@, pod@),
            !spec_admit_result_ok(old(self)@, pod@) ==> r == Err::<(), IndexError>(
                IndexError::PodAlreadyExists,
            ),
            old(self)@.wf() ==> final(self)@.wf(),
    {
        let PodResource { ns, name, node, labels, annotations, containers } = pod;
        let i = self.get_or_create_ns(ns.as_str());
        let ghost idx1 = self@;
        let ghost nsv = self@.namespaces[i as int].1;
        let default_mode = self.namespaces[i].1.default_mode;
        match find_entry(&self.namespaces[i].1.pods.entries, name.as_str()) {
            Some(j) => {
                let d = pod_default(&annotations, default_mode);
                self.namespaces[i].1.pods.entries[j].1.labels = labels;
                self.namespaces[i].1.pods.entries[j].1.default_allow = d;
                proof {
                    let p0 = nsv.pods[j as int].1;
                    let p1 = PodView {
                        labels: pod@.labels,
                        default_allow: spec_pod_default(pod@.annotations, nsv.default_mode),
                        ports: p0.ports,
                        port_names: p0.port_names,
                    };
                    assert(self.namespaces@[i as int].1@.pods =~~= nsv.pods.update(
                        j as int,
                        (pod@.name, p1),
                    ));
                    assert(self.namespaces@[i as int].1@ =~~= (NamespaceView {
                        pods: nsv.pods.update(j as int, (pod@.name, p1)),
                        ..nsv
                    }));
                }
                let ghost ns_mid = self.namespaces@[i as int].1@;
                refresh_namespace(&mut self.namespaces[i].1);
                proof {
                    assert(self@.namespaces =~~= idx1.namespaces.update(
                        i as int,
                        (pod@.ns, spec_refresh_ns(ns_mid)),
                    ));
                    assert(self@ =~~= spec_admit_core(old(self)@, pod@, ips@));
                    if old(self)@.wf() {
                        lemma_update_pod_wf(nsv, j as int, ns_mid);
                        lemma_ns_update_wf(idx1, i as int, pod@.ns, ns_mid);
                    }
                }
                Ok(())
            },
            None => {
                let d = pod_default(&annotations, default_mode);
                let (ports, port_names) = harvest_ports(&containers);
                let mut cps: Vec<u16> = Vec::new();
                let mut t: usize = 0;
                while t < ports.len()
                    invariant
                        t <= ports@.len(),
                        cps@.len() == t,
                        forall|m: int|
                            0 <= m < t ==> cps@[m] == (#[trigger] ports@[m]).container_port,
                    decreases ports@.len() - t,
                {
                    cps.push(ports[t].container_port);
                    t += 1;
                }
                proof {
                    assert(cps@ =~= spec_cp_list(ports.deep_view()));
                }
                let entry = LookupEntry { kubelet: ips, ports: cps };
                let ghost podv = PodView {
                    labels: labels.deep_view(),
                    default_allow: d,
                    ports: ports.deep_view(),
                    port_names: port_names.deep_view(),
                };
                match self.lookups.set(ns.as_str(), name.as_str(), entry) {
                    Err(e) => {
                        proof {
                            assert(self@ =~~= spec_admit_core(old(self)@, pod@, ips@));
                        }
                        Err(e)
                    },
                    Ok(()) => {
                        let p = Pod { labels, default_allow: d, ports, port_names };
                        self.namespaces[i].1.pods.entries.push((name, p));
                        proof {
                            assert(podv =~~= spec_pod_record(pod@, nsv.default_mode));
                            assert(self.namespaces@[i as int].1@.pods =~~= nsv.pods.push(
                                (pod@.name, podv),
                            ));
                            assert(self.namespaces@[i as int].1@ =~~= (NamespaceView {
                                pods: nsv.pods.push((pod@.name, podv)),
                                ..nsv
                            }));
                        }
                        let ghost ns_mid = self.namespaces@[i as int].1@;
                        refresh_namespace(&mut self.namespaces[i].1);
                        proof {
                            assert(self@.namespaces =~~= idx1.namespaces.update(
                                i as int,
                                (pod@.ns, spec_refresh_ns(ns_mid)),
                            ));
                            assert(self@ =~~= spec_admit_core(old(self)@, pod@, ips@));
                            if old(self)@.wf() {
                                lemma_new_pod_wf(pod@, nsv, podv);
                                crate::lookup::lemma_lookup_set_wf(
                                    idx1.lookups,
                                    pod@.ns,
                                    pod@.name,
                                    LookupEntryView { kubelet: ips@, ports: spec_cp_list(podv.ports) },
                                );
                                lemma_ns_update_wf_lookups(
                                    idx1,
                                    i as int,
                                    pod@.ns,
                                    ns_mid,
                                    self@.lookups,
                                );
                            }
                        }
                        Ok(())
                    },
                }
            },
        }
    }
}

/// Whether admission returns success, stated over the pre-state.
pub open spec fn spec_admit_result_ok(idx: IndexView, res: PodResourceView) -> bool {
    let idx1 = crate::index::spec_create_ns(idx, res.ns);
    let i = alist_first(idx1.namespaces, res.ns);
    let nsv = idx1.namespaces[i].1;
    alist_has(nsv.pods, res.name) || spec_lookup_set_ok(idx1.lookups, res.ns, res.name)
}

/// Updating an indexed pod's labels and default keeps the namespace
/// well-formed.
proof fn lemma_update_pod_wf(nsv: NamespaceView, j: int, mid: NamespaceView)
    requires
        nsv.wf(),
        0 <= j < nsv.pods.len(),
        mid.pods.len() == nsv.pods.len(),
        forall|x: int|
            0 <= x < nsv.pods.len() && x != j ==> #[trigger] mid.pods[x] == nsv.pods[x],
        mid.pods[j].0 == nsv.pods[j].0,
        mid.pods[j].1.ports == nsv.pods[j].1.ports,
        mid.servers == nsv.servers,
        mid.authzs == nsv.authzs,
    ensures
        mid.wf(),
{
    assert forall|x: int, y: int| 0 <= x < y < mid.pods.len() implies (
    #[trigger] mid.pods[x]).0 != (#[trigger] mid.pods[y]).0 by {
        assert(nsv.pods[x].0 != nsv.pods[y].0);
    }
    assert forall|x: int| 0 <= x < mid.pods.len() implies (#[trigger] mid.pods[x]).1.ports_unique()
        by {
        assert(nsv.pods[x].1.ports_unique());
        if x == j {
            assert(mid.pods[x].1.ports == nsv.pods[x].1.ports);
        }
    }
}

/// A freshly harvested pod has unique ports, and pushing it under a new
/// name keeps the namespace well-formed.
proof fn lemma_new_pod_wf(res: PodResourceView, nsv: NamespaceView, podv: PodView)
    requires
        nsv.wf(),
        !alist_has(nsv.pods, res.name),
        podv == spec_pod_record(res, nsv.default_mode),
    ensures
        (NamespaceView { pods: nsv.pods.push((res.name, podv)), ..nsv }).wf(),
{
    lemma_harvest_unique(res.containers, res.containers.len() as int);
    let mid = NamespaceView { pods: nsv.pods.push((res.name, podv)), ..nsv };
    assert forall|x: int, y: int| 0 <= x < y < mid.pods.len() implies (
    #[trigger] mid.pods[x]).0 != (#[trigger] mid.pods[y]).0 by {
        if y == nsv.pods.len() {
            if mid.pods[x].0 == res.name {
                assert(alist_has(nsv.pods, res.name)) by {
                    assert(nsv.pods[x].0 == res.name);
                }
            }
        } else {
            assert(nsv.pods[x].0 != nsv.pods[y].0);
        }
    }
    assert forall|x: int| 0 <= x < mid.pods.len() implies (#[trigger] mid.pods[x]).1.ports_unique()
        by {
        if x < nsv.pods.len() {
            assert(nsv.pods[x].1.ports_unique());
        }
    }
}

/// Harvesting never repeats a container port.
pub proof fn lemma_harvest_unique(containers: Seq<ContainerView>, n: int)
    ensures
        forall|i: int, j: int|
            0 <= i < j < spec_ports_of(Seq::empty(), containers, n).len() ==> (
            #[trigger] spec_ports_of(Seq::empty(), containers, n)[i]).container_port != (
            #[trigger] spec_ports_of(Seq::empty(), containers, n)[j]).container_port,
    decreases n,
{
    if n > 0 {
        lemma_harvest_unique(containers, n - 1);
        lemma_harvest_container_unique(
            spec_ports_of(Seq::empty(), containers, n - 1),
            containers[n - 1].ports,
            containers[n - 1].ports.len() as int,
        );
    }
}

/// Folding one container's ports keeps harvested ports unique.
proof fn lemma_harvest_container_unique(
    acc: Seq<PodPortView>,
    ps: Seq<ContainerPortView>,
    n: int,
)
    requires
        forall|i: int, j: int|
            0 <= i < j < acc.len() ==> (#[trigger] acc[i]).container_port != (
            #[trigger] acc[j]).container_port,
    ensures
        forall|i: int, j: int|
            0 <= i < j < spec_ports_of_container(acc, ps, n).len() ==> (
            #[trigger] spec_ports_of_container(acc, ps, n)[i]).container_port != (
            #[trigger] spec_ports_of_container(acc, ps, n)[j]).container_port,
    decreases n,
{
    if n > 0 {
        lemma_harvest_container_unique(acc, ps, n - 1);
        lemma_add_port_unique(spec_ports_of_container(acc, ps, n - 1), ps[n - 1].port);
    }
}

/// Whether a pending pod with the namespace and name exists.
pub open spec fn pending_has(s: Seq<PodResourceView>, ns: Seq<char>, name: Seq<char>) -> bool {
    exists|i: int| 0 <= i < s.len() && (#[trigger] s[i]).ns == ns && s[i].name == name
}

/// The position of the first pending pod with the namespace and name; the
/// length when none exists.
pub open spec fn pending_first(s: Seq<PodResourceView>, ns: Seq<char>, name: Seq<char>) -> int
    decreases s.len(),
{
    if s.len() == 0 {
        0
    } else if s[0].ns == ns && s[0].name == name {
        0
    } else {
        1 + pending_first(s.drop_first(), ns, name)
    }
}

/// What the first pending position satisfies.
pub proof fn lemma_pending_first(s: Seq<PodResourceView>, ns: Seq<char>, name: Seq<char>)
    ensures
        0 <= pending_first(s, ns, name) <= s.len(),
        pending_has(s, ns, name) <==> pending_first(s, ns, name) < s.len(),
        pending_first(s, ns, name) < s.len() ==> s[pending_first(s, ns, name)].ns == ns && s[
            pending_first(s, ns, name)
        ].name == name,
        forall|j: int|
            0 <= j < pending_first(s, ns, name) ==> !((#[trigger] s[j]).ns == ns && s[j].name
                == name),
    decreases s.len(),
{
    if s.len() == 0 {
        assert(!pending_has(s, ns, name));
    } else if s[0].ns == ns && s[0].name == name {
        assert(pending_has(s, ns, name));
    } else {
        lemma_pending_first(s.drop_first(), ns, name);
        if pending_has(s.drop_first(), ns, name) {
            let i = choose|i: int|
                0 <= i < s.drop_first().len() && (#[trigger] s.drop_first()[i]).ns == ns
                    && s.drop_first()[i].name == name;
            assert(s[i + 1].ns == ns && s[i + 1].name == name);
            assert(pending_has(s, ns, name));
        }
        if pending_has(s, ns, name) {
            let i = choose|i: int|
                0 <= i < s.len() && (#[trigger] s[i]).ns == ns && s[i].name == name;
            assert(i > 0);
            assert(s.drop_first()[i - 1].ns == ns && s.drop_first()[i - 1].name == name);
            assert(pending_has(s.drop_first(), ns, name));
        }
        assert forall|j: int| 0 <= j < pending_first(s, ns, name) implies !((#[trigger] s[j]).ns
            == ns && s[j].name == name) by {
            if j > 0 {
                assert(!(s.drop_first()[j - 1].ns == ns && s.drop_first()[j - 1].name == name));
            }
        }
    }
}

/// The pending set with the pod stored: replaced in place when one with its
/// namespace and name is held, appended otherwise.
pub open spec fn pending_upsert(s: Seq<PodResourceView>, res: PodResourceView) -> Seq<
    PodResourceView,
> {
    if pending_has(s, res.ns, res.name) {
        s.update(pending_first(s, res.ns, res.name), res)
    } else {
        s.push(res)
    }
}

/// The pending set without the pod, if held.
pub open spec fn pending_remove(s: Seq<PodResourceView>, ns: Seq<char>, name: Seq<char>) -> Seq<
    PodResourceView,
> {
    if pending_has(s, ns, name) {
        s.remove(pending_first(s, ns, name))
    } else {
        s
    }
}

/// The position of the first pending pod with the namespace and name, if
/// one is held.
fn find_pending(pending: &Vec<PodResource>, ns: &str, name: &str) -> (r: Option<usize>)
    ensures
        r is Some <==> pending_has(pending.deep_view(), ns@, name@),
        match r {
            Some(i) => i < pending@.len() && i == pending_first(pending.deep_view(), ns@, name@),
            None => true,
        },
{
    proof {
        lemma_pending_first(pending.deep_view(), ns@, name@);
    }
    let mut i: usize = 0;
    while i < pending.len()
        invariant
            i <= pending@.len(),
            forall|j: int|
                0 <= j < i ==> !((#[trigger] pending.deep_view()[j]).ns == ns@ && pending.deep_view()[j].name
                    == name@),
        decreases pending@.len() - i,
    {
        if str_eq(pending[i].ns.as_str(), ns) && str_eq(pending[i].name.as_str(), name) {
            proof {
                lemma_pending_first(pending.deep_view(), ns@, name@);
                assert(pending.deep_view()[i as int].ns == ns@ && pending.deep_view()[i as int].name
                    == name@);
                assert(pending_has(pending.deep_view(), ns@, name@));
                let f = pending_first(pending.deep_view(), ns@, name@);
                if f < i {
                    assert(pending.deep_view()[f].ns == ns@ && pending.deep_view()[f].name
                        == name@);
                }
                if i < f {
                    assert(!(pending.deep_view()[i as int].ns == ns@
                        && pending.deep_view()[i as int].name == name@));
                }
            }
            return Some(i);
        }
        proof {
            assert(!(pending.deep_view()[i as int].ns == ns@ && pending.deep_view()[i as int].name
                == name@));
        }
        i += 1;
    }
    proof {
        if pending_has(pending.deep_view(), ns@, name@) {
            let w = choose|w: int|
                0 <= w < pending.deep_view().len() && (#[trigger] pending.deep_view()[w]).ns == ns@
                    && pending.deep_view()[w].name == name@;
        }
    }
    None
}

/// The index after a pod is applied: held pending when its node is
/// unknown, admitted otherwise.
pub open spec fn spec_apply_pod(idx: IndexView, res: PodResourceView) -> IndexView {
    if !alist_has(idx.nodes, res.node) {
        IndexView { pending: pending_upsert(idx.pending, res), ..idx }
    } else {
        let ips = idx.nodes[alist_first(idx.nodes, res.node)].1;
        let idx_p = IndexView { pending: pending_remove(idx.pending, res.ns, res.name), ..idx };
        spec_admit_core(idx_p, res, ips)
    }
}

/// Whether applying the pod succeeds.
pub open spec fn spec_apply_pod_ok(idx: IndexView, res: PodResourceView) -> bool {
    if !alist_has(idx.nodes, res.node) {
        true
    } else {
        spec_admit_result_ok(
            IndexView { pending: pending_remove(idx.pending, res.ns, res.name), ..idx },
            res,
        )
    }
}

/// The index after a pod is deleted: dropped from the pending set, and
/// removed from its namespace and the lookup table when indexed.
pub open spec fn spec_delete_pod(idx: IndexView, ns: Seq<char>, name: Seq<char>) -> IndexView {
    let p = pending_remove(idx.pending, ns, name);
    if alist_has(idx.namespaces, ns) && alist_has(
        idx.namespaces[alist_first(idx.namespaces, ns)].1.pods,
        name,
    ) {
        let i = alist_first(idx.namespaces, ns);
        let nsv = idx.namespaces[i].1;
        let ns2 = NamespaceView {
            pods: nsv.pods.remove(alist_first(nsv.pods, name)),
            ..nsv
        };
        let lookups2 = match spec_lookup_unset(idx.lookups, ns, name) {
            Some(l) => l,
            None => idx.lookups,
        };
        IndexView {
            namespaces: idx.namespaces.update(i, (idx.namespaces[i].0, ns2)),
            lookups: lookups2,
            pending: p,
            ..idx
        }
    } else {
        IndexView { pending: p, ..idx }
    }
}

/// Whether deleting the pod succeeds: it must have been pending or
/// indexed.
pub open spec fn spec_delete_pod_ok(idx: IndexView, ns: Seq<char>, name: Seq<char>) -> bool {
    pending_has(idx.pending, ns, name) || (alist_has(idx.namespaces, ns) && alist_has(
        idx.namespaces[alist_first(idx.namespaces, ns)].1.pods,
        name,
    ))
}

impl Index {
    /// Applies a pod: indexes it and installs its ports atomically when its
    /// node is known, else holds it pending until the node appears.
    pub fn apply_pod(&mut self, pod: PodResource) -> (r: Result<(), IndexError>)
        ensures
            final(self)@ == spec_apply_pod(old(self)@, pod@),
            r is Ok <==> spec_apply_pod_ok(old(self)@, pod@),
            !spec_apply_pod_ok(old(self)@, pod@) ==> r == Err::<(), IndexError>(
                IndexError::PodAlreadyExists,
            ),
            old(self)@.wf() ==> final(self)@.wf(),
    {
        let ips = match find_entry(&self.nodes.entries, pod.node.as_str()) {
            Some(n) => self.nodes.entries[n].1.clone(),
            None => {
                match find_pending(&self.pending, pod.ns.as_str(), pod.name.as_str()) {
                    Some(i) => {
                        let ghost pre = self.pending.deep_view();
                        self.pending[i] = pod;
                        proof {
                            assert(self.pending.deep_view() =~~= pending_upsert(pre, pod@));
                            assert(self@ =~~= spec_apply_pod(old(self)@, pod@));
                        }
                    },
                    None => {
                        let ghost pre = self.pending.deep_view();
                        self.pending.push(pod);
                        proof {
                            assert(self.pending.deep_view() =~~= pending_upsert(pre, pod@));
                            assert(self@ =~~= spec_apply_pod(old(self)@, pod@));
                        }
                    },
                }
                return Ok(());
            },
        };
        match find_pending(&self.pending, pod.ns.as_str(), pod.name.as_str()) {
            Some(i) => {
                let ghost pre = self.pending.deep_view();
                self.pending.remove(i);
                proof {
                    assert(self.pending.deep_view() =~~= pending_remove(pre, pod@.ns, pod@.name));
                }
            },
            None => {},
        }
        proof {
            assert(self@ =~~= (IndexView {
                pending: pending_remove(old(self)@.pending, pod@.ns, pod@.name),
                ..old(self)@
            }));
        }
        self.admit_pod_core(pod, ips)
    }

    /// Deletes a pod: drops it from the pending set, and removes it from
    /// its namespace and the lookup table when indexed, closing its
    /// streams.  Deleting a pod that was neither pending nor indexed is
    /// refused.
    pub fn delete_pod(&mut self, pod: PodResource) -> (r: Result<(), IndexError>)
        ensures
            final(self)@ == spec_delete_pod(old(self)@, pod@.ns, pod@.name),
            r is Ok <==> spec_delete_pod_ok(old(self)@, pod@.ns, pod@.name),
            old(self)@.wf() ==> final(self)@.wf(),
    {
        self.remove_pod(pod.ns.as_str(), pod.name.as_str())
    }

    /// Removes the named pod, wherever it is held.
    pub(crate) fn remove_pod(&mut self, podns: &str, podname: &str) -> (r: Result<
        (),
        IndexError,
    >)
        ensures
            final(self)@ == spec_delete_pod(old(self)@, podns@, podname@),
            r is Ok <==> spec_delete_pod_ok(old(self)@, podns@, podname@),
            old(self)@.wf() ==> final(self)@.wf(),
    {
        let mut was_pending = false;
        match find_pending(&self.pending, podns, podname) {
            Some(i) => {
                let ghost pre = self.pending.deep_view();
                self.pending.remove(i);
                was_pending = true;
                proof {
                    assert(self.pending.deep_view() =~~= pending_remove(pre, podns@, podname@));
                }
            },
            None => {},
        }
        let i = match find_entry(&self.namespaces, podns) {
            Some(i) => i,
            None => {
                proof {
                    assert(self@ =~~= spec_delete_pod(old(self)@, podns@, podname@));
                }
                if was_pending {
                    return Ok(());
                }
                return Err(IndexError::MissingPod);
            },
        };
        let j = match find_entry(&self.namespaces[i].1.pods.entries, podname) {
            Some(j) => j,
            None => {
                proof {
                    assert(self@ =~~= spec_delete_pod(old(self)@, podns@, podname@));
                }
                if was_pending {
                    return Ok(());
                }
                return Err(IndexError::MissingPod);
            },
        };
        let ghost nsv = self@.namespaces[i as int].1;
        self.namespaces[i].1.pods.entries.remove(j);
        proof {
            assert(self.namespaces@[i as int].1@.pods =~~= nsv.pods.remove(
                alist_first(nsv.pods, podname@),
            ));
            assert(self.namespaces@[i as int].1@ =~~= (NamespaceView {
                pods: nsv.pods.remove(alist_first(nsv.pods, podname@)),
                ..nsv
            }));
        }
        let _ = self.lookups.unset(podns, podname);
        proof {
            assert(self@ =~~= spec_delete_pod(old(self)@, podns@, podname@));
            if old(self)@.wf() {
                lemma_delete_pod_wf(old(self)@, i as int, podns@, podname@, self@);
            }
        }
        Ok(())
    }
}

/// The `(namespace, name)` keys of a list of pod resources.
pub open spec fn pod_keys(rs: Seq<PodResourceView>) -> Seq<(Seq<char>, Seq<char>)> {
    Seq::new(rs.len(), |k: int| (rs[k].ns, rs[k].name))
}

/// The index after the first `n` pods of a restart batch are applied in
/// order.
pub open spec fn spec_apply_pods(idx: IndexView, rs: Seq<PodResourceView>, n: int) -> IndexView
    decreases n,
{
    if n <= 0 {
        idx
    } else {
        spec_apply_pod(spec_apply_pods(idx, rs, n - 1), rs[n - 1])
    }
}

/// The outcome of applying a restart batch: the last refusal, if any.
pub open spec fn spec_apply_pods_result(idx: IndexView, rs: Seq<PodResourceView>, n: int) -> Result<
    (),
    IndexError,
>
    decreases n,
{
    if n <= 0 {
        Ok(())
    } else {
        if !spec_apply_pod_ok(spec_apply_pods(idx, rs, n - 1), rs[n - 1]) {
            Err(IndexError::PodAlreadyExists)
        } else {
            spec_apply_pods_result(idx, rs, n - 1)
        }
    }
}

/// The stale pod keys of the first `n` namespaces.
pub open spec fn stale_pod_keys(
    nss: Seq<(Seq<char>, NamespaceView)>,
    n: int,
    keys: Seq<(Seq<char>, Seq<char>)>,
) -> Seq<(Seq<char>, Seq<char>)>
    decreases n,
{
    if n <= 0 {
        Seq::empty()
    } else {
        stale_pod_keys(nss, n - 1, keys) + crate::index::authz::stale_keys_in(
            nss[n - 1].0,
            nss[n - 1].1.pods,
            nss[n - 1].1.pods.len() as int,
            keys,
        )
    }
}

/// The index after the first `n` stale pods are deleted in order.
pub open spec fn spec_delete_pods(
    idx: IndexView,
    ks: Seq<(Seq<char>, Seq<char>)>,
    n: int,
) -> IndexView
    decreases n,
{
    if n <= 0 {
        idx
    } else {
        spec_delete_pod(spec_delete_pods(idx, ks, n - 1), ks[n - 1].0, ks[n - 1].1)
    }
}

/// The index after a restart of the pod stream: the pending set replaced
/// by the batch's pods with unknown nodes, every pod of the batch applied
/// in order, and every indexed pod the batch does not name deleted.
pub open spec fn spec_reset_pods(idx: IndexView, rs: Seq<PodResourceView>) -> IndexView {
    let idx0 = IndexView { pending: Seq::empty(), ..idx };
    let mid = spec_apply_pods(idx0, rs, rs.len() as int);
    let ks = stale_pod_keys(mid.namespaces, mid.namespaces.len() as int, pod_keys(rs));
    spec_delete_pods(mid, ks, ks.len() as int)
}

impl Index {
    /// Collects the `(namespace, name)` keys of every indexed pod that the
    /// batch does not name.
    fn stale_pods(&self, keys: &Vec<(String, String)>) -> (r: Vec<(String, String)>)
        ensures
            r.deep_view() == stale_pod_keys(
                self@.namespaces,
                self@.namespaces.len() as int,
                keys.deep_view(),
            ),
    {
        let ghost kd = keys.deep_view();
        let mut out: Vec<(String, String)> = Vec::new();
        let mut i: usize = 0;
        proof {
            assert(out.deep_view() =~~= stale_pod_keys(self@.namespaces, 0, kd));
        }
        while i < self.namespaces.len()
            invariant
                i <= self.namespaces@.len(),
                kd == keys.deep_view(),
                out.deep_view() == stale_pod_keys(self@.namespaces, i as int, kd),
            decreases self.namespaces@.len() - i,
        {
            proof {
                assert(self@.namespaces[i as int] == (
                    self.namespaces@[i as int].0@,
                    self.namespaces@[i as int].1@,
                ));
            }
            let ghost nsn = self@.namespaces[i as int].0;
            let ghost entries = self@.namespaces[i as int].1.pods;
            let mut j: usize = 0;
            proof {
                assert(out.deep_view() =~~= stale_pod_keys(self@.namespaces, i as int, kd)
                    + crate::index::authz::stale_keys_in(nsn, entries, 0, kd));
            }
            while j < self.namespaces[i].1.pods.entries.len()
                invariant
                    0 <= i < self.namespaces@.len(),
                    kd == keys.deep_view(),
                    nsn == self@.namespaces[i as int].0,
                    entries == self@.namespaces[i as int].1.pods,
                    j <= self.namespaces@[i as int].1.pods.entries@.len(),
                    entries.len() == self.namespaces@[i as int].1.pods.entries@.len(),
                    out.deep_view() == stale_pod_keys(self@.namespaces, i as int, kd)
                        + crate::index::authz::stale_keys_in(nsn, entries, j as int, kd),
                decreases self.namespaces@[i as int].1.pods.entries@.len() - j,
            {
                let ghost pre = out.deep_view();
                proof {
                    assert(entries[j as int] == (
                        self.namespaces@[i as int].1.pods.entries@[j as int].0@,
                        self.namespaces@[i as int].1.pods.entries@[j as int].1@,
                    ));
                }
                if !crate::labels::labels_contain(
                    keys,
                    self.namespaces[i].0.as_str(),
                    self.namespaces[i].1.pods.entries[j].0.as_str(),
                ) {
                    out.push(
                        (
                            self.namespaces[i].0.clone(),
                            self.namespaces[i].1.pods.entries[j].0.clone(),
                        ),
                    );
                    proof {
                        assert(out.deep_view() =~~= pre.push((nsn, entries[j as int].0)));
                    }
                }
                j += 1;
                proof {
                    assert(out.deep_view() =~~= stale_pod_keys(self@.namespaces, i as int, kd)
                        + crate::index::authz::stale_keys_in(nsn, entries, j as int, kd));
                }
            }
            i += 1;
            proof {
                assert(out.deep_view() =~~= stale_pod_keys(self@.namespaces, i as int, kd));
            }
        }
        out
    }

    /// Handles a restart of the pod stream: the batch is the source of
    /// truth.  The pending set is rebuilt from the batch; every pod in it
    /// is applied; every indexed pod it does not name is deleted.
    pub fn reset_pods(&mut self, pods: Vec<PodResource>) -> (r: Result<(), IndexError>)
        ensures
            final(self)@ == spec_reset_pods(old(self)@, pods.deep_view()),
            r == spec_apply_pods_result(
                (IndexView { pending: Seq::empty(), ..old(self)@ }),
                pods.deep_view(),
                pods.deep_view().len() as int,
            ),
            old(self)@.wf() ==> final(self)@.wf(),
    {
        let ghost rs = pods.deep_view();
        let mut keys: Vec<(String, String)> = Vec::new();
        let mut k: usize = 0;
        while k < pods.len()
            invariant
                k <= pods@.len(),
                rs == pods.deep_view(),
                keys@.len() == k,
                forall|x: int|
                    0 <= x < k ==> ((#[trigger] keys@[x]).0@ == rs[x].ns && keys@[x].1@
                        == rs[x].name),
            decreases pods@.len() - k,
        {
            keys.push((pods[k].ns.clone(), pods[k].name.clone()));
            k += 1;
        }
        proof {
            assert(keys.deep_view() =~~= pod_keys(rs));
        }
        self.pending.clear();
        let ghost idx0 = self@;
        proof {
            assert(idx0 =~~= (IndexView { pending: Seq::empty(), ..old(self)@ }));
            if old(self)@.wf() {
                assert(idx0.wf());
            }
        }
        let mut result: Result<(), IndexError> = Ok(());
        let mut batch = pods;
        let ghost total = rs.len();
        let ghost mut t: int = 0;
        while batch.len() > 0
            invariant
                0 <= t <= total,
                total == rs.len(),
                batch.deep_view() == rs.skip(t),
                batch@.len() == total - t,
                self@ == spec_apply_pods(idx0, rs, t),
                result == spec_apply_pods_result(idx0, rs, t),
                idx0.wf() ==> self@.wf(),
            decreases batch@.len(),
        {
            let ghost prevec = batch@;
            let ghost predeep = batch.deep_view();
            let a = batch.remove(0);
            proof {
                assert(rs.skip(t)[0] == rs[t]);
                assert(a@ == predeep[0]);
                assert(a@ == rs[t]);
                assert forall|x: int| 0 <= x < batch@.len() implies #[trigger] batch.deep_view()[x]
                    == rs.skip(t + 1)[x] by {
                    assert(batch@[x] == prevec[x + 1]);
                    assert(batch.deep_view()[x] == batch@[x].deep_view());
                    assert(predeep[x + 1] == prevec[x + 1].deep_view());
                    assert(predeep[x + 1] == rs.skip(t)[x + 1]);
                    assert(rs.skip(t)[x + 1] == rs[t + 1 + x]);
                    assert(rs.skip(t + 1)[x] == rs[t + 1 + x]);
                }
                assert(batch.deep_view() =~~= rs.skip(t + 1));
            }
            match self.apply_pod(a) {
                Ok(()) => {},
                Err(e) => {
                    result = Err(e);
                },
            }
            proof {
                t = t + 1;
            }
        }
        proof {
            assert(rs.skip(total as int).len() == 0);
            assert(t == total);
        }
        let stale = self.stale_pods(&keys);
        let ghost mid = self@;
        let ghost ks = stale.deep_view();
        let mut d: usize = 0;
        while d < stale.len()
            invariant
                d <= stale@.len(),
                ks == stale.deep_view(),
                self@ == spec_delete_pods(mid, ks, d as int),
                idx0.wf() ==> mid.wf(),
                mid.wf() ==> self@.wf(),
            decreases stale@.len() - d,
        {
            proof {
                assert(ks[d as int] == (stale@[d as int].0@, stale@[d as int].1@));
            }
            let _ = self.remove_pod(stale[d].0.as_str(), stale[d].1.as_str());
            d += 1;
        }
        proof {
            assert(self@ == spec_reset_pods(old(self)@, rs));
        }
        result
    }
}

/// Removing a pod keeps the index well-formed.
proof fn lemma_delete_pod_wf(
    idx: IndexView,
    i: int,
    ns: Seq<char>,
    name: Seq<char>,
    out: IndexView,
)
    requires
        idx.wf(),
        0 <= i < idx.namespaces.len(),
        out == spec_delete_pod(idx, ns, name),
        alist_has(idx.namespaces, ns),
        i == alist_first(idx.namespaces, ns),
        alist_has(idx.namespaces[i].1.pods, name),
    ensures
        out.wf(),
{
    let nsv = idx.namespaces[i].1;
    let f = alist_first(nsv.pods, name);
    lemma_alist_first(nsv.pods, name);
    crate::index::lemma_alist_remove_unique(nsv.pods, name);
    let ns2 = NamespaceView { pods: nsv.pods.remove(f), ..nsv };
    assert(ns2.wf()) by {
        assert forall|x: int| 0 <= x < ns2.pods.len() implies (
        #[trigger] ns2.pods[x]).1.ports_unique() by {
            let x0: int = if x < f {
                x
            } else {
                x + 1
            };
            assert(ns2.pods[x] == nsv.pods[x0]);
            assert(nsv.pods[x0].1.ports_unique());
        }
        assert(crate::index::alist_unique(ns2.pods) == crate::index::alist_unique(
            crate::index::alist_remove(nsv.pods, name),
        ));
    }
    assert forall|x: int, y: int| 0 <= x < y < out.namespaces.len() implies (
    #[trigger] out.namespaces[x]).0 != (#[trigger] out.namespaces[y]).0 by {
        assert(idx.namespaces[x].0 != idx.namespaces[y].0);
    }
    assert forall|x: int| 0 <= x < out.namespaces.len() implies (
    #[trigger] out.namespaces[x]).1.wf() by {
        if x != i {
            assert(idx.namespaces[x].1.wf());
        }
    }
    lemma_lookup_unset_wf(idx.lookups, ns, name);
}

/// Removing an entry keeps the table well-formed.
proof fn lemma_lookup_unset_wf(
    lookups: Seq<(Seq<char>, Seq<(Seq<char>, LookupEntryView)>)>,
    ns: Seq<char>,
    pod: Seq<char>,
)
    requires
        crate::index::alist_unique(lookups),
        forall|x: int|
            0 <= x < lookups.len() ==> crate::index::alist_unique((#[trigger] lookups[x]).1),
        forall|x: int| 0 <= x < lookups.len() ==> (#[trigger] lookups[x]).1.len() > 0,
    ensures
        match spec_lookup_unset(lookups, ns, pod) {
            Some(l2) => crate::index::alist_unique(l2) && (forall|x: int|
                0 <= x < l2.len() ==> crate::index::alist_unique((#[trigger] l2[x]).1)) && (
            forall|x: int| 0 <= x < l2.len() ==> (#[trigger] l2[x]).1.len() > 0),
            None => true,
        },
{
    lemma_alist_first(lookups, ns);
    match spec_lookup_unset(lookups, ns, pod) {
        Some(l2) => {
            let i = alist_first(lookups, ns);
            let pods = lookups[i].1;
            let pf = alist_first(pods, pod);
            lemma_alist_first(pods, pod);
            let pods2 = pods.remove(pf);
            if pods2.len() == 0 {
                assert forall|x: int, y: int| 0 <= x < y < l2.len() implies (
                #[trigger] l2[x]).0 != (#[trigger] l2[y]).0 by {
                    let x0: int = if x < i {
                        x
                    } else {
                        x + 1
                    };
                    let y0: int = if y < i {
                        y
                    } else {
                        y + 1
                    };
                    assert(lookups[x0].0 != lookups[y0].0);
                }
                assert forall|x: int|
                    0 <= x < l2.len() implies crate::index::alist_unique((#[trigger] l2[x]).1)
                    && l2[x].1.len() > 0 by {
                    let x0: int = if x < i {
                        x
                    } else {
                        x + 1
                    };
                    assert(l2[x] == lookups[x0]);
                    assert(crate::index::alist_unique(lookups[x0].1));
                    assert(lookups[x0].1.len() > 0);
                }
            } else {
                assert forall|x: int, y: int| 0 <= x < y < l2.len() implies (
                #[trigger] l2[x]).0 != (#[trigger] l2[y]).0 by {
                    assert(lookups[x].0 != lookups[y].0);
                }
                assert forall|x: int|
                    0 <= x < l2.len() implies crate::index::alist_unique((#[trigger] l2[x]).1)
                    && l2[x].1.len() > 0 by {
                    if x != i {
                        assert(crate::index::alist_unique(lookups[x].1));
                        assert(lookups[x].1.len() > 0);
                    } else {
                        assert forall|a: int, b: int| 0 <= a < b < pods2.len() implies (
                        #[trigger] pods2[a]).0 != (#[trigger] pods2[b]).0 by {
                            let a0: int = if a < pf {
                                a
                            } else {
                                a + 1
                            };
                            let b0: int = if b < pf {
                                b
                            } else {
                                b + 1
                            };
                            assert(pods[a0].0 != pods[b0].0);
                        }
                    }
                }
            }
        },
        None => {},
    }
}

/// Replacing one namespace by a refreshed well-formed namespace, together
/// with a new lookup state that is well-formed, keeps the index
/// well-formed.
proof fn lemma_ns_update_wf_lookups(
    idx: IndexView,
    i: int,
    k: Seq<char>,
    mid: NamespaceView,
    lookups: Seq<(Seq<char>, Seq<(Seq<char>, LookupEntryView)>)>,
)
    requires
        idx.wf(),
        0 <= i < idx.namespaces.len(),
        idx.namespaces[i].0 == k,
        mid.wf(),
        crate::index::alist_unique(lookups),
        forall|x: int| 0 <= x < lookups.len() ==> crate::index::alist_unique((#[trigger] lookups[x]).1),
        forall|x: int| 0 <= x < lookups.len() ==> (#[trigger] lookups[x]).1.len() > 0,
    ensures
        (IndexView {
            namespaces: idx.namespaces.update(i, (k, spec_refresh_ns(mid))),
            lookups,
            ..idx
        }).wf(),
{
    lemma_ns_update_wf(idx, i, k, mid);
}

} // verus!
