//! Recomputation of derived state within one namespace: which
//! authorizations match each server, what snapshot each server publishes,
//! and which server owns each pod port.

use vstd::prelude::*;
use crate::index::{
    alist_has, bump, group_deep, spec_bump, Authz, AuthzIndex, AuthzStateView, Namespace,
    NamespaceView, Pod, PodIndex, PodPort, PodPortView, PodView, Server, ServerMetaView,
    ServerSelector, ServerSelectorView, ServerStateView, SrvIndex,
};
use crate::inbound::{
    clone_authz_list, inbound_server_eq, ClientAuthorization, ClientAuthorizationView,
    InboundServer, InboundServerView,
};
use crate::labels::{selector_matches, selector_matches_labels};
use crate::resource::PortView;
use crate::text::{str_eq, str_lt, str_lt_exec};

verus! {

broadcast use group_deep;

/// Whether an authorization's selector picks a server: by name, the names
/// agree; by selector, the selector matches the server's labels.
pub open spec fn spec_selector_matches_server(
    sel: ServerSelectorView,
    srv_name: Seq<char>,
    srv_labels: Seq<(Seq<char>, Seq<char>)>,
) -> bool {
    match sel {
        ServerSelectorView::Name(n) => n == srv_name,
        ServerSelectorView::Selector(s) => selector_matches(s, srv_labels),
    }
}

/// Whether an authorization's selector picks a server.
pub fn selector_matches_server(
    sel: &ServerSelector,
    srv_name: &str,
    srv_labels: &Vec<(String, String)>,
) -> (r: bool)
    ensures
        r == spec_selector_matches_server(sel@, srv_name@, srv_labels.deep_view()),
{
    match sel {
        ServerSelector::Name(n) => str_eq(n.as_str(), srv_name),
        ServerSelector::Selector(s) => selector_matches_labels(s, srv_labels),
    }
}

/// The named client authorizations among the first `n` records whose
/// selector picks the server, in record order.
pub open spec fn spec_matched_authzs(
    authzs: Seq<(Seq<char>, AuthzStateView)>,
    n: int,
    srv_name: Seq<char>,
    srv_labels: Seq<(Seq<char>, Seq<char>)>,
) -> Seq<(Seq<char>, ClientAuthorizationView)>
    decreases n,
{
    if n <= 0 {
        Seq::empty()
    } else {
        let prev = spec_matched_authzs(authzs, n - 1, srv_name, srv_labels);
        if spec_selector_matches_server(authzs[n - 1].1.servers, srv_name, srv_labels) {
            prev.push((authzs[n - 1].0, authzs[n - 1].1.clients))
        } else {
            prev
        }
    }
}

/// The named client authorizations whose selector picks the server, in
/// record order.
pub fn collect_matched(authzs: &AuthzIndex, srv_name: &str, srv_labels: &Vec<(String, String)>) -> (r:
    Vec<(String, ClientAuthorization)>)
    ensures
        r.deep_view() == spec_matched_authzs(
            authzs@,
            authzs@.len() as int,
            srv_name@,
            srv_labels.deep_view(),
        ),
{
    let mut r: Vec<(String, ClientAuthorization)> = Vec::new();
    let mut i: usize = 0;
    proof {
        assert(r.deep_view() =~~= spec_matched_authzs(
            authzs@,
            0,
            srv_name@,
            srv_labels.deep_view(),
        ));
    }
    while i < authzs.entries.len()
        invariant
            i <= authzs.entries@.len(),
            authzs@.len() == authzs.entries@.len(),
            r.deep_view() == spec_matched_authzs(authzs@, i as int, srv_name@, srv_labels.deep_view()),
        decreases authzs.entries@.len() - i,
    {
        let ghost pre = r.deep_view();
        proof {
            assert(authzs@[i as int] == (authzs.entries@[i as int].0@, authzs.entries@[i as int].1@));
        }
        if selector_matches_server(&authzs.entries[i].1.servers, srv_name, srv_labels) {
            r.push((authzs.entries[i].0.clone(), authzs.entries[i].1.clients.clone()));
            proof {
                assert(r.deep_view() =~~= pre.push(
                    (authzs@[i as int].0, authzs@[i as int].1.clients),
                ));
            }
        }
        i += 1;
    }
    r
}

/// The refreshed record of one server: the matched authorizations, the
/// snapshot `{protocol, matched}`, and the version, advanced exactly when
/// the snapshot changed.
pub open spec fn spec_server_refresh(
    s: ServerStateView,
    name: Seq<char>,
    authzs: Seq<(Seq<char>, AuthzStateView)>,
) -> ServerStateView {
    let matched = spec_matched_authzs(authzs, authzs.len() as int, name, s.meta.labels);
    let snapshot = InboundServerView { protocol: s.meta.protocol, authorizations: matched };
    ServerStateView {
        meta: s.meta,
        authorizations: matched,
        snapshot: snapshot,
        version: if snapshot == s.snapshot {
            s.version
        } else {
            spec_bump(s.version)
        },
    }
}

/// The refreshed server records, name for name.
pub open spec fn spec_servers_refresh(
    servers: Seq<(Seq<char>, ServerStateView)>,
    authzs: Seq<(Seq<char>, AuthzStateView)>,
) -> Seq<(Seq<char>, ServerStateView)> {
    Seq::new(
        servers.len(),
        |i: int| (servers[i].0, spec_server_refresh(servers[i].1, servers[i].0, authzs)),
    )
}

/// A copy of a server's declared data.
fn clone_meta(m: &crate::index::ServerMeta) -> (r: crate::index::ServerMeta)
    ensures
        r@ == m@,
{
    let r = crate::index::ServerMeta {
        labels: crate::labels::clone_pairs(&m.labels),
        port: m.port.clone(),
        pod_selector: crate::labels::clone_pairs(&m.pod_selector),
        protocol: m.protocol,
    };
    proof {
        assert(r@ =~~= m@);
    }
    r
}

/// Recomputes every server's matched authorizations and snapshot; a
/// server's channel version advances exactly when its snapshot changed.
pub fn refresh_servers(servers: &mut SrvIndex, authzs: &AuthzIndex)
    ensures
        final(servers)@ == spec_servers_refresh(old(servers)@, authzs@),
{
    let mut out: Vec<(String, Server)> = Vec::new();
    let mut i: usize = 0;
    while i < servers.entries.len()
        invariant
            i <= servers.entries@.len(),
            servers.entries@ == old(servers).entries@,
            out@.len() == i,
            forall|j: int|
                0 <= j < i ==> (#[trigger] out@[j]).deep_view() == spec_servers_refresh(
                    old(servers)@,
                    authzs@,
                )[j],
        decreases servers.entries@.len() - i,
    {
        proof {
            assert(old(servers)@[i as int] == (
                servers.entries@[i as int].0@,
                servers.entries@[i as int].1@,
            ));
        }
        let name = servers.entries[i].0.clone();
        let matched = collect_matched(
            authzs,
            servers.entries[i].0.as_str(),
            &servers.entries[i].1.meta.labels,
        );
        let snapshot = InboundServer {
            protocol: servers.entries[i].1.meta.protocol,
            authorizations: clone_authz_list(&matched),
        };
        let changed = !inbound_server_eq(&snapshot, &servers.entries[i].1.snapshot);
        let version = if changed {
            bump(servers.entries[i].1.version)
        } else {
            servers.entries[i].1.version
        };
        let srv = Server {
            meta: clone_meta(&servers.entries[i].1.meta),
            authorizations: matched,
            snapshot,
            version,
        };
        proof {
            assert(srv@ =~~= spec_server_refresh(
                old(servers)@[i as int].1,
                old(servers)@[i as int].0,
                authzs@,
            ));
        }
        out.push((name, srv));
        i += 1;
        proof {
            assert(out@[i - 1].deep_view() =~~= spec_servers_refresh(old(servers)@, authzs@)[i
                - 1]);
        }
    }
    let ghost out_seq = out@;
    servers.entries = out;
    proof {
        assert forall|j: int| 0 <= j < servers@.len() implies #[trigger] servers@[j]
            == spec_servers_refresh(old(servers)@, authzs@)[j] by {
            assert(out_seq[j].deep_view() == spec_servers_refresh(old(servers)@, authzs@)[j]);
        }
        assert(servers@ =~~= spec_servers_refresh(old(servers)@, authzs@));
    }
}

/// Whether a server's declared port picks a container port: by number, the
/// numbers agree; by name, some container declares the name for that
/// number.
pub open spec fn spec_port_matches(
    port: PortView,
    port_names: Seq<(Seq<char>, Seq<u16>)>,
    cp: u16,
) -> bool {
    match port {
        PortView::Number(n) => n == cp,
        PortView::Name(nm) => exists|i: int|
            0 <= i < port_names.len() && (#[trigger] port_names[i]).0 == nm
                && port_names[i].1.contains(cp),
    }
}

/// Whether the port list holds the port.
fn vec_u16_contains(v: &Vec<u16>, x: u16) -> (r: bool)
    ensures
        r == v@.contains(x),
{
    let mut k: usize = 0;
    while k < v.len()
        invariant
            k <= v@.len(),
            forall|m: int| 0 <= m < k ==> v@[m] != x,
        decreases v@.len() - k,
    {
        if v[k] == x {
            assert(v@.contains(x));
            return true;
        }
        k += 1;
    }
    assert(!v@.contains(x));
    false
}

/// Whether a server's declared port picks a container port.
pub fn port_matches(port: &crate::resource::Port, port_names: &Vec<(String, Vec<u16>)>, cp: u16) -> (r:
    bool)
    ensures
        r == spec_port_matches(port@, port_names.deep_view(), cp),
{
    match port {
        crate::resource::Port::Number(n) => *n == cp,
        crate::resource::Port::Name(nm) => {
            let mut i: usize = 0;
            while i < port_names.len()
                invariant
                    i <= port_names@.len(),
                    port@ == PortView::Name(nm@),
                    forall|j: int|
                        0 <= j < i ==> !((#[trigger] port_names.deep_view()[j]).0 == nm@
                            && port_names.deep_view()[j].1.contains(cp)),
                decreases port_names@.len() - i,
            {
                proof {
                    assert(port_names.deep_view()[i as int] == (
                        port_names@[i as int].0@,
                        port_names@[i as int].1@,
                    ));
                }
                if str_eq(port_names[i].0.as_str(), nm.as_str()) {
                    if vec_u16_contains(&port_names[i].1, cp) {
                        return true;
                    }
                }
                i += 1;
            }
            false
        },
    }
}

/// Whether the server selects the (pod, port): the declared port picks the
/// container port, and the pod selector matches the pod's labels.
pub open spec fn spec_server_selects(meta: ServerMetaView, pod: PodView, cp: u16) -> bool {
    &&& spec_port_matches(meta.port, pod.port_names, cp)
    &&& selector_matches(meta.pod_selector, pod.labels)
}

/// Among the first `n` servers, the name of the one owning the (pod, port):
/// the lexicographically smallest selecting server, if any selects it.
pub open spec fn spec_best_server(
    servers: Seq<(Seq<char>, ServerStateView)>,
    n: int,
    pod: PodView,
    cp: u16,
) -> Option<Seq<char>>
    decreases n,
{
    if n <= 0 {
        None
    } else {
        let prev = spec_best_server(servers, n - 1, pod, cp);
        if spec_server_selects(servers[n - 1].1.meta, pod, cp) {
            match prev {
                None => Some(servers[n - 1].0),
                Some(p) => if str_lt(servers[n - 1].0, p) {
                    Some(servers[n - 1].0)
                } else {
                    Some(p)
                },
            }
        } else {
            prev
        }
    }
}

/// The name of the server owning the (pod, port), if one selects it.
pub fn best_server(servers: &SrvIndex, pod: &Pod, cp: u16) -> (r: Option<String>)
    ensures
        r.deep_view() == spec_best_server(servers@, servers@.len() as int, pod@, cp),
{
    let mut best: Option<String> = None;
    let mut i: usize = 0;
    while i < servers.entries.len()
        invariant
            i <= servers.entries@.len(),
            servers@.len() == servers.entries@.len(),
            best.deep_view() == spec_best_server(servers@, i as int, pod@, cp),
        decreases servers.entries@.len() - i,
    {
        proof {
            assert(servers@[i as int] == (
                servers.entries@[i as int].0@,
                servers.entries@[i as int].1@,
            ));
        }
        let selects = port_matches(
            &servers.entries[i].1.meta.port,
            &pod.port_names,
            cp,
        ) && selector_matches_labels(&servers.entries[i].1.meta.pod_selector, &pod.labels);
        if selects {
            best = match best {
                None => Some(servers.entries[i].0.clone()),
                Some(p) => {
                    if str_lt_exec(servers.entries[i].0.as_str(), p.as_str()) {
                        Some(servers.entries[i].0.clone())
                    } else {
                        Some(p)
                    }
                },
            };
        }
        i += 1;
    }
    best
}

/// The refreshed state of one pod port: pointed at the owning server (or
/// the default when none selects it), the outer version advanced exactly
/// when the target moved.
pub open spec fn spec_relink_port(
    p: PodPortView,
    servers: Seq<(Seq<char>, ServerStateView)>,
    pod: PodView,
) -> PodPortView {
    let best = spec_best_server(servers, servers.len() as int, pod, p.container_port);
    PodPortView {
        container_port: p.container_port,
        server_name: best,
        outer_version: if best == p.server_name {
            p.outer_version
        } else {
            spec_bump(p.outer_version)
        },
    }
}

/// The refreshed state of one pod: every port relinked.
pub open spec fn spec_pod_relink(
    pod: PodView,
    servers: Seq<(Seq<char>, ServerStateView)>,
) -> PodView {
    PodView {
        labels: pod.labels,
        default_allow: pod.default_allow,
        ports: Seq::new(pod.ports.len(), |i: int| spec_relink_port(pod.ports[i], servers, pod)),
        port_names: pod.port_names,
    }
}

/// The refreshed pod records, name for name.
pub open spec fn spec_pods_relink(
    pods: Seq<(Seq<char>, PodView)>,
    servers: Seq<(Seq<char>, ServerStateView)>,
) -> Seq<(Seq<char>, PodView)> {
    Seq::new(pods.len(), |i: int| (pods[i].0, spec_pod_relink(pods[i].1, servers)))
}

/// Whether two optional names are equal.
fn opt_name_eq(a: &Option<String>, b: &Option<String>) -> (r: bool)
    ensures
        r == (a.deep_view() == b.deep_view()),
{
    match (a, b) {
        (None, None) => true,
        (Some(x), Some(y)) => str_eq(x.as_str(), y.as_str()),
        _ => false,
    }
}

/// A copy of a pod's declared port names.
fn clone_port_names(v: &Vec<(String, Vec<u16>)>) -> (r: Vec<(String, Vec<u16>)>)
    ensures
        r.deep_view() == v.deep_view(),
{
    let mut r: Vec<(String, Vec<u16>)> = Vec::new();
    let mut i: usize = 0;
    while i < v.len()
        invariant
            i <= v@.len(),
            r@.len() == i,
            forall|j: int|
                0 <= j < i ==> ((#[trigger] r@[j]).0@ == v@[j].0@ && r@[j].1@ == v@[j].1@),
        decreases v@.len() - i,
    {
        let ports = v[i].1.clone();
        proof {
            assert(ports@ =~= v@[i as int].1@);
        }
        r.push((v[i].0.clone(), ports));
        i += 1;
    }
    proof {
        assert forall|j: int| 0 <= j < r@.len() implies #[trigger] r.deep_view()[j]
            == v.deep_view()[j] by {
            assert(r@[j].0@ == v@[j].0@ && r@[j].1@ == v@[j].1@);
        }
        assert(r.deep_view() =~~= v.deep_view());
    }
    r
}

/// Re-points every pod port at the server now owning it, or at the default
/// when none does; a port's outer version advances exactly when its target
/// moved.
pub fn relink_pods(pods: &mut PodIndex, servers: &SrvIndex)
    ensures
        final(pods)@ == spec_pods_relink(old(pods)@, servers@),
{
    let mut out: Vec<(String, Pod)> = Vec::new();
    let mut i: usize = 0;
    while i < pods.entries.len()
        invariant
            i <= pods.entries@.len(),
            pods.entries@ == old(pods).entries@,
            out@.len() == i,
            forall|j: int|
                0 <= j < i ==> (#[trigger] out@[j]).deep_view() == spec_pods_relink(
                    old(pods)@,
                    servers@,
                )[j],
        decreases pods.entries@.len() - i,
    {
        proof {
            assert(old(pods)@[i as int] == (
                pods.entries@[i as int].0@,
                pods.entries@[i as int].1@,
            ));
        }
        let ghost pod_view = pods.entries@[i as int].1@;
        let name = pods.entries[i].0.clone();
        let mut ports: Vec<PodPort> = Vec::new();
        let mut k: usize = 0;
        while k < pods.entries[i].1.ports.len()
            invariant
                0 <= i < pods.entries@.len(),
                pods.entries@ == old(pods).entries@,
                pod_view == pods.entries@[i as int].1@,
                k <= pod_view.ports.len(),
                pods.entries@[i as int].1.ports@.len() == pod_view.ports.len(),
                ports@.len() == k,
                forall|m: int|
                    0 <= m < k ==> (#[trigger] ports@[m]).deep_view() == spec_relink_port(
                        pod_view.ports[m],
                        servers@,
                        pod_view,
                    ),
            decreases pod_view.ports.len() - k,
        {
            let cp = pods.entries[i].1.ports[k].container_port;
            let best = best_server(servers, &pods.entries[i].1, cp);
            let same = opt_name_eq(&best, &pods.entries[i].1.ports[k].server_name);
            let old_version = pods.entries[i].1.ports[k].outer_version;
            let version = if same {
                old_version
            } else {
                bump(old_version)
            };
            let port = PodPort { container_port: cp, server_name: best, outer_version: version };
            proof {
                assert(pod_view.ports[k as int] == pods.entries@[i as int].1.ports@[k as int]@);
                assert(port@ =~~= spec_relink_port(pod_view.ports[k as int], servers@, pod_view));
            }
            ports.push(port);
            k += 1;
            proof {
                assert(ports@[k - 1].deep_view() =~~= spec_relink_port(
                    pod_view.ports[k - 1],
                    servers@,
                    pod_view,
                ));
            }
        }
        let pod = Pod {
            labels: crate::labels::clone_pairs(&pods.entries[i].1.labels),
            default_allow: pods.entries[i].1.default_allow,
            ports,
            port_names: clone_port_names(&pods.entries[i].1.port_names),
        };
        proof {
            assert forall|m: int| 0 <= m < pod@.ports.len() implies #[trigger] pod@.ports[m]
                == spec_pod_relink(pod_view, servers@).ports[m] by {
                assert(ports@[m].deep_view() == spec_relink_port(
                    pod_view.ports[m],
                    servers@,
                    pod_view,
                ));
            }
            assert(pod@ =~~= spec_pod_relink(pod_view, servers@));
        }
        out.push((name, pod));
        i += 1;
        proof {
            assert(out@[i - 1].deep_view() =~~= spec_pods_relink(old(pods)@, servers@)[i - 1]);
        }
    }
    let ghost out_seq = out@;
    pods.entries = out;
    proof {
        assert forall|j: int| 0 <= j < pods@.len() implies #[trigger] pods@[j] == spec_pods_relink(
            old(pods)@,
            servers@,
        )[j] by {
            assert(out_seq[j].deep_view() == spec_pods_relink(old(pods)@, servers@)[j]);
        }
        assert(pods@ =~~= spec_pods_relink(old(pods)@, servers@));
    }
}

/// Which server owns a port depends only on the pod's labels and port
/// names, not on the ports' current targets.
pub proof fn lemma_best_server_ports_irrelevant(
    servers: Seq<(Seq<char>, ServerStateView)>,
    n: int,
    a: PodView,
    b: PodView,
    cp: u16,
)
    requires
        a.labels == b.labels,
        a.port_names == b.port_names,
    ensures
        spec_best_server(servers, n, a, cp) == spec_best_server(servers, n, b, cp),
    decreases n,
{
    if n > 0 {
        lemma_best_server_ports_irrelevant(servers, n - 1, a, b, cp);
    }
}

/// The refreshed namespace: servers recomputed against the authorization
/// records, then every pod port relinked against the refreshed servers.
pub open spec fn spec_refresh_ns(ns: NamespaceView) -> NamespaceView {
    let servers = spec_servers_refresh(ns.servers, ns.authzs);
    NamespaceView {
        pods: spec_pods_relink(ns.pods, servers),
        servers: servers,
        authzs: ns.authzs,
        default_mode: ns.default_mode,
    }
}

/// Refreshing keeps every key and every container port, so a well-formed
/// namespace stays well-formed.
pub proof fn lemma_refresh_ns_wf(ns: NamespaceView)
    ensures
        spec_refresh_ns(ns).pods.len() == ns.pods.len(),
        spec_refresh_ns(ns).servers.len() == ns.servers.len(),
        spec_refresh_ns(ns).authzs == ns.authzs,
        forall|i: int|
            0 <= i < ns.pods.len() ==> (#[trigger] spec_refresh_ns(ns).pods[i]).0 == ns.pods[i].0,
        forall|i: int|
            0 <= i < ns.servers.len() ==> (#[trigger] spec_refresh_ns(ns).servers[i]).0
                == ns.servers[i].0,
        ns.wf() ==> spec_refresh_ns(ns).wf(),
{
    let r = spec_refresh_ns(ns);
    if ns.wf() {
        assert forall|i: int| 0 <= i < r.pods.len() implies (#[trigger] r.pods[i]).1.ports_unique()
            by {
            let p0 = ns.pods[i].1;
            let p1 = r.pods[i].1;
            assert(p1 == spec_pod_relink(p0, spec_servers_refresh(ns.servers, ns.authzs)));
            assert forall|a: int, b: int|
                0 <= a < b < p1.ports.len() implies (#[trigger] p1.ports[a]).container_port != (
            #[trigger] p1.ports[b]).container_port by {
                assert(p0.ports[a].container_port != p0.ports[b].container_port);
            }
        }
    }
}

/// Recomputes the namespace's derived state after a base change.
pub fn refresh_namespace(ns: &mut Namespace)
    ensures
        final(ns)@ == spec_refresh_ns(old(ns)@),
{
    refresh_servers(&mut ns.servers, &ns.authzs);
    relink_pods(&mut ns.pods, &ns.servers);
    proof {
        assert(ns@ =~~= spec_refresh_ns(old(ns)@));
    }
}

} // verus!
