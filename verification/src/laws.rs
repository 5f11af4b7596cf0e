//! The library's stated laws, proved over the same spec functions its
//! contracts use.

use vstd::prelude::*;
use crate::defaults::spec_default_inbound;
use crate::index::authz::{spec_apply_authz, spec_mk_authz};
use crate::index::node::{spec_apply_node, spec_node_ips};
use crate::index::pod::spec_apply_pod;
use crate::index::refresh::{
    spec_matched_authzs, spec_pod_relink, spec_pods_relink, spec_refresh_ns, spec_relink_port,
    spec_server_refresh, spec_servers_refresh, spec_best_server,
};
use crate::index::server::{spec_apply_server, spec_mk_server_meta, spec_upsert_server};
use crate::index::{
    alist_first, alist_has, alist_upsert, spec_create_ns, IndexView, NamespaceView,
    ServerStateView,
};
use crate::lookup::{spec_lookup, RxView};

verus! {

/// Default-allow equivalence: whenever a lookup answers for a pod port
/// that no server owns, the configuration observed is exactly the
/// canonical record of the pod's default policy — protocol detection with
/// the configured timeout, and the default's fixed authorization set.
pub proof fn lemma_default_allow_equivalence(
    idx: IndexView,
    ns: Seq<char>,
    pod: Seq<char>,
    cp: u16,
    rx: RxView,
)
    requires
        spec_lookup(idx, ns, pod, cp) == Some(rx),
        ({
            let nsv = idx.namespaces[alist_first(idx.namespaces, ns)].1;
            let podv = nsv.pods[alist_first(nsv.pods, pod)].1;
            podv.ports[crate::lookup::port_first(podv.ports, cp)].server_name is None
        }),
    ensures
        ({
            let nsv = idx.namespaces[alist_first(idx.namespaces, ns)].1;
            let podv = nsv.pods[alist_first(nsv.pods, pod)].1;
            rx.server == spec_default_inbound(
                podv.default_allow,
                idx.cluster_nets,
                idx.detect_timeout_ms,
            )
        }),
{
}

/// Refreshing a namespace twice publishes nothing new: the recomputation
/// is a fixed point, so channel versions stay put.
pub proof fn lemma_refresh_idempotent(ns: NamespaceView)
    ensures
        spec_refresh_ns(spec_refresh_ns(ns)) == spec_refresh_ns(ns),
{
    let r1 = spec_refresh_ns(ns);
    let r2 = spec_refresh_ns(r1);
    let s1 = spec_servers_refresh(ns.servers, ns.authzs);
    let s2 = spec_servers_refresh(r1.servers, r1.authzs);
    assert forall|i: int| 0 <= i < s2.len() implies #[trigger] s2[i] == s1[i] by {
        assert(r1.servers[i] == s1[i]);
        assert(s1[i].1.meta == ns.servers[i].1.meta);
        assert(s1[i].0 == ns.servers[i].0);
        let m1 = spec_matched_authzs(
            ns.authzs,
            ns.authzs.len() as int,
            ns.servers[i].0,
            ns.servers[i].1.meta.labels,
        );
        assert(s1[i].1.authorizations == m1);
        assert(s1[i].1.snapshot == (crate::inbound::InboundServerView {
            protocol: s1[i].1.meta.protocol,
            authorizations: m1,
        }));
        assert(s2[i].1 =~~= spec_server_refresh(s1[i].1, s1[i].0, ns.authzs));
        assert(s2[i] =~~= s1[i]);
    }
    assert(s2 =~~= s1);
    let p1 = spec_pods_relink(ns.pods, s1);
    let p2 = spec_pods_relink(p1, s2);
    assert forall|i: int| 0 <= i < p2.len() implies #[trigger] p2[i] == p1[i] by {
        assert(p1[i].1 == spec_pod_relink(ns.pods[i].1, s1));
        let q1 = p1[i].1;
        let q0 = ns.pods[i].1;
        assert(q1.labels == q0.labels && q1.port_names == q0.port_names);
        assert(p2[i].1 == spec_pod_relink(q1, s2));
        assert forall|m: int| 0 <= m < q1.ports.len() implies #[trigger] spec_pod_relink(
            q1,
            s2,
        ).ports[m] == q1.ports[m] by {
            assert(q1.ports[m] == spec_relink_port(q0.ports[m], s1, q0));
            crate::index::refresh::lemma_best_server_ports_irrelevant(
                s1,
                s1.len() as int,
                q1,
                q0,
                q1.ports[m].container_port,
            );
            assert(spec_best_server(s2, s2.len() as int, q1, q1.ports[m].container_port)
                == spec_best_server(s1, s1.len() as int, q0, q0.ports[m].container_port));
            assert(spec_relink_port(q1.ports[m], s2, q1) =~~= q1.ports[m]);
        }
        assert(spec_pod_relink(q1, s2) =~~= q1);
        assert(p2[i] =~~= p1[i]);
    }
    assert(p2 =~~= p1);
    assert(r2 =~~= r1);
}

/// Updating a sequence with the value it already holds changes nothing.
proof fn lemma_update_same<T>(s: Seq<(Seq<char>, T)>, i: int)
    requires
        0 <= i < s.len(),
    ensures
        s.update(i, s[i]) == s,
{
    assert(s.update(i, s[i]) =~= s);
}

/// Idempotent apply, authorizations: applying the same
/// `ServerAuthorization` twice leaves the index exactly as one apply did —
/// no channel version moves, so no new snapshot is published.
pub proof fn lemma_apply_authz_idempotent(idx: IndexView, res: crate::resource::AuthzResourceView)
    ensures
        spec_apply_authz(spec_apply_authz(idx, res), res) == spec_apply_authz(idx, res),
{
    let idx1 = spec_apply_authz(idx, res);
    match spec_mk_authz(res.server, res.client, res.ns, idx.identity_domain) {
        Err(_) => {
            assert(spec_create_ns(idx1, res.ns) =~~= idx1) by {
                if !alist_has(idx.namespaces, res.ns) {
                    assert(idx1.namespaces[idx.namespaces.len() as int].0 == res.ns);
                    assert(alist_has(idx1.namespaces, res.ns));
                }
            }
            assert(idx1.identity_domain == idx.identity_domain);
            assert(spec_apply_authz(idx1, res) == idx1);
        },
        Ok(a) => {
            let idxc = spec_create_ns(idx, res.ns);
            let i = alist_first(idxc.namespaces, res.ns);
            crate::index::lemma_alist_first(idxc.namespaces, res.ns);
            assert(alist_has(idxc.namespaces, res.ns)) by {
                if !alist_has(idx.namespaces, res.ns) {
                    assert(idxc.namespaces[idx.namespaces.len() as int].0 == res.ns);
                }
            }
            let nsv = idxc.namespaces[i].1;
            let mid = NamespaceView { authzs: alist_upsert(nsv.authzs, res.name, a), ..nsv };
            let ns2 = spec_refresh_ns(mid);
            assert(idx1.namespaces == idxc.namespaces.update(i, (res.ns, ns2)));
            assert(idx1.identity_domain == idx.identity_domain);
            // second apply: the namespace exists, at the same position
            assert(alist_has(idx1.namespaces, res.ns)) by {
                assert(idx1.namespaces[i].0 == res.ns);
            }
            assert(spec_create_ns(idx1, res.ns) == idx1);
            let i2 = alist_first(idx1.namespaces, res.ns);
            assert(i2 == i) by {
                crate::index::lemma_alist_first(idx1.namespaces, res.ns);
                assert forall|j: int| 0 <= j < i implies (#[trigger] idx1.namespaces[j]).0
                    != res.ns by {
                    assert(idx1.namespaces[j].0 == idxc.namespaces[j].0);
                }
                assert(idx1.namespaces[i].0 == res.ns);
                if i2 < i {
                    assert(idx1.namespaces[i2].0 == res.ns);
                }
            }
            let nsv2 = idx1.namespaces[i].1;
            assert(nsv2 == ns2);
            // upserting the same record again changes nothing
            assert(alist_upsert(nsv2.authzs, res.name, a) == nsv2.authzs) by {
                crate::index::refresh::lemma_refresh_ns_wf(mid);
                assert(ns2.authzs == mid.authzs);
                lemma_upsert_twice(nsv.authzs, res.name, a);
            }
            let mid2 = NamespaceView { authzs: alist_upsert(nsv2.authzs, res.name, a), ..nsv2 };
            assert(mid2 =~~= ns2);
            lemma_refresh_idempotent(mid);
            assert(spec_refresh_ns(mid2) == ns2);
            assert(spec_apply_authz(idx1, res).namespaces =~~= idx1.namespaces.update(
                i,
                (res.ns, ns2),
            ));
            lemma_update_same(idx1.namespaces, i);
            assert(spec_apply_authz(idx1, res) =~~= idx1);
        },
    }
}

/// Upserting a key twice with one value equals upserting it once.
proof fn lemma_upsert_twice<T>(s: Seq<(Seq<char>, T)>, k: Seq<char>, v: T)
    ensures
        alist_upsert(alist_upsert(s, k, v), k, v) == alist_upsert(s, k, v),
{
    crate::index::lemma_alist_first(s, k);
    let s1 = alist_upsert(s, k, v);
    if alist_has(s, k) {
        let f = alist_first(s, k);
        assert(s1[f].0 == k);
        assert(alist_has(s1, k));
        crate::index::lemma_alist_first(s1, k);
        let f1 = alist_first(s1, k);
        assert(f1 == f) by {
            assert forall|j: int| 0 <= j < f implies (#[trigger] s1[j]).0 != k by {
                assert(s1[j].0 == s[j].0);
            }
            if f1 < f {
                assert(s1[f1].0 == k);
            }
        }
        assert(s1.update(f, (k, v)) =~= s1);
    } else {
        let n = s.len() as int;
        assert(s1[n].0 == k);
        assert(alist_has(s1, k));
        crate::index::lemma_alist_first(s1, k);
        let f1 = alist_first(s1, k);
        assert(f1 == n) by {
            assert forall|j: int| 0 <= j < n implies (#[trigger] s1[j]).0 != k by {
                assert(s1[j].0 == s[j].0);
                if s[j].0 == k {
                    assert(alist_has(s, k));
                }
            }
            if f1 < n {
                assert(s1[f1].0 == k);
            }
        }
        assert(s1.update(n, (k, v)) =~= s1);
    }
}

/// Idempotent apply, servers: applying the same `Server` twice leaves the
/// index exactly as one apply did — the second recomputation finds the
/// same snapshot everywhere, so nothing is republished and no pod port is
/// re-pointed.
pub proof fn lemma_apply_server_idempotent(idx: IndexView, res: crate::resource::ServerResourceView)
    ensures
        spec_apply_server(spec_apply_server(idx, res), res) == spec_apply_server(idx, res),
{
    let meta = spec_mk_server_meta(res);
    let idxc = spec_create_ns(idx, res.ns);
    let i = alist_first(idxc.namespaces, res.ns);
    crate::index::lemma_alist_first(idxc.namespaces, res.ns);
    assert(alist_has(idxc.namespaces, res.ns)) by {
        if !alist_has(idx.namespaces, res.ns) {
            assert(idxc.namespaces[idx.namespaces.len() as int].0 == res.ns);
        }
    }
    let nsv = idxc.namespaces[i].1;
    let mid = NamespaceView { servers: spec_upsert_server(nsv.servers, res.name, meta), ..nsv };
    let ns2 = spec_refresh_ns(mid);
    let idx1 = spec_apply_server(idx, res);
    assert(idx1.namespaces == idxc.namespaces.update(i, (res.ns, ns2)));
    assert(alist_has(idx1.namespaces, res.ns)) by {
        assert(idx1.namespaces[i].0 == res.ns);
    }
    assert(spec_create_ns(idx1, res.ns) == idx1);
    let i2 = alist_first(idx1.namespaces, res.ns);
    assert(i2 == i) by {
        crate::index::lemma_alist_first(idx1.namespaces, res.ns);
        assert forall|j: int| 0 <= j < i implies (#[trigger] idx1.namespaces[j]).0 != res.ns by {
            assert(idx1.namespaces[j].0 == idxc.namespaces[j].0);
        }
        assert(idx1.namespaces[i].0 == res.ns);
        if i2 < i {
            assert(idx1.namespaces[i2].0 == res.ns);
        }
    }
    let nsv2 = idx1.namespaces[i].1;
    assert(nsv2 == ns2);
    // upserting the same declared data into the refreshed servers changes
    // nothing: the refresh kept keys and metas
    let up1 = spec_upsert_server(nsv.servers, res.name, meta);
    crate::index::refresh::lemma_refresh_ns_wf(mid);
    assert(ns2.servers == spec_servers_refresh(up1, mid.authzs));
    let sv2 = ns2.servers;
    assert(spec_upsert_server(sv2, res.name, meta) == sv2) by {
        crate::index::lemma_alist_first(nsv.servers, res.name);
        if alist_has(nsv.servers, res.name) {
            let f = alist_first(nsv.servers, res.name);
            assert(up1[f].0 == res.name);
            assert(sv2[f].0 == res.name);
            assert(alist_has(sv2, res.name));
            crate::index::lemma_alist_first(sv2, res.name);
            let f2 = alist_first(sv2, res.name);
            assert(f2 == f) by {
                assert forall|j: int| 0 <= j < f implies (#[trigger] sv2[j]).0 != res.name by {
                    assert(sv2[j].0 == up1[j].0);
                    assert(up1[j].0 == nsv.servers[j].0);
                }
                if f2 < f {
                    assert(sv2[f2].0 == res.name);
                }
            }
            assert(sv2[f].1.meta == meta) by {
                assert(up1[f].1.meta == meta);
                assert(sv2[f].1 == spec_server_refresh(up1[f].1, up1[f].0, mid.authzs));
            }
            assert((ServerStateView { meta, ..sv2[f].1 }) =~~= sv2[f].1);
            assert(sv2.update(f, (res.name, ServerStateView { meta, ..sv2[f].1 })) =~= sv2);
        } else {
            let n = nsv.servers.len() as int;
            assert(up1[n].0 == res.name);
            assert(sv2[n].0 == res.name);
            assert(alist_has(sv2, res.name));
            crate::index::lemma_alist_first(sv2, res.name);
            let f2 = alist_first(sv2, res.name);
            assert(f2 == n) by {
                assert forall|j: int| 0 <= j < n implies (#[trigger] sv2[j]).0 != res.name by {
                    assert(sv2[j].0 == up1[j].0);
                    assert(up1[j].0 == nsv.servers[j].0);
                    if nsv.servers[j].0 == res.name {
                        assert(alist_has(nsv.servers, res.name));
                    }
                }
                if f2 < n {
                    assert(sv2[f2].0 == res.name);
                }
            }
            assert(sv2[n].1.meta == meta) by {
                assert(up1[n].1.meta == meta);
                assert(sv2[n].1 == spec_server_refresh(up1[n].1, up1[n].0, mid.authzs));
            }
            assert((ServerStateView { meta, ..sv2[n].1 }) =~~= sv2[n].1);
            assert(sv2.update(n, (res.name, ServerStateView { meta, ..sv2[n].1 })) =~= sv2);
        }
    }
    let mid2 = NamespaceView { servers: spec_upsert_server(sv2, res.name, meta), ..nsv2 };
    assert(mid2 =~~= ns2);
    lemma_refresh_idempotent(mid);
    assert(spec_refresh_ns(mid2) == ns2);
    lemma_update_same(idx1.namespaces, i);
    assert(spec_apply_server(idx1, res) =~~= idx1);
}

/// Storing a pending pod twice equals storing it once.
proof fn lemma_pending_upsert_twice(
    s: Seq<crate::resource::PodResourceView>,
    res: crate::resource::PodResourceView,
)
    ensures
        crate::index::pod::pending_upsert(crate::index::pod::pending_upsert(s, res), res)
            == crate::index::pod::pending_upsert(s, res),
{
    crate::index::pod::lemma_pending_first(s, res.ns, res.name);
    let s1 = crate::index::pod::pending_upsert(s, res);
    if crate::index::pod::pending_has(s, res.ns, res.name) {
        let f = crate::index::pod::pending_first(s, res.ns, res.name);
        assert(s1[f].ns == res.ns && s1[f].name == res.name);
        assert(crate::index::pod::pending_has(s1, res.ns, res.name));
        crate::index::pod::lemma_pending_first(s1, res.ns, res.name);
        let f1 = crate::index::pod::pending_first(s1, res.ns, res.name);
        assert(f1 == f) by {
            assert forall|j: int| 0 <= j < f implies !((#[trigger] s1[j]).ns == res.ns
                && s1[j].name == res.name) by {
                assert(s1[j] == s[j]);
            }
            if f1 < f {
                assert(s1[f1].ns == res.ns && s1[f1].name == res.name);
            }
            if f < f1 {
                assert(!(s1[f].ns == res.ns && s1[f].name == res.name));
            }
        }
        assert(s1.update(f, res) =~= s1);
    } else {
        let nl = s.len() as int;
        assert(s1[nl].ns == res.ns && s1[nl].name == res.name);
        assert(crate::index::pod::pending_has(s1, res.ns, res.name));
        crate::index::pod::lemma_pending_first(s1, res.ns, res.name);
        let f1 = crate::index::pod::pending_first(s1, res.ns, res.name);
        assert(f1 == nl) by {
            assert forall|j: int| 0 <= j < nl implies !((#[trigger] s1[j]).ns == res.ns
                && s1[j].name == res.name) by {
                assert(s1[j] == s[j]);
                if s[j].ns == res.ns && s[j].name == res.name {
                    assert(crate::index::pod::pending_has(s, res.ns, res.name));
                }
            }
            if f1 < nl {
                assert(s1[f1].ns == res.ns && s1[f1].name == res.name);
            }
        }
        assert(s1.update(nl, res) =~= s1);
    }
}

/// Dropping a pod held at most once from the pending set leaves no
/// occurrence.
proof fn lemma_pending_remove_only(
    s: Seq<crate::resource::PodResourceView>,
    ns: Seq<char>,
    name: Seq<char>,
)
    requires
        forall|j1: int, j2: int|
            0 <= j1 < j2 < s.len() ==> !((#[trigger] s[j1]).ns == ns && s[j1].name == name && (
            #[trigger] s[j2]).ns == ns && s[j2].name == name),
    ensures
        !crate::index::pod::pending_has(
            crate::index::pod::pending_remove(s, ns, name),
            ns,
            name,
        ),
{
    crate::index::pod::lemma_pending_first(s, ns, name);
    let r = crate::index::pod::pending_remove(s, ns, name);
    if crate::index::pod::pending_has(s, ns, name) {
        let f = crate::index::pod::pending_first(s, ns, name);
        if crate::index::pod::pending_has(r, ns, name) {
            let w = choose|w: int|
                0 <= w < r.len() && (#[trigger] r[w]).ns == ns && r[w].name == name;
            let w0: int = if w < f {
                w
            } else {
                w + 1
            };
            assert(r[w] == s[w0]);
            assert(w0 != f);
            if w0 < f {
                assert(!(s[w0].ns == ns && s[w0].name == name));
            }
        }
    }
}

/// Idempotent apply, pods: applying the same pod twice leaves the index
/// exactly as one apply did — no port is re-pointed, nothing is
/// republished.  (A pending set holding the pod more than once is out of
/// scope; the indexer never builds one.)
pub proof fn lemma_apply_pod_idempotent(idx: IndexView, res: crate::resource::PodResourceView)
    requires
        forall|j1: int, j2: int|
            0 <= j1 < j2 < idx.pending.len() ==> !((#[trigger] idx.pending[j1]).ns == res.ns
                && idx.pending[j1].name == res.name && (#[trigger] idx.pending[j2]).ns == res.ns
                && idx.pending[j2].name == res.name),
    ensures
        spec_apply_pod(spec_apply_pod(idx, res), res) == spec_apply_pod(idx, res),
{
    let out1 = spec_apply_pod(idx, res);
    if !alist_has(idx.nodes, res.node) {
        lemma_pending_upsert_twice(idx.pending, res);
        assert(spec_apply_pod(out1, res) =~~= out1);
    } else {
        let ips = idx.nodes[alist_first(idx.nodes, res.node)].1;
        let idx_p = IndexView {
            pending: crate::index::pod::pending_remove(idx.pending, res.ns, res.name),
            ..idx
        };
        assert(out1 == crate::index::pod::spec_admit_core(idx_p, res, ips));
        assert(out1.nodes == idx.nodes);
        assert(out1.pending == idx_p.pending);
        lemma_pending_remove_only(idx.pending, res.ns, res.name);
        crate::index::pod::lemma_pending_first(out1.pending, res.ns, res.name);
        assert(crate::index::pod::pending_remove(out1.pending, res.ns, res.name)
            == out1.pending);
        let out1_p = IndexView {
            pending: crate::index::pod::pending_remove(out1.pending, res.ns, res.name),
            ..out1
        };
        assert(out1_p =~~= out1);
        // the second admission finds the pod indexed and rewrites it with
        // what it already holds
        let idx1 = spec_create_ns(idx_p, res.ns);
        crate::index::lemma_alist_first(idx_p.namespaces, res.ns);
        crate::index::lemma_alist_first(idx1.namespaces, res.ns);
        assert(alist_has(idx1.namespaces, res.ns)) by {
            if !alist_has(idx_p.namespaces, res.ns) {
                assert(idx1.namespaces[idx_p.namespaces.len() as int].0 == res.ns);
            }
        }
        let i = alist_first(idx1.namespaces, res.ns);
        let nsv = idx1.namespaces[i].1;
        crate::index::lemma_alist_first(nsv.pods, res.name);
        if alist_has(nsv.pods, res.name) {
            let j = alist_first(nsv.pods, res.name);
            let p1 = crate::index::PodView {
                labels: res.labels,
                default_allow: crate::index::pod::spec_pod_default(
                    res.annotations,
                    nsv.default_mode,
                ),
                ports: nsv.pods[j].1.ports,
                port_names: nsv.pods[j].1.port_names,
            };
            let mid = NamespaceView { pods: nsv.pods.update(j, (res.name, p1)), ..nsv };
            let ns2 = spec_refresh_ns(mid);
            assert(out1.namespaces == idx1.namespaces.update(i, (res.ns, ns2)));
            lemma_second_admit_update(idx1, out1, res, ips, i, mid, ns2, j);
        } else {
            let pod = crate::index::pod::spec_pod_record(res, nsv.default_mode);
            let entry = crate::index::LookupEntryView {
                kubelet: ips,
                ports: crate::index::pod::spec_cp_list(pod.ports),
            };
            match crate::lookup::spec_lookup_set(idx1.lookups, res.ns, res.name, entry) {
                None => {
                    assert(out1 == idx1);
                    assert(spec_create_ns(out1, res.ns) == out1) by {
                        assert(out1.namespaces[i].0 == res.ns);
                    }
                    assert(alist_first(out1.namespaces, res.ns) == i);
                    assert(crate::index::pod::spec_admit_core(out1, res, ips) =~~= out1);
                },
                Some(l2) => {
                    let mid = NamespaceView { pods: nsv.pods.push((res.name, pod)), ..nsv };
                    let ns2 = spec_refresh_ns(mid);
                    assert(out1.namespaces == idx1.namespaces.update(i, (res.ns, ns2)));
                    assert(out1.lookups == l2);
                    lemma_second_admit_update(
                        idx1,
                        out1,
                        res,
                        ips,
                        i,
                        mid,
                        ns2,
                        nsv.pods.len() as int,
                    );
                },
            }
        }
        assert(spec_apply_pod(out1, res) =~~= out1);
    }
}

/// The second admission of an already indexed pod rewrites its record with
/// what it holds and republishes nothing.
proof fn lemma_second_admit_update(
    idx1: IndexView,
    out1: IndexView,
    res: crate::resource::PodResourceView,
    ips: Seq<crate::net::IpAddress>,
    i: int,
    mid: NamespaceView,
    ns2: NamespaceView,
    j: int,
)
    requires
        alist_has(idx1.namespaces, res.ns),
        i == alist_first(idx1.namespaces, res.ns),
        0 <= j < mid.pods.len(),
        mid.pods[j].0 == res.name,
        forall|x: int| 0 <= x < j ==> (#[trigger] mid.pods[x]).0 != res.name,
        mid.pods[j].1.labels == res.labels,
        mid.pods[j].1.default_allow == crate::index::pod::spec_pod_default(
            res.annotations,
            mid.default_mode,
        ),
        ns2 == spec_refresh_ns(mid),
        out1.namespaces == idx1.namespaces.update(i, (res.ns, ns2)),
    ensures
        crate::index::pod::spec_admit_core(out1, res, ips) == out1,
{
    crate::index::lemma_alist_first(idx1.namespaces, res.ns);
    assert(spec_create_ns(out1, res.ns) == out1) by {
        assert(out1.namespaces[i].0 == res.ns);
        assert(alist_has(out1.namespaces, res.ns));
    }
    let i2 = alist_first(out1.namespaces, res.ns);
    assert(i2 == i) by {
        crate::index::lemma_alist_first(out1.namespaces, res.ns);
        assert forall|x: int| 0 <= x < i implies (#[trigger] out1.namespaces[x]).0 != res.ns by {
            assert(out1.namespaces[x].0 == idx1.namespaces[x].0);
        }
        assert(out1.namespaces[i].0 == res.ns);
        if i2 < i {
            assert(out1.namespaces[i2].0 == res.ns);
        }
    }
    let nsv2 = out1.namespaces[i].1;
    assert(nsv2 == ns2);
    crate::index::refresh::lemma_refresh_ns_wf(mid);
    assert(ns2.pods.len() == mid.pods.len());
    assert(alist_has(ns2.pods, res.name)) by {
        assert(ns2.pods[j].0 == mid.pods[j].0);
    }
    let j2 = alist_first(ns2.pods, res.name);
    assert(j2 == j) by {
        crate::index::lemma_alist_first(ns2.pods, res.name);
        assert forall|x: int| 0 <= x < j implies (#[trigger] ns2.pods[x]).0 != res.name by {
            assert(ns2.pods[x].0 == mid.pods[x].0);
        }
        assert(ns2.pods[j].0 == res.name);
        if j2 < j {
            assert(ns2.pods[j2].0 == res.name);
        }
    }
    let p0 = ns2.pods[j].1;
    assert(p0 == crate::index::refresh::spec_pod_relink(
        mid.pods[j].1,
        crate::index::refresh::spec_servers_refresh(mid.servers, mid.authzs),
    ));
    assert(p0.labels == res.labels);
    assert(ns2.default_mode == mid.default_mode);
    let p1 = crate::index::PodView {
        labels: res.labels,
        default_allow: crate::index::pod::spec_pod_default(res.annotations, ns2.default_mode),
        ports: p0.ports,
        port_names: p0.port_names,
    };
    assert(p1 =~~= p0);
    let mid2 = NamespaceView { pods: ns2.pods.update(j, (res.name, p1)), ..ns2 };
    assert(mid2.pods =~~= ns2.pods);
    assert(mid2 =~~= ns2);
    lemma_refresh_idempotent(mid);
    assert(spec_refresh_ns(mid2) == ns2);
    assert(crate::index::pod::spec_admit_core(out1, res, ips).namespaces == out1.namespaces.update(
        i,
        (res.ns, ns2),
    ));
    lemma_update_same(out1.namespaces, i);
    assert(out1.namespaces[i] == (res.ns, ns2));
    assert(crate::index::pod::spec_admit_core(out1, res, ips) =~~= out1);
}

/// After a node's pods are materialized, none is left pending on it.
proof fn lemma_materialize_clears_node(
    idx2: IndexView,
    pending0: Seq<crate::resource::PodResourceView>,
    n: int,
    node: Seq<char>,
    ips: Seq<crate::net::IpAddress>,
)
    requires
        0 <= n <= pending0.len(),
    ensures
        ({
            let out = crate::index::node::spec_materialize(idx2, pending0, n, node, ips);
            forall|j: int| 0 <= j < out.pending.len() ==> (#[trigger] out.pending[j]).node != node
        }),
    decreases n,
{
    if n > 0 {
        lemma_materialize_clears_node(idx2, pending0, n - 1, node, ips);
    }
}

/// Materializing a node no pod is pending on changes nothing but the
/// (rebuilt, unchanged) pending set.
proof fn lemma_materialize_no_matches(
    x: IndexView,
    p: Seq<crate::resource::PodResourceView>,
    n: int,
    node: Seq<char>,
    ips: Seq<crate::net::IpAddress>,
)
    requires
        0 <= n <= p.len(),
        forall|j: int| 0 <= j < p.len() ==> (#[trigger] p[j]).node != node,
    ensures
        crate::index::node::spec_materialize(x, p, n, node, ips) == (IndexView {
            pending: p.take(n),
            ..x
        }),
    decreases n,
{
    if n == 0 {
        assert(p.take(0) =~= Seq::<crate::resource::PodResourceView>::empty());
        assert(crate::index::node::spec_materialize(x, p, 0, node, ips) =~~= (IndexView {
            pending: p.take(0),
            ..x
        }));
    } else {
        lemma_materialize_no_matches(x, p, n - 1, node, ips);
        assert(p.take(n - 1).push(p[n - 1]) =~= p.take(n));
        assert(crate::index::node::spec_materialize(x, p, n, node, ips) =~~= (IndexView {
            pending: p.take(n),
            ..x
        }));
    }
}

/// Idempotent apply, nodes: applying the same node twice leaves the index
/// exactly as one apply did — nothing is admitted or republished again.
pub proof fn lemma_apply_node_idempotent(idx: IndexView, res: crate::resource::NodeResourceView)
    ensures
        spec_apply_node(spec_apply_node(idx, res), res) == spec_apply_node(idx, res),
{
    let out1 = spec_apply_node(idx, res);
    match spec_node_ips(res) {
        Err(_) => {},
        Ok(ips) => {
            let idx2 = IndexView { nodes: alist_upsert(idx.nodes, res.name, ips), ..idx };
            assert(out1 == crate::index::node::spec_materialize(
                idx2,
                idx.pending,
                idx.pending.len() as int,
                res.name,
                ips,
            ));
            lemma_materialize_nodes(idx2, idx.pending, idx.pending.len() as int, res.name, ips);
            assert(out1.nodes == idx2.nodes);
            lemma_upsert_twice(idx.nodes, res.name, ips);
            let idx2b = IndexView { nodes: alist_upsert(out1.nodes, res.name, ips), ..out1 };
            assert(idx2b =~~= out1);
            lemma_materialize_clears_node(
                idx2,
                idx.pending,
                idx.pending.len() as int,
                res.name,
                ips,
            );
            lemma_materialize_no_matches(
                idx2b,
                out1.pending,
                out1.pending.len() as int,
                res.name,
                ips,
            );
            assert(out1.pending.take(out1.pending.len() as int) =~= out1.pending);
            assert(spec_apply_node(out1, res) =~~= out1);
        },
    }
}

/// Whether one of the first `t` resources of a node batch carries the
/// name.
pub open spec fn node_named_in(
    rs: Seq<crate::resource::NodeResourceView>,
    t: int,
    n: Seq<char>,
) -> bool {
    exists|j: int| 0 <= j < t && (#[trigger] rs[j]).name == n
}

/// Materializing pending pods leaves the node table alone.
proof fn lemma_materialize_nodes(
    idx2: IndexView,
    pending0: Seq<crate::resource::PodResourceView>,
    n: int,
    node: Seq<char>,
    ips: Seq<crate::net::IpAddress>,
)
    ensures
        crate::index::node::spec_materialize(idx2, pending0, n, node, ips).nodes == idx2.nodes,
    decreases n,
{
    if n > 0 {
        lemma_materialize_nodes(idx2, pending0, n - 1, node, ips);
    }
}

/// The node table after one apply: the derived addresses stored under the
/// node's name on success, unchanged on rejection.
proof fn lemma_apply_node_nodes(x: IndexView, r: crate::resource::NodeResourceView)
    ensures
        spec_apply_node(x, r).nodes == (match spec_node_ips(r) {
            Ok(ips) => alist_upsert(x.nodes, r.name, ips),
            Err(_) => x.nodes,
        }),
{
    match spec_node_ips(r) {
        Ok(ips) => {
            let idx2 = IndexView { nodes: alist_upsert(x.nodes, r.name, ips), ..x };
            lemma_materialize_nodes(idx2, x.pending, x.pending.len() as int, r.name, ips);
        },
        Err(_) => {},
    }
}

/// Applying a batch keeps node keys unique.
proof fn lemma_fold_nodes_unique(a: IndexView, rs: Seq<crate::resource::NodeResourceView>, t: int)
    requires
        0 <= t <= rs.len(),
        crate::index::alist_unique(a.nodes),
    ensures
        crate::index::alist_unique(
            crate::index::node::spec_apply_nodes(a, rs, t).nodes,
        ),
    decreases t,
{
    if t > 0 {
        lemma_fold_nodes_unique(a, rs, t - 1);
        let prev = crate::index::node::spec_apply_nodes(a, rs, t - 1);
        lemma_apply_node_nodes(prev, rs[t - 1]);
        match spec_node_ips(rs[t - 1]) {
            Ok(ips) => {
                crate::index::lemma_alist_upsert_unique(prev.nodes, rs[t - 1].name, ips);
            },
            Err(_) => {},
        }
    }
}

/// A name some batch entry carries ends up with the same addresses,
/// whatever table the batch was applied over.
proof fn lemma_fold_nodes_val(
    a: IndexView,
    b: IndexView,
    rs: Seq<crate::resource::NodeResourceView>,
    t: int,
    n: Seq<char>,
)
    requires
        0 <= t <= rs.len(),
        forall|j: int| 0 <= j < rs.len() ==> spec_node_ips(#[trigger] rs[j]) is Ok,
        node_named_in(rs, t, n),
    ensures
        crate::index::alist_val(crate::index::node::spec_apply_nodes(a, rs, t).nodes, n)
            == crate::index::alist_val(
            crate::index::node::spec_apply_nodes(b, rs, t).nodes,
            n,
        ),
    decreases t,
{
    let pa = crate::index::node::spec_apply_nodes(a, rs, t - 1);
    let pb = crate::index::node::spec_apply_nodes(b, rs, t - 1);
    lemma_apply_node_nodes(pa, rs[t - 1]);
    lemma_apply_node_nodes(pb, rs[t - 1]);
    let ips = spec_node_ips(rs[t - 1])->Ok_0;
    if rs[t - 1].name == n {
        crate::index::lemma_val_upsert(pa.nodes, n, ips);
        crate::index::lemma_val_upsert(pb.nodes, n, ips);
    } else {
        assert(node_named_in(rs, t - 1, n)) by {
            let w = choose|j: int| 0 <= j < t && (#[trigger] rs[j]).name == n;
            assert(0 <= w < t - 1 && rs[w].name == n);
        }
        lemma_fold_nodes_val(a, b, rs, t - 1, n);
        crate::index::lemma_val_upsert_other(pa.nodes, rs[t - 1].name, ips, n);
        crate::index::lemma_val_upsert_other(pb.nodes, rs[t - 1].name, ips, n);
    }
}

/// A name no batch entry carries keeps the addresses it started with.
proof fn lemma_fold_nodes_val_other(
    a: IndexView,
    rs: Seq<crate::resource::NodeResourceView>,
    t: int,
    n: Seq<char>,
)
    requires
        0 <= t <= rs.len(),
        forall|j: int| 0 <= j < t ==> (#[trigger] rs[j]).name != n,
    ensures
        crate::index::alist_val(crate::index::node::spec_apply_nodes(a, rs, t).nodes, n)
            == crate::index::alist_val(a.nodes, n),
    decreases t,
{
    if t > 0 {
        lemma_fold_nodes_val_other(a, rs, t - 1, n);
        let prev = crate::index::node::spec_apply_nodes(a, rs, t - 1);
        lemma_apply_node_nodes(prev, rs[t - 1]);
        match spec_node_ips(rs[t - 1]) {
            Ok(ips) => {
                crate::index::lemma_val_upsert_other(prev.nodes, rs[t - 1].name, ips, n);
            },
            Err(_) => {},
        }
    }
}

/// Deleting the stale names: a deleted name ends with no addresses, any
/// other keeps what it had; keys stay unique.
proof fn lemma_delete_nodes_fold(idx: IndexView, ks: Seq<Seq<char>>, t: int, n: Seq<char>)
    requires
        0 <= t <= ks.len(),
        crate::index::alist_unique(idx.nodes),
    ensures
        ({
            let out = crate::index::node::spec_delete_nodes(idx, ks, t);
            &&& crate::index::alist_unique(out.nodes)
            &&& crate::index::alist_val(out.nodes, n) == (if exists|j: int|
                0 <= j < t && ks[j] == n {
                None::<Seq<crate::net::IpAddress>>
            } else {
                crate::index::alist_val(idx.nodes, n)
            })
        }),
    decreases t,
{
    if t > 0 {
        lemma_delete_nodes_fold(idx, ks, t - 1, n);
        let prev = crate::index::node::spec_delete_nodes(idx, ks, t - 1);
        let out = crate::index::node::spec_delete_nodes(idx, ks, t);
        crate::index::lemma_alist_first(prev.nodes, ks[t - 1]);
        assert(out.nodes == crate::index::alist_remove(prev.nodes, ks[t - 1]));
        crate::index::lemma_alist_remove_unique(prev.nodes, ks[t - 1]);
        if ks[t - 1] == n {
            crate::index::lemma_val_remove(prev.nodes, n);
            assert(exists|j: int| 0 <= j < t && ks[j] == n) by {
                assert(ks[t - 1] == n);
            }
        } else {
            crate::index::lemma_val_remove_other(prev.nodes, ks[t - 1], n);
            assert((exists|j: int| 0 <= j < t && ks[j] == n) <==> (exists|j: int|
                0 <= j < t - 1 && ks[j] == n)) by {
                if exists|j: int| 0 <= j < t && ks[j] == n {
                    let w = choose|j: int| 0 <= j < t && ks[j] == n;
                    assert(0 <= w < t - 1 && ks[w] == n);
                }
            }
        }
    }
}

/// The stale list holds exactly the held names the batch does not carry.
proof fn lemma_stale_nodes_contains(
    nodes: Seq<(Seq<char>, Seq<crate::net::IpAddress>)>,
    t: int,
    keys: Seq<(Seq<char>, Seq<char>)>,
    n: Seq<char>,
)
    requires
        0 <= t <= nodes.len(),
    ensures
        ({
            let ks = crate::index::node::stale_node_names(nodes, t, keys);
            (exists|j: int| 0 <= j < ks.len() && ks[j] == n) <==> ((exists|i: int|
                0 <= i < t && (#[trigger] nodes[i]).0 == n) && !crate::labels::has_label(
                keys,
                n,
                n,
            ))
        }),
    decreases t,
{
    if t > 0 {
        lemma_stale_nodes_contains(nodes, t - 1, keys, n);
        let prev = crate::index::node::stale_node_names(nodes, t - 1, keys);
        let ks = crate::index::node::stale_node_names(nodes, t, keys);
        if !crate::labels::has_label(keys, nodes[t - 1].0, nodes[t - 1].0) {
            assert(ks == prev.push(nodes[t - 1].0));
            if nodes[t - 1].0 == n {
                assert(ks[prev.len() as int] == n);
            }
            if exists|j: int| 0 <= j < ks.len() && ks[j] == n {
                let w = choose|j: int| 0 <= j < ks.len() && ks[j] == n;
                if w < prev.len() {
                    assert(prev[w] == n);
                }
            }
            if exists|j: int| 0 <= j < prev.len() && prev[j] == n {
                let w = choose|j: int| 0 <= j < prev.len() && prev[j] == n;
                assert(ks[w] == n);
            }
            if exists|i: int| 0 <= i < t && (#[trigger] nodes[i]).0 == n {
                let w = choose|i: int| 0 <= i < t && (#[trigger] nodes[i]).0 == n;
            }
        } else {
            assert(ks == prev);
            if exists|i: int| 0 <= i < t && (#[trigger] nodes[i]).0 == n {
                let w = choose|i: int| 0 <= i < t && (#[trigger] nodes[i]).0 == n;
                if w == t - 1 {
                    assert(!crate::labels::has_label(keys, n, n) ==> false);
                }
            }
        }
    }
}

/// Restart reconciliation, node stream: for batches whose every node is
/// usable, a restart yields, name for name, the very addresses that
/// applying the batch alone over an empty node table yields — whatever
/// history came before.
pub proof fn lemma_restart_reconciles_nodes(
    idx: IndexView,
    rs: Seq<crate::resource::NodeResourceView>,
    n: Seq<char>,
)
    requires
        crate::index::alist_unique(idx.nodes),
        forall|j: int| 0 <= j < rs.len() ==> spec_node_ips(#[trigger] rs[j]) is Ok,
    ensures
        crate::index::alist_val(crate::index::node::spec_reset_nodes(idx, rs).nodes, n)
            == crate::index::alist_val(
            crate::index::node::spec_apply_nodes(
                (IndexView { nodes: Seq::empty(), ..idx }),
                rs,
                rs.len() as int,
            ).nodes,
            n,
        ),
{
    let fresh0 = IndexView { nodes: Seq::empty(), ..idx };
    let len = rs.len() as int;
    let mid = crate::index::node::spec_apply_nodes(idx, rs, len);
    let fresh = crate::index::node::spec_apply_nodes(fresh0, rs, len);
    let keys = crate::index::node::node_names(rs);
    let ks = crate::index::node::stale_node_names(mid.nodes, mid.nodes.len() as int, keys);
    lemma_fold_nodes_unique(idx, rs, len);
    assert(crate::labels::has_label(keys, n, n) <==> node_named_in(rs, len, n)) by {
        if crate::labels::has_label(keys, n, n) {
            let w = choose|w: int| 0 <= w < keys.len() && #[trigger] keys[w] == (n, n);
            assert(rs[w].name == n);
        }
        if node_named_in(rs, len, n) {
            let w = choose|j: int| 0 <= j < len && (#[trigger] rs[j]).name == n;
            assert(keys[w] == (n, n));
        }
    }
    lemma_stale_nodes_contains(mid.nodes, mid.nodes.len() as int, keys, n);
    lemma_delete_nodes_fold(mid, ks, ks.len() as int, n);
    if node_named_in(rs, len, n) {
        lemma_fold_nodes_val(idx, fresh0, rs, len, n);
        assert(!exists|j: int| 0 <= j < ks.len() && ks[j] == n);
    } else {
        lemma_fold_nodes_val_other(fresh0, rs, len, n);
        assert(!alist_has(fresh0.nodes, n));
        lemma_fold_nodes_val_other(idx, rs, len, n);
        crate::index::lemma_alist_first(mid.nodes, n);
        if alist_has(mid.nodes, n) {
            assert(mid.nodes[alist_first(mid.nodes, n)].0 == n);
            assert(exists|j: int| 0 <= j < ks.len() && ks[j] == n);
        }
    }
}

/// What the lookup table holds for a pod, resolved through first
/// positions.
pub open spec fn entry_of(
    lookups: Seq<(Seq<char>, Seq<(Seq<char>, crate::index::LookupEntryView)>)>,
    ns: Seq<char>,
    pod: Seq<char>,
) -> Option<crate::index::LookupEntryView> {
    if alist_has(lookups, ns) {
        let row = lookups[alist_first(lookups, ns)].1;
        if alist_has(row, pod) {
            Some(row[alist_first(row, pod)].1)
        } else {
            None
        }
    } else {
        None
    }
}

/// Whether a pod is indexed in its namespace.
pub open spec fn pod_indexed(idx: IndexView, ns: Seq<char>, pod: Seq<char>) -> bool {
    alist_has(idx.namespaces, ns) && alist_has(
        idx.namespaces[alist_first(idx.namespaces, ns)].1.pods,
        pod,
    )
}

/// A position carrying the key, with no earlier occurrence, is the first.
proof fn lemma_first_at<T>(s: Seq<(Seq<char>, T)>, k: Seq<char>, f: int)
    requires
        0 <= f < s.len(),
        s[f].0 == k,
        forall|j: int| 0 <= j < f ==> (#[trigger] s[j]).0 != k,
    ensures
        alist_first(s, k) == f,
        alist_has(s, k),
{
    assert(alist_has(s, k));
    crate::index::lemma_alist_first(s, k);
    let f1 = alist_first(s, k);
    if f1 < f {
        assert(s[f1].0 == k);
    }
    if f < f1 {
        assert(s[f].0 != k);
    }
}

/// A successful install puts the entry where the pod's lookups stand.
proof fn lemma_set_target(
    lookups: Seq<(Seq<char>, Seq<(Seq<char>, crate::index::LookupEntryView)>)>,
    ns: Seq<char>,
    pod: Seq<char>,
    entry: crate::index::LookupEntryView,
    l2: Seq<(Seq<char>, Seq<(Seq<char>, crate::index::LookupEntryView)>)>,
)
    requires
        crate::lookup::spec_lookup_set(lookups, ns, pod, entry) == Some(l2),
    ensures
        entry_of(l2, ns, pod) == Some(entry),
{
    crate::index::lemma_alist_first(lookups, ns);
    if alist_has(lookups, ns) {
        let i = alist_first(lookups, ns);
        let pods = lookups[i].1;
        assert(l2 == lookups.update(i, (lookups[i].0, pods.push((pod, entry)))));
        assert forall|j: int| 0 <= j < i implies (#[trigger] l2[j]).0 != ns by {
            assert(l2[j].0 == lookups[j].0);
        }
        lemma_first_at(l2, ns, i);
        let row = l2[i].1;
        assert(row == pods.push((pod, entry)));
        crate::index::lemma_alist_first(pods, pod);
        assert forall|j: int| 0 <= j < pods.len() implies (#[trigger] row[j]).0 != pod by {
            assert(row[j].0 == pods[j].0);
            if pods[j].0 == pod {
                assert(alist_has(pods, pod));
            }
        }
        assert(row[pods.len() as int].0 == pod);
        lemma_first_at(row, pod, pods.len() as int);
    } else {
        assert(l2 == lookups.push((ns, seq![(pod, entry)])));
        assert forall|j: int| 0 <= j < lookups.len() implies (#[trigger] l2[j]).0 != ns by {
            assert(l2[j].0 == lookups[j].0);
            if lookups[j].0 == ns {
                assert(alist_has(lookups, ns));
            }
        }
        assert(l2[lookups.len() as int].0 == ns);
        lemma_first_at(l2, ns, lookups.len() as int);
        let row = l2[lookups.len() as int].1;
        assert(row[0].0 == pod);
        lemma_first_at(row, pod, 0);
    }
}

/// A successful install of one pod leaves every other pod's entry as it
/// was.
proof fn lemma_set_other(
    lookups: Seq<(Seq<char>, Seq<(Seq<char>, crate::index::LookupEntryView)>)>,
    ns: Seq<char>,
    pod: Seq<char>,
    entry: crate::index::LookupEntryView,
    l2: Seq<(Seq<char>, Seq<(Seq<char>, crate::index::LookupEntryView)>)>,
    ns2: Seq<char>,
    pod2: Seq<char>,
)
    requires
        crate::lookup::spec_lookup_set(lookups, ns, pod, entry) == Some(l2),
        !(ns2 == ns && pod2 == pod),
    ensures
        entry_of(l2, ns2, pod2) == entry_of(lookups, ns2, pod2),
{
    crate::index::lemma_alist_first(lookups, ns);
    crate::index::lemma_alist_first(lookups, ns2);
    if alist_has(lookups, ns) {
        let i = alist_first(lookups, ns);
        let pods = lookups[i].1;
        assert(l2 == lookups.update(i, (lookups[i].0, pods.push((pod, entry)))));
        assert forall|j: int| 0 <= j < l2.len() implies (#[trigger] l2[j]).0 == lookups[j].0 by {}
        crate::index::lemma_alist_first(l2, ns2);
        assert(alist_has(l2, ns2) <==> alist_has(lookups, ns2)) by {
            if alist_has(lookups, ns2) {
                let w = choose|w: int|
                    0 <= w < lookups.len() && (#[trigger] lookups[w]).0 == ns2;
                assert(l2[w].0 == ns2);
            }
            if alist_has(l2, ns2) {
                let w = choose|w: int| 0 <= w < l2.len() && (#[trigger] l2[w]).0 == ns2;
                assert(lookups[w].0 == ns2);
            }
        }
        if alist_has(lookups, ns2) {
            let i2 = alist_first(lookups, ns2);
            lemma_first_at(l2, ns2, i2);
            if ns2 == ns {
                assert(i2 == i);
                let row = l2[i].1;
                assert(pod2 != pod);
                crate::index::lemma_alist_first(pods, pod2);
                assert(alist_has(row, pod2) <==> alist_has(pods, pod2)) by {
                    if alist_has(pods, pod2) {
                        let w = choose|w: int|
                            0 <= w < pods.len() && (#[trigger] pods[w]).0 == pod2;
                        assert(row[w].0 == pod2);
                    }
                    if alist_has(row, pod2) {
                        let w = choose|w: int|
                            0 <= w < row.len() && (#[trigger] row[w]).0 == pod2;
                        if w < pods.len() {
                            assert(pods[w].0 == pod2);
                        } else {
                            assert(row[w].0 == pod);
                        }
                    }
                }
                if alist_has(pods, pod2) {
                    let p2 = alist_first(pods, pod2);
                    assert forall|j: int| 0 <= j < p2 implies (#[trigger] row[j]).0 != pod2 by {
                        assert(row[j].0 == pods[j].0);
                    }
                    assert(row[p2].0 == pod2);
                    lemma_first_at(row, pod2, p2);
                    assert(row[p2].1 == pods[p2].1);
                }
            } else {
                assert(i2 != i) by {
                    assert(lookups[i].0 == ns);
                }
                assert(l2[i2].1 == lookups[i2].1);
            }
        }
    } else {
        assert(l2 == lookups.push((ns, seq![(pod, entry)])));
        crate::index::lemma_alist_first(l2, ns2);
        if ns2 == ns {
            assert(!alist_has(lookups, ns2));
        } else {
            assert(alist_has(l2, ns2) <==> alist_has(lookups, ns2)) by {
                if alist_has(lookups, ns2) {
                    let w = choose|w: int|
                        0 <= w < lookups.len() && (#[trigger] lookups[w]).0 == ns2;
                    assert(l2[w].0 == ns2);
                }
                if alist_has(l2, ns2) {
                    let w = choose|w: int| 0 <= w < l2.len() && (#[trigger] l2[w]).0 == ns2;
                    if w < lookups.len() {
                        assert(lookups[w].0 == ns2);
                    } else {
                        assert(l2[w].0 == ns);
                    }
                }
            }
            if alist_has(lookups, ns2) {
                let i2 = alist_first(lookups, ns2);
                assert forall|j: int| 0 <= j < i2 implies (#[trigger] l2[j]).0 != ns2 by {
                    assert(l2[j].0 == lookups[j].0);
                }
                assert(l2[i2].0 == ns2);
                lemma_first_at(l2, ns2, i2);
                assert(l2[i2].1 == lookups[i2].1);
            }
        }
    }
}

/// Admitting a pod that is neither indexed nor installed puts its entry,
/// with the given kubelet addresses, into the lookup table.
proof fn lemma_admit_entry(idx: IndexView, res: crate::resource::PodResourceView, ips: Seq<crate::net::IpAddress>)
    requires
        !pod_indexed(idx, res.ns, res.name),
        entry_of(idx.lookups, res.ns, res.name) is None,
    ensures
        ({
            let out = crate::index::pod::spec_admit_core(idx, res, ips);
            match entry_of(out.lookups, res.ns, res.name) {
                Some(e) => e.kubelet == ips,
                None => false,
            }
        }),
{
    let idx1 = spec_create_ns(idx, res.ns);
    let i = alist_first(idx1.namespaces, res.ns);
    crate::index::lemma_alist_first(idx.namespaces, res.ns);
    crate::index::lemma_alist_first(idx1.namespaces, res.ns);
    let nsv = idx1.namespaces[i].1;
    assert(!alist_has(nsv.pods, res.name)) by {
        if alist_has(idx.namespaces, res.ns) {
            assert(idx1 == idx);
        } else {
            assert forall|j: int| 0 <= j < idx.namespaces.len() implies (
            #[trigger] idx1.namespaces[j]).0 != res.ns by {
                assert(idx1.namespaces[j].0 == idx.namespaces[j].0);
                if idx.namespaces[j].0 == res.ns {
                    assert(alist_has(idx.namespaces, res.ns));
                }
            }
            assert(idx1.namespaces[idx.namespaces.len() as int].0 == res.ns);
            lemma_first_at(idx1.namespaces, res.ns, idx.namespaces.len() as int);
        }
    }
    let pod = crate::index::pod::spec_pod_record(res, nsv.default_mode);
    let entry = crate::index::LookupEntryView {
        kubelet: ips,
        ports: crate::index::pod::spec_cp_list(pod.ports),
    };
    crate::index::lemma_alist_first(idx.lookups, res.ns);
    assert(crate::lookup::spec_lookup_set(idx1.lookups, res.ns, res.name, entry) is Some) by {
        if alist_has(idx.lookups, res.ns) {
            let li = alist_first(idx.lookups, res.ns);
            if alist_has(idx.lookups[li].1, res.name) {
                assert(entry_of(idx.lookups, res.ns, res.name) is Some);
            }
        }
    }
    let l2 = crate::lookup::spec_lookup_set(idx1.lookups, res.ns, res.name, entry)->Some_0;
    lemma_set_target(idx1.lookups, res.ns, res.name, entry, l2);
}

/// Admitting one pod leaves every other pod's lookup entry as it was.
proof fn lemma_admit_other(
    idx: IndexView,
    res: crate::resource::PodResourceView,
    ips: Seq<crate::net::IpAddress>,
    ns2: Seq<char>,
    pod2: Seq<char>,
)
    requires
        !(ns2 == res.ns && pod2 == res.name),
    ensures
        entry_of(
            crate::index::pod::spec_admit_core(idx, res, ips).lookups,
            ns2,
            pod2,
        ) == entry_of(idx.lookups, ns2, pod2),
{
    let idx1 = spec_create_ns(idx, res.ns);
    assert(idx1.lookups == idx.lookups);
    let i = alist_first(idx1.namespaces, res.ns);
    let nsv = idx1.namespaces[i].1;
    if alist_has(nsv.pods, res.name) {
    } else {
        let pod = crate::index::pod::spec_pod_record(res, nsv.default_mode);
        let entry = crate::index::LookupEntryView {
            kubelet: ips,
            ports: crate::index::pod::spec_cp_list(pod.ports),
        };
        match crate::lookup::spec_lookup_set(idx1.lookups, res.ns, res.name, entry) {
            None => {},
            Some(l2) => {
                lemma_set_other(idx1.lookups, res.ns, res.name, entry, l2, ns2, pod2);
            },
        }
    }
}

/// Admitting one pod indexes no other: a pod indexed afterwards was
/// indexed before, or is the admitted one.
proof fn lemma_admit_indexed_other(
    idx: IndexView,
    res: crate::resource::PodResourceView,
    ips: Seq<crate::net::IpAddress>,
    ns2: Seq<char>,
    pod2: Seq<char>,
)
    requires
        !(ns2 == res.ns && pod2 == res.name),
        !pod_indexed(idx, ns2, pod2),
    ensures
        !pod_indexed(crate::index::pod::spec_admit_core(idx, res, ips), ns2, pod2),
{
    let idx1 = spec_create_ns(idx, res.ns);
    crate::index::lemma_alist_first(idx.namespaces, res.ns);
    crate::index::lemma_alist_first(idx1.namespaces, res.ns);
    crate::index::lemma_alist_first(idx.namespaces, ns2);
    assert(alist_has(idx1.namespaces, res.ns)) by {
        if !alist_has(idx.namespaces, res.ns) {
            assert(idx1.namespaces[idx.namespaces.len() as int].0 == res.ns);
        }
    }
    let i = alist_first(idx1.namespaces, res.ns);
    assert(0 <= i < idx1.namespaces.len());
    assert(!pod_indexed(idx1, ns2, pod2)) by {
        if !alist_has(idx.namespaces, res.ns) {
            crate::index::lemma_alist_first(idx1.namespaces, ns2);
            if alist_has(idx1.namespaces, ns2) {
                let w = choose|w: int|
                    0 <= w < idx1.namespaces.len() && (#[trigger] idx1.namespaces[w]).0 == ns2;
                if w < idx.namespaces.len() {
                    assert(idx.namespaces[w].0 == ns2);
                    assert(alist_has(idx.namespaces, ns2));
                    let f = alist_first(idx.namespaces, ns2);
                    assert forall|j: int| 0 <= j < f implies (#[trigger] idx1.namespaces[j]).0
                        != ns2 by {
                        assert(idx1.namespaces[j].0 == idx.namespaces[j].0);
                    }
                    assert(idx1.namespaces[f].0 == ns2);
                    lemma_first_at(idx1.namespaces, ns2, f);
                    assert(idx1.namespaces[f].1 == idx.namespaces[f].1);
                } else {
                    assert(idx1.namespaces[w].1 == crate::index::spec_ns_empty(
                        idx.default_allow,
                    ));
                    assert forall|j: int|
                        0 <= j < w implies (#[trigger] idx1.namespaces[j]).0 != ns2 by {
                        assert(idx1.namespaces[j].0 == idx.namespaces[j].0);
                        if idx.namespaces[j].0 == ns2 {
                            assert(alist_has(idx.namespaces, ns2));
                            crate::index::lemma_alist_first(idx.namespaces, ns2);
                            let f = alist_first(idx.namespaces, ns2);
                            assert(idx1.namespaces[f].0 == ns2);
                        }
                    }
                    lemma_first_at(idx1.namespaces, ns2, w);
                }
            }
        }
    }
    let nsv = idx1.namespaces[i].1;
    let out = crate::index::pod::spec_admit_core(idx, res, ips);
    let pods0 = nsv.pods;
    crate::index::lemma_alist_first(pods0, res.name);
    // the pod list the admission leaves behind, before the refresh
    let jj = alist_first(pods0, res.name);
    let midpods: Seq<(Seq<char>, crate::index::PodView)> = if alist_has(pods0, res.name) {
        pods0.update(
            jj,
            (
                res.name,
                crate::index::PodView {
                    labels: res.labels,
                    default_allow: crate::index::pod::spec_pod_default(
                        res.annotations,
                        nsv.default_mode,
                    ),
                    ports: pods0[jj].1.ports,
                    port_names: pods0[jj].1.port_names,
                },
            ),
        )
    } else {
        pods0.push((res.name, crate::index::pod::spec_pod_record(res, nsv.default_mode)))
    };
    let mid = crate::index::NamespaceView { pods: midpods, ..nsv };
    crate::index::refresh::lemma_refresh_ns_wf(mid);
    // the one key the pod list gains or replaces is the admitted pod's
    assert forall|w2: int|
        0 <= w2 < spec_refresh_ns(mid).pods.len() implies ((#[trigger] spec_refresh_ns(
        mid,
    ).pods[w2]).0 == pod2 ==> (alist_has(pods0, pod2) || pod2 == res.name)) by {
        if spec_refresh_ns(mid).pods[w2].0 == pod2 {
            assert(midpods[w2].0 == pod2);
            if alist_has(pods0, res.name) {
                if w2 == jj {
                    assert(midpods[w2].0 == res.name);
                } else {
                    assert(midpods[w2].0 == pods0[w2].0);
                    assert(alist_has(pods0, pod2));
                }
            } else {
                if w2 < pods0.len() {
                    assert(midpods[w2].0 == pods0[w2].0);
                    assert(alist_has(pods0, pod2));
                } else {
                    assert(midpods[w2].0 == res.name);
                }
            }
        }
    }
    let nss2 = out.namespaces;
    if out.namespaces == idx1.namespaces {
        assert(!pod_indexed(out, ns2, pod2));
    } else {
        assert(nss2 == idx1.namespaces.update(i, (res.ns, spec_refresh_ns(mid))));
        assert forall|j: int| 0 <= j < nss2.len() implies (#[trigger] nss2[j]).0
            == idx1.namespaces[j].0 by {}
        crate::index::lemma_alist_first(nss2, ns2);
        crate::index::lemma_alist_first(idx1.namespaces, ns2);
        if alist_has(nss2, ns2) {
            let w = choose|w: int| 0 <= w < nss2.len() && (#[trigger] nss2[w]).0 == ns2;
            assert(idx1.namespaces[w].0 == ns2);
            assert(alist_has(idx1.namespaces, ns2));
            let f = alist_first(idx1.namespaces, ns2);
            assert forall|j: int| 0 <= j < f implies (#[trigger] nss2[j]).0 != ns2 by {
                assert(nss2[j].0 == idx1.namespaces[j].0);
            }
            assert(nss2[f].0 == ns2);
            lemma_first_at(nss2, ns2, f);
            if f != i {
                assert(nss2[f].1 == idx1.namespaces[f].1);
            } else {
                assert(ns2 == res.ns);
                assert(pod2 != res.name);
                assert(!alist_has(pods0, pod2));
                if alist_has(nss2[f].1.pods, pod2) {
                    let w2 = choose|w2: int|
                        0 <= w2 < nss2[f].1.pods.len() && (#[trigger] nss2[f].1.pods[w2]).0
                            == pod2;
                    assert(spec_refresh_ns(mid).pods[w2].0 == pod2);
                }
            }
        }
    }
}

/// A pod neither indexed nor installed stays so through the admission of
/// other pods during a node's materialization.
proof fn lemma_materialize_fresh(
    idx2: IndexView,
    pending0: Seq<crate::resource::PodResourceView>,
    t: int,
    node: Seq<char>,
    ips: Seq<crate::net::IpAddress>,
    ns: Seq<char>,
    name: Seq<char>,
)
    requires
        0 <= t <= pending0.len(),
        forall|j: int|
            0 <= j < t ==> !((#[trigger] pending0[j]).ns == ns && pending0[j].name == name),
        !pod_indexed(idx2, ns, name),
        entry_of(idx2.lookups, ns, name) is None,
    ensures
        ({
            let s = crate::index::node::spec_materialize(idx2, pending0, t, node, ips);
            !pod_indexed(s, ns, name) && entry_of(s.lookups, ns, name) is None
        }),
    decreases t,
{
    if t > 0 {
        lemma_materialize_fresh(idx2, pending0, t - 1, node, ips, ns, name);
        let prev = crate::index::node::spec_materialize(idx2, pending0, t - 1, node, ips);
        let p = pending0[t - 1];
        if p.node == node {
            lemma_admit_other(prev, p, ips, ns, name);
            lemma_admit_indexed_other(prev, p, ips, ns, name);
        }
    }
}

/// Once a pending pod is admitted during materialization, its entry, with
/// the node's kubelet addresses, survives the remaining admissions.
proof fn lemma_materialize_entry(
    idx2: IndexView,
    pending0: Seq<crate::resource::PodResourceView>,
    n: int,
    node: Seq<char>,
    ips: Seq<crate::net::IpAddress>,
    k: int,
)
    requires
        0 <= k < n <= pending0.len(),
        pending0[k].node == node,
        forall|j: int|
            0 <= j < n && j != k ==> !((#[trigger] pending0[j]).ns == pending0[k].ns
                && pending0[j].name == pending0[k].name),
        !pod_indexed(idx2, pending0[k].ns, pending0[k].name),
        entry_of(idx2.lookups, pending0[k].ns, pending0[k].name) is None,
    ensures
        ({
            let out = crate::index::node::spec_materialize(idx2, pending0, n, node, ips);
            match entry_of(out.lookups, pending0[k].ns, pending0[k].name) {
                Some(e) => e.kubelet == ips,
                None => false,
            }
        }),
    decreases n,
{
    let prev = crate::index::node::spec_materialize(idx2, pending0, n - 1, node, ips);
    if k == n - 1 {
        lemma_materialize_fresh(idx2, pending0, n - 1, node, ips, pending0[k].ns, pending0[k].name);
        lemma_admit_entry(prev, pending0[k], ips);
    } else {
        lemma_materialize_entry(idx2, pending0, n - 1, node, ips, k);
        let p = pending0[n - 1];
        if p.node == node {
            lemma_admit_other(prev, p, ips, pending0[k].ns, pending0[k].name);
        }
    }
}

/// Pending-node materialization, second half: once a pod's node is
/// applied, the pod appears in the lookup table with that node's kubelet
/// addresses, derived from its pod CIDRs.
pub proof fn lemma_pending_node_materialization(
    idx: IndexView,
    node: crate::resource::NodeResourceView,
    ips: Seq<crate::net::IpAddress>,
    k: int,
)
    requires
        spec_node_ips(node) == Ok::<Seq<crate::net::IpAddress>, crate::index::IndexError>(ips),
        0 <= k < idx.pending.len(),
        idx.pending[k].node == node.name,
        forall|j: int|
            0 <= j < idx.pending.len() && j != k ==> !((#[trigger] idx.pending[j]).ns
                == idx.pending[k].ns && idx.pending[j].name == idx.pending[k].name),
        !pod_indexed(idx, idx.pending[k].ns, idx.pending[k].name),
        entry_of(idx.lookups, idx.pending[k].ns, idx.pending[k].name) is None,
    ensures
        ({
            let out = spec_apply_node(idx, node);
            match entry_of(out.lookups, idx.pending[k].ns, idx.pending[k].name) {
                Some(e) => e.kubelet == ips,
                None => false,
            }
        }),
{
    let idx2 = IndexView {
        nodes: crate::index::alist_upsert(idx.nodes, node.name, ips),
        ..idx
    };
    assert(idx2.lookups == idx.lookups && idx2.namespaces == idx.namespaces);
    lemma_materialize_entry(idx2, idx.pending, idx.pending.len() as int, node.name, ips, k);
}

/// Pending-node materialization, first half: a pod applied before its node
/// is observed changes neither the namespaces nor the lookup table — it is
/// not discoverable.
pub proof fn lemma_pending_pod_invisible(idx: IndexView, res: crate::resource::PodResourceView)
    requires
        !alist_has(idx.nodes, res.node),
    ensures
        spec_apply_pod(idx, res).namespaces == idx.namespaces,
        spec_apply_pod(idx, res).lookups == idx.lookups,
        forall|ns: Seq<char>, pod: Seq<char>, cp: u16|
            spec_lookup(#[trigger] spec_apply_pod(idx, res), ns, pod, cp) == spec_lookup(
                idx,
                ns,
                pod,
                cp,
            ),
{
    assert forall|ns: Seq<char>, pod: Seq<char>, cp: u16|
        spec_lookup(#[trigger] spec_apply_pod(idx, res), ns, pod, cp) == spec_lookup(
            idx,
            ns,
            pod,
            cp,
        ) by {
        let a = spec_apply_pod(idx, res);
        assert(a.namespaces == idx.namespaces && a.lookups == idx.lookups);
    }
}

} // verus!
