//! `Server` resource handling: applying, deleting and removing servers, and
//! the protocol a server declares.

use vstd::prelude::*;
use crate::index::refresh::{refresh_namespace, spec_refresh_ns, lemma_refresh_ns_wf};
use crate::index::{
    alist_first, alist_has, alist_remove, alist_upsert, find_entry, group_deep,
    lemma_alist_remove_unique, lemma_alist_upsert_unique, Index, IndexError, IndexView,
    NamespaceView, Server, ServerMeta, ServerMetaView, ServerStateView, SrvIndex,
};
use crate::inbound::{InboundServer, InboundServerView, Protocol};
use crate::resource::{ServerProtocol, ServerResource, ServerResourceView};

verus! {

broadcast use group_deep;

/// The protocol a `Server` resource declares: detection with a five-second
/// timeout when absent or unknown, else the declared variant.
pub open spec fn spec_mk_protocol(p: Option<ServerProtocol>) -> Protocol {
    match p {
        None => Protocol::Detect { timeout_ms: 5000 },
        Some(ServerProtocol::Unknown) => Protocol::Detect { timeout_ms: 5000 },
        Some(ServerProtocol::Http1) => Protocol::Http1,
        Some(ServerProtocol::Http2) => Protocol::Http2,
        Some(ServerProtocol::Grpc) => Protocol::Grpc,
        Some(ServerProtocol::Opaque) => Protocol::Opaque,
        Some(ServerProtocol::Tls) => Protocol::Tls,
    }
}

/// The protocol a `Server` resource declares.
pub fn mk_protocol(p: &Option<ServerProtocol>) -> (r: Protocol)
    ensures
        r == spec_mk_protocol(*p),
{
    match p {
        None => Protocol::Detect { timeout_ms: 5000 },
        Some(ServerProtocol::Unknown) => Protocol::Detect { timeout_ms: 5000 },
        Some(ServerProtocol::Http1) => Protocol::Http1,
        Some(ServerProtocol::Http2) => Protocol::Http2,
        Some(ServerProtocol::Grpc) => Protocol::Grpc,
        Some(ServerProtocol::Opaque) => Protocol::Opaque,
        Some(ServerProtocol::Tls) => Protocol::Tls,
    }
}

/// What a `Server` resource declares, as a server's base data.
pub open spec fn spec_mk_server_meta(res: ServerResourceView) -> ServerMetaView {
    ServerMetaView {
        labels: res.labels,
        port: res.port,
        pod_selector: res.pod_selector,
        protocol: spec_mk_protocol(res.proxy_protocol),
    }
}

/// The server records with the declared data stored under the name: an
/// existing record keeps its derived state until the refresh; a new record
/// starts from its seed snapshot.
pub open spec fn spec_upsert_server(
    servers: Seq<(Seq<char>, ServerStateView)>,
    name: Seq<char>,
    meta: ServerMetaView,
) -> Seq<(Seq<char>, ServerStateView)> {
    if alist_has(servers, name) {
        let i = alist_first(servers, name);
        servers.update(i, (name, ServerStateView { meta, ..servers[i].1 }))
    } else {
        servers.push(
            (
                name,
                ServerStateView {
                    meta,
                    authorizations: Seq::empty(),
                    snapshot: InboundServerView {
                        protocol: meta.protocol,
                        authorizations: Seq::empty(),
                    },
                    version: 0,
                },
            ),
        )
    }
}

/// The index after a `Server` is applied: its namespace exists, its
/// declared data is stored under its name, and the namespace's matched
/// authorizations, snapshots and pod links are recomputed.
pub open spec fn spec_apply_server(idx: IndexView, res: ServerResourceView) -> IndexView {
    let idx1 = crate::index::spec_create_ns(idx, res.ns);
    let i = alist_first(idx1.namespaces, res.ns);
    let nsv = idx1.namespaces[i].1;
    let ns2 = spec_refresh_ns(
        NamespaceView {
            servers: spec_upsert_server(nsv.servers, res.name, spec_mk_server_meta(res)),
            ..nsv
        },
    );
    IndexView { namespaces: idx1.namespaces.update(i, (res.ns, ns2)), ..idx1 }
}

/// An upserted server list keeps keys unique.
proof fn lemma_upsert_server_unique(
    servers: Seq<(Seq<char>, ServerStateView)>,
    name: Seq<char>,
    meta: ServerMetaView,
)
    requires
        crate::index::alist_unique(servers),
    ensures
        crate::index::alist_unique(spec_upsert_server(servers, name, meta)),
{
    if alist_has(servers, name) {
        let i = alist_first(servers, name);
        crate::index::lemma_alist_first(servers, name);
        lemma_alist_upsert_unique(servers, name, ServerStateView { meta, ..servers[i].1 });
        assert(spec_upsert_server(servers, name, meta) =~~= alist_upsert(
            servers,
            name,
            ServerStateView { meta, ..servers[i].1 },
        ));
    } else {
        let seed = ServerStateView {
            meta,
            authorizations: Seq::empty(),
            snapshot: InboundServerView { protocol: meta.protocol, authorizations: Seq::empty() },
            version: 0,
        };
        lemma_alist_upsert_unique(servers, name, seed);
        assert(spec_upsert_server(servers, name, meta) =~~= alist_upsert(servers, name, seed));
    }
}

/// Replacing one namespace by a refreshed well-formed namespace keeps the
/// index well-formed.
pub proof fn lemma_ns_update_wf(idx: IndexView, i: int, k: Seq<char>, mid: NamespaceView)
    requires
        idx.wf(),
        0 <= i < idx.namespaces.len(),
        idx.namespaces[i].0 == k,
        mid.wf(),
    ensures
        (IndexView {
            namespaces: idx.namespaces.update(i, (k, spec_refresh_ns(mid))),
            ..idx
        }).wf(),
{
    lemma_refresh_ns_wf(mid);
    let out = IndexView { namespaces: idx.namespaces.update(i, (k, spec_refresh_ns(mid))), ..idx };
    assert forall|x: int, y: int| 0 <= x < y < out.namespaces.len() implies (
    #[trigger] out.namespaces[x]).0 != (#[trigger] out.namespaces[y]).0 by {
        assert(idx.namespaces[x].0 != idx.namespaces[y].0);
    }
    assert forall|x: int| 0 <= x < out.namespaces.len() implies (
    #[trigger] out.namespaces[x]).1.wf() by {
        if x != i {
            assert(idx.namespaces[x].1.wf());
        }
    }
}

impl Index {
    /// Applies a `Server`: stores its declared port, selector, labels and
    /// protocol under its namespace and name, recomputes which
    /// authorizations match it, republishes snapshots that changed, and
    /// re-links every pod port in the namespace.
    pub fn apply_server(&mut self, srv: ServerResource)
        ensures
            final(self)@ == spec_apply_server(old(self)@, srv@),
            old(self)@.wf() ==> final(self)@.wf(),
    {
        let ServerResource { ns, name, labels, port, pod_selector, proxy_protocol } = srv;
        let i = self.get_or_create_ns(ns.as_str());
        let ghost idx1 = self@;
        let protocol = mk_protocol(&proxy_protocol);
        let meta = ServerMeta { labels, port, pod_selector, protocol };
        let ghost mv = meta@;
        let ghost ns_pre = self.namespaces@[i as int].1@;
        match find_entry(&self.namespaces[i].1.servers.entries, name.as_str()) {
            Some(j) => {
                self.namespaces[i].1.servers.entries[j].1.meta = meta;
            },
            None => {
                let seed = InboundServer { protocol, authorizations: Vec::new() };
                proof {
                    assert(seed@ =~~= (InboundServerView {
                        protocol: mv.protocol,
                        authorizations: Seq::empty(),
                    }));
                }
                self.namespaces[i].1.servers.entries.push(
                    (name, Server { meta, authorizations: Vec::new(), snapshot: seed, version: 0 }),
                );
            },
        }
        proof {
            assert(self.namespaces@[i as int].1@.servers =~~= spec_upsert_server(
                ns_pre.servers,
                srv@.name,
                mv,
            ));
            assert(self.namespaces@[i as int].1@ =~~= (NamespaceView {
                servers: spec_upsert_server(ns_pre.servers, srv@.name, mv),
                ..ns_pre
            }));
        }
        let ghost ns_mid = self.namespaces@[i as int].1@;
        refresh_namespace(&mut self.namespaces[i].1);
        proof {
            assert(self@.namespaces =~~= idx1.namespaces.update(
                i as int,
                (srv@.ns, spec_refresh_ns(ns_mid)),
            ));
            assert(mv =~~= spec_mk_server_meta(srv@));
            assert(self@ =~~= spec_apply_server(old(self)@, srv@));
            if old(self)@.wf() {
                lemma_upsert_server_unique(ns_pre.servers, srv@.name, mv);
                assert(ns_mid.wf());
                lemma_ns_update_wf(idx1, i as int, srv@.ns, ns_mid);
            }
        }
    }

    /// Removes the named server from the namespace: every pod port it owned
    /// is re-pointed, to another selecting server or to the pod's default.
    /// Naming an unknown namespace or server is refused.
    pub fn rm_server(&mut self, ns: &str, name: &str) -> (r: Result<(), IndexError>)
        ensures
            final(self)@ == spec_rm_server(old(self)@, ns@, name@),
            r == spec_rm_server_result(old(self)@, ns@, name@),
            old(self)@.wf() ==> final(self)@.wf(),
    {
        let i = match find_entry(&self.namespaces, ns) {
            Some(i) => i,
            None => {
                return Err(IndexError::MissingNamespace);
            },
        };
        let ghost ns_pre = self.namespaces@[i as int].1@;
        let j = match find_entry(&self.namespaces[i].1.servers.entries, name) {
            Some(j) => j,
            None => {
                return Err(IndexError::MissingServer);
            },
        };
        self.namespaces[i].1.servers.entries.remove(j);
        proof {
            assert(self.namespaces@[i as int].1@.servers =~~= alist_remove(ns_pre.servers, name@));
            assert(self.namespaces@[i as int].1@ =~~= (NamespaceView {
                servers: alist_remove(ns_pre.servers, name@),
                ..ns_pre
            }));
        }
        let ghost ns_mid = self.namespaces@[i as int].1@;
        refresh_namespace(&mut self.namespaces[i].1);
        proof {
            assert(self@.namespaces =~~= old(self)@.namespaces.update(
                i as int,
                (old(self)@.namespaces[i as int].0, spec_refresh_ns(ns_mid)),
            ));
            assert(self@ =~~= spec_rm_server(old(self)@, ns@, name@));
            if old(self)@.wf() {
                lemma_alist_remove_unique(ns_pre.servers, name@);
                assert(ns_mid.wf());
                lemma_ns_update_wf(
                    old(self)@,
                    i as int,
                    old(self)@.namespaces[i as int].0,
                    ns_mid,
                );
            }
        }
        Ok(())
    }

    /// Deletes a `Server` resource: removes it under its namespace and
    /// name.
    pub fn delete_server(&mut self, srv: ServerResource) -> (r: Result<(), IndexError>)
        ensures
            final(self)@ == spec_rm_server(old(self)@, srv@.ns, srv@.name),
            r == spec_rm_server_result(old(self)@, srv@.ns, srv@.name),
            old(self)@.wf() ==> final(self)@.wf(),
    {
        self.rm_server(srv.ns.as_str(), srv.name.as_str())
    }
}

/// The `(namespace, name)` keys of a list of server resources.
pub open spec fn server_keys(rs: Seq<ServerResourceView>) -> Seq<(Seq<char>, Seq<char>)> {
    Seq::new(rs.len(), |k: int| (rs[k].ns, rs[k].name))
}

/// The index after the first `n` servers of a restart batch are applied in
/// order.
pub open spec fn spec_apply_servers(idx: IndexView, rs: Seq<ServerResourceView>, n: int) -> IndexView
    decreases n,
{
    if n <= 0 {
        idx
    } else {
        spec_apply_server(spec_apply_servers(idx, rs, n - 1), rs[n - 1])
    }
}

/// The stale server keys of the first `n` namespaces.
pub open spec fn stale_server_keys(
    nss: Seq<(Seq<char>, NamespaceView)>,
    n: int,
    keys: Seq<(Seq<char>, Seq<char>)>,
) -> Seq<(Seq<char>, Seq<char>)>
    decreases n,
{
    if n <= 0 {
        Seq::empty()
    } else {
        stale_server_keys(nss, n - 1, keys) + crate::index::authz::stale_keys_in(
            nss[n - 1].0,
            nss[n - 1].1.servers,
            nss[n - 1].1.servers.len() as int,
            keys,
        )
    }
}

/// The index after the first `n` stale servers are removed in order.
pub open spec fn spec_rm_servers(
    idx: IndexView,
    ks: Seq<(Seq<char>, Seq<char>)>,
    n: int,
) -> IndexView
    decreases n,
{
    if n <= 0 {
        idx
    } else {
        spec_rm_server(spec_rm_servers(idx, ks, n - 1), ks[n - 1].0, ks[n - 1].1)
    }
}

/// The index after a restart of the server stream: every server of the
/// batch applied in order, then every previously held server the batch
/// does not name removed.
pub open spec fn spec_reset_servers(idx: IndexView, rs: Seq<ServerResourceView>) -> IndexView {
    let mid = spec_apply_servers(idx, rs, rs.len() as int);
    let ks = stale_server_keys(mid.namespaces, mid.namespaces.len() as int, server_keys(rs));
    spec_rm_servers(mid, ks, ks.len() as int)
}

impl Index {
    /// Collects the `(namespace, name)` keys of every held server that the
    /// batch does not name.
    fn stale_servers(&self, keys: &Vec<(String, String)>) -> (r: Vec<(String, String)>)
        ensures
            r.deep_view() == stale_server_keys(
                self@.namespaces,
                self@.namespaces.len() as int,
                keys.deep_view(),
            ),
    {
        let ghost kd = keys.deep_view();
        let mut out: Vec<(String, String)> = Vec::new();
        let mut i: usize = 0;
        proof {
            assert(out.deep_view() =~~= stale_server_keys(self@.namespaces, 0, kd));
        }
        while i < self.namespaces.len()
            invariant
                i <= self.namespaces@.len(),
                kd == keys.deep_view(),
                out.deep_view() == stale_server_keys(self@.namespaces, i as int, kd),
            decreases self.namespaces@.len() - i,
        {
            proof {
                assert(self@.namespaces[i as int] == (
                    self.namespaces@[i as int].0@,
                    self.namespaces@[i as int].1@,
                ));
            }
            let ghost nsn = self@.namespaces[i as int].0;
            let ghost entries = self@.namespaces[i as int].1.servers;
            let mut j: usize = 0;
            proof {
                assert(out.deep_view() =~~= stale_server_keys(self@.namespaces, i as int, kd)
                    + crate::index::authz::stale_keys_in(nsn, entries, 0, kd));
            }
            while j < self.namespaces[i].1.servers.entries.len()
                invariant
                    0 <= i < self.namespaces@.len(),
                    kd == keys.deep_view(),
                    nsn == self@.namespaces[i as int].0,
                    entries == self@.namespaces[i as int].1.servers,
                    j <= self.namespaces@[i as int].1.servers.entries@.len(),
                    entries.len() == self.namespaces@[i as int].1.servers.entries@.len(),
                    out.deep_view() == stale_server_keys(self@.namespaces, i as int, kd)
                        + crate::index::authz::stale_keys_in(nsn, entries, j as int, kd),
                decreases self.namespaces@[i as int].1.servers.entries@.len() - j,
            {
                let ghost pre = out.deep_view();
                proof {
                    assert(entries[j as int] == (
                        self.namespaces@[i as int].1.servers.entries@[j as int].0@,
                        self.namespaces@[i as int].1.servers.entries@[j as int].1@,
                    ));
                }
                if !crate::labels::labels_contain(
                    keys,
                    self.namespaces[i].0.as_str(),
                    self.namespaces[i].1.servers.entries[j].0.as_str(),
                ) {
                    out.push(
                        (
                            self.namespaces[i].0.clone(),
                            self.namespaces[i].1.servers.entries[j].0.clone(),
                        ),
                    );
                    proof {
                        assert(out.deep_view() =~~= pre.push((nsn, entries[j as int].0)));
                    }
                }
                j += 1;
                proof {
                    assert(out.deep_view() =~~= stale_server_keys(self@.namespaces, i as int, kd)
                        + crate::index::authz::stale_keys_in(nsn, entries, j as int, kd));
                }
            }
            i += 1;
            proof {
                assert(out.deep_view() =~~= stale_server_keys(self@.namespaces, i as int, kd));
            }
        }
        out
    }

    /// Handles a restart of the server stream: the batch is the source of
    /// truth.  Every server in it is applied; every held server it does not
    /// name is removed, re-pointing the pod ports it owned.
    pub fn reset_servers(&mut self, srvs: Vec<ServerResource>) -> (r: Result<(), IndexError>)
        ensures
            final(self)@ == spec_reset_servers(old(self)@, srvs.deep_view()),
            r is Ok,
            old(self)@.wf() ==> final(self)@.wf(),
    {
        let ghost rs = srvs.deep_view();
        let mut keys: Vec<(String, String)> = Vec::new();
        let mut k: usize = 0;
        while k < srvs.len()
            invariant
                k <= srvs@.len(),
                rs == srvs.deep_view(),
                keys@.len() == k,
                forall|x: int|
                    0 <= x < k ==> ((#[trigger] keys@[x]).0@ == rs[x].ns && keys@[x].1@
                        == rs[x].name),
            decreases srvs@.len() - k,
        {
            keys.push((srvs[k].ns.clone(), srvs[k].name.clone()));
            k += 1;
        }
        proof {
            assert(keys.deep_view() =~~= server_keys(rs));
        }
        let mut batch = srvs;
        let ghost total = rs.len();
        let ghost mut t: int = 0;
        while batch.len() > 0
            invariant
                0 <= t <= total,
                total == rs.len(),
                batch.deep_view() == rs.skip(t),
                batch@.len() == total - t,
                self@ == spec_apply_servers(old(self)@, rs, t),
                old(self)@.wf() ==> self@.wf(),
            decreases batch@.len(),
        {
            let ghost prevec = batch@;
            let ghost predeep = batch.deep_view();
            let a = batch.remove(0);
            proof {
                assert(rs.skip(t)[0] == rs[t]);
                assert(a@ == predeep[0]);
                assert(a@ == rs[t]);
                assert forall|x: int| 0 <= x < batch@.len() implies #[trigger] batch.deep_view()[x]
                    == rs.skip(t + 1)[x] by {
                    assert(batch@[x] == prevec[x + 1]);
                    assert(batch.deep_view()[x] == batch@[x].deep_view());
                    assert(predeep[x + 1] == prevec[x + 1].deep_view());
                    assert(predeep[x + 1] == rs.skip(t)[x + 1]);
                    assert(rs.skip(t)[x + 1] == rs[t + 1 + x]);
                    assert(rs.skip(t + 1)[x] == rs[t + 1 + x]);
                }
                assert(batch.deep_view() =~~= rs.skip(t + 1));
            }
            self.apply_server(a);
            proof {
                t = t + 1;
            }
        }
        proof {
            assert(rs.skip(total as int).len() == 0);
            assert(t == total);
        }
        let stale = self.stale_servers(&keys);
        let ghost mid = self@;
        let ghost ks = stale.deep_view();
        let mut d: usize = 0;
        while d < stale.len()
            invariant
                d <= stale@.len(),
                ks == stale.deep_view(),
                self@ == spec_rm_servers(mid, ks, d as int),
                old(self)@.wf() ==> mid.wf(),
                mid.wf() ==> self@.wf(),
            decreases stale@.len() - d,
        {
            proof {
                assert(ks[d as int] == (stale@[d as int].0@, stale@[d as int].1@));
            }
            let _ = self.rm_server(stale[d].0.as_str(), stale[d].1.as_str());
            d += 1;
        }
        proof {
            assert(self@ == spec_reset_servers(old(self)@, rs));
        }
        Ok(())
    }
}

/// The index after a server is removed: unchanged when the namespace or
/// server is unknown, else without the record and with the namespace's
/// derived state recomputed.
pub open spec fn spec_rm_server(idx: IndexView, ns: Seq<char>, name: Seq<char>) -> IndexView {
    if !alist_has(idx.namespaces, ns) {
        idx
    } else {
        let i = alist_first(idx.namespaces, ns);
        let nsv = idx.namespaces[i].1;
        if !alist_has(nsv.servers, name) {
            idx
        } else {
            let ns2 = spec_refresh_ns(
                NamespaceView { servers: alist_remove(nsv.servers, name), ..nsv },
            );
            IndexView { namespaces: idx.namespaces.update(i, (idx.namespaces[i].0, ns2)), ..idx }
        }
    }
}

/// Whether removing the server succeeds: the namespace and the server must
/// both be known.
pub open spec fn spec_rm_server_result(idx: IndexView, ns: Seq<char>, name: Seq<char>) -> Result<
    (),
    IndexError,
> {
    if !alist_has(idx.namespaces, ns) {
        Err(IndexError::MissingNamespace)
    } else if !alist_has(idx.namespaces[alist_first(idx.namespaces, ns)].1.servers, name) {
        Err(IndexError::MissingServer)
    } else {
        Ok(())
    }
}

} // verus!
