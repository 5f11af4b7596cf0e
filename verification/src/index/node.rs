//! Node handling: deriving kubelet addresses from pod-CIDR allocations,
//! and materializing the pods that were pending on a node when it appears.

use vstd::prelude::*;
use crate::index::pod::spec_admit_core;
use crate::index::{
    alist_first, alist_has, alist_upsert, find_entry, group_deep, lemma_alist_upsert_unique,
    Index, IndexError, IndexView,
};
use crate::inbound::KubeletIps;
use crate::net::{parse_cidr, parsed_cidr, Cidr, IpAddress};
use crate::resource::{NodeResource, NodeResourceView, PodResource, PodResourceView};
use crate::text::str_eq;

verus! {

broadcast use group_deep;

/// The kubelet addresses of the first `n` pod CIDRs: the first usable host
/// of each; an unparseable CIDR fails the list.
pub open spec fn spec_parse_node_cidrs(cidrs: Seq<Seq<char>>, n: int) -> Option<Seq<IpAddress>>
    decreases n,
{
    if n <= 0 {
        Some(Seq::empty())
    } else {
        match spec_parse_node_cidrs(cidrs, n - 1) {
            None => None,
            Some(s) => match parsed_cidr(cidrs[n - 1]) {
                None => None,
                Some(c) => Some(s.push(c.spec_first_host())),
            },
        }
    }
}

/// The kubelet addresses a node derives: a node must carry at least one
/// pod CIDR, and each must parse.
pub open spec fn spec_node_ips(node: NodeResourceView) -> Result<Seq<IpAddress>, IndexError> {
    if node.pod_cidrs.len() == 0 {
        Err(IndexError::MissingNodeCidr)
    } else {
        match spec_parse_node_cidrs(node.pod_cidrs, node.pod_cidrs.len() as int) {
            None => Err(IndexError::InvalidCidr),
            Some(ips) => Ok(ips),
        }
    }
}

/// Once a CIDR fails to parse, the whole list fails.
proof fn lemma_parse_node_cidrs_stuck(cidrs: Seq<Seq<char>>, i: int, n: int)
    requires
        0 <= i < n,
        parsed_cidr(cidrs[i]) is None || spec_parse_node_cidrs(cidrs, i) is None,
    ensures
        spec_parse_node_cidrs(cidrs, n) is None,
    decreases n,
{
    if i < n - 1 {
        lemma_parse_node_cidrs_stuck(cidrs, i, n - 1);
    }
}

/// Derives a node's kubelet addresses from its pod CIDRs.
fn node_ips(cidrs: &Vec<String>) -> (r: Result<Vec<IpAddress>, IndexError>)
    ensures
        match r {
            Ok(v) => cidrs@.len() > 0 && spec_parse_node_cidrs(
                cidrs.deep_view(),
                cidrs.deep_view().len() as int,
            ) == Some(v@),
            Err(e) => (e == IndexError::MissingNodeCidr && cidrs@.len() == 0) || (e
                == IndexError::InvalidCidr && cidrs@.len() > 0 && spec_parse_node_cidrs(
                cidrs.deep_view(),
                cidrs.deep_view().len() as int,
            ) is None),
        },
{
    if cidrs.len() == 0 {
        return Err(IndexError::MissingNodeCidr);
    }
    let mut out: Vec<IpAddress> = Vec::new();
    let mut i: usize = 0;
    while i < cidrs.len()
        invariant
            i <= cidrs@.len(),
            spec_parse_node_cidrs(cidrs.deep_view(), i as int) == Some(out@),
        decreases cidrs@.len() - i,
    {
        match parse_cidr(cidrs[i].as_str()) {
            Some(c) => {
                out.push(c.first_host());
            },
            None => {
                proof {
                    lemma_parse_node_cidrs_stuck(
                        cidrs.deep_view(),
                        i as int,
                        cidrs.deep_view().len() as int,
                    );
                }
                return Err(IndexError::InvalidCidr);
            },
        }
        i += 1;
    }
    Ok(out)
}

/// The index after the first `n` pods of the old pending set are examined
/// against a newly applied node: those held for it are admitted, the rest
/// stay pending in order.
pub open spec fn spec_materialize(
    idx: IndexView,
    pending0: Seq<PodResourceView>,
    n: int,
    node: Seq<char>,
    ips: Seq<IpAddress>,
) -> IndexView
    decreases n,
{
    if n <= 0 {
        IndexView { pending: Seq::empty(), ..idx }
    } else {
        let prev = spec_materialize(idx, pending0, n - 1, node, ips);
        let p = pending0[n - 1];
        if p.node == node {
            spec_admit_core(prev, p, ips)
        } else {
            IndexView { pending: prev.pending.push(p), ..prev }
        }
    }
}

/// The index after a node is applied: its kubelet addresses stored under
/// its name, and every pod pending on it admitted.  A node without a
/// usable pod CIDR changes nothing.
pub open spec fn spec_apply_node(idx: IndexView, node: NodeResourceView) -> IndexView {
    match spec_node_ips(node) {
        Err(_) => idx,
        Ok(ips) => {
            let idx2 = IndexView { nodes: alist_upsert(idx.nodes, node.name, ips), ..idx };
            spec_materialize(idx2, idx.pending, idx.pending.len() as int, node.name, ips)
        },
    }
}

/// Admission reads and changes everything but the pending set: two states
/// that agree outside it are admitted alike.
proof fn lemma_admit_core_pending(a: IndexView, b: IndexView, res: PodResourceView, ips: Seq<IpAddress>)
    requires
        (IndexView { pending: Seq::empty(), ..a }) == (IndexView { pending: Seq::empty(), ..b }),
    ensures
        spec_admit_core(a, res, ips).pending == a.pending,
        spec_admit_core(b, res, ips).pending == b.pending,
        (IndexView { pending: Seq::empty(), ..spec_admit_core(a, res, ips) }) == (IndexView {
            pending: Seq::empty(),
            ..spec_admit_core(b, res, ips)
        }),
{
    assert(a.namespaces == b.namespaces);
    assert(a.lookups == b.lookups);
    assert(a.default_allow == b.default_allow);
    assert(crate::index::spec_create_ns(a, res.ns).namespaces =~~= crate::index::spec_create_ns(
        b,
        res.ns,
    ).namespaces);
    assert(IndexView { pending: Seq::empty(), ..spec_admit_core(a, res, ips) } =~~= (IndexView {
        pending: Seq::empty(),
        ..spec_admit_core(b, res, ips)
    }));
}

/// The index after a node is deleted: its entry removed; pods keep their
/// addresses.
pub open spec fn spec_delete_node(idx: IndexView, name: Seq<char>) -> IndexView {
    if alist_has(idx.nodes, name) {
        IndexView { nodes: idx.nodes.remove(alist_first(idx.nodes, name)), ..idx }
    } else {
        idx
    }
}

impl Index {
    /// Applies a node: derives its kubelet addresses from its pod CIDRs and
    /// admits every pod that was pending on it.  A node without a usable
    /// pod CIDR is rejected.
    pub fn apply_node(&mut self, node: NodeResource) -> (r: Result<(), IndexError>)
        ensures
            final(self)@ == spec_apply_node(old(self)@, node@),
            match r {
                Ok(()) => spec_node_ips(node@) is Ok,
                Err(e) => spec_node_ips(node@) == Err::<Seq<IpAddress>, IndexError>(e),
            },
            old(self)@.wf() ==> final(self)@.wf(),
    {
        let NodeResource { name, pod_cidrs } = node;
        let ips = match node_ips(&pod_cidrs) {
            Ok(v) => v,
            Err(e) => {
                return Err(e);
            },
        };
        let kubelet = KubeletIps { addrs: ips };
        let ghost ipsv = kubelet@;
        match find_entry(&self.nodes.entries, name.as_str()) {
            Some(j) => {
                self.nodes.entries[j].1 = kubelet.clone();
                proof {
                    assert(self.nodes@ =~~= alist_upsert(old(self)@.nodes, node@.name, ipsv));
                }
            },
            None => {
                self.nodes.entries.push((name.clone(), kubelet.clone()));
                proof {
                    assert(self.nodes@ =~~= alist_upsert(old(self)@.nodes, node@.name, ipsv));
                }
            },
        }
        let ghost idx2 = self@;
        proof {
            assert(idx2 =~~= (IndexView {
                nodes: alist_upsert(old(self)@.nodes, node@.name, ipsv),
                ..old(self)@
            }));
            if old(self)@.wf() {
                lemma_alist_upsert_unique(old(self)@.nodes, node@.name, ipsv);
                assert(idx2.wf());
            }
        }
        let ghost pend0 = self.pending.deep_view();
        let mut kept: Vec<PodResource> = Vec::new();
        let ghost total = pend0.len();
        let ghost mut t: int = 0;
        proof {
            assert(spec_materialize(idx2, pend0, 0, node@.name, ipsv) =~~= (IndexView {
                pending: kept.deep_view(),
                namespaces: self@.namespaces,
                nodes: self@.nodes,
                lookups: self@.lookups,
                identity_domain: self@.identity_domain,
                cluster_nets: self@.cluster_nets,
                default_allow: self@.default_allow,
                detect_timeout_ms: self@.detect_timeout_ms,
            }));
        }
        while self.pending.len() > 0
            invariant
                0 <= t <= total,
                total == pend0.len(),
                name@ == node@.name,
                kubelet@ == ipsv,
                self.pending.deep_view() == pend0.skip(t),
                self.pending@.len() == total - t,
                spec_materialize(idx2, pend0, t, node@.name, ipsv) == (IndexView {
                    pending: kept.deep_view(),
                    namespaces: self@.namespaces,
                    nodes: self@.nodes,
                    lookups: self@.lookups,
                    identity_domain: self@.identity_domain,
                    cluster_nets: self@.cluster_nets,
                    default_allow: self@.default_allow,
                    detect_timeout_ms: self@.detect_timeout_ms,
                }),
                old(self)@.wf() ==> self@.wf(),
            decreases self.pending@.len(),
        {
            let ghost prevec = self.pending@;
            let ghost predeep = self.pending.deep_view();
            let p = self.pending.remove(0);
            proof {
                assert(pend0.skip(t)[0] == pend0[t]);
                assert(p@ == predeep[0]);
                assert(p@ == pend0[t]);
                assert forall|j: int| 0 <= j < self.pending@.len() implies #[trigger] self.pending.deep_view()[j]
                    == pend0.skip(t + 1)[j] by {
                    assert(self.pending@[j] == prevec[j + 1]);
                    assert(self.pending.deep_view()[j] == self.pending@[j].deep_view());
                    assert(predeep[j + 1] == prevec[j + 1].deep_view());
                    assert(predeep[j + 1] == pend0.skip(t)[j + 1]);
                    assert(pend0.skip(t)[j + 1] == pend0[t + 1 + j]);
                    assert(pend0.skip(t + 1)[j] == pend0[t + 1 + j]);
                }
                assert(self.pending.deep_view() =~~= pend0.skip(t + 1));
            }
            if str_eq(p.node.as_str(), name.as_str()) {
                let ghost pre = self@;
                let ghost keptv = kept.deep_view();
                let _ = self.admit_pod_core(p, kubelet.clone());
                proof {
                    lemma_admit_core_pending(
                        pre,
                        spec_materialize(idx2, pend0, t, node@.name, ipsv),
                        pend0[t],
                        ipsv,
                    );
                    assert(spec_materialize(idx2, pend0, t + 1, node@.name, ipsv) =~~= (IndexView {
                        pending: keptv,
                        namespaces: self@.namespaces,
                        nodes: self@.nodes,
                        lookups: self@.lookups,
                        identity_domain: self@.identity_domain,
                        cluster_nets: self@.cluster_nets,
                        default_allow: self@.default_allow,
                        detect_timeout_ms: self@.detect_timeout_ms,
                    }));
                }
            } else {
                kept.push(p);
                proof {
                    assert(spec_materialize(idx2, pend0, t + 1, node@.name, ipsv) =~~= (IndexView {
                        pending: kept.deep_view(),
                        namespaces: self@.namespaces,
                        nodes: self@.nodes,
                        lookups: self@.lookups,
                        identity_domain: self@.identity_domain,
                        cluster_nets: self@.cluster_nets,
                        default_allow: self@.default_allow,
                        detect_timeout_ms: self@.detect_timeout_ms,
                    }));
                }
            }
            proof {
                t = t + 1;
            }
        }
        self.pending = kept;
        proof {
            assert(pend0.skip(total as int).len() == 0);
            assert(t == total);
            assert(self@ =~~= spec_materialize(idx2, pend0, total as int, node@.name, ipsv));
            assert(self@ == spec_apply_node(old(self)@, node@));
        }
        Ok(())
    }

    /// Deletes a node: removes its kubelet addresses.  Deleting an unknown
    /// node is refused.
    pub fn delete_node(&mut self, name: &str) -> (r: Result<(), IndexError>)
        ensures
            final(self)@ == spec_delete_node(old(self)@, name@),
            r is Ok <==> alist_has(old(self)@.nodes, name@),
            old(self)@.wf() ==> final(self)@.wf(),
    {
        match find_entry(&self.nodes.entries, name) {
            Some(j) => {
                self.nodes.entries.remove(j);
                proof {
                    assert(self.nodes@ =~~= old(self)@.nodes.remove(
                        alist_first(old(self)@.nodes, name@),
                    ));
                    assert(self@ =~~= spec_delete_node(old(self)@, name@));
                    if old(self)@.wf() {
                        crate::index::lemma_alist_remove_unique(old(self)@.nodes, name@);
                    }
                }
                Ok(())
            },
            None => Err(IndexError::MissingNode),
        }
    }
}

} // verus!

verus! {

/// The names of a list of node resources.
pub open spec fn node_names(rs: Seq<NodeResourceView>) -> Seq<(Seq<char>, Seq<char>)> {
    Seq::new(rs.len(), |k: int| (rs[k].name, rs[k].name))
}

/// The index after the first `n` nodes of a restart batch are applied in
/// order.
pub open spec fn spec_apply_nodes(idx: IndexView, rs: Seq<NodeResourceView>, n: int) -> IndexView
    decreases n,
{
    if n <= 0 {
        idx
    } else {
        spec_apply_node(spec_apply_nodes(idx, rs, n - 1), rs[n - 1])
    }
}

/// The outcome of applying a restart batch: the last rejection, if any.
pub open spec fn spec_apply_nodes_result(rs: Seq<NodeResourceView>, n: int) -> Result<
    (),
    IndexError,
>
    decreases n,
{
    if n <= 0 {
        Ok(())
    } else {
        match spec_node_ips(rs[n - 1]) {
            Err(e) => Err(e),
            Ok(_) => spec_apply_nodes_result(rs, n - 1),
        }
    }
}

/// The node names held that the batch does not name, among the first `n`.
pub open spec fn stale_node_names(
    nodes: Seq<(Seq<char>, Seq<IpAddress>)>,
    n: int,
    keys: Seq<(Seq<char>, Seq<char>)>,
) -> Seq<Seq<char>>
    decreases n,
{
    if n <= 0 {
        Seq::empty()
    } else {
        let prev = stale_node_names(nodes, n - 1, keys);
        if !crate::labels::has_label(keys, nodes[n - 1].0, nodes[n - 1].0) {
            prev.push(nodes[n - 1].0)
        } else {
            prev
        }
    }
}

/// The index after the first `n` stale nodes are deleted in order.
pub open spec fn spec_delete_nodes(idx: IndexView, ks: Seq<Seq<char>>, n: int) -> IndexView
    decreases n,
{
    if n <= 0 {
        idx
    } else {
        spec_delete_node(spec_delete_nodes(idx, ks, n - 1), ks[n - 1])
    }
}

/// The index after a restart of the node stream: every node of the batch
/// applied in order, then every held node the batch does not name deleted.
pub open spec fn spec_reset_nodes(idx: IndexView, rs: Seq<NodeResourceView>) -> IndexView {
    let mid = spec_apply_nodes(idx, rs, rs.len() as int);
    let ks = stale_node_names(mid.nodes, mid.nodes.len() as int, node_names(rs));
    spec_delete_nodes(mid, ks, ks.len() as int)
}

impl Index {
    /// Collects the names of every held node that the batch does not name.
    fn stale_nodes(&self, keys: &Vec<(String, String)>) -> (r: Vec<String>)
        ensures
            r.deep_view() == stale_node_names(
                self@.nodes,
                self@.nodes.len() as int,
                keys.deep_view(),
            ),
    {
        let ghost kd = keys.deep_view();
        let mut out: Vec<String> = Vec::new();
        let mut i: usize = 0;
        proof {
            assert(out.deep_view() =~~= stale_node_names(self@.nodes, 0, kd));
        }
        while i < self.nodes.entries.len()
            invariant
                i <= self.nodes.entries@.len(),
                kd == keys.deep_view(),
                self@.nodes.len() == self.nodes.entries@.len(),
                out.deep_view() == stale_node_names(self@.nodes, i as int, kd),
            decreases self.nodes.entries@.len() - i,
        {
            let ghost pre = out.deep_view();
            proof {
                assert(self@.nodes[i as int] == (
                    self.nodes.entries@[i as int].0@,
                    self.nodes.entries@[i as int].1@,
                ));
            }
            if !crate::labels::labels_contain(
                keys,
                self.nodes.entries[i].0.as_str(),
                self.nodes.entries[i].0.as_str(),
            ) {
                out.push(self.nodes.entries[i].0.clone());
                proof {
                    assert(out.deep_view() =~~= pre.push(self@.nodes[i as int].0));
                }
            }
            i += 1;
        }
        out
    }

    /// Handles a restart of the node stream: the batch is the source of
    /// truth.  Every node in it is applied, admitting the pods pending on
    /// it; every held node it does not name is deleted.  The last
    /// rejection, if any, is reported.
    pub fn reset_nodes(&mut self, nodes: Vec<NodeResource>) -> (r: Result<(), IndexError>)
        ensures
            final(self)@ == spec_reset_nodes(old(self)@, nodes.deep_view()),
            r == spec_apply_nodes_result(nodes.deep_view(), nodes.deep_view().len() as int),
            old(self)@.wf() ==> final(self)@.wf(),
    {
        let ghost rs = nodes.deep_view();
        let mut keys: Vec<(String, String)> = Vec::new();
        let mut k: usize = 0;
        while k < nodes.len()
            invariant
                k <= nodes@.len(),
                rs == nodes.deep_view(),
                keys@.len() == k,
                forall|x: int|
                    0 <= x < k ==> ((#[trigger] keys@[x]).0@ == rs[x].name && keys@[x].1@
                        == rs[x].name),
            decreases nodes@.len() - k,
        {
            keys.push((nodes[k].name.clone(), nodes[k].name.clone()));
            k += 1;
        }
        proof {
            assert(keys.deep_view() =~~= node_names(rs));
        }
        let mut result: Result<(), IndexError> = Ok(());
        let mut batch = nodes;
        let ghost total = rs.len();
        let ghost mut t: int = 0;
        while batch.len() > 0
            invariant
                0 <= t <= total,
                total == rs.len(),
                batch.deep_view() == rs.skip(t),
                batch@.len() == total - t,
                self@ == spec_apply_nodes(old(self)@, rs, t),
                result == spec_apply_nodes_result(rs, t),
                old(self)@.wf() ==> self@.wf(),
            decreases batch@.len(),
        {
            let ghost prevec = batch@;
            let ghost predeep = batch.deep_view();
            let a = batch.remove(0);
            proof {
                assert(rs.skip(t)[0] == rs[t]);
                assert(a@ == predeep[0]);
                assert(a@ == rs[t]);
                assert forall|x: int| 0 <= x < batch@.len() implies #[trigger] batch.deep_view()[x]
                    == rs.skip(t + 1)[x] by {
                    assert(batch@[x] == prevec[x + 1]);
                    assert(batch.deep_view()[x] == batch@[x].deep_view());
                    assert(predeep[x + 1] == prevec[x + 1].deep_view());
                    assert(predeep[x + 1] == rs.skip(t)[x + 1]);
                    assert(rs.skip(t)[x + 1] == rs[t + 1 + x]);
                    assert(rs.skip(t + 1)[x] == rs[t + 1 + x]);
                }
                assert(batch.deep_view() =~~= rs.skip(t + 1));
            }
            match self.apply_node(a) {
                Ok(()) => {},
                Err(e) => {
                    result = Err(e);
                },
            }
            proof {
                t = t + 1;
            }
        }
        proof {
            assert(rs.skip(total as int).len() == 0);
            assert(t == total);
        }
        let stale = self.stale_nodes(&keys);
        let ghost mid = self@;
        let ghost ks = stale.deep_view();
        let mut d: usize = 0;
        while d < stale.len()
            invariant
                d <= stale@.len(),
                ks == stale.deep_view(),
                self@ == spec_delete_nodes(mid, ks, d as int),
                old(self)@.wf() ==> mid.wf(),
                mid.wf() ==> self@.wf(),
            decreases stale@.len() - d,
        {
            proof {
                assert(ks[d as int] == stale@[d as int]@);
            }
            let _ = self.delete_node(stale[d].as_str());
            d += 1;
        }
        proof {
            assert(self@ == spec_reset_nodes(old(self)@, rs));
        }
        result
    }
}

} // verus!
