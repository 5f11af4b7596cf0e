//! Namespace handling (annotations only), and the dispatch of watch
//! events: the decision core of the indexing task's loop.

use vstd::prelude::*;
use crate::defaults::{annotation_key, DefaultAllow};
use crate::index::pod::spec_pod_default;
use crate::index::{
    alist_first, alist_has, find_entry, group_deep, Index, IndexError, IndexView, NamespaceView,
};
use crate::resource::{
    AuthzResource, Event, NodeResource, NsResource, NsResourceView, PodResource, ServerResource,
};

verus! {

broadcast use group_deep;

/// The default mode a namespace's annotations select: the annotation when
/// it parses, else the global default.
pub open spec fn spec_ns_mode(
    annotations: Seq<(Seq<char>, Seq<char>)>,
    global: DefaultAllow,
) -> DefaultAllow {
    spec_pod_default(annotations, global)
}

/// The index after a namespace is applied: the namespace exists and its
/// default mode follows its annotations.  Pods already indexed keep the
/// default they resolved on admission.
pub open spec fn spec_apply_ns(idx: IndexView, res: NsResourceView) -> IndexView {
    let idx1 = crate::index::spec_create_ns(idx, res.name);
    let i = alist_first(idx1.namespaces, res.name);
    let nsv = idx1.namespaces[i].1;
    let ns2 = NamespaceView { default_mode: spec_ns_mode(res.annotations, idx.default_allow), ..nsv };
    IndexView { namespaces: idx1.namespaces.update(i, (res.name, ns2)), ..idx1 }
}

/// The index after a namespace is deleted: its default mode falls back to
/// the global default; its contents are retained while resources live in
/// it.
pub open spec fn spec_delete_ns(idx: IndexView, name: Seq<char>) -> IndexView {
    if !alist_has(idx.namespaces, name) {
        idx
    } else {
        let i = alist_first(idx.namespaces, name);
        let nsv = idx.namespaces[i].1;
        let ns2 = NamespaceView { default_mode: idx.default_allow, ..nsv };
        IndexView { namespaces: idx.namespaces.update(i, (idx.namespaces[i].0, ns2)), ..idx }
    }
}

/// The index after the first `n` namespaces of a restart batch are
/// applied.
pub open spec fn spec_apply_nss(idx: IndexView, rs: Seq<NsResourceView>, n: int) -> IndexView
    decreases n,
{
    if n <= 0 {
        idx
    } else {
        spec_apply_ns(spec_apply_nss(idx, rs, n - 1), rs[n - 1])
    }
}

impl Index {
    /// Applies a namespace: records the default mode its annotations
    /// select, used by pods admitted later without their own annotation.
    pub fn apply_ns(&mut self, ns: NsResource)
        ensures
            final(self)@ == spec_apply_ns(old(self)@, ns@),
            old(self)@.wf() ==> final(self)@.wf(),
    {
        let NsResource { name, annotations } = ns;
        let i = self.get_or_create_ns(name.as_str());
        let ghost idx1 = self@;
        let global = self.default_allow;
        let mode = match find_entry(&annotations, annotation_key()) {
            Some(j) => match DefaultAllow::parse(annotations[j].1.as_str()) {
                Some(d) => d,
                None => global,
            },
            None => global,
        };
        self.namespaces[i].1.default_mode = mode;
        proof {
            assert(mode == spec_ns_mode(ns@.annotations, old(self)@.default_allow));
            assert(self@ =~~= spec_apply_ns(old(self)@, ns@));
            if old(self)@.wf() {
                assert forall|x: int| 0 <= x < self@.namespaces.len() implies (
                #[trigger] self@.namespaces[x]).1.wf() by {
                    assert(idx1.namespaces[x].1.wf());
                }
                assert forall|x: int, y: int|
                    0 <= x < y < self@.namespaces.len() implies (#[trigger] self@.namespaces[x]).0
                    != (#[trigger] self@.namespaces[y]).0 by {
                    assert(idx1.namespaces[x].0 != idx1.namespaces[y].0);
                }
            }
        }
    }

    /// Deletes a namespace: its default mode falls back to the global
    /// default; contents are retained while resources live in it.
    pub fn delete_ns(&mut self, name: &str)
        ensures
            final(self)@ == spec_delete_ns(old(self)@, name@),
            old(self)@.wf() ==> final(self)@.wf(),
    {
        match find_entry(&self.namespaces, name) {
            Some(i) => {
                let global = self.default_allow;
                self.namespaces[i].1.default_mode = global;
                proof {
                    assert(self@ =~~= spec_delete_ns(old(self)@, name@));
                    if old(self)@.wf() {
                        assert forall|x: int| 0 <= x < self@.namespaces.len() implies (
                        #[trigger] self@.namespaces[x]).1.wf() by {
                            assert(old(self)@.namespaces[x].1.wf());
                        }
                        assert forall|x: int, y: int|
                            0 <= x < y < self@.namespaces.len() implies (
                        #[trigger] self@.namespaces[x]).0 != (#[trigger] self@.namespaces[y]).0 by {
                            assert(old(self)@.namespaces[x].0 != old(self)@.namespaces[y].0);
                        }
                    }
                }
            },
            None => {},
        }
    }

    /// Handles a restart of the namespace stream: every namespace of the
    /// batch is applied in order.  A held namespace the batch does not
    /// name keeps its mode until it is deleted.
    pub fn reset_namespaces(&mut self, nss: Vec<NsResource>) -> (r: Result<(), IndexError>)
        ensures
            final(self)@ == spec_apply_nss(old(self)@, nss.deep_view(), nss.deep_view().len() as int),
            r is Ok,
            old(self)@.wf() ==> final(self)@.wf(),
    {
        let ghost rs = nss.deep_view();
        let mut batch = nss;
        let ghost total = rs.len();
        let ghost mut t: int = 0;
        while batch.len() > 0
            invariant
                0 <= t <= total,
                total == rs.len(),
                batch.deep_view() == rs.skip(t),
                batch@.len() == total - t,
                self@ == spec_apply_nss(old(self)@, rs, t),
                old(self)@.wf() ==> self@.wf(),
            decreases batch@.len(),
        {
            let ghost prevec = batch@;
            let ghost predeep = batch.deep_view();
            let a = batch.remove(0);
            proof {
                assert(rs.skip(t)[0] == rs[t]);
                assert(a@ == predeep[0]);
                assert(a@ == rs[t]);
                assert forall|x: int| 0 <= x < batch@.len() implies #[trigger] batch.deep_view()[x]
                    == rs.skip(t + 1)[x] by {
                    assert(batch@[x] == prevec[x + 1]);
                    assert(batch.deep_view()[x] == batch@[x].deep_view());
                    assert(predeep[x + 1] == prevec[x + 1].deep_view());
                    assert(predeep[x + 1] == rs.skip(t)[x + 1]);
                    assert(rs.skip(t)[x + 1] == rs[t + 1 + x]);
                    assert(rs.skip(t + 1)[x] == rs[t + 1 + x]);
                }
                assert(batch.deep_view() =~~= rs.skip(t + 1));
            }
            self.apply_ns(a);
            proof {
                t = t + 1;
            }
        }
        proof {
            assert(rs.skip(total as int).len() == 0);
            assert(t == total);
        }
        Ok(())
    }

    /// Dispatches one watch event to the operation that handles it: the
    /// decision step of the indexing loop.  An error is reported to the
    /// caller (to be logged); it never stops the loop.
    pub fn handle_node_event(&mut self, ev: Event<NodeResource>) -> (r: Result<(), IndexError>)
        ensures
            final(self)@ == (match ev {
                Event::Applied(n) => crate::index::node::spec_apply_node(old(self)@, n@),
                Event::Deleted(n) => crate::index::node::spec_delete_node(old(self)@, n@.name),
                Event::Restarted(ns) => crate::index::node::spec_reset_nodes(
                    old(self)@,
                    ns.deep_view(),
                ),
            }),
            old(self)@.wf() ==> final(self)@.wf(),
    {
        match ev {
            Event::Applied(n) => self.apply_node(n),
            Event::Deleted(n) => self.delete_node(n.name.as_str()),
            Event::Restarted(ns) => self.reset_nodes(ns),
        }
    }

    /// Dispatches one namespace event.
    pub fn handle_ns_event(&mut self, ev: Event<NsResource>) -> (r: Result<(), IndexError>)
        ensures
            final(self)@ == (match ev {
                Event::Applied(n) => spec_apply_ns(old(self)@, n@),
                Event::Deleted(n) => spec_delete_ns(old(self)@, n@.name),
                Event::Restarted(ns) => spec_apply_nss(
                    old(self)@,
                    ns.deep_view(),
                    ns.deep_view().len() as int,
                ),
            }),
            old(self)@.wf() ==> final(self)@.wf(),
    {
        match ev {
            Event::Applied(n) => {
                self.apply_ns(n);
                Ok(())
            },
            Event::Deleted(n) => {
                self.delete_ns(n.name.as_str());
                Ok(())
            },
            Event::Restarted(ns) => self.reset_namespaces(ns),
        }
    }

    /// Dispatches one pod event.
    pub fn handle_pod_event(&mut self, ev: Event<PodResource>) -> (r: Result<(), IndexError>)
        ensures
            final(self)@ == (match ev {
                Event::Applied(p) => crate::index::pod::spec_apply_pod(old(self)@, p@),
                Event::Deleted(p) => crate::index::pod::spec_delete_pod(
                    old(self)@,
                    p@.ns,
                    p@.name,
                ),
                Event::Restarted(ps) => crate::index::pod::spec_reset_pods(
                    old(self)@,
                    ps.deep_view(),
                ),
            }),
            old(self)@.wf() ==> final(self)@.wf(),
    {
        match ev {
            Event::Applied(p) => self.apply_pod(p),
            Event::Deleted(p) => self.delete_pod(p),
            Event::Restarted(ps) => self.reset_pods(ps),
        }
    }

    /// Dispatches one server event.
    pub fn handle_server_event(&mut self, ev: Event<ServerResource>) -> (r: Result<
        (),
        IndexError,
    >)
        ensures
            final(self)@ == (match ev {
                Event::Applied(s) => crate::index::server::spec_apply_server(old(self)@, s@),
                Event::Deleted(s) => crate::index::server::spec_rm_server(
                    old(self)@,
                    s@.ns,
                    s@.name,
                ),
                Event::Restarted(ss) => crate::index::server::spec_reset_servers(
                    old(self)@,
                    ss.deep_view(),
                ),
            }),
            old(self)@.wf() ==> final(self)@.wf(),
    {
        match ev {
            Event::Applied(s) => {
                self.apply_server(s);
                Ok(())
            },
            Event::Deleted(s) => self.delete_server(s),
            Event::Restarted(ss) => self.reset_servers(ss),
        }
    }

    /// Dispatches one authorization event.
    pub fn handle_authz_event(&mut self, ev: Event<AuthzResource>) -> (r: Result<
        (),
        IndexError,
    >)
        ensures
            final(self)@ == (match ev {
                Event::Applied(a) => crate::index::authz::spec_apply_authz(old(self)@, a@),
                Event::Deleted(a) => crate::index::authz::spec_delete_authz(
                    old(self)@,
                    a@.ns,
                    a@.name,
                ),
                Event::Restarted(az) => crate::index::authz::spec_reset_authzs(
                    old(self)@,
                    az.deep_view(),
                ),
            }),
            old(self)@.wf() ==> final(self)@.wf(),
    {
        match ev {
            Event::Applied(a) => self.apply_authz(a),
            Event::Deleted(a) => {
                self.delete_authz(a);
                Ok(())
            },
            Event::Restarted(az) => self.reset_authzs(az),
        }
    }
}

} // verus!
