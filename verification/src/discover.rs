//! The discovery façade: workload parsing and validation, one-shot and
//! streaming lookups, stream deduplication, and the indexer's readiness
//! flag.

use vstd::prelude::*;
use crate::inbound::{inbound_server_eq, InboundServer};
use crate::index::Index;
use crate::lookup::{spec_lookup, Rx, RxView};
use crate::text::split_colon;
use crate::wire::{kubelet_authz, spec_kubelet_authz, spec_to_server, to_server, WireServer, WireServerView};

verus! {

broadcast use crate::index::group_deep;

/// Why a discovery request was refused.
#[derive(Clone, Copy, Debug, PartialEq, Eq, Structural)]
pub enum DiscoverError {
    /// The workload is not `"namespace:pod"` with both parts non-empty.
    InvalidWorkload,
    /// The port is outside `1..=65535`.
    InvalidPort,
    /// The (namespace, pod, port) is not indexed.
    NotFound,
}

/// A well-formed workload string: a first colon with a non-empty name on
/// each side.
pub open spec fn valid_workload(s: Seq<char>) -> bool {
    exists|i: int|
        0 < i && i + 1 < s.len() && #[trigger] s[i] == ':' && (forall|j: int|
            0 <= j < i ==> s[j] != ':')
}

/// The position of the first colon; the length when there is none.
pub open spec fn first_colon(s: Seq<char>) -> int
    decreases s.len(),
{
    if s.len() == 0 {
        0
    } else if s[0] == ':' {
        0
    } else {
        1 + first_colon(s.drop_first())
    }
}

/// The namespace part of a workload: what stands before the first colon.
pub open spec fn workload_ns(s: Seq<char>) -> Seq<char> {
    s.take(first_colon(s))
}

/// The pod part of a workload: what stands after the first colon.
pub open spec fn workload_pod(s: Seq<char>) -> Seq<char> {
    s.skip(first_colon(s) + 1)
}

/// The first colon of a decomposition `a + ":" + b` with a colon-free `a`
/// stands right after `a`.
proof fn lemma_first_colon(s: Seq<char>, a: Seq<char>, b: Seq<char>)
    requires
        s == a + seq![':'] + b,
        !a.contains(':'),
    ensures
        first_colon(s) == a.len(),
        workload_ns(s) == a,
        workload_pod(s) == b,
    decreases a.len(),
{
    assert(s.len() == a.len() + 1 + b.len());
    if a.len() == 0 {
        assert(s[0] == ':');
        assert(workload_ns(s) =~= a);
        assert(workload_pod(s) =~= b);
    } else {
        assert(s[0] == a[0]);
        assert(a[0] != ':') by {
            if a[0] == ':' {
                assert(a.contains(':'));
            }
        }
        assert(s.drop_first() =~= a.drop_first() + seq![':'] + b);
        assert(!a.drop_first().contains(':')) by {
            if a.drop_first().contains(':') {
                let w = choose|w: int|
                    0 <= w < a.drop_first().len() && a.drop_first()[w] == ':';
                assert(a[w + 1] == ':');
                assert(a.contains(':'));
            }
        }
        lemma_first_colon(s.drop_first(), a.drop_first(), b);
        assert(workload_ns(s) =~= a) by {
            assert(first_colon(s) == a.len());
        }
        assert(workload_pod(s) =~= b);
    }
}

/// Parses a workload string as `"namespace:pod"`; both parts must be
/// non-empty.
pub fn parse_workload(w: &str) -> (r: Result<(String, String), DiscoverError>)
    ensures
        r is Ok <==> valid_workload(w@),
        match r {
            Ok((ns, pod)) => ns@ == workload_ns(w@) && pod@ == workload_pod(w@) && ns@.len() > 0
                && pod@.len() > 0,
            Err(e) => e == DiscoverError::InvalidWorkload,
        },
{
    match split_colon(w) {
        None => {
            proof {
                if valid_workload(w@) {
                    let i = choose|i: int|
                        0 < i && i + 1 < w@.len() && #[trigger] w@[i] == ':' && (forall|j: int|
                            0 <= j < i ==> w@[j] != ':');
                    assert(w@.contains(':'));
                }
            }
            Err(DiscoverError::InvalidWorkload)
        },
        Some((a, b)) => {
            if a.unicode_len() == 0 || b.unicode_len() == 0 {
                proof {
                    if valid_workload(w@) {
                        let i = choose|i: int|
                            0 < i && i + 1 < w@.len() && #[trigger] w@[i] == ':' && (forall|j: int|
                                0 <= j < i ==> w@[j] != ':');
                        if a@.len() == 0 {
                            assert(w@[0] == ':');
                            assert(w@[0] != ':');
                        } else {
                            assert(i == a@.len()) by {
                                if i < a@.len() {
                                    assert(w@[i] == a@[i]);
                                    assert(a@.contains(':'));
                                } else if i > a@.len() {
                                    assert(w@[a@.len() as int] == ':');
                                }
                            }
                            assert(b@.len() == 0);
                            assert(i + 1 == w@.len());
                        }
                    }
                }
                Err(DiscoverError::InvalidWorkload)
            } else {
                proof {
                    assert(valid_workload(w@)) by {
                        assert(w@[a@.len() as int] == ':');
                        assert(forall|j: int| 0 <= j < a@.len() ==> w@[j] == a@[j]);
                        assert(forall|j: int| 0 <= j < a@.len() ==> w@[j] != ':') by {
                            assert forall|j: int| 0 <= j < a@.len() implies w@[j] != ':' by {
                                if a@[j] == ':' {
                                    assert(a@.contains(':'));
                                }
                            }
                        }
                    }
                    lemma_first_colon(w@, a@, b@);
                }
                Ok((a.to_owned(), b.to_owned()))
            }
        },
    }
}

/// What a discovery request observes: a validation fault, a miss, or the
/// current handle for the (pod, port).
pub open spec fn spec_discover(idx: crate::index::IndexView, workload: Seq<char>, port: u32) -> Result<
    RxView,
    DiscoverError,
> {
    if !valid_workload(workload) {
        Err(DiscoverError::InvalidWorkload)
    } else if port == 0 || port > 65535 {
        Err(DiscoverError::InvalidPort)
    } else {
        match spec_lookup(idx, workload_ns(workload), workload_pod(workload), port as u16) {
            None => Err(DiscoverError::NotFound),
            Some(rx) => Ok(rx),
        }
    }
}

/// Validates a workload and port and looks the (pod, port) up.
pub fn discover(idx: &Index, workload: &str, port: u32) -> (r: Result<Rx, DiscoverError>)
    ensures
        match r {
            Ok(rx) => spec_discover(idx@, workload@, port) == Ok::<RxView, DiscoverError>(rx@),
            Err(e) => spec_discover(idx@, workload@, port) == Err::<RxView, DiscoverError>(e),
        },
{
    let (ns, pod) = match parse_workload(workload) {
        Ok(p) => p,
        Err(e) => {
            return Err(e);
        },
    };
    if port == 0 || port > 65535 {
        return Err(DiscoverError::InvalidPort);
    }
    match idx.lookup(ns.as_str(), pod.as_str(), port as u16) {
        None => Err(DiscoverError::NotFound),
        Some(rx) => Ok(rx),
    }
}

/// The wire message a one-shot discovery answers with: the current
/// configuration behind the port, the kubelet authorization injected
/// first.
pub open spec fn spec_get_port(
    idx: crate::index::IndexView,
    workload: Seq<char>,
    port: u32,
) -> Result<WireServerView, DiscoverError> {
    match spec_discover(idx, workload, port) {
        Err(e) => Err(e),
        Ok(rx) => Ok(spec_to_server(spec_kubelet_authz(rx.kubelet_ips), rx.server)),
    }
}

/// Answers a one-shot discovery request.
pub fn get_port(idx: &Index, workload: &str, port: u32) -> (r: Result<WireServer, DiscoverError>)
    ensures
        match r {
            Ok(w) => spec_get_port(idx@, workload@, port) == Ok::<WireServerView, DiscoverError>(
                w@,
            ),
            Err(e) => spec_get_port(idx@, workload@, port) == Err::<WireServerView, DiscoverError>(
                e,
            ),
        },
{
    match discover(idx, workload, port) {
        Err(e) => Err(e),
        Ok(rx) => {
            let kubelet = kubelet_authz(&rx.kubelet_ips);
            Ok(to_server(&kubelet, &rx.server))
        },
    }
}

/// One discovery stream's deduplication state: the snapshot last sent.
#[derive(Debug)]
pub struct WatchState {
    pub last: Option<InboundServer>,
}

impl WatchState {
    /// A fresh stream: nothing sent yet, so the first snapshot is always
    /// emitted.
    pub fn new() -> (r: WatchState)
        ensures
            r.last is None,
    {
        WatchState { last: None }
    }

    /// Feeds the stream the current snapshot: it is emitted exactly when
    /// it differs from the last one sent, and becomes the last one sent.
    pub fn observe(&mut self, next: InboundServer) -> (emit: Option<InboundServer>)
        ensures
            final(self).last is Some,
            final(self).last->0@ == next@,
            match emit {
                Some(s) => s@ == next@ && (old(self).last is None || old(self).last->0@ != next@),
                None => old(self).last is Some && old(self).last->0@ == next@,
            },
    {
        let same = match &self.last {
            Some(prior) => inbound_server_eq(prior, &next),
            None => false,
        };
        if same {
            self.last = Some(next);
            None
        } else {
            let copy = next.clone();
            self.last = Some(next);
            Some(copy)
        }
    }
}

/// Which resource stream an event arrived on.
#[derive(Clone, Copy, Debug, PartialEq, Eq, Structural)]
pub enum ResourceKind {
    Nodes,
    Namespaces,
    Pods,
    Servers,
    Authorizations,
}

/// The readiness flag: true once every stream has delivered its first
/// restart; a change is published once.
#[derive(Debug)]
pub struct Readiness {
    pub nodes: bool,
    pub namespaces: bool,
    pub pods: bool,
    pub servers: bool,
    pub authorizations: bool,
    pub published: bool,
}

impl Readiness {
    /// Whether every stream has delivered its first restart.
    pub open spec fn spec_all(self) -> bool {
        self.nodes && self.namespaces && self.pods && self.servers && self.authorizations
    }

    /// Before any restart: not ready, nothing published.
    pub fn new() -> (r: Readiness)
        ensures
            !r.nodes && !r.namespaces && !r.pods && !r.servers && !r.authorizations,
            !r.published,
    {
        Readiness {
            nodes: false,
            namespaces: false,
            pods: false,
            servers: false,
            authorizations: false,
            published: false,
        }
    }

    /// Records that a stream delivered a restart.
    pub fn observe_restart(&mut self, kind: ResourceKind)
        ensures
            final(self).nodes == (old(self).nodes || kind == ResourceKind::Nodes),
            final(self).namespaces == (old(self).namespaces || kind == ResourceKind::Namespaces),
            final(self).pods == (old(self).pods || kind == ResourceKind::Pods),
            final(self).servers == (old(self).servers || kind == ResourceKind::Servers),
            final(self).authorizations == (old(self).authorizations || kind
                == ResourceKind::Authorizations),
            final(self).published == old(self).published,
    {
        match kind {
            ResourceKind::Nodes => {
                self.nodes = true;
            },
            ResourceKind::Namespaces => {
                self.namespaces = true;
            },
            ResourceKind::Pods => {
                self.pods = true;
            },
            ResourceKind::Servers => {
                self.servers = true;
            },
            ResourceKind::Authorizations => {
                self.authorizations = true;
            },
        }
    }

    /// The value to publish on the readiness channel: the new flag when it
    /// changed, nothing otherwise.
    pub fn poll(&mut self) -> (r: Option<bool>)
        ensures
            final(self).nodes == old(self).nodes,
            final(self).namespaces == old(self).namespaces,
            final(self).pods == old(self).pods,
            final(self).servers == old(self).servers,
            final(self).authorizations == old(self).authorizations,
            final(self).published == old(self).spec_all(),
            r == (if old(self).spec_all() != old(self).published {
                Some(old(self).spec_all())
            } else {
                None::<bool>
            }),
    {
        let now = self.nodes && self.namespaces && self.pods && self.servers
            && self.authorizations;
        if now != self.published {
            self.published = now;
            Some(now)
        } else {
            None
        }
    }
}

} // verus!
