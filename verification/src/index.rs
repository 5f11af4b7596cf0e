//! The indexing engine: per-namespace pod, server and authorization state,
//! the node table, the pending-pod set, and the lookup table that discovery
//! reads.
//!
//! Derived state — which authorizations match each server, which server owns
//! each pod port, and the snapshot each server publishes — is recomputed by
//! scan after every base change (namespaces are small).  A server's
//! `version` counts the snapshots published on its channel: it is bumped
//! exactly when a recomputation changes the snapshot, which models a
//! deduplicated send on a last-value channel.  A pod port's `outer_version`
//! is bumped exactly when the port is re-pointed at another source.

use vstd::prelude::*;

pub mod authz;
pub mod node;
pub mod ns;
pub mod pod;
pub mod refresh;
pub mod server;
use crate::defaults::DefaultAllow;
use crate::inbound::{ClientAuthorization, ClientAuthorizationView, InboundServer, InboundServerView, KubeletIps, Protocol};
use crate::net::Cidr;
use crate::resource::{PodResource, PodResourceView, Port, PortView};
use crate::text::str_eq;

verus! {

/// Why a resource was rejected or an operation refused.
#[derive(Clone, Copy, Debug, PartialEq, Eq, Structural)]
pub enum IndexError {
    /// An authorization gives both a server name and a selector.
    AmbiguousServerSelection,
    /// An authorization gives neither a server name nor a selector.
    NoServerSelection,
    /// An authorization is neither unauthenticated nor carries a mesh-TLS
    /// clause.
    MissingMeshTls,
    /// An authorization's mesh-TLS clause authorizes no clients.
    NoClientsAuthorized,
    /// A CIDR string does not parse.
    InvalidCidr,
    /// A namespace was named that the index does not hold.
    MissingNamespace,
    /// A server was named that its namespace does not hold.
    MissingServer,
    /// A pod was named that its namespace does not hold.
    MissingPod,
    /// A pod was installed twice in the lookup table.
    PodAlreadyExists,
    /// A node carries no pod CIDR.
    MissingNodeCidr,
    /// A node was named that the index does not hold.
    MissingNode,
}

/// The deep view of a vector is as long as the vector.
pub broadcast proof fn lemma_vec_deep_len<T: DeepView>(v: Vec<T>)
    ensures
        #[trigger] v.deep_view().len() == v@.len(),
{
}

/// The deep view of a vector views each element.
pub broadcast proof fn lemma_vec_deep_index<T: DeepView>(v: Vec<T>, i: int)
    requires
        0 <= i < v@.len(),
    ensures
        #[trigger] v.deep_view()[i] == v@[i].deep_view(),
{
}

/// Facts connecting vectors to their deep views.
pub broadcast group group_deep {
    lemma_vec_deep_len,
    lemma_vec_deep_index,
}

/// Whether the key occurs in the association list.
pub open spec fn alist_has<T>(s: Seq<(Seq<char>, T)>, k: Seq<char>) -> bool {
    exists|i: int| 0 <= i < s.len() && (#[trigger] s[i]).0 == k
}

/// Keys are pairwise distinct.
pub open spec fn alist_unique<T>(s: Seq<(Seq<char>, T)>) -> bool {
    forall|i: int, j: int| 0 <= i < j < s.len() ==> (#[trigger] s[i]).0 != (#[trigger] s[j]).0
}

/// The position of the first entry with the key; the length when the key
/// does not occur.
pub open spec fn alist_first<T>(s: Seq<(Seq<char>, T)>, k: Seq<char>) -> int
    decreases s.len(),
{
    if s.len() == 0 {
        0
    } else if s[0].0 == k {
        0
    } else {
        1 + alist_first(s.drop_first(), k)
    }
}

/// What the first position satisfies: in range exactly when the key occurs,
/// carrying the key there, with no earlier occurrence.
pub proof fn lemma_alist_first<T>(s: Seq<(Seq<char>, T)>, k: Seq<char>)
    ensures
        0 <= alist_first(s, k) <= s.len(),
        alist_has(s, k) <==> alist_first(s, k) < s.len(),
        alist_first(s, k) < s.len() ==> s[alist_first(s, k)].0 == k,
        forall|j: int| 0 <= j < alist_first(s, k) ==> (#[trigger] s[j]).0 != k,
    decreases s.len(),
{
    if s.len() == 0 {
        assert(!alist_has(s, k));
    } else if s[0].0 == k {
        assert(alist_has(s, k));
    } else {
        lemma_alist_first(s.drop_first(), k);
        let f = alist_first(s.drop_first(), k);
        if alist_has(s.drop_first(), k) {
            let i = choose|i: int|
                0 <= i < s.drop_first().len() && (#[trigger] s.drop_first()[i]).0 == k;
            assert(s[i + 1].0 == k);
            assert(alist_has(s, k));
        }
        if alist_has(s, k) {
            let i = choose|i: int| 0 <= i < s.len() && (#[trigger] s[i]).0 == k;
            assert(i > 0);
            assert(s.drop_first()[i - 1].0 == k);
            assert(alist_has(s.drop_first(), k));
        }
        assert forall|j: int| 0 <= j < alist_first(s, k) implies (#[trigger] s[j]).0 != k by {
            if j > 0 {
                assert(s.drop_first()[j - 1].0 != k);
            }
        }
    }
}

/// The list with the value stored under the key: replaced in place when the
/// key occurs, appended otherwise.
pub open spec fn alist_upsert<T>(s: Seq<(Seq<char>, T)>, k: Seq<char>, v: T) -> Seq<
    (Seq<char>, T),
> {
    if alist_has(s, k) {
        s.update(alist_first(s, k), (k, v))
    } else {
        s.push((k, v))
    }
}

/// The list without any entry under the key.
pub open spec fn alist_remove<T>(s: Seq<(Seq<char>, T)>, k: Seq<char>) -> Seq<(Seq<char>, T)> {
    if alist_has(s, k) {
        s.remove(alist_first(s, k))
    } else {
        s
    }
}

/// The value stored under the key, at its first position.
pub open spec fn alist_val<T>(s: Seq<(Seq<char>, T)>, k: Seq<char>) -> Option<T> {
    if alist_has(s, k) {
        Some(s[alist_first(s, k)].1)
    } else {
        None
    }
}

/// After an upsert, the key holds the value.
pub proof fn lemma_val_upsert<T>(s: Seq<(Seq<char>, T)>, k: Seq<char>, v: T)
    ensures
        alist_val(alist_upsert(s, k, v), k) == Some(v),
{
    lemma_alist_first(s, k);
    let r = alist_upsert(s, k, v);
    if alist_has(s, k) {
        let f = alist_first(s, k);
        assert(r[f].0 == k);
        assert(alist_has(r, k));
        lemma_alist_first(r, k);
        let f1 = alist_first(r, k);
        assert forall|j: int| 0 <= j < f implies (#[trigger] r[j]).0 != k by {
            assert(r[j].0 == s[j].0);
        }
        if f1 < f {
            assert(r[f1].0 == k);
        }
        if f < f1 {
            assert(r[f].0 != k);
        }
    } else {
        let nl = s.len() as int;
        assert(r[nl].0 == k);
        assert(alist_has(r, k));
        lemma_alist_first(r, k);
        let f1 = alist_first(r, k);
        assert forall|j: int| 0 <= j < nl implies (#[trigger] r[j]).0 != k by {
            assert(r[j].0 == s[j].0);
            if s[j].0 == k {
                assert(alist_has(s, k));
            }
        }
        if f1 < nl {
            assert(r[f1].0 == k);
        }
    }
}

/// An upsert of one key leaves every other key's value as it was.
pub proof fn lemma_val_upsert_other<T>(s: Seq<(Seq<char>, T)>, k: Seq<char>, v: T, k2: Seq<char>)
    requires
        k2 != k,
    ensures
        alist_val(alist_upsert(s, k, v), k2) == alist_val(s, k2),
{
    lemma_alist_first(s, k);
    lemma_alist_first(s, k2);
    let r = alist_upsert(s, k, v);
    lemma_alist_first(r, k2);
    assert(alist_has(r, k2) <==> alist_has(s, k2)) by {
        if alist_has(s, k2) {
            let w = choose|w: int| 0 <= w < s.len() && (#[trigger] s[w]).0 == k2;
            assert(r[w].0 == k2);
        }
        if alist_has(r, k2) {
            let w = choose|w: int| 0 <= w < r.len() && (#[trigger] r[w]).0 == k2;
            if w < s.len() {
                if alist_has(s, k) && w == alist_first(s, k) {
                    assert(r[w].0 == k);
                } else {
                    assert(r[w].0 == s[w].0);
                }
            } else {
                assert(r[w].0 == k);
            }
        }
    }
    if alist_has(s, k2) {
        let f2 = alist_first(s, k2);
        assert(s[f2].0 == k2);
        assert(r[f2].0 == k2) by {
            if alist_has(s, k) && f2 == alist_first(s, k) {
                assert(s[f2].0 == k);
            }
        }
        assert forall|j: int| 0 <= j < f2 implies (#[trigger] r[j]).0 != k2 by {
            if alist_has(s, k) && j == alist_first(s, k) {
                assert(r[j].0 == k);
            } else {
                assert(r[j].0 == s[j].0);
            }
        }
        let f1 = alist_first(r, k2);
        if f1 < f2 {
            assert(r[f1].0 == k2);
        }
        if f2 < f1 {
            assert(r[f2].0 != k2);
        }
        assert(r[f2].1 == s[f2].1);
    }
}

/// Removing a key under unique keys leaves no value for it.
pub proof fn lemma_val_remove<T>(s: Seq<(Seq<char>, T)>, k: Seq<char>)
    requires
        alist_unique(s),
    ensures
        alist_val(alist_remove(s, k), k) is None,
{
    lemma_alist_first(s, k);
    let r = alist_remove(s, k);
    if alist_has(s, k) {
        let f = alist_first(s, k);
        if alist_has(r, k) {
            let w = choose|w: int| 0 <= w < r.len() && (#[trigger] r[w]).0 == k;
            let w0: int = if w < f {
                w
            } else {
                w + 1
            };
            assert(r[w] == s[w0]);
            assert(s[w0].0 == k);
            assert(w0 != f);
            if w0 < f {
                assert(s[w0].0 != s[f].0);
            } else {
                assert(s[f].0 != s[w0].0);
            }
        }
    }
}

/// Removing one key leaves every other key's value as it was.
pub proof fn lemma_val_remove_other<T>(s: Seq<(Seq<char>, T)>, k: Seq<char>, k2: Seq<char>)
    requires
        k2 != k,
    ensures
        alist_val(alist_remove(s, k), k2) == alist_val(s, k2),
{
    lemma_alist_first(s, k);
    lemma_alist_first(s, k2);
    let r = alist_remove(s, k);
    lemma_alist_first(r, k2);
    if alist_has(s, k) {
        let f = alist_first(s, k);
        assert(alist_has(r, k2) <==> alist_has(s, k2)) by {
            if alist_has(s, k2) {
                let w = choose|w: int| 0 <= w < s.len() && (#[trigger] s[w]).0 == k2;
                assert(w != f);
                if w < f {
                    assert(r[w].0 == k2);
                } else {
                    assert(r[w - 1].0 == k2);
                }
            }
            if alist_has(r, k2) {
                let w = choose|w: int| 0 <= w < r.len() && (#[trigger] r[w]).0 == k2;
                let w0: int = if w < f {
                    w
                } else {
                    w + 1
                };
                assert(s[w0].0 == k2);
            }
        }
        if alist_has(s, k2) {
            let f2 = alist_first(s, k2);
            assert(f2 != f);
            let g: int = if f2 < f {
                f2
            } else {
                f2 - 1
            };
            assert(r[g] == s[f2]);
            assert forall|j: int| 0 <= j < g implies (#[trigger] r[j]).0 != k2 by {
                let j0: int = if j < f {
                    j
                } else {
                    j + 1
                };
                assert(r[j] == s[j0]);
                assert(j0 < f2);
            }
            lemma_alist_first(r, k2);
            let f1 = alist_first(r, k2);
            if f1 < g {
                assert(r[f1].0 == k2);
            }
            if g < f1 {
                assert(r[g].0 != k2);
            }
        }
    }
}

/// Upserting keeps keys unique.
pub proof fn lemma_alist_upsert_unique<T>(s: Seq<(Seq<char>, T)>, k: Seq<char>, v: T)
    requires
        alist_unique(s),
    ensures
        alist_unique(alist_upsert(s, k, v)),
{
    lemma_alist_first(s, k);
    let r = alist_upsert(s, k, v);
    if alist_has(s, k) {
        assert forall|i: int, j: int| 0 <= i < j < r.len() implies (#[trigger] r[i]).0 != (
        #[trigger] r[j]).0 by {
            assert(s[i].0 != s[j].0);
        }
    } else {
        assert forall|i: int, j: int| 0 <= i < j < r.len() implies (#[trigger] r[i]).0 != (
        #[trigger] r[j]).0 by {
            if j < s.len() {
                assert(s[i].0 != s[j].0);
            } else {
                assert(!alist_has(s, k));
                assert(r[i] == s[i]);
                if r[i].0 == k {
                    assert(alist_has(s, k));
                }
            }
        }
    }
}

/// Removing keeps keys unique.
pub proof fn lemma_alist_remove_unique<T>(s: Seq<(Seq<char>, T)>, k: Seq<char>)
    requires
        alist_unique(s),
    ensures
        alist_unique(alist_remove(s, k)),
{
    lemma_alist_first(s, k);
    let r = alist_remove(s, k);
    if alist_has(s, k) {
        let f = alist_first(s, k);
        assert forall|i: int, j: int| 0 <= i < j < r.len() implies (#[trigger] r[i]).0 != (
        #[trigger] r[j]).0 by {
            let i0: int = if i < f {
                i
            } else {
                i + 1
            };
            let j0: int = if j < f {
                j
            } else {
                j + 1
            };
            assert(r[i] == s[i0]);
            assert(r[j] == s[j0]);
            assert(s[i0].0 != s[j0].0);
        }
    }
}

/// The position of the first entry with the key, if the key occurs.
pub fn find_key<V>(entries: &Vec<(String, V)>, k: &str) -> (r: Option<usize>)
    ensures
        match r {
            Some(i) => i < entries@.len() && entries@[i as int].0@ == k@ && (forall|j: int|
                0 <= j < i ==> (#[trigger] entries@[j]).0@ != k@),
            None => forall|j: int| 0 <= j < entries@.len() ==> (#[trigger] entries@[j]).0@ != k@,
        },
{
    let mut i: usize = 0;
    while i < entries.len()
        invariant
            i <= entries@.len(),
            forall|j: int| 0 <= j < i ==> (#[trigger] entries@[j]).0@ != k@,
        decreases entries@.len() - i,
    {
        if str_eq(entries[i].0.as_str(), k) {
            return Some(i);
        }
        i += 1;
    }
    None
}

/// The position of the key's entry in the list's view, if the key occurs.
pub fn find_entry<V: DeepView>(entries: &Vec<(String, V)>, k: &str) -> (r: Option<usize>)
    ensures
        r is Some <==> alist_has(entries.deep_view(), k@),
        match r {
            Some(i) => i < entries@.len() && i == alist_first(entries.deep_view(), k@)
                && entries.deep_view()[i as int].0 == k@,
            None => true,
        },
{
    broadcast use group_deep;

    proof {
        lemma_alist_first(entries.deep_view(), k@);
    }
    match find_key(entries, k) {
        Some(i) => {
            proof {
                assert(entries.deep_view()[i as int].0 == k@);
                assert(alist_has(entries.deep_view(), k@));
                assert forall|j: int| 0 <= j < i implies (#[trigger] entries.deep_view()[j]).0
                    != k@ by {
                    assert(entries@[j].0@ != k@);
                }
                let f = alist_first(entries.deep_view(), k@);
                if f < i {
                    assert(entries.deep_view()[f].0 == k@);
                }
                if i < f {
                    assert(entries.deep_view()[i as int].0 != k@);
                }
            }
            Some(i)
        },
        None => {
            proof {
                if alist_has(entries.deep_view(), k@) {
                    let w = choose|w: int|
                        0 <= w < entries.deep_view().len() && (#[trigger] entries.deep_view()[w]).0
                            == k@;
                    assert(entries@[w].0@ == k@);
                }
            }
            None
        },
    }
}

/// The next version of a channel after a publish.
pub open spec fn spec_bump(v: u64) -> u64 {
    if v < 0xffff_ffff_ffff_ffffu64 {
        (v + 1) as u64
    } else {
        v
    }
}

/// The next version of a channel after a publish.
pub fn bump(v: u64) -> (r: u64)
    ensures
        r == spec_bump(v),
{
    if v < u64::MAX {
        v + 1
    } else {
        v
    }
}

/// One exposed port of an indexed pod: the inner target it currently points
/// at (a server's channel when `server_name` is set, else the pod's default
/// channel), and the outer channel's version, bumped when the target moves.
#[derive(Debug)]
pub struct PodPort {
    pub container_port: u16,
    pub server_name: Option<String>,
    pub outer_version: u64,
}

#[verifier::ext_equal]
pub struct PodPortView {
    pub container_port: u16,
    pub server_name: Option<Seq<char>>,
    pub outer_version: u64,
}

impl View for PodPort {
    type V = PodPortView;

    open spec fn view(&self) -> PodPortView {
        PodPortView {
            container_port: self.container_port,
            server_name: self.server_name.deep_view(),
            outer_version: self.outer_version,
        }
    }
}

impl DeepView for PodPort {
    type V = PodPortView;

    open spec fn deep_view(&self) -> PodPortView {
        self.view()
    }
}

/// An indexed pod: its labels, its resolved default policy, its exposed
/// ports, and the declared names of those ports.
#[derive(Debug)]
pub struct Pod {
    pub labels: Vec<(String, String)>,
    pub default_allow: DefaultAllow,
    pub ports: Vec<PodPort>,
    pub port_names: Vec<(String, Vec<u16>)>,
}

#[verifier::ext_equal]
pub struct PodView {
    pub labels: Seq<(Seq<char>, Seq<char>)>,
    pub default_allow: DefaultAllow,
    pub ports: Seq<PodPortView>,
    pub port_names: Seq<(Seq<char>, Seq<u16>)>,
}

impl View for Pod {
    type V = PodView;

    open spec fn view(&self) -> PodView {
        PodView {
            labels: self.labels.deep_view(),
            default_allow: self.default_allow,
            ports: self.ports.deep_view(),
            port_names: self.port_names.deep_view(),
        }
    }
}

impl DeepView for Pod {
    type V = PodView;

    open spec fn deep_view(&self) -> PodView {
        self.view()
    }
}

/// What a `Server` resource declared: the base data a server's derived
/// state is computed from.
#[derive(Debug)]
pub struct ServerMeta {
    pub labels: Vec<(String, String)>,
    pub port: Port,
    pub pod_selector: Vec<(String, String)>,
    pub protocol: Protocol,
}

#[verifier::ext_equal]
pub struct ServerMetaView {
    pub labels: Seq<(Seq<char>, Seq<char>)>,
    pub port: PortView,
    pub pod_selector: Seq<(Seq<char>, Seq<char>)>,
    pub protocol: Protocol,
}

impl View for ServerMeta {
    type V = ServerMetaView;

    open spec fn view(&self) -> ServerMetaView {
        ServerMetaView {
            labels: self.labels.deep_view(),
            port: self.port@,
            pod_selector: self.pod_selector.deep_view(),
            protocol: self.protocol,
        }
    }
}

impl DeepView for ServerMeta {
    type V = ServerMetaView;

    open spec fn deep_view(&self) -> ServerMetaView {
        self.view()
    }
}

/// An indexed server: its declared data, the authorizations that currently
/// match it, the snapshot last published on its channel, and that channel's
/// version.
#[derive(Debug)]
pub struct Server {
    pub meta: ServerMeta,
    pub authorizations: Vec<(String, ClientAuthorization)>,
    pub snapshot: InboundServer,
    pub version: u64,
}

#[verifier::ext_equal]
pub struct ServerStateView {
    pub meta: ServerMetaView,
    pub authorizations: Seq<(Seq<char>, ClientAuthorizationView)>,
    pub snapshot: InboundServerView,
    pub version: u64,
}

impl View for Server {
    type V = ServerStateView;

    open spec fn view(&self) -> ServerStateView {
        ServerStateView {
            meta: self.meta@,
            authorizations: self.authorizations.deep_view(),
            snapshot: self.snapshot@,
            version: self.version,
        }
    }
}

impl DeepView for Server {
    type V = ServerStateView;

    open spec fn deep_view(&self) -> ServerStateView {
        self.view()
    }
}

/// How an authorization selects its servers.
#[derive(Debug)]
pub enum ServerSelector {
    Name(String),
    Selector(Vec<(String, String)>),
}

#[verifier::ext_equal]
pub enum ServerSelectorView {
    Name(Seq<char>),
    Selector(Seq<(Seq<char>, Seq<char>)>),
}

impl View for ServerSelector {
    type V = ServerSelectorView;

    open spec fn view(&self) -> ServerSelectorView {
        match self {
            ServerSelector::Name(n) => ServerSelectorView::Name(n@),
            ServerSelector::Selector(sel) => ServerSelectorView::Selector(sel.deep_view()),
        }
    }
}

impl DeepView for ServerSelector {
    type V = ServerSelectorView;

    open spec fn deep_view(&self) -> ServerSelectorView {
        self.view()
    }
}

/// An indexed authorization: which servers it selects, and the client
/// predicate it grants.
#[derive(Debug)]
pub struct Authz {
    pub servers: ServerSelector,
    pub clients: ClientAuthorization,
}

#[verifier::ext_equal]
pub struct AuthzStateView {
    pub servers: ServerSelectorView,
    pub clients: ClientAuthorizationView,
}

impl View for Authz {
    type V = AuthzStateView;

    open spec fn view(&self) -> AuthzStateView {
        AuthzStateView { servers: self.servers@, clients: self.clients@ }
    }
}

impl DeepView for Authz {
    type V = AuthzStateView;

    open spec fn deep_view(&self) -> AuthzStateView {
        self.view()
    }
}

/// Per-namespace authorization records, keyed by name.
#[derive(Debug)]
pub struct AuthzIndex {
    pub entries: Vec<(String, Authz)>,
}

impl View for AuthzIndex {
    type V = Seq<(Seq<char>, AuthzStateView)>;

    open spec fn view(&self) -> Seq<(Seq<char>, AuthzStateView)> {
        self.entries.deep_view()
    }
}

/// Per-namespace server records, keyed by name.
#[derive(Debug)]
pub struct SrvIndex {
    pub entries: Vec<(String, Server)>,
}

impl View for SrvIndex {
    type V = Seq<(Seq<char>, ServerStateView)>;

    open spec fn view(&self) -> Seq<(Seq<char>, ServerStateView)> {
        self.entries.deep_view()
    }
}

/// Per-namespace pod records, keyed by name.
#[derive(Debug)]
pub struct PodIndex {
    pub entries: Vec<(String, Pod)>,
}

impl View for PodIndex {
    type V = Seq<(Seq<char>, PodView)>;

    open spec fn view(&self) -> Seq<(Seq<char>, PodView)> {
        self.entries.deep_view()
    }
}

/// Kubelet addresses per node, keyed by node name.
#[derive(Debug)]
pub struct NodeIndex {
    pub entries: Vec<(String, KubeletIps)>,
}

impl View for NodeIndex {
    type V = Seq<(Seq<char>, Seq<crate::net::IpAddress>)>;

    open spec fn view(&self) -> Seq<(Seq<char>, Seq<crate::net::IpAddress>)> {
        self.entries.deep_view()
    }
}

/// One namespace's indexes and its default-allow mode.
#[derive(Debug)]
pub struct Namespace {
    pub pods: PodIndex,
    pub servers: SrvIndex,
    pub authzs: AuthzIndex,
    pub default_mode: DefaultAllow,
}

#[verifier::ext_equal]
pub struct NamespaceView {
    pub pods: Seq<(Seq<char>, PodView)>,
    pub servers: Seq<(Seq<char>, ServerStateView)>,
    pub authzs: Seq<(Seq<char>, AuthzStateView)>,
    pub default_mode: DefaultAllow,
}

impl View for Namespace {
    type V = NamespaceView;

    open spec fn view(&self) -> NamespaceView {
        NamespaceView {
            pods: self.pods@,
            servers: self.servers@,
            authzs: self.authzs@,
            default_mode: self.default_mode,
        }
    }
}

impl DeepView for Namespace {
    type V = NamespaceView;

    open spec fn deep_view(&self) -> NamespaceView {
        self.view()
    }
}

/// What the lookup table holds for one pod: its node's kubelet addresses
/// and its exposed ports.
#[derive(Debug)]
pub struct LookupEntry {
    pub kubelet: KubeletIps,
    pub ports: Vec<u16>,
}

#[verifier::ext_equal]
pub struct LookupEntryView {
    pub kubelet: Seq<crate::net::IpAddress>,
    pub ports: Seq<u16>,
}

impl View for LookupEntry {
    type V = LookupEntryView;

    open spec fn view(&self) -> LookupEntryView {
        LookupEntryView { kubelet: self.kubelet@, ports: self.ports@ }
    }
}

impl DeepView for LookupEntry {
    type V = LookupEntryView;

    open spec fn deep_view(&self) -> LookupEntryView {
        self.view()
    }
}

/// The flat table discovery reads: namespace → pod → entry.  A namespace
/// appears only while it holds a pod.
#[derive(Debug)]
pub struct LookupTable {
    pub entries: Vec<(String, Vec<(String, LookupEntry)>)>,
}

impl View for LookupTable {
    type V = Seq<(Seq<char>, Seq<(Seq<char>, LookupEntryView)>)>;

    open spec fn view(&self) -> Seq<(Seq<char>, Seq<(Seq<char>, LookupEntryView)>)> {
        self.entries.deep_view()
    }
}

/// The whole index: namespaces, nodes, pods pending their node, the lookup
/// table, and the configuration fixed at startup.
#[derive(Debug)]
pub struct Index {
    pub namespaces: Vec<(String, Namespace)>,
    pub nodes: NodeIndex,
    pub pending: Vec<PodResource>,
    pub lookups: LookupTable,
    pub identity_domain: String,
    pub cluster_nets: Vec<Cidr>,
    pub default_allow: DefaultAllow,
    pub detect_timeout_ms: u64,
}

#[verifier::ext_equal]
pub struct IndexView {
    pub namespaces: Seq<(Seq<char>, NamespaceView)>,
    pub nodes: Seq<(Seq<char>, Seq<crate::net::IpAddress>)>,
    pub pending: Seq<PodResourceView>,
    pub lookups: Seq<(Seq<char>, Seq<(Seq<char>, LookupEntryView)>)>,
    pub identity_domain: Seq<char>,
    pub cluster_nets: Seq<Cidr>,
    pub default_allow: DefaultAllow,
    pub detect_timeout_ms: u64,
}

impl View for Index {
    type V = IndexView;

    open spec fn view(&self) -> IndexView {
        IndexView {
            namespaces: self.namespaces.deep_view(),
            nodes: self.nodes@,
            pending: self.pending.deep_view(),
            lookups: self.lookups@,
            identity_domain: self.identity_domain@,
            cluster_nets: self.cluster_nets@,
            default_allow: self.default_allow,
            detect_timeout_ms: self.detect_timeout_ms,
        }
    }
}

impl PodView {
    /// Container ports are pairwise distinct.
    pub open spec fn ports_unique(self) -> bool {
        forall|i: int, j: int|
            0 <= i < j < self.ports.len() ==> (#[trigger] self.ports[i]).container_port != (
            #[trigger] self.ports[j]).container_port
    }
}

impl NamespaceView {
    /// Every per-namespace index has unique keys, and every pod's ports are
    /// unique.
    pub open spec fn wf(self) -> bool {
        &&& alist_unique(self.pods)
        &&& alist_unique(self.servers)
        &&& alist_unique(self.authzs)
        &&& forall|i: int|
            0 <= i < self.pods.len() ==> (#[trigger] self.pods[i]).1.ports_unique()
    }
}

impl IndexView {
    /// Well-formedness: unique keys throughout, well-formed namespaces, and
    /// the lookup table installed exactly for the indexed pods.
    pub open spec fn wf(self) -> bool {
        &&& alist_unique(self.namespaces)
        &&& alist_unique(self.nodes)
        &&& alist_unique(self.lookups)
        &&& forall|i: int| 0 <= i < self.namespaces.len() ==> (#[trigger] self.namespaces[i]).1.wf()
        &&& forall|i: int|
            0 <= i < self.lookups.len() ==> alist_unique((#[trigger] self.lookups[i]).1)
        &&& forall|i: int|
            0 <= i < self.lookups.len() ==> (#[trigger] self.lookups[i]).1.len() > 0
    }
}

/// A namespace holding nothing, with the given default mode.
pub open spec fn spec_ns_empty(default_mode: DefaultAllow) -> NamespaceView {
    NamespaceView {
        pods: Seq::empty(),
        servers: Seq::empty(),
        authzs: Seq::empty(),
        default_mode: default_mode,
    }
}

/// The index after making sure the namespace exists: unchanged when it
/// does, extended by an empty namespace under the global default otherwise.
pub open spec fn spec_create_ns(idx: IndexView, ns: Seq<char>) -> IndexView {
    if alist_has(idx.namespaces, ns) {
        idx
    } else {
        IndexView {
            namespaces: idx.namespaces.push((ns, spec_ns_empty(idx.default_allow))),
            ..idx
        }
    }
}

impl Index {
    /// Makes sure the namespace exists, and returns its position: the first
    /// entry with its name.
    pub(crate) fn get_or_create_ns(&mut self, ns: &str) -> (i: usize)
        ensures
            final(self)@ == spec_create_ns(old(self)@, ns@),
            i == alist_first(final(self)@.namespaces, ns@),
            i < final(self)@.namespaces.len(),
            final(self)@.namespaces[i as int].0 == ns@,
            final(self).namespaces@.len() == final(self)@.namespaces.len(),
            final(self).namespaces@[i as int].1@ == final(self)@.namespaces[i as int].1,
            final(self).namespaces@[i as int].0@ == ns@,
            old(self)@.wf() ==> final(self)@.wf(),
    {
        broadcast use group_deep;

        proof {
            lemma_alist_first(self@.namespaces, ns@);
        }
        match find_key(&self.namespaces, ns) {
            Some(i) => {
                proof {
                    assert(alist_has(self@.namespaces, ns@)) by {
                        assert(self@.namespaces[i as int].0 == ns@);
                    }
                    assert forall|j: int| 0 <= j < i implies (#[trigger] self@.namespaces[j]).0
                        != ns@ by {
                        assert(self.namespaces@[j].0@ != ns@);
                    }
                    let f = alist_first(self@.namespaces, ns@);
                    if f < i {
                        assert(self@.namespaces[f].0 == ns@);
                    }
                    if i < f {
                        assert(self@.namespaces[i as int].0 != ns@);
                    }
                }
                i
            },
            None => {
                proof {
                    if alist_has(self@.namespaces, ns@) {
                        let w = choose|w: int|
                            0 <= w < self@.namespaces.len() && (#[trigger] self@.namespaces[w]).0
                                == ns@;
                        assert(self.namespaces@[w].0@ == ns@);
                    }
                }
                let i = self.namespaces.len();
                let nsv = Namespace {
                    pods: PodIndex { entries: Vec::new() },
                    servers: SrvIndex { entries: Vec::new() },
                    authzs: AuthzIndex { entries: Vec::new() },
                    default_mode: self.default_allow,
                };
                proof {
                    assert(nsv@ =~~= spec_ns_empty(self.default_allow));
                }
                self.namespaces.push((ns.to_owned(), nsv));
                proof {
                    assert(self@ =~~= spec_create_ns(old(self)@, ns@));
                    assert(self@.namespaces[i as int].0 == ns@);
                    assert(alist_has(self@.namespaces, ns@));
                    lemma_alist_first(self@.namespaces, ns@);
                    assert forall|j: int| 0 <= j < i implies (#[trigger] self@.namespaces[j]).0
                        != ns@ by {
                        assert(self@.namespaces[j] == old(self)@.namespaces[j]);
                    }
                    let f = alist_first(self@.namespaces, ns@);
                    if f < i {
                        assert(self@.namespaces[f].0 == ns@);
                    }
                    if old(self)@.wf() {
                        assert forall|a: int, b: int|
                            0 <= a < b < self@.namespaces.len() implies (
                        #[trigger] self@.namespaces[a]).0 != (#[trigger] self@.namespaces[b]).0 by {
                            if b < i {
                                assert(old(self)@.namespaces[a].0 != old(self)@.namespaces[b].0);
                            } else {
                                assert(self@.namespaces[a] == old(self)@.namespaces[a]);
                                if self@.namespaces[a].0 == ns@ {
                                    assert(alist_has(old(self)@.namespaces, ns@));
                                }
                            }
                        }
                        assert(spec_ns_empty(self.default_allow).wf());
                        assert(self@.wf());
                    }
                }
                i
            },
        }
    }

    /// A fresh index: no namespaces, nodes, pending pods or lookup entries;
    /// the configuration as given.
    pub fn new(
        cluster_nets: Vec<Cidr>,
        identity_domain: String,
        default_allow: DefaultAllow,
        detect_timeout_ms: u64,
    ) -> (r: Index)
        ensures
            r@.namespaces =~= Seq::<(Seq<char>, NamespaceView)>::empty(),
            r@.nodes =~= Seq::<(Seq<char>, Seq<crate::net::IpAddress>)>::empty(),
            r@.pending =~= Seq::<PodResourceView>::empty(),
            r@.lookups =~= Seq::<(Seq<char>, Seq<(Seq<char>, LookupEntryView)>)>::empty(),
            r@.identity_domain == identity_domain@,
            r@.cluster_nets == cluster_nets@,
            r@.default_allow == default_allow,
            r@.detect_timeout_ms == detect_timeout_ms,
            r@.wf(),
    {
        let r = Index {
            namespaces: Vec::new(),
            nodes: NodeIndex { entries: Vec::new() },
            pending: Vec::new(),
            lookups: LookupTable { entries: Vec::new() },
            identity_domain,
            cluster_nets,
            default_allow,
            detect_timeout_ms,
        };
        proof {
            assert(r@.namespaces =~= Seq::<(Seq<char>, NamespaceView)>::empty());
            assert(r@.pending =~= Seq::<PodResourceView>::empty());
        }
        r
    }
}

} // verus!
