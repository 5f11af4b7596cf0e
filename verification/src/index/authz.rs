//! `ServerAuthorization` handling: parsing a resource into an authorization
//! record, and applying, deleting and resetting authorizations.

use vstd::prelude::*;
use crate::defaults::spec_all_nets;
use crate::index::refresh::{refresh_namespace, spec_refresh_ns, lemma_refresh_ns_wf};
use crate::index::{
    alist_first, alist_has, alist_remove, alist_upsert, find_entry, group_deep,
    lemma_alist_remove_unique, lemma_alist_upsert_unique, Authz, AuthzStateView, Index,
    IndexError, IndexView, NamespaceView, ServerSelector,
};
use crate::inbound::{
    ClientAuthentication, ClientAuthorization, ClientIdentityMatch, AuthenticationView,
    ClientAuthorizationView, IdentityMatchView,
};
use crate::net::{parse_cidr, parsed_cidr, Cidr, ClientNetwork, ClientNetworkView};
use crate::resource::{
    AuthzResource, AuthzResourceView, ClientSpec, ClientSpecView, MeshTls, MeshTlsView,
    NetworkSpec, NetworkSpecView, ServerRef, ServerRefView, ServiceAccountRef,
};
use crate::text::{chars_vec, push_char, split_dots, split_dots_spec, str_eq};
use vstd::string::{StrSliceExecFns, StringExecFns};

verus! {

broadcast use group_deep;

/// What an identity string matches: `"*"` any identity, `"*."` and a
/// dotted suffix the identities under that suffix, anything else exactly
/// itself.
pub open spec fn spec_identity_match(id: Seq<char>) -> IdentityMatchView {
    if id == "*"@ {
        IdentityMatchView::Suffix(Seq::empty())
    } else if id.len() >= 2 && id[0] == '*' && id[1] == '.' {
        IdentityMatchView::Suffix(split_dots_spec(id.skip(2)))
    } else {
        IdentityMatchView::Name(id)
    }
}

/// Parses one identity string.
fn mk_identity(id: String) -> (r: ClientIdentityMatch)
    ensures
        r@ == spec_identity_match(id@),
{
    if str_eq(id.as_str(), "*") {
        ClientIdentityMatch::Suffix(Vec::new())
    } else {
        let cs = chars_vec(id.as_str());
        if cs.len() >= 2 && cs[0] == '*' && cs[1] == '.' {
            let n = cs.len();
            let rest = id.as_str().substring_char(2, n);
            proof {
                assert(rest@ =~= id@.skip(2));
            }
            let parts = split_dots(rest);
            ClientIdentityMatch::Suffix(parts)
        } else {
            ClientIdentityMatch::Name(id)
        }
    }
}

/// The mesh identity of a service account: its name and namespace under the
/// identity domain.
pub open spec fn spec_sa_identity(name: Seq<char>, sa_ns: Seq<char>, domain: Seq<char>) -> Seq<
    char,
> {
    name + seq!['.'] + sa_ns + ".serviceaccount.identity."@ + domain
}

/// The mesh identity of a service account.
fn sa_identity(name: &str, sa_ns: &str, domain: &str) -> (r: String)
    ensures
        r@ == spec_sa_identity(name@, sa_ns@, domain@),
{
    let mut s = name.to_owned();
    push_char(&mut s, '.');
    s.append(sa_ns);
    s.append(".serviceaccount.identity.");
    s.append(domain);
    proof {
        assert(s@ =~= spec_sa_identity(name@, sa_ns@, domain@));
    }
    s
}

/// The namespace a service-account reference names, defaulting to the
/// authorization's own.
pub open spec fn spec_sa_ns(ns: Option<Seq<char>>, authz_ns: Seq<char>) -> Seq<char> {
    match ns {
        Some(n) => n,
        None => authz_ns,
    }
}

/// The identity matches of a mesh-TLS clause: the identity strings in
/// order, then the service-account identities in order.
pub open spec fn spec_identity_list(
    m: MeshTlsView,
    authz_ns: Seq<char>,
    domain: Seq<char>,
) -> Seq<IdentityMatchView> {
    Seq::new(m.identities.len(), |i: int| spec_identity_match(m.identities[i])) + Seq::new(
        m.service_accounts.len(),
        |j: int|
            IdentityMatchView::Name(
                spec_sa_identity(
                    m.service_accounts[j].name,
                    spec_sa_ns(m.service_accounts[j].namespace, authz_ns),
                    domain,
                ),
            ),
    )
}

/// What a mesh-TLS clause authorizes: TLS without identity when
/// `unauthenticated_tls` is set; else the listed identities, which must not
/// be empty.
pub open spec fn spec_mtls_result(
    m: MeshTlsView,
    authz_ns: Seq<char>,
    domain: Seq<char>,
) -> Result<AuthenticationView, IndexError> {
    if m.unauthenticated_tls {
        Ok(AuthenticationView::TlsUnauthenticated)
    } else if m.identities.len() + m.service_accounts.len() == 0 {
        Err(IndexError::NoClientsAuthorized)
    } else {
        Ok(AuthenticationView::TlsAuthenticated(spec_identity_list(m, authz_ns, domain)))
    }
}

/// Parses a mesh-TLS clause into the authentication it grants.
fn mk_mtls_authn(mtls: MeshTls, authz_ns: &str, domain: &str) -> (r: Result<
    ClientAuthentication,
    IndexError,
>)
    ensures
        match r {
            Ok(a) => spec_mtls_result(mtls@, authz_ns@, domain@) == Ok::<
                AuthenticationView,
                IndexError,
            >(a@),
            Err(e) => spec_mtls_result(mtls@, authz_ns@, domain@) == Err::<
                AuthenticationView,
                IndexError,
            >(e),
        },
{
    if mtls.unauthenticated_tls {
        return Ok(ClientAuthentication::TlsUnauthenticated);
    }
    if mtls.identities.len() == 0 && mtls.service_accounts.len() == 0 {
        return Err(IndexError::NoClientsAuthorized);
    }
    let ghost m = mtls@;
    let mut ids: Vec<ClientIdentityMatch> = Vec::new();
    let mut i: usize = 0;
    while i < mtls.identities.len()
        invariant
            i <= mtls.identities@.len(),
            m == mtls@,
            ids@.len() == i,
            forall|j: int|
                0 <= j < i ==> (#[trigger] ids@[j])@ == spec_identity_match(m.identities[j]),
        decreases mtls.identities@.len() - i,
    {
        let id = mtls.identities[i].clone();
        ids.push(mk_identity(id));
        i += 1;
    }
    let mut k: usize = 0;
    while k < mtls.service_accounts.len()
        invariant
            k <= mtls.service_accounts@.len(),
            m == mtls@,
            ids@.len() == m.identities.len() + k,
            forall|j: int|
                0 <= j < m.identities.len() ==> (#[trigger] ids@[j])@ == spec_identity_match(
                    m.identities[j],
                ),
            forall|j: int|
                0 <= j < k ==> (#[trigger] ids@[m.identities.len() + j])@
                    == IdentityMatchView::Name(
                    spec_sa_identity(
                        m.service_accounts[j].name,
                        spec_sa_ns(m.service_accounts[j].namespace, authz_ns@),
                        domain@,
                    ),
                ),
        decreases mtls.service_accounts@.len() - k,
    {
        let sa_ns: &str = match &mtls.service_accounts[k].namespace {
            Some(n) => n.as_str(),
            None => authz_ns,
        };
        let name = sa_identity(mtls.service_accounts[k].name.as_str(), sa_ns, domain);
        ids.push(ClientIdentityMatch::Name(name));
        k += 1;
    }
    proof {
        let target = spec_identity_list(m, authz_ns@, domain@);
        assert forall|j: int| 0 <= j < ids@.len() implies #[trigger] ids.deep_view()[j]
            == target[j] by {
            if j < m.identities.len() {
                assert(ids@[j]@ == spec_identity_match(m.identities[j]));
            } else {
                assert(ids@[m.identities.len() + (j - m.identities.len())]@
                    == IdentityMatchView::Name(
                    spec_sa_identity(
                        m.service_accounts[j - m.identities.len()].name,
                        spec_sa_ns(
                            m.service_accounts[j - m.identities.len()].namespace,
                            authz_ns@,
                        ),
                        domain@,
                    ),
                ));
            }
        }
        assert(ids.deep_view() =~~= spec_identity_list(m, authz_ns@, domain@));
    }
    Ok(ClientAuthentication::TlsAuthenticated(ids))
}

/// The exclusions of one network, each parsed; the first unparseable one
/// fails the list.
pub open spec fn spec_parse_excepts(ex: Seq<Seq<char>>, n: int) -> Option<Seq<Cidr>>
    decreases n,
{
    if n <= 0 {
        Some(Seq::empty())
    } else {
        match spec_parse_excepts(ex, n - 1) {
            None => None,
            Some(s) => match parsed_cidr(ex[n - 1]) {
                None => None,
                Some(c) => Some(s.push(c)),
            },
        }
    }
}

/// The networks of an authorization, each parsed with its exclusions; the
/// first unparseable CIDR fails the list.
pub open spec fn spec_parse_networks(nets: Seq<NetworkSpecView>, n: int) -> Option<
    Seq<ClientNetworkView>,
>
    decreases n,
{
    if n <= 0 {
        Some(Seq::empty())
    } else {
        match spec_parse_networks(nets, n - 1) {
            None => None,
            Some(s) => match parsed_cidr(nets[n - 1].cidr) {
                None => None,
                Some(c) => match spec_parse_excepts(nets[n - 1].except, nets[n - 1].except.len() as int) {
                    None => None,
                    Some(ex) => Some(s.push(ClientNetworkView { net: c, except: ex })),
                },
            },
        }
    }
}

/// Parses the exclusion list of one network.
fn parse_excepts(ex: &Vec<String>) -> (r: Result<Vec<Cidr>, IndexError>)
    ensures
        match r {
            Ok(v) => spec_parse_excepts(ex.deep_view(), ex.deep_view().len() as int) == Some(v@),
            Err(e) => e == IndexError::InvalidCidr && spec_parse_excepts(
                ex.deep_view(),
                ex.deep_view().len() as int,
            ) is None,
        },
{
    let mut out: Vec<Cidr> = Vec::new();
    let mut i: usize = 0;
    while i < ex.len()
        invariant
            i <= ex@.len(),
            spec_parse_excepts(ex.deep_view(), i as int) == Some(out@),
        decreases ex@.len() - i,
    {
        match parse_cidr(ex[i].as_str()) {
            Some(c) => {
                out.push(c);
            },
            None => {
                proof {
                    lemma_parse_excepts_stuck(ex.deep_view(), i as int, ex.deep_view().len() as int);
                }
                return Err(IndexError::InvalidCidr);
            },
        }
        i += 1;
    }
    Ok(out)
}

/// Once an exclusion fails to parse, the whole list fails.
proof fn lemma_parse_excepts_stuck(ex: Seq<Seq<char>>, i: int, n: int)
    requires
        0 <= i < n,
        parsed_cidr(ex[i]) is None || spec_parse_excepts(ex, i) is None,
    ensures
        spec_parse_excepts(ex, n) is None,
    decreases n,
{
    if i < n - 1 {
        lemma_parse_excepts_stuck(ex, i, n - 1);
    }
}

/// Once a network fails to parse, the whole list fails.
proof fn lemma_parse_networks_stuck(nets: Seq<NetworkSpecView>, i: int, n: int)
    requires
        0 <= i < n,
        spec_parse_networks(nets, i + 1) is None || spec_parse_networks(nets, i) is None,
    ensures
        spec_parse_networks(nets, n) is None,
    decreases n,
{
    if i < n - 1 {
        lemma_parse_networks_stuck(nets, i, n - 1);
    }
}

/// Parses the network list of an authorization.
fn parse_networks(nets: &Vec<NetworkSpec>) -> (r: Result<Vec<ClientNetwork>, IndexError>)
    ensures
        match r {
            Ok(v) => spec_parse_networks(nets.deep_view(), nets.deep_view().len() as int) == Some(
                v.deep_view(),
            ),
            Err(e) => e == IndexError::InvalidCidr && spec_parse_networks(
                nets.deep_view(),
                nets.deep_view().len() as int,
            ) is None,
        },
{
    let mut out: Vec<ClientNetwork> = Vec::new();
    let mut i: usize = 0;
    proof {
        assert(spec_parse_networks(nets.deep_view(), 0) =~~= Some(out.deep_view()));
    }
    while i < nets.len()
        invariant
            i <= nets@.len(),
            spec_parse_networks(nets.deep_view(), i as int) == Some(out.deep_view()),
        decreases nets@.len() - i,
    {
        let ghost pre = out.deep_view();
        match parse_cidr(nets[i].cidr.as_str()) {
            Some(c) => {
                match parse_excepts(&nets[i].except) {
                    Ok(ex) => {
                        out.push(ClientNetwork { net: c, except: ex });
                        proof {
                            assert(out.deep_view() =~~= pre.push(
                                ClientNetworkView { net: c, except: ex@ },
                            ));
                            assert(spec_parse_networks(nets.deep_view(), i + 1) =~~= Some(
                                out.deep_view(),
                            ));
                        }
                    },
                    Err(e) => {
                        proof {
                            lemma_parse_networks_stuck(
                                nets.deep_view(),
                                i as int,
                                nets.deep_view().len() as int,
                            );
                        }
                        return Err(e);
                    },
                }
            },
            None => {
                proof {
                    lemma_parse_networks_stuck(
                        nets.deep_view(),
                        i as int,
                        nets.deep_view().len() as int,
                    );
                }
                return Err(IndexError::InvalidCidr);
            },
        }
        i += 1;
    }
    Ok(out)
}

/// The networks an authorization grants: the listed ones, or the whole
/// internet when none are listed.
pub open spec fn spec_networks_result(networks: Option<Seq<NetworkSpecView>>) -> Result<
    Seq<ClientNetworkView>,
    IndexError,
> {
    match networks {
        None => Ok(spec_all_nets()),
        Some(nets) => match spec_parse_networks(nets, nets.len() as int) {
            Some(v) => Ok(v),
            None => Err(IndexError::InvalidCidr),
        },
    }
}

/// How an authorization selects its servers: exactly one of a name or a
/// selector must be given.
pub open spec fn spec_selector_result(server: ServerRefView) -> Result<
    crate::index::ServerSelectorView,
    IndexError,
> {
    match (server.name, server.selector) {
        (Some(n), None) => Ok(crate::index::ServerSelectorView::Name(n)),
        (None, Some(s)) => Ok(crate::index::ServerSelectorView::Selector(s)),
        (Some(_), Some(_)) => Err(IndexError::AmbiguousServerSelection),
        (None, None) => Err(IndexError::NoServerSelection),
    }
}

/// The record a `ServerAuthorization` parses into: its server selection,
/// its networks, and its authentication; or the first reason it is
/// rejected.
pub open spec fn spec_mk_authz(
    server: ServerRefView,
    client: ClientSpecView,
    authz_ns: Seq<char>,
    domain: Seq<char>,
) -> Result<AuthzStateView, IndexError> {
    match spec_selector_result(server) {
        Err(e) => Err(e),
        Ok(sel) => match spec_networks_result(client.networks) {
            Err(e) => Err(e),
            Ok(nets) => {
                let authn: Result<AuthenticationView, IndexError> = if client.unauthenticated {
                    Ok(AuthenticationView::Unauthenticated)
                } else {
                    match client.mesh_tls {
                        None => Err(IndexError::MissingMeshTls),
                        Some(m) => spec_mtls_result(m, authz_ns, domain),
                    }
                };
                match authn {
                    Err(e) => Err(e),
                    Ok(a) => Ok(
                        AuthzStateView {
                            servers: sel,
                            clients: ClientAuthorizationView { networks: nets, authentication: a },
                        },
                    ),
                }
            },
        },
    }
}

/// Parses a `ServerAuthorization` into an authorization record.
fn mk_authz(server: ServerRef, client: ClientSpec, authz_ns: &str, domain: &str) -> (r: Result<
    Authz,
    IndexError,
>)
    ensures
        match r {
            Ok(a) => spec_mk_authz(server@, client@, authz_ns@, domain@) == Ok::<
                AuthzStateView,
                IndexError,
            >(a@),
            Err(e) => spec_mk_authz(server@, client@, authz_ns@, domain@) == Err::<
                AuthzStateView,
                IndexError,
            >(e),
        },
{
    let sel = match (server.name, server.selector) {
        (Some(n), None) => ServerSelector::Name(n),
        (None, Some(s)) => ServerSelector::Selector(s),
        (Some(_), Some(_)) => {
            return Err(IndexError::AmbiguousServerSelection);
        },
        (None, None) => {
            return Err(IndexError::NoServerSelection);
        },
    };
    let networks = match &client.networks {
        None => {
            let mut v: Vec<ClientNetwork> = Vec::new();
            v.push(ClientNetwork::any(true));
            v.push(ClientNetwork::any(false));
            proof {
                assert(v.deep_view() =~~= spec_all_nets());
            }
            v
        },
        Some(nets) => match parse_networks(nets) {
            Ok(v) => v,
            Err(e) => {
                return Err(e);
            },
        },
    };
    let authentication = if client.unauthenticated {
        ClientAuthentication::Unauthenticated
    } else {
        match client.mesh_tls {
            None => {
                return Err(IndexError::MissingMeshTls);
            },
            Some(m) => match mk_mtls_authn(m, authz_ns, domain) {
                Ok(a) => a,
                Err(e) => {
                    return Err(e);
                },
            },
        }
    };
    let a = Authz {
        servers: sel,
        clients: ClientAuthorization { networks, authentication },
    };
    proof {
        assert(a@.clients =~~= (match spec_mk_authz(server@, client@, authz_ns@, domain@) {
            Ok(v) => v.clients,
            Err(_) => a@.clients,
        }));
        assert(spec_mk_authz(server@, client@, authz_ns@, domain@) =~~= Ok::<
            AuthzStateView,
            IndexError,
        >(a@));
    }
    Ok(a)
}

/// The index after an authorization is applied: its namespace exists; when
/// the resource parses, the record is stored under its name and the
/// namespace's derived state is recomputed; when it is rejected, nothing
/// else changes.
pub open spec fn spec_apply_authz(idx: IndexView, res: AuthzResourceView) -> IndexView {
    let idx1 = spec_create_ns_local(idx, res.ns);
    match spec_mk_authz(res.server, res.client, res.ns, idx.identity_domain) {
        Err(_) => idx1,
        Ok(a) => {
            let i = alist_first(idx1.namespaces, res.ns);
            let nsv = idx1.namespaces[i].1;
            let ns2 = spec_refresh_ns(
                NamespaceView { authzs: alist_upsert(nsv.authzs, res.name, a), ..nsv },
            );
            IndexView { namespaces: idx1.namespaces.update(i, (res.ns, ns2)), ..idx1 }
        },
    }
}

/// The index with the namespace present.
pub open spec fn spec_create_ns_local(idx: IndexView, ns: Seq<char>) -> IndexView {
    crate::index::spec_create_ns(idx, ns)
}

impl Index {
    /// Applies a `ServerAuthorization`: parses it, stores it under its
    /// namespace and name, and recomputes which servers it matches.  A
    /// rejected resource leaves everything but the namespace's existence
    /// unchanged.
    pub fn apply_authz(&mut self, authz: AuthzResource) -> (r: Result<(), IndexError>)
        ensures
            final(self)@ == spec_apply_authz(old(self)@, authz@),
            match r {
                Ok(()) => spec_mk_authz(
                    authz@.server,
                    authz@.client,
                    authz@.ns,
                    old(self)@.identity_domain,
                ) is Ok,
                Err(e) => spec_mk_authz(
                    authz@.server,
                    authz@.client,
                    authz@.ns,
                    old(self)@.identity_domain,
                ) == Err::<AuthzStateView, IndexError>(e),
            },
            old(self)@.wf() ==> final(self)@.wf(),
    {
        let AuthzResource { ns, name, server, client } = authz;
        let i = self.get_or_create_ns(ns.as_str());
        let ghost idx1 = self@;
        let a = match mk_authz(server, client, ns.as_str(), self.identity_domain.as_str()) {
            Ok(a) => a,
            Err(e) => {
                return Err(e);
            },
        };
        let ghost av = a@;
        let ghost ns_pre = self.namespaces@[i as int].1@;
        match find_entry(&self.namespaces[i].1.authzs.entries, name.as_str()) {
            Some(j) => {
                self.namespaces[i].1.authzs.entries[j].1 = a;
            },
            None => {
                self.namespaces[i].1.authzs.entries.push((name, a));
            },
        }
        proof {
            assert(self.namespaces@[i as int].1@.authzs =~~= alist_upsert(
                ns_pre.authzs,
                authz@.name,
                av,
            ));
            assert(self.namespaces@[i as int].1@ =~~= (NamespaceView {
                authzs: alist_upsert(ns_pre.authzs, authz@.name, av),
                ..ns_pre
            }));
        }
        let ghost ns_mid = self.namespaces@[i as int].1@;
        refresh_namespace(&mut self.namespaces[i].1);
        proof {
            assert(self.namespaces@[i as int].1@ == spec_refresh_ns(ns_mid));
            assert(self@.namespaces =~~= idx1.namespaces.update(
                i as int,
                (authz@.ns, spec_refresh_ns(ns_mid)),
            ));
            assert(self@ =~~= spec_apply_authz(old(self)@, authz@));
            if old(self)@.wf() {
                lemma_apply_authz_wf(idx1, i as int, authz@.name, av);
            }
        }
        Ok(())
    }
}

/// Upserting an authorization and refreshing keeps the index well-formed.
proof fn lemma_apply_authz_wf(idx1: IndexView, i: int, name: Seq<char>, a: AuthzStateView)
    requires
        idx1.wf(),
        0 <= i < idx1.namespaces.len(),
    ensures
        ({
            let nsv = idx1.namespaces[i].1;
            let ns2 = spec_refresh_ns(
                NamespaceView { authzs: alist_upsert(nsv.authzs, name, a), ..nsv },
            );
            IndexView {
                namespaces: idx1.namespaces.update(i, (idx1.namespaces[i].0, ns2)),
                ..idx1
            }.wf()
        }),
{
    let nsv = idx1.namespaces[i].1;
    let mid = NamespaceView { authzs: alist_upsert(nsv.authzs, name, a), ..nsv };
    lemma_alist_upsert_unique(nsv.authzs, name, a);
    assert(mid.wf());
    lemma_refresh_ns_wf(mid);
    let ns2 = spec_refresh_ns(mid);
    let out = IndexView {
        namespaces: idx1.namespaces.update(i, (idx1.namespaces[i].0, ns2)),
        ..idx1
    };
    assert forall|x: int, y: int| 0 <= x < y < out.namespaces.len() implies (
    #[trigger] out.namespaces[x]).0 != (#[trigger] out.namespaces[y]).0 by {
        assert(idx1.namespaces[x].0 != idx1.namespaces[y].0);
    }
    assert forall|x: int| 0 <= x < out.namespaces.len() implies (
    #[trigger] out.namespaces[x]).1.wf() by {
        if x != i {
            assert(idx1.namespaces[x].1.wf());
        }
    }
}

/// The index after an authorization is deleted: the record under its name
/// is removed and the namespace's derived state recomputed; an unknown
/// namespace or name leaves the rest unchanged.
pub open spec fn spec_delete_authz(idx: IndexView, ns: Seq<char>, name: Seq<char>) -> IndexView {
    if !alist_has(idx.namespaces, ns) {
        idx
    } else {
        let i = alist_first(idx.namespaces, ns);
        let nsv = idx.namespaces[i].1;
        let ns2 = spec_refresh_ns(
            NamespaceView { authzs: alist_remove(nsv.authzs, name), ..nsv },
        );
        IndexView { namespaces: idx.namespaces.update(i, (idx.namespaces[i].0, ns2)), ..idx }
    }
}

impl Index {
    /// Deletes a `ServerAuthorization`: removes its record and republishes
    /// the servers it had matched.
    pub fn delete_authz(&mut self, authz: AuthzResource)
        ensures
            final(self)@ == spec_delete_authz(old(self)@, authz@.ns, authz@.name),
            old(self)@.wf() ==> final(self)@.wf(),
    {
        self.remove_authz(authz.ns.as_str(), authz.name.as_str());
    }

    /// Removes the named authorization, if present, and republishes.
    pub(crate) fn remove_authz(&mut self, ns: &str, name: &str)
        ensures
            final(self)@ == spec_delete_authz(old(self)@, ns@, name@),
            old(self)@.wf() ==> final(self)@.wf(),
    {
        let i = match find_entry(&self.namespaces, ns) {
            Some(i) => i,
            None => {
                return ;
            },
        };
        let ghost ns_pre = self.namespaces@[i as int].1@;
        match find_entry(&self.namespaces[i].1.authzs.entries, name) {
            Some(j) => {
                self.namespaces[i].1.authzs.entries.remove(j);
            },
            None => {},
        }
        proof {
            assert(self.namespaces@[i as int].1@.authzs =~~= alist_remove(ns_pre.authzs, name@));
            assert(self.namespaces@[i as int].1@ =~~= (NamespaceView {
                authzs: alist_remove(ns_pre.authzs, name@),
                ..ns_pre
            }));
        }
        let ghost ns_mid = self.namespaces@[i as int].1@;
        refresh_namespace(&mut self.namespaces[i].1);
        proof {
            assert(self@.namespaces =~~= old(self)@.namespaces.update(
                i as int,
                (old(self)@.namespaces[i as int].0, spec_refresh_ns(ns_mid)),
            ));
            assert(self@ =~~= spec_delete_authz(old(self)@, ns@, name@));
            if old(self)@.wf() {
                lemma_delete_authz_wf(old(self)@, i as int, name@);
            }
        }
    }
}

/// The `(namespace, name)` keys of a list of authorization resources.
pub open spec fn authz_keys(rs: Seq<AuthzResourceView>) -> Seq<(Seq<char>, Seq<char>)> {
    Seq::new(rs.len(), |k: int| (rs[k].ns, rs[k].name))
}

/// The index after the first `n` authorizations of a restart batch are
/// applied in order.
pub open spec fn spec_apply_authzs(idx: IndexView, rs: Seq<AuthzResourceView>, n: int) -> IndexView
    decreases n,
{
    if n <= 0 {
        idx
    } else {
        spec_apply_authz(spec_apply_authzs(idx, rs, n - 1), rs[n - 1])
    }
}

/// The outcome of applying a restart batch: the last rejection, if any.
pub open spec fn spec_apply_authzs_result(
    rs: Seq<AuthzResourceView>,
    n: int,
    domain: Seq<char>,
) -> Result<(), IndexError>
    decreases n,
{
    if n <= 0 {
        Ok(())
    } else {
        match spec_mk_authz(rs[n - 1].server, rs[n - 1].client, rs[n - 1].ns, domain) {
            Err(e) => Err(e),
            Ok(_) => spec_apply_authzs_result(rs, n - 1, domain),
        }
    }
}

/// The keyed records among the first `n` of a namespace that the restart
/// batch does not name, as `(namespace, name)` pairs in order.
pub open spec fn stale_keys_in<T>(
    ns_name: Seq<char>,
    entries: Seq<(Seq<char>, T)>,
    n: int,
    keys: Seq<(Seq<char>, Seq<char>)>,
) -> Seq<(Seq<char>, Seq<char>)>
    decreases n,
{
    if n <= 0 {
        Seq::empty()
    } else {
        let prev = stale_keys_in(ns_name, entries, n - 1, keys);
        if !crate::labels::has_label(keys, ns_name, entries[n - 1].0) {
            prev.push((ns_name, entries[n - 1].0))
        } else {
            prev
        }
    }
}

/// The stale authorization keys of the first `n` namespaces.
pub open spec fn stale_authz_keys(
    nss: Seq<(Seq<char>, NamespaceView)>,
    n: int,
    keys: Seq<(Seq<char>, Seq<char>)>,
) -> Seq<(Seq<char>, Seq<char>)>
    decreases n,
{
    if n <= 0 {
        Seq::empty()
    } else {
        stale_authz_keys(nss, n - 1, keys) + stale_keys_in(
            nss[n - 1].0,
            nss[n - 1].1.authzs,
            nss[n - 1].1.authzs.len() as int,
            keys,
        )
    }
}

/// The index after the first `n` stale authorizations are deleted in
/// order.
pub open spec fn spec_delete_authzs(
    idx: IndexView,
    ks: Seq<(Seq<char>, Seq<char>)>,
    n: int,
) -> IndexView
    decreases n,
{
    if n <= 0 {
        idx
    } else {
        spec_delete_authz(spec_delete_authzs(idx, ks, n - 1), ks[n - 1].0, ks[n - 1].1)
    }
}

/// The index after a restart of the authorization stream: every
/// authorization of the batch applied in order, then every previously held
/// authorization the batch does not name deleted.
pub open spec fn spec_reset_authzs(idx: IndexView, rs: Seq<AuthzResourceView>) -> IndexView {
    let mid = spec_apply_authzs(idx, rs, rs.len() as int);
    let ks = stale_authz_keys(mid.namespaces, mid.namespaces.len() as int, authz_keys(rs));
    spec_delete_authzs(mid, ks, ks.len() as int)
}

impl Index {
    /// Collects the `(namespace, name)` keys of every held authorization
    /// that the batch does not name.
    fn stale_authzs(&self, keys: &Vec<(String, String)>) -> (r: Vec<(String, String)>)
        ensures
            r.deep_view() == stale_authz_keys(
                self@.namespaces,
                self@.namespaces.len() as int,
                keys.deep_view(),
            ),
    {
        let ghost kd = keys.deep_view();
        let mut out: Vec<(String, String)> = Vec::new();
        let mut i: usize = 0;
        proof {
            assert(out.deep_view() =~~= stale_authz_keys(self@.namespaces, 0, kd));
        }
        while i < self.namespaces.len()
            invariant
                i <= self.namespaces@.len(),
                kd == keys.deep_view(),
                out.deep_view() == stale_authz_keys(self@.namespaces, i as int, kd),
            decreases self.namespaces@.len() - i,
        {
            proof {
                assert(self@.namespaces[i as int] == (
                    self.namespaces@[i as int].0@,
                    self.namespaces@[i as int].1@,
                ));
            }
            let ghost nsn = self@.namespaces[i as int].0;
            let ghost entries = self@.namespaces[i as int].1.authzs;
            let mut j: usize = 0;
            proof {
                assert(out.deep_view() =~~= stale_authz_keys(self@.namespaces, i as int, kd)
                    + stale_keys_in(nsn, entries, 0, kd));
            }
            while j < self.namespaces[i].1.authzs.entries.len()
                invariant
                    0 <= i < self.namespaces@.len(),
                    kd == keys.deep_view(),
                    nsn == self@.namespaces[i as int].0,
                    entries == self@.namespaces[i as int].1.authzs,
                    j <= self.namespaces@[i as int].1.authzs.entries@.len(),
                    entries.len() == self.namespaces@[i as int].1.authzs.entries@.len(),
                    out.deep_view() == stale_authz_keys(self@.namespaces, i as int, kd)
                        + stale_keys_in(nsn, entries, j as int, kd),
                decreases self.namespaces@[i as int].1.authzs.entries@.len() - j,
            {
                let ghost pre = out.deep_view();
                proof {
                    assert(entries[j as int] == (
                        self.namespaces@[i as int].1.authzs.entries@[j as int].0@,
                        self.namespaces@[i as int].1.authzs.entries@[j as int].1@,
                    ));
                }
                if !crate::labels::labels_contain(
                    keys,
                    self.namespaces[i].0.as_str(),
                    self.namespaces[i].1.authzs.entries[j].0.as_str(),
                ) {
                    out.push(
                        (
                            self.namespaces[i].0.clone(),
                            self.namespaces[i].1.authzs.entries[j].0.clone(),
                        ),
                    );
                    proof {
                        assert(out.deep_view() =~~= pre.push((nsn, entries[j as int].0)));
                    }
                }
                j += 1;
                proof {
                    assert(out.deep_view() =~~= stale_authz_keys(self@.namespaces, i as int, kd)
                        + stale_keys_in(nsn, entries, j as int, kd));
                }
            }
            i += 1;
            proof {
                assert(out.deep_view() =~~= stale_authz_keys(self@.namespaces, i as int, kd));
            }
        }
        out
    }

    /// Handles a restart of the authorization stream: the batch is the
    /// source of truth.  Every authorization in it is applied; every held
    /// authorization it does not name is deleted.  The last rejection, if
    /// any, is reported.
    pub fn reset_authzs(&mut self, authzs: Vec<AuthzResource>) -> (r: Result<(), IndexError>)
        ensures
            final(self)@ == spec_reset_authzs(old(self)@, authzs.deep_view()),
            r == spec_apply_authzs_result(
                authzs.deep_view(),
                authzs.deep_view().len() as int,
                old(self)@.identity_domain,
            ),
            old(self)@.wf() ==> final(self)@.wf(),
    {
        let ghost rs = authzs.deep_view();
        let mut keys: Vec<(String, String)> = Vec::new();
        let mut k: usize = 0;
        while k < authzs.len()
            invariant
                k <= authzs@.len(),
                rs == authzs.deep_view(),
                keys@.len() == k,
                forall|x: int|
                    0 <= x < k ==> ((#[trigger] keys@[x]).0@ == rs[x].ns && keys@[x].1@
                        == rs[x].name),
            decreases authzs@.len() - k,
        {
            keys.push((authzs[k].ns.clone(), authzs[k].name.clone()));
            k += 1;
        }
        proof {
            assert(keys.deep_view() =~~= authz_keys(rs));
        }
        let ghost domain0 = self@.identity_domain;
        let mut result: Result<(), IndexError> = Ok(());
        let mut batch = authzs;
        let ghost total = rs.len();
        let ghost mut t: int = 0;
        while batch.len() > 0
            invariant
                0 <= t <= total,
                total == rs.len(),
                batch.deep_view() == rs.skip(t),
                batch@.len() == total - t,
                self@ == spec_apply_authzs(old(self)@, rs, t),
                self@.identity_domain == domain0,
                domain0 == old(self)@.identity_domain,
                result == spec_apply_authzs_result(rs, t, domain0),
                old(self)@.wf() ==> self@.wf(),
            decreases batch@.len(),
        {
            let ghost prevec = batch@;
            let ghost predeep = batch.deep_view();
            let a = batch.remove(0);
            proof {
                assert(rs.skip(t)[0] == rs[t]);
                assert(a@ == predeep[0]);
                assert(a@ == rs[t]);
                assert forall|x: int| 0 <= x < batch@.len() implies #[trigger] batch.deep_view()[x]
                    == rs.skip(t + 1)[x] by {
                    assert(batch@[x] == prevec[x + 1]);
                    assert(batch.deep_view()[x] == batch@[x].deep_view());
                    assert(predeep[x + 1] == prevec[x + 1].deep_view());
                    assert(predeep[x + 1] == rs.skip(t)[x + 1]);
                    assert(rs.skip(t)[x + 1] == rs[t + 1 + x]);
                    assert(rs.skip(t + 1)[x] == rs[t + 1 + x]);
                }
                assert(batch.deep_view() =~~= rs.skip(t + 1));
            }
            match self.apply_authz(a) {
                Ok(()) => {},
                Err(e) => {
                    result = Err(e);
                },
            }
            proof {
                t = t + 1;
            }
        }
        proof {
            assert(rs.skip(total as int).len() == 0);
            assert(t == total);
        }
        let stale = self.stale_authzs(&keys);
        let ghost mid = self@;
        let ghost ks = stale.deep_view();
        let mut d: usize = 0;
        proof {
            assert(ks == stale_authz_keys(mid.namespaces, mid.namespaces.len() as int, authz_keys(rs)));
        }
        while d < stale.len()
            invariant
                d <= stale@.len(),
                ks == stale.deep_view(),
                self@ == spec_delete_authzs(mid, ks, d as int),
                old(self)@.wf() ==> mid.wf(),
                mid.wf() ==> self@.wf(),
            decreases stale@.len() - d,
        {
            proof {
                assert(ks[d as int] == (stale@[d as int].0@, stale@[d as int].1@));
            }
            self.remove_authz(stale[d].0.as_str(), stale[d].1.as_str());
            d += 1;
        }
        proof {
            assert(self@ == spec_reset_authzs(old(self)@, rs));
        }
        result
    }
}

/// Removing an authorization and refreshing keeps the index well-formed.
proof fn lemma_delete_authz_wf(idx: IndexView, i: int, name: Seq<char>)
    requires
        idx.wf(),
        0 <= i < idx.namespaces.len(),
    ensures
        ({
            let nsv = idx.namespaces[i].1;
            let ns2 = spec_refresh_ns(
                NamespaceView { authzs: alist_remove(nsv.authzs, name), ..nsv },
            );
            IndexView {
                namespaces: idx.namespaces.update(i, (idx.namespaces[i].0, ns2)),
                ..idx
            }.wf()
        }),
{
    let nsv = idx.namespaces[i].1;
    let mid = NamespaceView { authzs: alist_remove(nsv.authzs, name), ..nsv };
    lemma_alist_remove_unique(nsv.authzs, name);
    assert(mid.wf());
    lemma_refresh_ns_wf(mid);
    let ns2 = spec_refresh_ns(mid);
    let out = IndexView {
        namespaces: idx.namespaces.update(i, (idx.namespaces[i].0, ns2)),
        ..idx
    };
    assert forall|x: int, y: int| 0 <= x < y < out.namespaces.len() implies (
    #[trigger] out.namespaces[x]).0 != (#[trigger] out.namespaces[y]).0 by {
        assert(idx.namespaces[x].0 != idx.namespaces[y].0);
    }
    assert forall|x: int| 0 <= x < out.namespaces.len() implies (
    #[trigger] out.namespaces[x]).1.wf() by {
        if x != i {
            assert(idx.namespaces[x].1.wf());
        }
    }
}

} // verus!
