//! The published data model: protocols, client authorizations, and the
//! per-(pod, port) `InboundServer` configuration.

use vstd::prelude::*;
use crate::net::{Cidr, ClientNetwork, ClientNetworkView, IpAddress};
use crate::text::str_eq;

verus! {

/// The protocol a server expects; `Detect` carries its timeout in
/// milliseconds.
#[derive(Clone, Copy, Debug, PartialEq, Eq, Structural)]
pub enum Protocol {
    Detect { timeout_ms: u64 },
    Http1,
    Http2,
    Grpc,
    Opaque,
    Tls,
}

/// How a TLS client identity is matched: by exact name, or by a dotted
/// suffix (an empty part list matches every identity).
#[derive(Debug)]
pub enum ClientIdentityMatch {
    Name(String),
    Suffix(Vec<String>),
}

/// View of an identity match.
#[verifier::ext_equal]
pub enum IdentityMatchView {
    Name(Seq<char>),
    Suffix(Seq<Seq<char>>),
}

impl View for ClientIdentityMatch {
    type V = IdentityMatchView;

    open spec fn view(&self) -> IdentityMatchView {
        match self {
            ClientIdentityMatch::Name(n) => IdentityMatchView::Name(n@),
            ClientIdentityMatch::Suffix(parts) => IdentityMatchView::Suffix(parts.deep_view()),
        }
    }
}

impl DeepView for ClientIdentityMatch {
    type V = IdentityMatchView;

    open spec fn deep_view(&self) -> IdentityMatchView {
        self.view()
    }
}

impl Clone for ClientIdentityMatch {
    /// A clone matches the same identities.
    fn clone(&self) -> (r: Self)
        ensures
            r@ == self@,
    {
        match self {
            ClientIdentityMatch::Name(n) => ClientIdentityMatch::Name(n.clone()),
            ClientIdentityMatch::Suffix(parts) => {
                let ps = parts.clone();
                proof {
                    assert(ps@ =~= parts@);
                }
                ClientIdentityMatch::Suffix(ps)
            },
        }
    }
}

/// The client authentication a server requires.
#[derive(Debug)]
pub enum ClientAuthentication {
    /// Any client, with or without TLS.
    Unauthenticated,
    /// TLS, but no verified client identity.
    TlsUnauthenticated,
    /// TLS with a verified identity matching one of the listed matches.
    TlsAuthenticated(Vec<ClientIdentityMatch>),
}

/// View of a client authentication.
#[verifier::ext_equal]
pub enum AuthenticationView {
    Unauthenticated,
    TlsUnauthenticated,
    TlsAuthenticated(Seq<IdentityMatchView>),
}

impl View for ClientAuthentication {
    type V = AuthenticationView;

    open spec fn view(&self) -> AuthenticationView {
        match self {
            ClientAuthentication::Unauthenticated => AuthenticationView::Unauthenticated,
            ClientAuthentication::TlsUnauthenticated => AuthenticationView::TlsUnauthenticated,
            ClientAuthentication::TlsAuthenticated(ids) => AuthenticationView::TlsAuthenticated(
                ids.deep_view(),
            ),
        }
    }
}

impl DeepView for ClientAuthentication {
    type V = AuthenticationView;

    open spec fn deep_view(&self) -> AuthenticationView {
        self.view()
    }
}

impl Clone for ClientAuthentication {
    /// A clone requires the same authentication.
    fn clone(&self) -> (r: Self)
        ensures
            r@ == self@,
    {
        match self {
            ClientAuthentication::Unauthenticated => ClientAuthentication::Unauthenticated,
            ClientAuthentication::TlsUnauthenticated => ClientAuthentication::TlsUnauthenticated,
            ClientAuthentication::TlsAuthenticated(ids) => {
                let mut r: Vec<ClientIdentityMatch> = Vec::new();
                let mut i: usize = 0;
                while i < ids.len()
                    invariant
                        i <= ids@.len(),
                        r@.len() == i,
                        forall|j: int| 0 <= j < i ==> #[trigger] r@[j]@ == ids@[j]@,
                    decreases ids@.len() - i,
                {
                    r.push(ids[i].clone());
                    i += 1;
                }
                proof {
                    assert forall|j: int| 0 <= j < r@.len() implies #[trigger] r.deep_view()[j]
                        == ids.deep_view()[j] by {
                        assert(r@[j]@ == ids@[j]@);
                    }
                    assert(r.deep_view() =~~= ids.deep_view());
                }
                ClientAuthentication::TlsAuthenticated(r)
            },
        }
    }
}

/// A client authorization: which networks may connect, and with what
/// authentication.
#[derive(Debug)]
pub struct ClientAuthorization {
    pub networks: Vec<ClientNetwork>,
    pub authentication: ClientAuthentication,
}

/// View of a client authorization.
#[verifier::ext_equal]
pub struct ClientAuthorizationView {
    pub networks: Seq<ClientNetworkView>,
    pub authentication: AuthenticationView,
}

impl View for ClientAuthorization {
    type V = ClientAuthorizationView;

    open spec fn view(&self) -> ClientAuthorizationView {
        ClientAuthorizationView {
            networks: self.networks.deep_view(),
            authentication: self.authentication@,
        }
    }
}

impl DeepView for ClientAuthorization {
    type V = ClientAuthorizationView;

    open spec fn deep_view(&self) -> ClientAuthorizationView {
        self.view()
    }
}

impl Clone for ClientAuthorization {
    /// A clone authorizes the same clients.
    fn clone(&self) -> (r: Self)
        ensures
            r@ == self@,
    {
        let nets = self.networks.clone();
        proof {
            assert forall|j: int| 0 <= j < nets@.len() implies #[trigger] nets.deep_view()[j]
                == self.networks.deep_view()[j] by {
                assert(cloned::<ClientNetwork>(self.networks@[j], nets@[j]));
            }
            assert(nets.deep_view() =~~= self.networks.deep_view());
        }
        ClientAuthorization { networks: nets, authentication: self.authentication.clone() }
    }
}

/// The per-(pod, port) configuration published to the data plane: the
/// protocol and the named client authorizations.
#[derive(Debug)]
pub struct InboundServer {
    pub protocol: Protocol,
    pub authorizations: Vec<(String, ClientAuthorization)>,
}

/// View of an inbound server: the protocol and the named authorizations in
/// publication order.
#[verifier::ext_equal]
pub struct InboundServerView {
    pub protocol: Protocol,
    pub authorizations: Seq<(Seq<char>, ClientAuthorizationView)>,
}

impl View for InboundServer {
    type V = InboundServerView;

    open spec fn view(&self) -> InboundServerView {
        InboundServerView {
            protocol: self.protocol,
            authorizations: self.authorizations.deep_view(),
        }
    }
}

impl DeepView for InboundServer {
    type V = InboundServerView;

    open spec fn deep_view(&self) -> InboundServerView {
        self.view()
    }
}

impl InboundServerView {
    /// The authorizations as a name-keyed map.
    pub open spec fn as_map(self) -> Map<Seq<char>, ClientAuthorizationView> {
        Map::new(
            |name: Seq<char>|
                exists|i: int|
                    0 <= i < self.authorizations.len() && (#[trigger] self.authorizations[i]).0
                        == name,
            |name: Seq<char>|
                {
                    let i = choose|i: int|
                        0 <= i < self.authorizations.len() && (#[trigger] self.authorizations[i]).0
                            == name;
                    self.authorizations[i].1
                },
        )
    }

    /// Authorization names are pairwise distinct.
    pub open spec fn names_unique(self) -> bool {
        forall|i: int, j: int|
            0 <= i < j < self.authorizations.len() ==> (#[trigger] self.authorizations[i]).0 != (
            #[trigger] self.authorizations[j]).0
    }
}

/// A copy of a named-authorization list, entry for entry.
pub fn clone_authz_list(v: &Vec<(String, ClientAuthorization)>) -> (r: Vec<
    (String, ClientAuthorization),
>)
    ensures
        r.deep_view() == v.deep_view(),
{
    let mut r: Vec<(String, ClientAuthorization)> = Vec::new();
    let mut i: usize = 0;
    while i < v.len()
        invariant
            i <= v@.len(),
            r@.len() == i,
            forall|j: int|
                0 <= j < i ==> ((#[trigger] r@[j]).0@ == v@[j].0@ && r@[j].1@ == v@[j].1@),
        decreases v@.len() - i,
    {
        r.push((v[i].0.clone(), v[i].1.clone()));
        i += 1;
    }
    proof {
        assert forall|j: int| 0 <= j < r@.len() implies #[trigger] r.deep_view()[j]
            == v.deep_view()[j] by {
            assert(r@[j].0@ == v@[j].0@ && r@[j].1@ == v@[j].1@);
        }
        assert(r.deep_view() =~~= v.deep_view());
    }
    r
}

impl Clone for InboundServer {
    /// A clone publishes the same configuration.
    fn clone(&self) -> (r: Self)
        ensures
            r@ == self@,
    {
        InboundServer {
            protocol: self.protocol,
            authorizations: clone_authz_list(&self.authorizations),
        }
    }
}

/// The kubelet addresses of the node hosting a pod.
#[derive(Debug, PartialEq, Eq)]
pub struct KubeletIps {
    pub addrs: Vec<IpAddress>,
}

impl View for KubeletIps {
    type V = Seq<IpAddress>;

    open spec fn view(&self) -> Seq<IpAddress> {
        self.addrs@
    }
}

impl DeepView for KubeletIps {
    type V = Seq<IpAddress>;

    open spec fn deep_view(&self) -> Seq<IpAddress> {
        self.view()
    }
}

impl Clone for KubeletIps {
    /// A clone holds the same addresses.
    fn clone(&self) -> (r: Self)
        ensures
            r@ == self@,
    {
        let addrs = self.addrs.clone();
        proof {
            assert(addrs@ =~= self.addrs@);
        }
        KubeletIps { addrs }
    }
}

/// Whether two lists of suffix parts are equal.
pub fn string_vec_eq(a: &Vec<String>, b: &Vec<String>) -> (r: bool)
    ensures
        r == (a.deep_view() == b.deep_view()),
{
    if a.len() != b.len() {
        assert(a.deep_view().len() != b.deep_view().len());
        return false;
    }
    let mut i: usize = 0;
    while i < a.len()
        invariant
            i <= a@.len(),
            a@.len() == b@.len(),
            forall|j: int| 0 <= j < i ==> #[trigger] a.deep_view()[j] == b.deep_view()[j],
        decreases a@.len() - i,
    {
        if !str_eq(a[i].as_str(), b[i].as_str()) {
            assert(a.deep_view()[i as int] != b.deep_view()[i as int]);
            return false;
        }
        assert(a.deep_view()[i as int] == b.deep_view()[i as int]);
        i += 1;
    }
    proof {
        assert(a.deep_view() =~= b.deep_view());
    }
    true
}

/// Whether two identity matches are equal.
pub fn identity_match_eq(a: &ClientIdentityMatch, b: &ClientIdentityMatch) -> (r: bool)
    ensures
        r == (a@ == b@),
{
    match (a, b) {
        (ClientIdentityMatch::Name(x), ClientIdentityMatch::Name(y)) => str_eq(
            x.as_str(),
            y.as_str(),
        ),
        (ClientIdentityMatch::Suffix(x), ClientIdentityMatch::Suffix(y)) => string_vec_eq(x, y),
        _ => false,
    }
}

/// Whether two authentications are equal.
pub fn authentication_eq(a: &ClientAuthentication, b: &ClientAuthentication) -> (r: bool)
    ensures
        r == (a@ == b@),
{
    match (a, b) {
        (ClientAuthentication::Unauthenticated, ClientAuthentication::Unauthenticated) => true,
        (ClientAuthentication::TlsUnauthenticated, ClientAuthentication::TlsUnauthenticated) => true,
        (
            ClientAuthentication::TlsAuthenticated(x),
            ClientAuthentication::TlsAuthenticated(y),
        ) => {
            proof {
                assert(a@ == AuthenticationView::TlsAuthenticated(x.deep_view()));
                assert(b@ == AuthenticationView::TlsAuthenticated(y.deep_view()));
            }
            if x.len() != y.len() {
                assert(x.deep_view().len() != y.deep_view().len());
                return false;
            }
            let mut i: usize = 0;
            while i < x.len()
                invariant
                    i <= x@.len(),
                    x@.len() == y@.len(),
                    a@ == AuthenticationView::TlsAuthenticated(x.deep_view()),
                    b@ == AuthenticationView::TlsAuthenticated(y.deep_view()),
                    forall|j: int| 0 <= j < i ==> #[trigger] x.deep_view()[j] == y.deep_view()[j],
                decreases x@.len() - i,
            {
                if !identity_match_eq(&x[i], &y[i]) {
                    assert(x.deep_view()[i as int] != y.deep_view()[i as int]);
                    return false;
                }
                assert(x.deep_view()[i as int] == y.deep_view()[i as int]);
                i += 1;
            }
            proof {
                assert(x.deep_view() =~= y.deep_view());
            }
            true
        },
        _ => false,
    }
}

/// Whether two CIDR lists are equal.
pub fn cidr_vec_eq(a: &Vec<Cidr>, b: &Vec<Cidr>) -> (r: bool)
    ensures
        r == (a@ == b@),
{
    if a.len() != b.len() {
        return false;
    }
    let mut i: usize = 0;
    while i < a.len()
        invariant
            i <= a@.len(),
            a@.len() == b@.len(),
            forall|j: int| 0 <= j < i ==> a@[j] == b@[j],
        decreases a@.len() - i,
    {
        if !(a[i] == b[i]) {
            return false;
        }
        i += 1;
    }
    proof {
        assert(a@ =~= b@);
    }
    true
}

/// Whether two client networks are equal.
pub fn network_eq(a: &ClientNetwork, b: &ClientNetwork) -> (r: bool)
    ensures
        r == (a@ == b@),
{
    if !(a.net == b.net) {
        return false;
    }
    let r = cidr_vec_eq(&a.except, &b.except);
    proof {
        if r {
            assert(a@ =~= b@);
        }
    }
    r
}

/// Whether two client authorizations are equal.
pub fn client_authorization_eq(a: &ClientAuthorization, b: &ClientAuthorization) -> (r: bool)
    ensures
        r == (a@ == b@),
{
    if !authentication_eq(&a.authentication, &b.authentication) {
        return false;
    }
    if a.networks.len() != b.networks.len() {
        assert(a.networks.deep_view().len() != b.networks.deep_view().len());
        return false;
    }
    let mut i: usize = 0;
    while i < a.networks.len()
        invariant
            i <= a.networks@.len(),
            a.networks@.len() == b.networks@.len(),
            a.authentication@ == b.authentication@,
            forall|j: int|
                0 <= j < i ==> #[trigger] a.networks.deep_view()[j] == b.networks.deep_view()[j],
        decreases a.networks@.len() - i,
    {
        if !network_eq(&a.networks[i], &b.networks[i]) {
            assert(a.networks.deep_view()[i as int] != b.networks.deep_view()[i as int]);
            return false;
        }
        assert(a.networks.deep_view()[i as int] == b.networks.deep_view()[i as int]);
        i += 1;
    }
    proof {
        assert(a.networks.deep_view() =~= b.networks.deep_view());
        assert(a@ =~= b@);
    }
    true
}

/// Whether two inbound-server configurations are equal: the discovery
/// stream's deduplication test.
pub fn inbound_server_eq(a: &InboundServer, b: &InboundServer) -> (r: bool)
    ensures
        r == (a@ == b@),
{
    if !(a.protocol == b.protocol) {
        return false;
    }
    if a.authorizations.len() != b.authorizations.len() {
        assert(a.authorizations.deep_view().len() != b.authorizations.deep_view().len());
        return false;
    }
    let mut i: usize = 0;
    while i < a.authorizations.len()
        invariant
            i <= a.authorizations@.len(),
            a.authorizations@.len() == b.authorizations@.len(),
            a.protocol == b.protocol,
            forall|j: int|
                0 <= j < i ==> #[trigger] a.authorizations.deep_view()[j]
                    == b.authorizations.deep_view()[j],
        decreases a.authorizations@.len() - i,
    {
        if !str_eq(a.authorizations[i].0.as_str(), b.authorizations[i].0.as_str()) {
            proof {
                assert(a.authorizations.deep_view()[i as int]
                    != b.authorizations.deep_view()[i as int]);
                assert(a@.authorizations == a.authorizations.deep_view());
                assert(b@.authorizations == b.authorizations.deep_view());
            }
            return false;
        }
        if !client_authorization_eq(&a.authorizations[i].1, &b.authorizations[i].1) {
            proof {
                assert(a.authorizations.deep_view()[i as int]
                    != b.authorizations.deep_view()[i as int]);
                assert(a@.authorizations == a.authorizations.deep_view());
                assert(b@.authorizations == b.authorizations.deep_view());
            }
            return false;
        }
        assert(a.authorizations.deep_view()[i as int] == b.authorizations.deep_view()[i as int]);
        i += 1;
    }
    proof {
        assert(a.authorizations.deep_view() =~= b.authorizations.deep_view());
        assert(a@ =~= b@);
    }
    true
}

} // verus!
