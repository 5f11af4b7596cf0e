//! The consumer side: decoding a wire message into an `Inbound`
//! configuration, and checking a client connection against it.

use vstd::prelude::*;
use crate::inbound::Protocol;
use crate::net::{ClientNetwork, ClientNetworkView, IpAddress};
use crate::text::{join_dots, push_char, str_ends_with, str_eq, join_with_dots};
use crate::wire::{
    WireAuthn, WireAuthnView, WireAuthz, WireAuthzView, WireMeshTlsClients,
    WireMeshTlsClientsView, WireNetwork, WireNetworkView, WireProtocol, WireServer,
    WireServerView,
};
use vstd::string::StringExecFns;

verus! {

broadcast use crate::index::group_deep;

/// Why a wire message was rejected by the decoder.
#[derive(Clone, Copy, Debug, PartialEq, Eq, Structural)]
pub enum DecodeError {
    /// The message carries no protocol.
    MissingProtocol,
    /// A detect protocol carries no timeout.
    MissingDetectTimeout,
    /// A detect timeout is negative.
    NegativeDetectTimeout,
    /// An authorization carries no networks.
    MissingNetworks,
    /// A network entry carries no block.
    MissingNetwork,
    /// An authorization carries no authentication.
    MissingAuthentication,
    /// A mesh-TLS permit admits no clients.
    NoClientsPermitted,
}

/// A trailing dotted pattern accepted for TLS client identities; empty
/// accepts every identity.
#[derive(Debug)]
pub struct Suffix {
    pub ends_with: String,
}

impl View for Suffix {
    type V = Seq<char>;

    open spec fn view(&self) -> Seq<char> {
        self.ends_with@
    }
}

impl DeepView for Suffix {
    type V = Seq<char>;

    open spec fn deep_view(&self) -> Seq<char> {
        self.view()
    }
}

/// The pattern a suffix part list denotes: empty for no parts, else a dot
/// followed by the dot-joined parts.
pub open spec fn spec_suffix_pattern(parts: Seq<Seq<char>>) -> Seq<char> {
    if parts.len() == 0 {
        Seq::empty()
    } else {
        seq!['.'] + join_dots(parts)
    }
}

/// Whether a name ends with the pattern.
pub open spec fn spec_ends_with(name: Seq<char>, pattern: Seq<char>) -> bool {
    pattern.len() <= name.len() && name.subrange(
        name.len() - pattern.len(),
        name.len() as int,
    ) == pattern
}

impl Suffix {
    /// The suffix for a part list: no parts accept every identity; parts
    /// accept the identities ending with `"." + parts.join(".")`.
    pub fn from_parts(parts: Vec<String>) -> (r: Suffix)
        ensures
            r@ == spec_suffix_pattern(parts.deep_view()),
    {
        if parts.len() == 0 {
            Suffix { ends_with: String::new() }
        } else {
            let mut s = String::new();
            push_char(&mut s, '.');
            let joined = join_with_dots(&parts);
            s.append(joined.as_str());
            proof {
                assert(s@ =~= spec_suffix_pattern(parts.deep_view()));
            }
            Suffix { ends_with: s }
        }
    }

    /// Whether the identity name satisfies the suffix.
    pub fn contains(&self, name: &str) -> (r: bool)
        ensures
            r == spec_ends_with(name@, self@),
    {
        str_ends_with(name, self.ends_with.as_str())
    }
}

/// An empty suffix accepts every identity.
pub proof fn lemma_empty_suffix_accepts_all(name: Seq<char>)
    ensures
        spec_ends_with(name, spec_suffix_pattern(Seq::empty())),
{
    assert(name.subrange(name.len() as int, name.len() as int) =~= Seq::<char>::empty());
}

/// A non-empty suffix accepts exactly the identities ending with a dot and
/// the dot-joined parts.
pub proof fn lemma_suffix_semantics(name: Seq<char>, parts: Seq<Seq<char>>)
    requires
        parts.len() > 0,
    ensures
        spec_ends_with(name, spec_suffix_pattern(parts)) == spec_ends_with(
            name,
            seq!['.'] + join_dots(parts),
        ),
{
}

/// The authentication a decoded authorization requires.
#[derive(Debug)]
pub enum Authn {
    Unauthenticated,
    TlsUnauthenticated,
    TlsAuthenticated { identities: Vec<String>, suffixes: Vec<Suffix> },
}

#[verifier::ext_equal]
pub enum AuthnView {
    Unauthenticated,
    TlsUnauthenticated,
    TlsAuthenticated { identities: Seq<Seq<char>>, suffixes: Seq<Seq<char>> },
}

impl View for Authn {
    type V = AuthnView;

    open spec fn view(&self) -> AuthnView {
        match self {
            Authn::Unauthenticated => AuthnView::Unauthenticated,
            Authn::TlsUnauthenticated => AuthnView::TlsUnauthenticated,
            Authn::TlsAuthenticated { identities, suffixes } => AuthnView::TlsAuthenticated {
                identities: identities.deep_view(),
                suffixes: suffixes.deep_view(),
            },
        }
    }
}

impl DeepView for Authn {
    type V = AuthnView;

    open spec fn deep_view(&self) -> AuthnView {
        self.view()
    }
}

/// A decoded authorization: who may connect, from where, and its labels.
#[derive(Debug)]
pub struct Authz {
    pub networks: Vec<ClientNetwork>,
    pub authn: Authn,
    pub labels: Vec<(String, String)>,
}

#[verifier::ext_equal]
pub struct AuthzView {
    pub networks: Seq<ClientNetworkView>,
    pub authn: AuthnView,
    pub labels: Seq<(Seq<char>, Seq<char>)>,
}

impl View for Authz {
    type V = AuthzView;

    open spec fn view(&self) -> AuthzView {
        AuthzView {
            networks: self.networks.deep_view(),
            authn: self.authn@,
            labels: self.labels.deep_view(),
        }
    }
}

impl DeepView for Authz {
    type V = AuthzView;

    open spec fn deep_view(&self) -> AuthzView {
        self.view()
    }
}

/// A decoded inbound configuration.
#[derive(Debug)]
pub struct Inbound {
    pub authorizations: Vec<Authz>,
    pub labels: Vec<(String, String)>,
    pub protocol: Protocol,
}

#[verifier::ext_equal]
pub struct InboundView {
    pub authorizations: Seq<AuthzView>,
    pub labels: Seq<(Seq<char>, Seq<char>)>,
    pub protocol: Protocol,
}

impl View for Inbound {
    type V = InboundView;

    open spec fn view(&self) -> InboundView {
        InboundView {
            authorizations: self.authorizations.deep_view(),
            labels: self.labels.deep_view(),
            protocol: self.protocol,
        }
    }
}

/// The protocol a wire message decodes to.
pub open spec fn spec_decode_protocol(p: Option<WireProtocol>) -> Result<Protocol, DecodeError> {
    match p {
        None => Err(DecodeError::MissingProtocol),
        Some(WireProtocol::Detect { timeout_ms }) => match timeout_ms {
            None => Err(DecodeError::MissingDetectTimeout),
            Some(t) => if t < 0 {
                Err(DecodeError::NegativeDetectTimeout)
            } else {
                Ok(Protocol::Detect { timeout_ms: t as u64 })
            },
        },
        Some(WireProtocol::Http1) => Ok(Protocol::Http1),
        Some(WireProtocol::Http2) => Ok(Protocol::Http2),
        Some(WireProtocol::Grpc) => Ok(Protocol::Grpc),
        Some(WireProtocol::Opaque) => Ok(Protocol::Opaque),
        Some(WireProtocol::Tls) => Ok(Protocol::Tls),
    }
}

/// The networks of one wire authorization, decoded: the list must not be
/// empty and every entry must carry its block.
pub open spec fn spec_decode_networks(nets: Seq<WireNetworkView>, n: int) -> Result<
    Seq<ClientNetworkView>,
    DecodeError,
>
    decreases n,
{
    if n <= 0 {
        Ok(Seq::empty())
    } else {
        match spec_decode_networks(nets, n - 1) {
            Err(e) => Err(e),
            Ok(s) => match nets[n - 1].net {
                None => Err(DecodeError::MissingNetwork),
                Some(c) => Ok(s.push(ClientNetworkView { net: c, except: nets[n - 1].except })),
            },
        }
    }
}

/// The authentication of one wire authorization, decoded.
pub open spec fn spec_decode_authn(a: Option<WireAuthnView>) -> Result<AuthnView, DecodeError> {
    match a {
        None => Err(DecodeError::MissingAuthentication),
        Some(WireAuthnView::Unauthenticated) => Ok(AuthnView::Unauthenticated),
        Some(WireAuthnView::MeshTls(None)) => Err(DecodeError::NoClientsPermitted),
        Some(WireAuthnView::MeshTls(Some(WireMeshTlsClientsView::Unauthenticated))) => Ok(
            AuthnView::TlsUnauthenticated,
        ),
        Some(
            WireAuthnView::MeshTls(
                Some(WireMeshTlsClientsView::Identities { identities, suffixes }),
            ),
        ) => Ok(
            AuthnView::TlsAuthenticated {
                identities: identities,
                suffixes: Seq::new(suffixes.len(), |i: int| spec_suffix_pattern(suffixes[i])),
            },
        ),
    }
}

/// One wire authorization, decoded.
pub open spec fn spec_decode_authz(a: WireAuthzView) -> Result<AuthzView, DecodeError> {
    if a.networks.len() == 0 {
        Err(DecodeError::MissingNetworks)
    } else {
        match spec_decode_networks(a.networks, a.networks.len() as int) {
            Err(e) => Err(e),
            Ok(nets) => match spec_decode_authn(a.authentication) {
                Err(e) => Err(e),
                Ok(authn) => Ok(AuthzView { networks: nets, authn, labels: a.labels }),
            },
        }
    }
}

/// The authorizations of a wire message, decoded in order; the first
/// rejection fails the message.
pub open spec fn spec_decode_authzs(authzs: Seq<WireAuthzView>, n: int) -> Result<
    Seq<AuthzView>,
    DecodeError,
>
    decreases n,
{
    if n <= 0 {
        Ok(Seq::empty())
    } else {
        match spec_decode_authzs(authzs, n - 1) {
            Err(e) => Err(e),
            Ok(s) => match spec_decode_authz(authzs[n - 1]) {
                Err(e) => Err(e),
                Ok(a) => Ok(s.push(a)),
            },
        }
    }
}

/// A wire message, decoded.
pub open spec fn spec_decode_server(w: WireServerView) -> Result<InboundView, DecodeError> {
    match spec_decode_protocol(w.protocol) {
        Err(e) => Err(e),
        Ok(protocol) => match spec_decode_authzs(w.authorizations, w.authorizations.len() as int) {
            Err(e) => Err(e),
            Ok(authorizations) => Ok(InboundView { authorizations, labels: w.labels, protocol }),
        },
    }
}

impl Inbound {
    /// Decodes a wire message into an inbound configuration, rejecting a
    /// malformed one with the first fault found.
    pub fn try_from(w: WireServer) -> (r: Result<Inbound, DecodeError>)
        ensures
            match r {
                Ok(inb) => spec_decode_server(w@) == Ok::<InboundView, DecodeError>(inb@),
                Err(e) => spec_decode_server(w@) == Err::<InboundView, DecodeError>(e),
            },
    {
        let WireServer { protocol, authorizations, labels } = w;
        let proto = match protocol {
            None => {
                return Err(DecodeError::MissingProtocol);
            },
            Some(WireProtocol::Detect { timeout_ms }) => match timeout_ms {
                None => {
                    return Err(DecodeError::MissingDetectTimeout);
                },
                Some(t) => if t < 0 {
                    return Err(DecodeError::NegativeDetectTimeout);
                } else {
                    Protocol::Detect { timeout_ms: t as u64 }
                },
            },
            Some(WireProtocol::Http1) => Protocol::Http1,
            Some(WireProtocol::Http2) => Protocol::Http2,
            Some(WireProtocol::Grpc) => Protocol::Grpc,
            Some(WireProtocol::Opaque) => Protocol::Opaque,
            Some(WireProtocol::Tls) => Protocol::Tls,
        };
        let ghost ws = authorizations.deep_view();
        let mut out: Vec<Authz> = Vec::new();
        let mut batch = authorizations;
        let ghost total = ws.len();
        let ghost mut t: int = 0;
        proof {
            assert(out.deep_view().len() == 0);
            assert(out.deep_view() =~= Seq::<AuthzView>::empty());
            assert(spec_decode_authzs(ws, 0) == Ok::<Seq<AuthzView>, DecodeError>(
                Seq::empty(),
            ));
            assert(spec_decode_authzs(ws, 0) =~~= Ok::<Seq<AuthzView>, DecodeError>(
                out.deep_view(),
            ));
        }
        while batch.len() > 0
            invariant
                0 <= t <= total,
                total == ws.len(),
                batch.deep_view() == ws.skip(t),
                batch@.len() == total - t,
                w@.authorizations == ws,
                spec_decode_protocol(w@.protocol) == Ok::<Protocol, DecodeError>(proto),
                spec_decode_authzs(ws, t) == Ok::<Seq<AuthzView>, DecodeError>(out.deep_view()),
            decreases batch@.len(),
        {
            let ghost prevec = batch@;
            let ghost predeep = batch.deep_view();
            let a = batch.remove(0);
            proof {
                assert(ws.skip(t)[0] == ws[t]);
                assert(a@ == predeep[0]);
                assert(a@ == ws[t]);
                assert forall|x: int| 0 <= x < batch@.len() implies #[trigger] batch.deep_view()[x]
                    == ws.skip(t + 1)[x] by {
                    assert(batch@[x] == prevec[x + 1]);
                    assert(batch.deep_view()[x] == batch@[x].deep_view());
                    assert(predeep[x + 1] == prevec[x + 1].deep_view());
                    assert(predeep[x + 1] == ws.skip(t)[x + 1]);
                    assert(ws.skip(t)[x + 1] == ws[t + 1 + x]);
                    assert(ws.skip(t + 1)[x] == ws[t + 1 + x]);
                }
                assert(batch.deep_view() =~~= ws.skip(t + 1));
            }
            let ghost pre = out.deep_view();
            match decode_authz(a) {
                Ok(az) => {
                    out.push(az);
                    proof {
                        assert(out.deep_view() =~~= pre.push(out@[out@.len() - 1]@));
                        lemma_decode_authzs_step(ws, t);
                    }
                },
                Err(e) => {
                    proof {
                        assert(spec_decode_authzs(ws, t + 1) == Err::<
                            Seq<AuthzView>,
                            DecodeError,
                        >(e));
                        lemma_decode_authzs_stuck(ws, t, total as int, e);
                    }
                    return Err(e);
                },
            }
            proof {
                t = t + 1;
            }
        }
        proof {
            assert(ws.skip(total as int).len() == 0);
            assert(t == total);
        }
        let ghost outs = out.deep_view();
        let r = Inbound { authorizations: out, labels, protocol: proto };
        proof {
            assert(spec_decode_protocol(w@.protocol) == Ok::<Protocol, DecodeError>(proto));
            assert(spec_decode_authzs(ws, ws.len() as int) == Ok::<Seq<AuthzView>, DecodeError>(
                outs,
            ));
            assert(r@ =~~= (InboundView {
                authorizations: outs,
                labels: w@.labels,
                protocol: proto,
            }));
            assert(spec_decode_server(w@) =~~= Ok::<InboundView, DecodeError>(r@));
        }
        Ok(r)
    }
}

/// One decoding step.
proof fn lemma_decode_authzs_step(ws: Seq<WireAuthzView>, t: int)
    requires
        0 <= t < ws.len(),
    ensures
        spec_decode_authzs(ws, t + 1) == (match spec_decode_authzs(ws, t) {
            Err(e) => Err::<Seq<AuthzView>, DecodeError>(e),
            Ok(s) => match spec_decode_authz(ws[t]) {
                Err(e) => Err(e),
                Ok(a) => Ok(s.push(a)),
            },
        }),
{
}

/// Once an authorization is rejected, the whole message is, with that
/// fault.
proof fn lemma_decode_authzs_stuck(ws: Seq<WireAuthzView>, i: int, n: int, e: DecodeError)
    requires
        0 <= i < n,
        spec_decode_authzs(ws, i + 1) == Err::<Seq<AuthzView>, DecodeError>(e),
    ensures
        spec_decode_authzs(ws, n) == Err::<Seq<AuthzView>, DecodeError>(e),
    decreases n,
{
    if i < n - 1 {
        lemma_decode_authzs_stuck(ws, i, n - 1, e);
    }
}

/// Decodes one wire authorization.
fn decode_authz(a: WireAuthz) -> (r: Result<Authz, DecodeError>)
    ensures
        match r {
            Ok(az) => spec_decode_authz(a@) == Ok::<AuthzView, DecodeError>(az@),
            Err(e) => spec_decode_authz(a@) == Err::<AuthzView, DecodeError>(e),
        },
{
    let WireAuthz { networks, authentication, labels } = a;
    if networks.len() == 0 {
        return Err(DecodeError::MissingNetworks);
    }
    let ghost nv = networks.deep_view();
    let mut nets: Vec<ClientNetwork> = Vec::new();
    let mut i: usize = 0;
    proof {
        assert(nets.deep_view().len() == 0);
        assert(nets.deep_view() =~= Seq::<ClientNetworkView>::empty());
        assert(spec_decode_networks(nv, 0) == Ok::<Seq<ClientNetworkView>, DecodeError>(
            Seq::empty(),
        ));
        assert(spec_decode_networks(nv, 0) =~~= Ok::<Seq<ClientNetworkView>, DecodeError>(
            nets.deep_view(),
        ));
    }
    while i < networks.len()
        invariant
            i <= networks@.len(),
            nv == networks.deep_view(),
            nv.len() == networks@.len(),
            nv.len() > 0,
            a@.networks == nv,
            spec_decode_networks(nv, i as int) == Ok::<Seq<ClientNetworkView>, DecodeError>(
                nets.deep_view(),
            ),
        decreases networks@.len() - i,
    {
        proof {
            assert(nv[i as int] == networks@[i as int]@);
        }
        let ghost pre = nets.deep_view();
        match networks[i].net {
            None => {
                proof {
                    assert(spec_decode_networks(nv, i + 1) == Err::<
                        Seq<ClientNetworkView>,
                        DecodeError,
                    >(DecodeError::MissingNetwork));
                    lemma_decode_networks_stuck(
                        nv,
                        i as int,
                        nv.len() as int,
                        DecodeError::MissingNetwork,
                    );
                }
                return Err(DecodeError::MissingNetwork);
            },
            Some(c) => {
                let except = networks[i].except.clone();
                proof {
                    assert(except@ =~= networks@[i as int].except@);
                }
                nets.push(ClientNetwork { net: c, except });
                proof {
                    assert(nets.deep_view() =~~= pre.push(
                        ClientNetworkView { net: c, except: nv[i as int].except },
                    ));
                }
            },
        }
        i += 1;
    }
    let authn = match authentication {
        None => {
            return Err(DecodeError::MissingAuthentication);
        },
        Some(WireAuthn::Unauthenticated) => Authn::Unauthenticated,
        Some(WireAuthn::MeshTls(None)) => {
            return Err(DecodeError::NoClientsPermitted);
        },
        Some(WireAuthn::MeshTls(Some(WireMeshTlsClients::Unauthenticated))) => Authn::TlsUnauthenticated,
        Some(WireAuthn::MeshTls(Some(WireMeshTlsClients::Identities { identities, suffixes }))) => {
            let ghost sv = suffixes.deep_view();
            let mut sfx: Vec<Suffix> = Vec::new();
            let mut batch = suffixes;
            let ghost stotal = sv.len();
            let ghost mut st: int = 0;
            while batch.len() > 0
                invariant
                    0 <= st <= stotal,
                    stotal == sv.len(),
                    batch.deep_view() == sv.skip(st),
                    batch@.len() == stotal - st,
                    sfx@.len() == st,
                    forall|j: int|
                        0 <= j < st ==> (#[trigger] sfx@[j])@ == spec_suffix_pattern(sv[j]),
                decreases batch@.len(),
            {
                let ghost prevec = batch@;
                let ghost predeep = batch.deep_view();
                let parts = batch.remove(0);
                proof {
                    assert(sv.skip(st)[0] == sv[st]);
                    assert(parts.deep_view() == predeep[0]);
                    assert(parts.deep_view() == sv[st]);
                    assert forall|x: int|
                        0 <= x < batch@.len() implies #[trigger] batch.deep_view()[x] == sv.skip(
                        st + 1,
                    )[x] by {
                        assert(batch@[x] == prevec[x + 1]);
                        assert(batch.deep_view()[x] == batch@[x].deep_view());
                        assert(predeep[x + 1] == prevec[x + 1].deep_view());
                        assert(predeep[x + 1] == sv.skip(st)[x + 1]);
                        assert(sv.skip(st)[x + 1] == sv[st + 1 + x]);
                        assert(sv.skip(st + 1)[x] == sv[st + 1 + x]);
                    }
                    assert(batch.deep_view() =~~= sv.skip(st + 1));
                }
                sfx.push(Suffix::from_parts(parts));
                proof {
                    st = st + 1;
                }
            }
            proof {
                assert(sv.skip(stotal as int).len() == 0);
                assert(st == stotal);
            }
            proof {
                assert(sfx.deep_view() =~~= Seq::new(
                    sv.len(),
                    |j: int| spec_suffix_pattern(sv[j]),
                ));
            }
            Authn::TlsAuthenticated { identities, suffixes: sfx }
        },
    };
    let az = Authz { networks: nets, authn, labels };
    proof {
        assert(spec_decode_authz(a@) =~~= Ok::<AuthzView, DecodeError>(az@));
    }
    Ok(az)
}

/// Once a network is rejected, the whole list is, with that fault.
proof fn lemma_decode_networks_stuck(nets: Seq<WireNetworkView>, i: int, n: int, e: DecodeError)
    requires
        0 <= i < n,
        spec_decode_networks(nets, i + 1) == Err::<Seq<ClientNetworkView>, DecodeError>(e),
    ensures
        spec_decode_networks(nets, n) == Err::<Seq<ClientNetworkView>, DecodeError>(e),
    decreases n,
{
    if i < n - 1 {
        lemma_decode_networks_stuck(nets, i, n - 1, e);
    }
}

/// Whether any network of the list contains the address.
pub open spec fn spec_any_network_contains(nets: Seq<ClientNetworkView>, ip: IpAddress) -> bool {
    exists|i: int| 0 <= i < nets.len() && (#[trigger] nets[i]).spec_contains(ip)
}

/// Whether an identity satisfies a TLS-authenticated clause: listed by
/// name, or accepted by some suffix.
pub open spec fn spec_identity_accepted(
    identities: Seq<Seq<char>>,
    suffixes: Seq<Seq<char>>,
    id: Seq<char>,
) -> bool {
    (exists|i: int| 0 <= i < identities.len() && #[trigger] identities[i] == id) || (exists|i: int|
        0 <= i < suffixes.len() && spec_ends_with(id, #[trigger] suffixes[i]))
}

/// The first authorization (in arrival order) whose networks admit the
/// address and whose authentication is satisfied; its labels are the
/// answer.
pub open spec fn spec_check_tls(
    authzs: Seq<AuthzView>,
    ip: IpAddress,
    id: Option<Seq<char>>,
) -> Option<Seq<(Seq<char>, Seq<char>)>>
    decreases authzs.len(),
{
    if authzs.len() == 0 {
        None
    } else {
        let a = authzs[0];
        if spec_any_network_contains(a.networks, ip) && (match a.authn {
            AuthnView::Unauthenticated => true,
            AuthnView::TlsUnauthenticated => true,
            AuthnView::TlsAuthenticated { identities, suffixes } => match id {
                Some(name) => spec_identity_accepted(identities, suffixes, name),
                None => false,
            },
        }) {
            Some(a.labels)
        } else {
            spec_check_tls(authzs.drop_first(), ip, id)
        }
    }
}

/// The first authorization whose authentication asks nothing and whose
/// networks admit the address.
pub open spec fn spec_check_non_tls(authzs: Seq<AuthzView>, ip: IpAddress) -> Option<
    Seq<(Seq<char>, Seq<char>)>,
>
    decreases authzs.len(),
{
    if authzs.len() == 0 {
        None
    } else {
        let a = authzs[0];
        if a.authn is Unauthenticated && spec_any_network_contains(a.networks, ip) {
            Some(a.labels)
        } else {
            spec_check_non_tls(authzs.drop_first(), ip)
        }
    }
}

impl InboundView {
    /// Every stored network is well-formed.
    pub open spec fn wf(self) -> bool {
        forall|i: int, j: int|
            0 <= i < self.authorizations.len() && 0 <= j
                < (#[trigger] self.authorizations[i]).networks.len() ==> (
            #[trigger] self.authorizations[i].networks[j]).wf()
    }
}

/// Whether any network of the list contains the address.
fn any_network_contains(nets: &Vec<ClientNetwork>, ip: &IpAddress) -> (r: bool)
    requires
        forall|j: int| 0 <= j < nets@.len() ==> (#[trigger] nets.deep_view()[j]).wf(),
    ensures
        r == spec_any_network_contains(nets.deep_view(), *ip),
{
    let mut i: usize = 0;
    while i < nets.len()
        invariant
            i <= nets@.len(),
            forall|j: int| 0 <= j < nets@.len() ==> (#[trigger] nets.deep_view()[j]).wf(),
            forall|j: int| 0 <= j < i ==> !(#[trigger] nets.deep_view()[j]).spec_contains(*ip),
        decreases nets@.len() - i,
    {
        proof {
            assert(nets.deep_view()[i as int].wf());
            assert(nets.deep_view()[i as int] == nets@[i as int]@);
            crate::net::lemma_network_wf_from_view(nets@[i as int]);
        }
        if nets[i].contains(ip) {
            assert(nets.deep_view()[i as int].spec_contains(*ip));
            return true;
        }
        i += 1;
    }
    proof {
        if spec_any_network_contains(nets.deep_view(), *ip) {
            let w = choose|w: int|
                0 <= w < nets.deep_view().len() && (#[trigger] nets.deep_view()[w]).spec_contains(
                    *ip,
                );
        }
    }
    false
}

impl Inbound {
    /// Checks a connection without TLS: the first authorization that asks
    /// no authentication and admits the address wins; its labels are
    /// returned.
    pub fn check_non_tls<'a>(&'a self, client_ip: &IpAddress) -> (r: Option<
        &'a Vec<(String, String)>,
    >)
        requires
            self@.wf(),
        ensures
            match r {
                Some(l) => spec_check_non_tls(self@.authorizations, *client_ip) == Some(
                    l.deep_view(),
                ),
                None => spec_check_non_tls(self@.authorizations, *client_ip) is None,
            },
    {
        let ghost az = self@.authorizations;
        let mut i: usize = 0;
        proof {
            assert(az.skip(0) =~= az);
        }
        while i < self.authorizations.len()
            invariant
                i <= self.authorizations@.len(),
                az == self@.authorizations,
                az.len() == self.authorizations@.len(),
                self@.wf(),
                spec_check_non_tls(az, *client_ip) == spec_check_non_tls(
                    az.skip(i as int),
                    *client_ip,
                ),
            decreases self.authorizations@.len() - i,
        {
            proof {
                assert(az[i as int] == self.authorizations@[i as int]@);
                assert(az.skip(i as int)[0] == az[i as int]);
                assert(az.skip(i as int).drop_first() =~= az.skip(i + 1));
            }
            let matches = match &self.authorizations[i].authn {
                Authn::Unauthenticated => any_network_contains(
                    &self.authorizations[i].networks,
                    client_ip,
                ),
                _ => false,
            };
            if matches {
                return Some(&self.authorizations[i].labels);
            }
            i += 1;
        }
        proof {
            assert(az.skip(az.len() as int).len() == 0);
        }
        None
    }

    /// Checks a TLS connection: the first authorization whose networks
    /// admit the address and whose authentication the connection satisfies
    /// wins; its labels are returned.
    pub fn check_tls<'a>(&'a self, client_ip: &IpAddress, id: Option<&str>) -> (r: Option<
        &'a Vec<(String, String)>,
    >)
        requires
            self@.wf(),
        ensures
            match r {
                Some(l) => spec_check_tls(self@.authorizations, *client_ip, id.deep_view())
                    == Some(l.deep_view()),
                None => spec_check_tls(self@.authorizations, *client_ip, id.deep_view()) is None,
            },
    {
        let ghost az = self@.authorizations;
        let ghost idv = id.deep_view();
        let mut i: usize = 0;
        proof {
            assert(az.skip(0) =~= az);
        }
        while i < self.authorizations.len()
            invariant
                i <= self.authorizations@.len(),
                az == self@.authorizations,
                idv == id.deep_view(),
                az.len() == self.authorizations@.len(),
                self@.wf(),
                spec_check_tls(az, *client_ip, idv) == spec_check_tls(
                    az.skip(i as int),
                    *client_ip,
                    idv,
                ),
            decreases self.authorizations@.len() - i,
        {
            proof {
                assert(az[i as int] == self.authorizations@[i as int]@);
                assert(az.skip(i as int)[0] == az[i as int]);
                assert(az.skip(i as int).drop_first() =~= az.skip(i + 1));
            }
            let in_network = any_network_contains(&self.authorizations[i].networks, client_ip);
            let accepted = if in_network {
                match &self.authorizations[i].authn {
                    Authn::Unauthenticated => true,
                    Authn::TlsUnauthenticated => true,
                    Authn::TlsAuthenticated { identities, suffixes } => match id {
                        Some(name) => identity_accepted(identities, suffixes, name),
                        None => false,
                    },
                }
            } else {
                false
            };
            if accepted {
                return Some(&self.authorizations[i].labels);
            }
            i += 1;
        }
        proof {
            assert(az.skip(az.len() as int).len() == 0);
        }
        None
    }
}

/// Whether an identity is listed by name or accepted by some suffix.
fn identity_accepted(identities: &Vec<String>, suffixes: &Vec<Suffix>, id: &str) -> (r: bool)
    ensures
        r == spec_identity_accepted(identities.deep_view(), suffixes.deep_view(), id@),
{
    let mut i: usize = 0;
    while i < identities.len()
        invariant
            i <= identities@.len(),
            forall|j: int| 0 <= j < i ==> #[trigger] identities.deep_view()[j] != id@,
        decreases identities@.len() - i,
    {
        if str_eq(identities[i].as_str(), id) {
            assert(identities.deep_view()[i as int] == id@);
            return true;
        }
        assert(identities.deep_view()[i as int] != id@);
        i += 1;
    }
    let mut k: usize = 0;
    while k < suffixes.len()
        invariant
            k <= suffixes@.len(),
            forall|j: int| 0 <= j < identities@.len() ==> #[trigger] identities.deep_view()[j] != id@,
            forall|j: int|
                0 <= j < k ==> !spec_ends_with(id@, #[trigger] suffixes.deep_view()[j]),
        decreases suffixes@.len() - k,
    {
        proof {
            assert(suffixes.deep_view()[k as int] == suffixes@[k as int]@);
        }
        if suffixes[k].contains(id) {
            assert(spec_ends_with(id@, suffixes.deep_view()[k as int]));
            return true;
        }
        k += 1;
    }
    proof {
        if spec_identity_accepted(identities.deep_view(), suffixes.deep_view(), id@) {
            if exists|w: int|
                0 <= w < identities.deep_view().len() && #[trigger] identities.deep_view()[w]
                    == id@ {
                let w = choose|w: int|
                    0 <= w < identities.deep_view().len() && #[trigger] identities.deep_view()[w]
                        == id@;
            } else {
                let w = choose|w: int|
                    0 <= w < suffixes.deep_view().len() && spec_ends_with(
                        id@,
                        #[trigger] suffixes.deep_view()[w],
                    );
            }
        }
    }
    false
}

} // verus!
