//! The wire model of the discovery API: a plain-value mirror of the
//! protobuf messages, the mapping a server applies before sending, and the
//! decoding a client applies on receipt.

use vstd::prelude::*;
use crate::inbound::{
    ClientAuthentication, ClientAuthorization, ClientIdentityMatch, AuthenticationView,
    ClientAuthorizationView, IdentityMatchView, InboundServer, InboundServerView, KubeletIps,
    Protocol,
};
use crate::net::{Cidr, ClientNetwork, ClientNetworkView, IpAddress};

verus! {

/// The protocol field of a wire message; a detect timeout travels as a
/// signed duration.
#[derive(Clone, Copy, Debug, PartialEq, Eq, Structural)]
pub enum WireProtocol {
    Detect { timeout_ms: Option<i64> },
    Http1,
    Http2,
    Grpc,
    Opaque,
    Tls,
}

/// One network of a wire authorization; the block itself may be absent.
#[derive(Debug)]
pub struct WireNetwork {
    pub net: Option<Cidr>,
    pub except: Vec<Cidr>,
}

#[verifier::ext_equal]
pub struct WireNetworkView {
    pub net: Option<Cidr>,
    pub except: Seq<Cidr>,
}

impl View for WireNetwork {
    type V = WireNetworkView;

    open spec fn view(&self) -> WireNetworkView {
        WireNetworkView { net: self.net, except: self.except@ }
    }
}

impl DeepView for WireNetwork {
    type V = WireNetworkView;

    open spec fn deep_view(&self) -> WireNetworkView {
        self.view()
    }
}

/// The clients a mesh-TLS permit admits.
#[derive(Debug)]
pub enum WireMeshTlsClients {
    Unauthenticated,
    Identities { identities: Vec<String>, suffixes: Vec<Vec<String>> },
}

#[verifier::ext_equal]
pub enum WireMeshTlsClientsView {
    Unauthenticated,
    Identities { identities: Seq<Seq<char>>, suffixes: Seq<Seq<Seq<char>>> },
}

impl View for WireMeshTlsClients {
    type V = WireMeshTlsClientsView;

    open spec fn view(&self) -> WireMeshTlsClientsView {
        match self {
            WireMeshTlsClients::Unauthenticated => WireMeshTlsClientsView::Unauthenticated,
            WireMeshTlsClients::Identities { identities, suffixes } => WireMeshTlsClientsView::Identities {
                identities: identities.deep_view(),
                suffixes: suffixes.deep_view(),
            },
        }
    }
}

impl DeepView for WireMeshTlsClients {
    type V = WireMeshTlsClientsView;

    open spec fn deep_view(&self) -> WireMeshTlsClientsView {
        self.view()
    }
}

/// The authentication permit of a wire authorization.
#[derive(Debug)]
pub enum WireAuthn {
    Unauthenticated,
    MeshTls(Option<WireMeshTlsClients>),
}

#[verifier::ext_equal]
pub enum WireAuthnView {
    Unauthenticated,
    MeshTls(Option<WireMeshTlsClientsView>),
}

impl View for WireAuthn {
    type V = WireAuthnView;

    open spec fn view(&self) -> WireAuthnView {
        match self {
            WireAuthn::Unauthenticated => WireAuthnView::Unauthenticated,
            WireAuthn::MeshTls(c) => WireAuthnView::MeshTls(c.deep_view()),
        }
    }
}

impl DeepView for WireAuthn {
    type V = WireAuthnView;

    open spec fn deep_view(&self) -> WireAuthnView {
        self.view()
    }
}

/// One authorization of a wire message.
#[derive(Debug)]
pub struct WireAuthz {
    pub networks: Vec<WireNetwork>,
    pub authentication: Option<WireAuthn>,
    pub labels: Vec<(String, String)>,
}

#[verifier::ext_equal]
pub struct WireAuthzView {
    pub networks: Seq<WireNetworkView>,
    pub authentication: Option<WireAuthnView>,
    pub labels: Seq<(Seq<char>, Seq<char>)>,
}

impl View for WireAuthz {
    type V = WireAuthzView;

    open spec fn view(&self) -> WireAuthzView {
        WireAuthzView {
            networks: self.networks.deep_view(),
            authentication: self.authentication.deep_view(),
            labels: self.labels.deep_view(),
        }
    }
}

impl DeepView for WireAuthz {
    type V = WireAuthzView;

    open spec fn deep_view(&self) -> WireAuthzView {
        self.view()
    }
}

/// A wire discovery message: the per-(pod, port) server configuration as
/// sent to the data plane.
#[derive(Debug)]
pub struct WireServer {
    pub protocol: Option<WireProtocol>,
    pub authorizations: Vec<WireAuthz>,
    pub labels: Vec<(String, String)>,
}

#[verifier::ext_equal]
pub struct WireServerView {
    pub protocol: Option<WireProtocol>,
    pub authorizations: Seq<WireAuthzView>,
    pub labels: Seq<(Seq<char>, Seq<char>)>,
}

impl View for WireServer {
    type V = WireServerView;

    open spec fn view(&self) -> WireServerView {
        WireServerView {
            protocol: self.protocol,
            authorizations: self.authorizations.deep_view(),
            labels: self.labels.deep_view(),
        }
    }
}

/// A detect timeout on the wire: the millisecond count, capped at the
/// signed range.
pub open spec fn spec_wire_timeout(ms: u64) -> i64 {
    if ms > 0x7fff_ffff_ffff_ffffu64 {
        0x7fff_ffff_ffff_ffffi64
    } else {
        ms as i64
    }
}

/// The wire form of a protocol.
pub open spec fn spec_wire_protocol(p: Protocol) -> WireProtocol {
    match p {
        Protocol::Detect { timeout_ms } => WireProtocol::Detect {
            timeout_ms: Some(spec_wire_timeout(timeout_ms)),
        },
        Protocol::Http1 => WireProtocol::Http1,
        Protocol::Http2 => WireProtocol::Http2,
        Protocol::Grpc => WireProtocol::Grpc,
        Protocol::Opaque => WireProtocol::Opaque,
        Protocol::Tls => WireProtocol::Tls,
    }
}

/// The two whole-internet wire networks.
pub open spec fn spec_wire_all_nets() -> Seq<WireNetworkView> {
    seq![
        WireNetworkView {
            net: Some(Cidr { bits: 0, prefix: 0, v4: true }),
            except: Seq::empty(),
        },
        WireNetworkView {
            net: Some(Cidr { bits: 0, prefix: 0, v4: false }),
            except: Seq::empty(),
        },
    ]
}

/// The wire form of an authorization's networks: the stored ones, or the
/// whole internet when none are stored.
pub open spec fn spec_wire_networks(nets: Seq<ClientNetworkView>) -> Seq<WireNetworkView> {
    if nets.len() == 0 {
        spec_wire_all_nets()
    } else {
        Seq::new(
            nets.len(),
            |i: int| WireNetworkView { net: Some(nets[i].net), except: nets[i].except },
        )
    }
}

/// The wire labels of an authorization: whether it authenticates, whether
/// it requires TLS, and its name.
pub open spec fn spec_authz_labels(authn: Seq<char>, tls: Seq<char>, name: Seq<char>) -> Seq<
    (Seq<char>, Seq<char>),
> {
    seq![("authn"@, authn), ("tls"@, tls), ("name"@, name)]
}

/// Picks the exact name of an identity match, if it is one.
pub open spec fn spec_name_picker() -> spec_fn(IdentityMatchView) -> Option<Seq<char>> {
    |m: IdentityMatchView|
        match m {
            IdentityMatchView::Name(n) => Some(n),
            IdentityMatchView::Suffix(_) => None,
        }
}

/// Picks the suffix parts of an identity match, if it is one.
pub open spec fn spec_suffix_picker() -> spec_fn(IdentityMatchView) -> Option<Seq<Seq<char>>> {
    |m: IdentityMatchView|
        match m {
            IdentityMatchView::Name(_) => None,
            IdentityMatchView::Suffix(parts) => Some(parts),
        }
}

/// The exact identity names of a stored authentication, in order.
pub open spec fn spec_wire_names(ids: Seq<IdentityMatchView>) -> Seq<Seq<char>> {
    ids.filter_map(spec_name_picker())
}

/// The suffix part lists of a stored authentication, in order.
pub open spec fn spec_wire_suffixes(ids: Seq<IdentityMatchView>) -> Seq<Seq<Seq<char>>> {
    ids.filter_map(spec_suffix_picker())
}

/// The wire form of one named authorization: its networks, its permit, and
/// its descriptive labels.
pub open spec fn spec_to_authz(name: Seq<char>, c: ClientAuthorizationView) -> WireAuthzView {
    match c.authentication {
        AuthenticationView::Unauthenticated => WireAuthzView {
            networks: spec_wire_networks(c.networks),
            authentication: Some(WireAuthnView::Unauthenticated),
            labels: spec_authz_labels("false"@, "false"@, name),
        },
        AuthenticationView::TlsUnauthenticated => WireAuthzView {
            networks: spec_wire_networks(c.networks),
            authentication: Some(
                WireAuthnView::MeshTls(Some(WireMeshTlsClientsView::Unauthenticated)),
            ),
            labels: spec_authz_labels("false"@, "true"@, name),
        },
        AuthenticationView::TlsAuthenticated(ids) => WireAuthzView {
            networks: spec_wire_networks(c.networks),
            authentication: Some(
                WireAuthnView::MeshTls(
                    Some(
                        WireMeshTlsClientsView::Identities {
                            identities: spec_wire_names(ids),
                            suffixes: spec_wire_suffixes(ids),
                        },
                    ),
                ),
            ),
            labels: spec_authz_labels("true"@, "true"@, name),
        },
    }
}

/// The implicit kubelet authorization of a wire message: the pod's kubelet
/// addresses, unauthenticated.
pub open spec fn spec_kubelet_authz(ips: Seq<IpAddress>) -> WireAuthzView {
    WireAuthzView {
        networks: Seq::new(
            ips.len(),
            |i: int| WireNetworkView { net: Some(ips[i].spec_host_cidr()), except: Seq::empty() },
        ),
        authentication: Some(WireAuthnView::Unauthenticated),
        labels: seq![("authn"@, "false"@), ("name"@, "_kubelet"@)],
    }
}

/// The wire message for a configuration: its protocol, the kubelet
/// authorization first, then the stored authorizations in order.
pub open spec fn spec_to_server(kubelet: WireAuthzView, srv: InboundServerView) -> WireServerView {
    WireServerView {
        protocol: Some(spec_wire_protocol(srv.protocol)),
        authorizations: seq![kubelet] + Seq::new(
            srv.authorizations.len(),
            |i: int| spec_to_authz(srv.authorizations[i].0, srv.authorizations[i].1),
        ),
        labels: Seq::empty(),
    }
}

/// A detect timeout on the wire.
fn wire_timeout(ms: u64) -> (r: i64)
    ensures
        r == spec_wire_timeout(ms),
{
    if ms > 0x7fff_ffff_ffff_ffffu64 {
        0x7fff_ffff_ffff_ffffi64
    } else {
        ms as i64
    }
}

/// Builds the three descriptive labels of a wire authorization.
fn authz_labels(authn: &str, tls: &str, name: &str) -> (r: Vec<(String, String)>)
    ensures
        r.deep_view() == spec_authz_labels(authn@, tls@, name@),
{
    let mut r: Vec<(String, String)> = Vec::new();
    r.push((String::from_str("authn"), authn.to_owned()));
    r.push((String::from_str("tls"), tls.to_owned()));
    r.push((String::from_str("name"), name.to_owned()));
    proof {
        assert(r.deep_view() =~~= spec_authz_labels(authn@, tls@, name@));
    }
    r
}

/// The wire form of an authorization's networks.
fn wire_networks(nets: &Vec<ClientNetwork>) -> (r: Vec<WireNetwork>)
    ensures
        r.deep_view() == spec_wire_networks(nets.deep_view()),
{
    if nets.len() == 0 {
        let mut r: Vec<WireNetwork> = Vec::new();
        r.push(WireNetwork { net: Some(Cidr { bits: 0, prefix: 0, v4: true }), except: Vec::new() });
        r.push(
            WireNetwork { net: Some(Cidr { bits: 0, prefix: 0, v4: false }), except: Vec::new() },
        );
        proof {
            assert(r.deep_view() =~~= spec_wire_networks(nets.deep_view()));
        }
        r
    } else {
        let mut r: Vec<WireNetwork> = Vec::new();
        let mut i: usize = 0;
        while i < nets.len()
            invariant
                i <= nets@.len(),
                r@.len() == i,
                forall|j: int|
                    0 <= j < i ==> (#[trigger] r@[j])@ == (WireNetworkView {
                        net: Some(nets.deep_view()[j].net),
                        except: nets.deep_view()[j].except,
                    }),
            decreases nets@.len() - i,
        {
            let except = nets[i].except.clone();
            proof {
                assert(except@ =~= nets@[i as int].except@);
            }
            r.push(WireNetwork { net: Some(nets[i].net), except });
            i += 1;
        }
        proof {
            assert(r.deep_view() =~~= spec_wire_networks(nets.deep_view()));
        }
        r
    }
}

/// The wire form of one named authorization, as the discovery server sends
/// it.
pub fn to_authz(name: &str, c: &ClientAuthorization) -> (r: WireAuthz)
    ensures
        r@ == spec_to_authz(name@, c@),
{
    let networks = wire_networks(&c.networks);
    match &c.authentication {
        ClientAuthentication::Unauthenticated => {
            let r = WireAuthz {
                networks,
                authentication: Some(WireAuthn::Unauthenticated),
                labels: authz_labels("false", "false", name),
            };
            proof {
                assert(r@ =~~= spec_to_authz(name@, c@));
            }
            r
        },
        ClientAuthentication::TlsUnauthenticated => {
            let r = WireAuthz {
                networks,
                authentication: Some(
                    WireAuthn::MeshTls(Some(WireMeshTlsClients::Unauthenticated)),
                ),
                labels: authz_labels("false", "true", name),
            };
            proof {
                assert(r@ =~~= spec_to_authz(name@, c@));
            }
            r
        },
        ClientAuthentication::TlsAuthenticated(ids) => {
            let ghost idsv = ids.deep_view();
            let mut identities: Vec<String> = Vec::new();
            let mut suffixes: Vec<Vec<String>> = Vec::new();
            let mut i: usize = 0;
            proof {
                assert(idsv.take(0) =~= Seq::<IdentityMatchView>::empty());
                reveal_with_fuel(Seq::filter_map, 2);
                assert(identities.deep_view() =~~= spec_wire_names(idsv.take(0)));
                assert(suffixes.deep_view() =~~= spec_wire_suffixes(idsv.take(0)));
            }
            while i < ids.len()
                invariant
                    i <= ids@.len(),
                    idsv == ids.deep_view(),
                    idsv.len() == ids@.len(),
                    identities.deep_view() == spec_wire_names(idsv.take(i as int)),
                    suffixes.deep_view() == spec_wire_suffixes(idsv.take(i as int)),
                decreases ids@.len() - i,
            {
                proof {
                    assert(idsv.take(i + 1).drop_last() =~= idsv.take(i as int));
                    assert(idsv.take(i + 1).last() == idsv[i as int]);
                    assert(idsv[i as int] == ids@[i as int]@);
                }
                match &ids[i] {
                    ClientIdentityMatch::Name(n) => {
                        let ghost pre = identities.deep_view();
                        identities.push(n.clone());
                        proof {
                            reveal_filter_map_steps(idsv, i as int);
                            assert(identities.deep_view() =~~= spec_wire_names(
                                idsv.take(i + 1),
                            ));
                            assert(suffixes.deep_view() =~~= spec_wire_suffixes(idsv.take(i + 1)));
                        }
                    },
                    ClientIdentityMatch::Suffix(parts) => {
                        let ps = parts.clone();
                        proof {
                            assert(ps@ =~= parts@);
                        }
                        suffixes.push(ps);
                        proof {
                            reveal_filter_map_steps(idsv, i as int);
                            assert(suffixes.deep_view() =~~= spec_wire_suffixes(
                                idsv.take(i + 1),
                            ));
                            assert(identities.deep_view() =~~= spec_wire_names(idsv.take(i + 1)));
                        }
                    },
                }
                i += 1;
            }
            proof {
                assert(idsv.take(idsv.len() as int) =~= idsv);
            }
            let r = WireAuthz {
                networks,
                authentication: Some(
                    WireAuthn::MeshTls(
                        Some(WireMeshTlsClients::Identities { identities, suffixes }),
                    ),
                ),
                labels: authz_labels("true", "true", name),
            };
            proof {
                assert(r@ =~~= spec_to_authz(name@, c@));
            }
            r
        },
    }
}

/// One filtering step of the wire identity split.
proof fn reveal_filter_map_steps(ids: Seq<IdentityMatchView>, i: int)
    requires
        0 <= i < ids.len(),
    ensures
        spec_wire_names(ids.take(i + 1)) =~= (match ids[i] {
            IdentityMatchView::Name(n) => spec_wire_names(ids.take(i)).push(n),
            IdentityMatchView::Suffix(_) => spec_wire_names(ids.take(i)),
        }),
        spec_wire_suffixes(ids.take(i + 1)) =~= (match ids[i] {
            IdentityMatchView::Name(_) => spec_wire_suffixes(ids.take(i)),
            IdentityMatchView::Suffix(p) => spec_wire_suffixes(ids.take(i)).push(p),
        }),
{
    ids.lemma_filter_map_take_succ(spec_name_picker(), i);
    ids.lemma_filter_map_take_succ(spec_suffix_picker(), i);
    match ids[i] {
        IdentityMatchView::Name(n) => {
            assert(spec_wire_names(ids.take(i)) + seq![n] =~= spec_wire_names(ids.take(i)).push(n));
        },
        IdentityMatchView::Suffix(p) => {
            assert(spec_wire_suffixes(ids.take(i)) + seq![p] =~= spec_wire_suffixes(
                ids.take(i),
            ).push(p));
        },
    }
}

/// The implicit kubelet authorization, as the discovery server builds it.
pub fn kubelet_authz(ips: &KubeletIps) -> (r: WireAuthz)
    ensures
        r@ == spec_kubelet_authz(ips@),
{
    let mut networks: Vec<WireNetwork> = Vec::new();
    let mut i: usize = 0;
    while i < ips.addrs.len()
        invariant
            i <= ips.addrs@.len(),
            networks@.len() == i,
            forall|j: int|
                0 <= j < i ==> (#[trigger] networks@[j])@ == (WireNetworkView {
                    net: Some(ips.addrs@[j].spec_host_cidr()),
                    except: Seq::empty(),
                }),
        decreases ips.addrs@.len() - i,
    {
        networks.push(WireNetwork { net: Some(ips.addrs[i].host_cidr()), except: Vec::new() });
        i += 1;
    }
    let mut labels: Vec<(String, String)> = Vec::new();
    labels.push((String::from_str("authn"), String::from_str("false")));
    labels.push((String::from_str("name"), String::from_str("_kubelet")));
    let r = WireAuthz { networks, authentication: Some(WireAuthn::Unauthenticated), labels };
    proof {
        assert(r@ =~~= spec_kubelet_authz(ips@));
    }
    r
}

/// The wire message for a configuration, as the discovery server sends it:
/// the kubelet authorization first, then the stored ones in order.
pub fn to_server(kubelet: &WireAuthz, srv: &InboundServer) -> (r: WireServer)
    ensures
        r@ == spec_to_server(kubelet@, srv@),
{
    let protocol = match srv.protocol {
        Protocol::Detect { timeout_ms } => WireProtocol::Detect {
            timeout_ms: Some(wire_timeout(timeout_ms)),
        },
        Protocol::Http1 => WireProtocol::Http1,
        Protocol::Http2 => WireProtocol::Http2,
        Protocol::Grpc => WireProtocol::Grpc,
        Protocol::Opaque => WireProtocol::Opaque,
        Protocol::Tls => WireProtocol::Tls,
    };
    let mut authorizations: Vec<WireAuthz> = Vec::new();
    authorizations.push(clone_wire_authz(kubelet));
    let mut i: usize = 0;
    while i < srv.authorizations.len()
        invariant
            i <= srv.authorizations@.len(),
            authorizations@.len() == i + 1,
            authorizations@[0]@ == kubelet@,
            forall|j: int|
                0 <= j < i ==> (#[trigger] authorizations@[j + 1])@ == spec_to_authz(
                    srv.authorizations.deep_view()[j].0,
                    srv.authorizations.deep_view()[j].1,
                ),
        decreases srv.authorizations@.len() - i,
    {
        let a = to_authz(srv.authorizations[i].0.as_str(), &srv.authorizations[i].1);
        authorizations.push(a);
        i += 1;
    }
    let r = WireServer { protocol: Some(protocol), authorizations, labels: Vec::new() };
    proof {
        assert forall|j: int| 0 <= j < r.authorizations@.len() implies #[trigger] r.authorizations.deep_view()[j]
            == spec_to_server(kubelet@, srv@).authorizations[j] by {
            if j > 0 {
                assert(r.authorizations@[(j - 1) + 1]@ == spec_to_authz(
                    srv.authorizations.deep_view()[j - 1].0,
                    srv.authorizations.deep_view()[j - 1].1,
                ));
            }
        }
        assert(r@ =~~= spec_to_server(kubelet@, srv@));
    }
    r
}

/// A copy of a wire authorization.
fn clone_wire_authz(a: &WireAuthz) -> (r: WireAuthz)
    ensures
        r@ == a@,
{
    let mut networks: Vec<WireNetwork> = Vec::new();
    let mut i: usize = 0;
    while i < a.networks.len()
        invariant
            i <= a.networks@.len(),
            networks@.len() == i,
            forall|j: int|
                0 <= j < i ==> (#[trigger] networks@[j])@ == a.networks.deep_view()[j],
        decreases a.networks@.len() - i,
    {
        let except = a.networks[i].except.clone();
        proof {
            assert(except@ =~= a.networks@[i as int].except@);
        }
        networks.push(WireNetwork { net: a.networks[i].net, except });
        i += 1;
    }
    let authentication = match &a.authentication {
        None => None,
        Some(WireAuthn::Unauthenticated) => Some(WireAuthn::Unauthenticated),
        Some(WireAuthn::MeshTls(None)) => Some(WireAuthn::MeshTls(None)),
        Some(WireAuthn::MeshTls(Some(WireMeshTlsClients::Unauthenticated))) => Some(
            WireAuthn::MeshTls(Some(WireMeshTlsClients::Unauthenticated)),
        ),
        Some(WireAuthn::MeshTls(Some(WireMeshTlsClients::Identities { identities, suffixes }))) => {
            let ids = identities.clone();
            proof {
                assert(ids@ =~= identities@);
            }
            let mut sfx: Vec<Vec<String>> = Vec::new();
            let mut k: usize = 0;
            while k < suffixes.len()
                invariant
                    k <= suffixes@.len(),
                    sfx@.len() == k,
                    forall|j: int|
                        0 <= j < k ==> (#[trigger] sfx@[j]).deep_view()
                            == suffixes@[j].deep_view(),
                decreases suffixes@.len() - k,
            {
                let row = suffixes[k].clone();
                proof {
                    assert(row@ =~= suffixes@[k as int]@);
                    assert(row.deep_view() =~~= suffixes@[k as int].deep_view());
                }
                sfx.push(row);
                k += 1;
            }
            proof {
                assert(sfx.deep_view() =~~= suffixes.deep_view());
                assert(ids.deep_view() =~~= identities.deep_view());
            }
            Some(WireAuthn::MeshTls(Some(WireMeshTlsClients::Identities {
                identities: ids,
                suffixes: sfx,
            })))
        },
    };
    let labels = crate::labels::clone_pairs(&a.labels);
    let r = WireAuthz { networks, authentication, labels };
    proof {
        assert(r@ =~~= a@);
    }
    r
}

} // verus!
