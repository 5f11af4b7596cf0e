//! The default-allow registry: the closed set of fallback policies, the
//! annotation that selects one, and the canonical `InboundServer` each one
//! publishes.

use vstd::prelude::*;
use crate::inbound::{
    AuthenticationView, ClientAuthentication, ClientAuthorization, ClientAuthorizationView,
    ClientIdentityMatch, IdentityMatchView, InboundServer, InboundServerView, Protocol,
};
use crate::net::{Cidr, ClientNetwork, ClientNetworkView};
use crate::text::str_eq;

verus! {

/// The fallback policy applied to a pod port no server selects.
#[derive(Clone, Copy, Debug, PartialEq, Eq, Structural)]
pub enum DefaultAllow {
    Deny,
    AllAuthenticated,
    AllUnauthenticated,
    ClusterAuthenticated,
    ClusterUnauthenticated,
}

/// The annotation key that selects a pod's or namespace's default policy.
pub fn annotation_key() -> (r: &'static str)
    ensures
        r@ == "policy.linkerd.io/default-inbound-policy"@,
{
    "policy.linkerd.io/default-inbound-policy"
}

impl DefaultAllow {
    /// The accepted spelling of each default.
    pub open spec fn spec_name(self) -> Seq<char> {
        match self {
            DefaultAllow::Deny => "deny"@,
            DefaultAllow::AllAuthenticated => "all-authenticated"@,
            DefaultAllow::AllUnauthenticated => "all-unauthenticated"@,
            DefaultAllow::ClusterAuthenticated => "cluster-authenticated"@,
            DefaultAllow::ClusterUnauthenticated => "cluster-unauthenticated"@,
        }
    }

    /// The accepted spelling of this default.
    pub fn name(&self) -> (r: &'static str)
        ensures
            r@ == self.spec_name(),
    {
        match self {
            DefaultAllow::Deny => "deny",
            DefaultAllow::AllAuthenticated => "all-authenticated",
            DefaultAllow::AllUnauthenticated => "all-unauthenticated",
            DefaultAllow::ClusterAuthenticated => "cluster-authenticated",
            DefaultAllow::ClusterUnauthenticated => "cluster-unauthenticated",
        }
    }

    /// Which default a string selects, if any.
    pub open spec fn spec_parse(s: Seq<char>) -> Option<DefaultAllow> {
        if s == "deny"@ {
            Some(DefaultAllow::Deny)
        } else if s == "all-authenticated"@ {
            Some(DefaultAllow::AllAuthenticated)
        } else if s == "all-unauthenticated"@ {
            Some(DefaultAllow::AllUnauthenticated)
        } else if s == "cluster-authenticated"@ {
            Some(DefaultAllow::ClusterAuthenticated)
        } else if s == "cluster-unauthenticated"@ {
            Some(DefaultAllow::ClusterUnauthenticated)
        } else {
            None
        }
    }

    /// Parses a default's name; any other string selects nothing.
    pub fn parse(s: &str) -> (r: Option<DefaultAllow>)
        ensures
            r == Self::spec_parse(s@),
    {
        if str_eq(s, "deny") {
            Some(DefaultAllow::Deny)
        } else if str_eq(s, "all-authenticated") {
            Some(DefaultAllow::AllAuthenticated)
        } else if str_eq(s, "all-unauthenticated") {
            Some(DefaultAllow::AllUnauthenticated)
        } else if str_eq(s, "cluster-authenticated") {
            Some(DefaultAllow::ClusterAuthenticated)
        } else if str_eq(s, "cluster-unauthenticated") {
            Some(DefaultAllow::ClusterUnauthenticated)
        } else {
            None
        }
    }
}

/// The two whole-internet blocks, one per family.
pub open spec fn spec_all_nets() -> Seq<ClientNetworkView> {
    seq![
        ClientNetworkView { net: Cidr { bits: 0, prefix: 0, v4: true }, except: Seq::empty() },
        ClientNetworkView { net: Cidr { bits: 0, prefix: 0, v4: false }, except: Seq::empty() },
    ]
}

/// The configured cluster blocks, each without exclusions.
pub open spec fn spec_cluster_nets(nets: Seq<Cidr>) -> Seq<ClientNetworkView> {
    nets.map_values(|c: Cidr| ClientNetworkView { net: c, except: Seq::empty() })
}

/// The authentication accepted by the authenticated defaults: any identity
/// under the empty suffix.
pub open spec fn spec_any_authenticated() -> AuthenticationView {
    AuthenticationView::TlsAuthenticated(seq![IdentityMatchView::Suffix(Seq::empty())])
}

/// The named authorization a default publishes: none for `Deny`, one
/// entry otherwise.
pub open spec fn spec_default_authorizations(da: DefaultAllow, cluster: Seq<Cidr>) -> Seq<
    (Seq<char>, ClientAuthorizationView),
> {
    match da {
        DefaultAllow::Deny => Seq::empty(),
        DefaultAllow::AllAuthenticated => seq![
            (
                "_all_authed"@,
                ClientAuthorizationView {
                    networks: spec_all_nets(),
                    authentication: spec_any_authenticated(),
                },
            ),
        ],
        DefaultAllow::AllUnauthenticated => seq![
            (
                "_all_unauthed"@,
                ClientAuthorizationView {
                    networks: spec_all_nets(),
                    authentication: AuthenticationView::Unauthenticated,
                },
            ),
        ],
        DefaultAllow::ClusterAuthenticated => seq![
            (
                "_cluster_authed"@,
                ClientAuthorizationView {
                    networks: spec_cluster_nets(cluster),
                    authentication: spec_any_authenticated(),
                },
            ),
        ],
        DefaultAllow::ClusterUnauthenticated => seq![
            (
                "_cluster_unauthed"@,
                ClientAuthorizationView {
                    networks: spec_cluster_nets(cluster),
                    authentication: AuthenticationView::Unauthenticated,
                },
            ),
        ],
    }
}

/// The canonical configuration a default publishes: protocol detection with
/// the configured timeout, and the default's authorization set.
pub open spec fn spec_default_inbound(
    da: DefaultAllow,
    cluster: Seq<Cidr>,
    detect_timeout_ms: u64,
) -> InboundServerView {
    InboundServerView {
        protocol: Protocol::Detect { timeout_ms: detect_timeout_ms },
        authorizations: spec_default_authorizations(da, cluster),
    }
}

/// The list of cluster networks, each as a client network without
/// exclusions.
fn cluster_networks(cluster: &Vec<Cidr>) -> (r: Vec<ClientNetwork>)
    ensures
        r.deep_view() == spec_cluster_nets(cluster@),
{
    let mut r: Vec<ClientNetwork> = Vec::new();
    let mut i: usize = 0;
    while i < cluster.len()
        invariant
            i <= cluster@.len(),
            r@.len() == i,
            forall|j: int|
                0 <= j < i ==> #[trigger] r@[j]@ == (ClientNetworkView {
                    net: cluster@[j],
                    except: Seq::empty(),
                }),
        decreases cluster@.len() - i,
    {
        r.push(ClientNetwork { net: cluster[i], except: Vec::new() });
        i += 1;
    }
    proof {
        assert forall|j: int| 0 <= j < r@.len() implies #[trigger] r.deep_view()[j]
            == spec_cluster_nets(cluster@)[j] by {
            assert(r@[j]@ == (ClientNetworkView { net: cluster@[j], except: Seq::empty() }));
        }
        assert(r.deep_view() =~~= spec_cluster_nets(cluster@));
    }
    r
}

/// The two whole-internet client networks.
fn all_networks() -> (r: Vec<ClientNetwork>)
    ensures
        r.deep_view() == spec_all_nets(),
{
    let mut r: Vec<ClientNetwork> = Vec::new();
    r.push(ClientNetwork::any(true));
    r.push(ClientNetwork::any(false));
    proof {
        assert(r.deep_view() =~~= spec_all_nets());
    }
    r
}

/// The canonical configuration the default publishes, as §4.2's table gives
/// it.
pub fn default_inbound_server(
    da: DefaultAllow,
    cluster: &Vec<Cidr>,
    detect_timeout_ms: u64,
) -> (r: InboundServer)
    ensures
        r@ == spec_default_inbound(da, cluster@, detect_timeout_ms),
{
    let protocol = Protocol::Detect { timeout_ms: detect_timeout_ms };
    let mut authorizations: Vec<(String, ClientAuthorization)> = Vec::new();
    match da {
        DefaultAllow::Deny => {},
        DefaultAllow::AllAuthenticated => {
            let mut ids: Vec<ClientIdentityMatch> = Vec::new();
            ids.push(ClientIdentityMatch::Suffix(Vec::new()));
            authorizations.push(
                (
                    String::from_str("_all_authed"),
                    ClientAuthorization {
                        networks: all_networks(),
                        authentication: ClientAuthentication::TlsAuthenticated(ids),
                    },
                ),
            );
        },
        DefaultAllow::AllUnauthenticated => {
            authorizations.push(
                (
                    String::from_str("_all_unauthed"),
                    ClientAuthorization {
                        networks: all_networks(),
                        authentication: ClientAuthentication::Unauthenticated,
                    },
                ),
            );
        },
        DefaultAllow::ClusterAuthenticated => {
            let mut ids: Vec<ClientIdentityMatch> = Vec::new();
            ids.push(ClientIdentityMatch::Suffix(Vec::new()));
            authorizations.push(
                (
                    String::from_str("_cluster_authed"),
                    ClientAuthorization {
                        networks: cluster_networks(cluster),
                        authentication: ClientAuthentication::TlsAuthenticated(ids),
                    },
                ),
            );
        },
        DefaultAllow::ClusterUnauthenticated => {
            authorizations.push(
                (
                    String::from_str("_cluster_unauthed"),
                    ClientAuthorization {
                        networks: cluster_networks(cluster),
                        authentication: ClientAuthentication::Unauthenticated,
                    },
                ),
            );
        },
    }
    let r = InboundServer { protocol, authorizations };
    proof {
        assert(r@.authorizations =~~= spec_default_authorizations(da, cluster@));
        assert(r@ =~~= spec_default_inbound(da, cluster@, detect_timeout_ms));
    }
    r
}

} // verus!
