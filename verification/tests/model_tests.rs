//! Unit tests of the data model: network containment, suffix matching,
//! default-allow records, wire decoding and the client-side checks.

use polixy::client::{Authn, Authz, DecodeError, Inbound, Suffix};
use polixy::defaults::{default_inbound_server, DefaultAllow};
use polixy::inbound::{
    authentication_eq, inbound_server_eq, ClientAuthentication, ClientIdentityMatch, Protocol,
};
use polixy::net::{Cidr, ClientNetwork, IpAddress};
use polixy::wire::{
    to_authz, to_server, kubelet_authz, WireAuthn, WireAuthz, WireMeshTlsClients, WireNetwork,
    WireProtocol, WireServer,
};

fn v4(a: u8, b: u8, c: u8, d: u8) -> IpAddress {
    IpAddress {
        bits: ((a as u128) << 24) | ((b as u128) << 16) | ((c as u128) << 8) | (d as u128),
        v4: true,
    }
}

fn host(ip: IpAddress) -> Cidr {
    Cidr { bits: ip.bits, prefix: 32, v4: true }
}

#[test]
fn network_exclusion_wins() {
    // An address excluded as a /32 is never contained, whatever the block.
    let a = v4(10, 1, 2, 3);
    let net = ClientNetwork {
        net: Cidr { bits: 0, prefix: 0, v4: true },
        except: vec![host(a)],
    };
    assert!(!net.contains(&a));

    // Against 0.0.0.0/0, any address no exclusion covers is contained.
    let b = v4(10, 1, 2, 4);
    assert!(net.contains(&b));

    // An exclusion covering a whole block excludes all of it.
    let wide = ClientNetwork {
        net: Cidr { bits: 0, prefix: 0, v4: true },
        except: vec![Cidr { bits: v4(10, 1, 2, 0).bits, prefix: 24, v4: true }],
    };
    assert!(!wide.contains(&a));
    assert!(wide.contains(&v4(10, 1, 3, 1)));
}

#[test]
fn network_prefix_containment() {
    let net = ClientNetwork {
        net: Cidr { bits: v4(192, 0, 2, 0).bits, prefix: 24, v4: true },
        except: vec![],
    };
    assert!(net.contains(&v4(192, 0, 2, 7)));
    assert!(!net.contains(&v4(192, 0, 3, 7)));
    // Family mismatch: an IPv6 address is outside every IPv4 block.
    assert!(!net.contains(&IpAddress { bits: 1, v4: false }));
}

#[test]
fn suffix_semantics() {
    // The empty suffix matches every non-empty identity.
    let any = Suffix::from_parts(vec![]);
    assert!(any.contains("foo.bar"));
    assert!(any.contains("x"));

    // A non-empty suffix matches names that end with "." + parts.join(".").
    let sfx = Suffix::from_parts(vec!["a".to_string(), "b".to_string(), "c".to_string()]);
    assert_eq!(sfx.ends_with, ".a.b.c");
    assert!(sfx.contains("web.a.b.c"));
    assert!(sfx.contains("x.y.a.b.c"));
    assert!(!sfx.contains("a.b.c"));
    assert!(!sfx.contains("web.a.b.d"));
}

#[test]
fn default_allow_records() {
    let cluster = vec![Cidr { bits: v4(10, 42, 0, 0).bits, prefix: 16, v4: true }];

    let deny = default_inbound_server(DefaultAllow::Deny, &cluster, 5000);
    assert!(matches!(deny.protocol, Protocol::Detect { timeout_ms: 5000 }));
    assert_eq!(deny.authorizations.len(), 0);

    let all_unauth = default_inbound_server(DefaultAllow::AllUnauthenticated, &cluster, 5000);
    assert_eq!(all_unauth.authorizations.len(), 1);
    assert_eq!(all_unauth.authorizations[0].0, "_all_unauthed");
    assert_eq!(all_unauth.authorizations[0].1.networks.len(), 2);
    assert!(authentication_eq(
        &all_unauth.authorizations[0].1.authentication,
        &ClientAuthentication::Unauthenticated,
    ));

    let cluster_authed = default_inbound_server(DefaultAllow::ClusterAuthenticated, &cluster, 5000);
    assert_eq!(cluster_authed.authorizations[0].0, "_cluster_authed");
    assert_eq!(cluster_authed.authorizations[0].1.networks.len(), 1);
    assert_eq!(cluster_authed.authorizations[0].1.networks[0].net, cluster[0]);
    assert!(authentication_eq(
        &cluster_authed.authorizations[0].1.authentication,
        &ClientAuthentication::TlsAuthenticated(vec![ClientIdentityMatch::Suffix(vec![])]),
    ));
}

#[test]
fn default_allow_names_round_trip() {
    for d in [
        DefaultAllow::Deny,
        DefaultAllow::AllAuthenticated,
        DefaultAllow::AllUnauthenticated,
        DefaultAllow::ClusterAuthenticated,
        DefaultAllow::ClusterUnauthenticated,
    ] {
        assert_eq!(DefaultAllow::parse(d.name()), Some(d));
    }
    assert_eq!(DefaultAllow::parse("bogus"), None);
}

#[test]
fn wire_round_trip_through_client() {
    // Encode a configuration as the server does, decode it as the client
    // does, and check the client sees the same facts.
    let srv = polixy::inbound::InboundServer {
        protocol: Protocol::Http1,
        authorizations: vec![(
            "authz-0".to_string(),
            polixy::inbound::ClientAuthorization {
                networks: vec![ClientNetwork {
                    net: Cidr { bits: v4(192, 0, 2, 0).bits, prefix: 24, v4: true },
                    except: vec![],
                }],
                authentication: ClientAuthentication::TlsAuthenticated(vec![
                    ClientIdentityMatch::Name("web.ns.serviceaccount.identity.example.com".to_string()),
                    ClientIdentityMatch::Suffix(vec!["example".to_string(), "com".to_string()]),
                ]),
            },
        )],
    };
    let kubelet = polixy::inbound::KubeletIps { addrs: vec![v4(192, 0, 2, 1)] };
    let wire = to_server(&kubelet_authz(&kubelet), &srv);

    let inbound = Inbound::try_from(wire).unwrap();
    assert!(matches!(inbound.protocol, Protocol::Http1));
    // The kubelet authorization stands first; the stored one follows.
    assert_eq!(inbound.authorizations.len(), 2);
    assert!(matches!(inbound.authorizations[0].authn, Authn::Unauthenticated));
    assert!(inbound.authorizations[0].networks[0].contains(&v4(192, 0, 2, 1)));

    // From the kubelet address, an unauthenticated check passes.
    assert!(inbound.check_non_tls(&v4(192, 0, 2, 1)).is_some());
    // From elsewhere, it fails: the stored authorization wants TLS.
    assert!(inbound.check_non_tls(&v4(192, 0, 2, 9)).is_none());

    // With TLS and a listed identity, the stored authorization matches.
    let labels = inbound
        .check_tls(&v4(192, 0, 2, 9), Some("web.ns.serviceaccount.identity.example.com"))
        .expect("listed identity must match");
    assert!(labels.iter().any(|(k, v)| k == "name" && v == "authz-0"));
    // A suffix match works too.
    assert!(inbound.check_tls(&v4(192, 0, 2, 9), Some("other.example.com")).is_some());
    // An unlisted identity fails.
    assert!(inbound.check_tls(&v4(192, 0, 2, 9), Some("other.example.org")).is_none());
    // No identity fails.
    assert!(inbound.check_tls(&v4(192, 0, 2, 9), None).is_none());
}

#[test]
fn check_order_first_match_wins() {
    let ip = v4(10, 0, 0, 1);
    let wide = ClientNetwork { net: Cidr { bits: 0, prefix: 0, v4: true }, except: vec![] };
    let inbound = Inbound {
        protocol: Protocol::Opaque,
        labels: vec![],
        authorizations: vec![
            Authz {
                networks: vec![ClientNetwork {
                    net: wide.net,
                    except: vec![host(ip)],
                }],
                authn: Authn::Unauthenticated,
                labels: vec![("which".to_string(), "first".to_string())],
            },
            Authz {
                networks: vec![wide],
                authn: Authn::Unauthenticated,
                labels: vec![("which".to_string(), "second".to_string())],
            },
        ],
    };
    // The excluded address falls through to the second authorization.
    let labels = inbound.check_non_tls(&ip).unwrap();
    assert!(labels.iter().any(|(_, v)| v == "second"));
    // Another address stops at the first.
    let labels = inbound.check_non_tls(&v4(10, 0, 0, 2)).unwrap();
    assert!(labels.iter().any(|(_, v)| v == "first"));
}

#[test]
fn decode_rejects_malformed_messages() {
    // A message without a protocol is rejected.
    let w = WireServer { protocol: None, authorizations: vec![], labels: vec![] };
    assert_eq!(Inbound::try_from(w).unwrap_err(), DecodeError::MissingProtocol);

    // A detect protocol without a timeout is rejected.
    let w = WireServer {
        protocol: Some(WireProtocol::Detect { timeout_ms: None }),
        authorizations: vec![],
        labels: vec![],
    };
    assert_eq!(Inbound::try_from(w).unwrap_err(), DecodeError::MissingDetectTimeout);

    // A negative timeout is rejected.
    let w = WireServer {
        protocol: Some(WireProtocol::Detect { timeout_ms: Some(-1) }),
        authorizations: vec![],
        labels: vec![],
    };
    assert_eq!(Inbound::try_from(w).unwrap_err(), DecodeError::NegativeDetectTimeout);

    // An authorization without networks is rejected.
    let w = WireServer {
        protocol: Some(WireProtocol::Http1),
        authorizations: vec![WireAuthz {
            networks: vec![],
            authentication: Some(WireAuthn::Unauthenticated),
            labels: vec![],
        }],
        labels: vec![],
    };
    assert_eq!(Inbound::try_from(w).unwrap_err(), DecodeError::MissingNetworks);

    // A network without its block is rejected.
    let w = WireServer {
        protocol: Some(WireProtocol::Http1),
        authorizations: vec![WireAuthz {
            networks: vec![WireNetwork { net: None, except: vec![] }],
            authentication: Some(WireAuthn::Unauthenticated),
            labels: vec![],
        }],
        labels: vec![],
    };
    assert_eq!(Inbound::try_from(w).unwrap_err(), DecodeError::MissingNetwork);

    // An authorization without authentication is rejected.
    let w = WireServer {
        protocol: Some(WireProtocol::Http1),
        authorizations: vec![WireAuthz {
            networks: vec![WireNetwork {
                net: Some(Cidr { bits: 0, prefix: 0, v4: true }),
                except: vec![],
            }],
            authentication: None,
            labels: vec![],
        }],
        labels: vec![],
    };
    assert_eq!(Inbound::try_from(w).unwrap_err(), DecodeError::MissingAuthentication);

    // A mesh-TLS permit that admits nobody is rejected.
    let w = WireServer {
        protocol: Some(WireProtocol::Http1),
        authorizations: vec![WireAuthz {
            networks: vec![WireNetwork {
                net: Some(Cidr { bits: 0, prefix: 0, v4: true }),
                except: vec![],
            }],
            authentication: Some(WireAuthn::MeshTls(None)),
            labels: vec![],
        }],
        labels: vec![],
    };
    assert_eq!(Inbound::try_from(w).unwrap_err(), DecodeError::NoClientsPermitted);
}

#[test]
fn wire_authz_labels_name_the_authorization() {
    let c = polixy::inbound::ClientAuthorization {
        networks: vec![],
        authentication: ClientAuthentication::Unauthenticated,
    };
    let w = to_authz("authz-7", &c);
    // Empty stored networks widen to the whole internet on the wire.
    assert_eq!(w.networks.len(), 2);
    assert!(w.labels.iter().any(|(k, v)| k == "name" && v == "authz-7"));
    assert!(w.labels.iter().any(|(k, v)| k == "authn" && v == "false"));
    assert!(matches!(w.authentication, Some(WireAuthn::Unauthenticated)));

    let c = polixy::inbound::ClientAuthorization {
        networks: vec![],
        authentication: ClientAuthentication::TlsAuthenticated(vec![
            ClientIdentityMatch::Suffix(vec![]),
            ClientIdentityMatch::Name("a.b".to_string()),
        ]),
    };
    let w = to_authz("authz-8", &c);
    assert!(w.labels.iter().any(|(k, v)| k == "authn" && v == "true"));
    match w.authentication {
        Some(WireAuthn::MeshTls(Some(WireMeshTlsClients::Identities { identities, suffixes }))) => {
            assert_eq!(identities, vec!["a.b".to_string()]);
            assert_eq!(suffixes, vec![Vec::<String>::new()]);
        }
        other => panic!("unexpected permit: {:?}", other),
    }
}

#[test]
fn kubelet_authz_covers_each_address() {
    let kubelet = polixy::inbound::KubeletIps { addrs: vec![v4(192, 0, 2, 1), v4(192, 0, 2, 17)] };
    let w = kubelet_authz(&kubelet);
    assert_eq!(w.networks.len(), 2);
    assert_eq!(w.networks[0].net, Some(host(v4(192, 0, 2, 1))));
    assert_eq!(w.networks[1].net, Some(host(v4(192, 0, 2, 17))));
    assert!(w.labels.iter().any(|(k, v)| k == "name" && v == "_kubelet"));
}
