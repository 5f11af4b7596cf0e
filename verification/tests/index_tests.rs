//! End-to-end scenarios against the index: incremental configuration,
//! selector changes, default policies, and pods pending their node.

use polixy::defaults::{annotation_key, default_inbound_server, DefaultAllow};
use polixy::inbound::{
    inbound_server_eq, ClientAuthentication, ClientAuthorization, InboundServer, KubeletIps,
    Protocol,
};
use polixy::index::{Index, IndexError};
use polixy::net::{Cidr, ClientNetwork, IpAddress};
use polixy::resource::{
    AuthzResource, ClientSpec, ContainerPortSpec, ContainerSpec, MeshTls, NodeResource,
    PodResource, Port, ServerProtocol, ServerRef, ServerResource,
};

fn cluster_net() -> Cidr {
    // 192.0.2.0/24
    Cidr { bits: 0xC0000200, prefix: 24, v4: true }
}

fn kubelet_ip() -> IpAddress {
    // 192.0.2.1: the first host of the node's pod CIDR 192.0.2.2/28
    IpAddress { bits: 0xC0000201, v4: true }
}

const DETECT_TIMEOUT_MS: u64 = 1000;

fn mk_index(default: DefaultAllow) -> Index {
    Index::new(
        vec![cluster_net()],
        "cluster.example.com".to_string(),
        default,
        DETECT_TIMEOUT_MS,
    )
}

fn mk_node(name: &str, pod_net: &str) -> NodeResource {
    NodeResource { name: name.to_string(), pod_cidrs: vec![pod_net.to_string()] }
}

fn mk_pod(ns: &str, name: &str, node: &str, ports: Vec<u16>) -> PodResource {
    PodResource {
        ns: ns.to_string(),
        name: name.to_string(),
        node: node.to_string(),
        labels: vec![],
        annotations: vec![],
        containers: vec![ContainerSpec {
            name: "container-0".to_string(),
            ports: ports
                .into_iter()
                .map(|p| ContainerPortSpec { port: p, name: None })
                .collect(),
        }],
    }
}

fn mk_server(
    ns: &str,
    name: &str,
    port: Port,
    pod_labels: Vec<(&str, &str)>,
    proto: Option<ServerProtocol>,
) -> ServerResource {
    ServerResource {
        ns: ns.to_string(),
        name: name.to_string(),
        labels: vec![],
        port,
        pod_selector: pod_labels
            .into_iter()
            .map(|(k, v)| (k.to_string(), v.to_string()))
            .collect(),
        proxy_protocol: proto,
    }
}

fn mk_authz(ns: &str, name: &str, server: &str, client: ClientSpec) -> AuthzResource {
    AuthzResource {
        ns: ns.to_string(),
        name: name.to_string(),
        server: ServerRef { name: Some(server.to_string()), selector: None },
        client,
    }
}

fn default_config(da: DefaultAllow) -> InboundServer {
    default_inbound_server(da, &vec![cluster_net()], DETECT_TIMEOUT_MS)
}

#[test]
fn incrementally_configure_server() {
    let mut idx = mk_index(DefaultAllow::ClusterUnauthenticated);
    idx.apply_node(mk_node("node-0", "192.0.2.2/28")).unwrap();
    let pod = mk_pod("ns-0", "pod-0", "node-0", vec![2222, 9999]);
    idx.apply_pod(clone_pod(&pod)).unwrap();

    let default_config = default_config(DefaultAllow::ClusterUnauthenticated);

    // A port that's not exposed by the pod is not found.
    assert!(idx.lookup("ns-0", "pod-0", 7000).is_none());

    // The default policy applies for all exposed ports.
    let port2222 = idx.lookup("ns-0", "pod-0", 2222).unwrap();
    assert_eq!(port2222.kubelet_ips, KubeletIps { addrs: vec![kubelet_ip()] });
    assert!(inbound_server_eq(&port2222.server, &default_config));

    let port9999 = idx.lookup("ns-0", "pod-0", 9999).unwrap();
    assert_eq!(port9999.kubelet_ips, KubeletIps { addrs: vec![kubelet_ip()] });
    assert!(inbound_server_eq(&port9999.server, &default_config));

    // Update the server on port 2222 to have a configured protocol.
    let srv = mk_server("ns-0", "srv-0", Port::Number(2222), vec![], Some(ServerProtocol::Http1));
    idx.apply_server(srv);

    // The change applies only to the correct port.
    let basic_config = InboundServer { protocol: Protocol::Http1, authorizations: vec![] };
    let port2222 = idx.lookup("ns-0", "pod-0", 2222).unwrap();
    assert!(inbound_server_eq(&port2222.server, &basic_config));
    let port9999 = idx.lookup("ns-0", "pod-0", 9999).unwrap();
    assert!(inbound_server_eq(&port9999.server, &default_config));

    // Add an authorization policy that selects the server by name.
    let authz = mk_authz(
        "ns-0",
        "authz-0",
        "srv-0",
        ClientSpec {
            networks: None,
            unauthenticated: false,
            mesh_tls: Some(MeshTls {
                unauthenticated_tls: true,
                identities: vec![],
                service_accounts: vec![],
            }),
        },
    );
    idx.apply_authz(authz).unwrap();

    let expected = InboundServer {
        protocol: Protocol::Http1,
        authorizations: vec![(
            "authz-0".to_string(),
            ClientAuthorization {
                networks: vec![ClientNetwork::any(true), ClientNetwork::any(false)],
                authentication: ClientAuthentication::TlsUnauthenticated,
            },
        )],
    };
    let port2222 = idx.lookup("ns-0", "pod-0", 2222).unwrap();
    assert!(inbound_server_eq(&port2222.server, &expected));

    // Delete the authorization: the watch reverts, with a new publish.
    let inner_before = port2222.inner_version;
    let authz = mk_authz(
        "ns-0",
        "authz-0",
        "srv-0",
        ClientSpec { networks: None, unauthenticated: false, mesh_tls: None },
    );
    idx.delete_authz(authz);
    let port2222 = idx.lookup("ns-0", "pod-0", 2222).unwrap();
    assert!(inbound_server_eq(&port2222.server, &basic_config));
    assert_ne!(port2222.inner_version, inner_before);

    // Delete the server: the watch reverts to the default.
    let srv = mk_server("ns-0", "srv-0", Port::Number(2222), vec![], Some(ServerProtocol::Http1));
    idx.delete_server(srv).unwrap();
    let port2222 = idx.lookup("ns-0", "pod-0", 2222).unwrap();
    assert!(inbound_server_eq(&port2222.server, &default_config));

    // Delete the pod: the lookup closes.
    idx.delete_pod(pod).unwrap();
    assert!(idx.lookup("ns-0", "pod-0", 2222).is_none());
}

fn clone_pod(p: &PodResource) -> PodResource {
    PodResource {
        ns: p.ns.clone(),
        name: p.name.clone(),
        node: p.node.clone(),
        labels: p.labels.clone(),
        annotations: p.annotations.clone(),
        containers: p
            .containers
            .iter()
            .map(|c| ContainerSpec {
                name: c.name.clone(),
                ports: c
                    .ports
                    .iter()
                    .map(|q| ContainerPortSpec { port: q.port, name: q.name.clone() })
                    .collect(),
            })
            .collect(),
    }
}

#[test]
fn server_update_deselects_pod() {
    let mut idx = mk_index(DefaultAllow::ClusterUnauthenticated);
    idx.apply_node(mk_node("node-0", "192.0.2.2/28")).unwrap();
    idx.apply_pod(mk_pod("ns-0", "pod-0", "node-0", vec![2222])).unwrap();

    let srv = mk_server("ns-0", "srv-0", Port::Number(2222), vec![], Some(ServerProtocol::Http2));
    idx.apply_server(srv);

    let port2222 = idx.lookup("ns-0", "pod-0", 2222).unwrap();
    assert_eq!(port2222.kubelet_ips, KubeletIps { addrs: vec![kubelet_ip()] });
    assert!(inbound_server_eq(
        &port2222.server,
        &InboundServer { protocol: Protocol::Http2, authorizations: vec![] },
    ));

    // Re-apply the server with a pod selector no pod satisfies: the pod
    // port reverts to the default.
    let srv = mk_server(
        "ns-0",
        "srv-0",
        Port::Number(2222),
        vec![("label", "value")],
        Some(ServerProtocol::Http2),
    );
    idx.apply_server(srv);
    let port2222 = idx.lookup("ns-0", "pod-0", 2222).unwrap();
    assert!(inbound_server_eq(
        &port2222.server,
        &default_config(DefaultAllow::ClusterUnauthenticated),
    ));
}

#[test]
fn default_allow_global() {
    for default in [
        DefaultAllow::Deny,
        DefaultAllow::AllAuthenticated,
        DefaultAllow::AllUnauthenticated,
        DefaultAllow::ClusterAuthenticated,
        DefaultAllow::ClusterUnauthenticated,
    ] {
        let mut idx = mk_index(default);
        idx.reset_nodes(vec![mk_node("node-0", "192.0.2.2/28")]).unwrap();
        idx.reset_pods(vec![mk_pod("ns-0", "pod-0", "node-0", vec![2222])]).unwrap();

        let port2222 = idx.lookup("ns-0", "pod-0", 2222).expect("pod must exist in lookups");
        assert_eq!(port2222.kubelet_ips, KubeletIps { addrs: vec![kubelet_ip()] });
        assert!(inbound_server_eq(&port2222.server, &default_config(default)));
    }
}

#[test]
fn default_allow_annotated() {
    for default in [
        DefaultAllow::Deny,
        DefaultAllow::AllAuthenticated,
        DefaultAllow::AllUnauthenticated,
        DefaultAllow::ClusterAuthenticated,
        DefaultAllow::ClusterUnauthenticated,
    ] {
        let global = match default {
            DefaultAllow::Deny => DefaultAllow::AllUnauthenticated,
            _ => DefaultAllow::Deny,
        };
        let mut idx = mk_index(global);
        idx.reset_nodes(vec![mk_node("node-0", "192.0.2.2/28")]).unwrap();

        let mut pod = mk_pod("ns-0", "pod-0", "node-0", vec![2222]);
        pod.annotations.push((annotation_key().to_string(), default.name().to_string()));
        idx.reset_pods(vec![pod]).unwrap();

        let port2222 = idx.lookup("ns-0", "pod-0", 2222).expect("pod must exist in lookups");
        assert_eq!(port2222.kubelet_ips, KubeletIps { addrs: vec![kubelet_ip()] });
        assert!(inbound_server_eq(&port2222.server, &default_config(default)));
    }
}

#[test]
fn default_allow_annotated_invalid() {
    let mut idx = mk_index(DefaultAllow::AllUnauthenticated);
    idx.reset_nodes(vec![mk_node("node-0", "192.0.2.2/28")]).unwrap();

    let mut pod = mk_pod("ns-0", "pod-0", "node-0", vec![2222]);
    pod.annotations.push((annotation_key().to_string(), "bogus".to_string()));
    idx.reset_pods(vec![pod]).unwrap();

    let port2222 = idx.lookup("ns-0", "pod-0", 2222).expect("pod must exist in lookups");
    assert_eq!(port2222.kubelet_ips, KubeletIps { addrs: vec![kubelet_ip()] });
    assert!(inbound_server_eq(
        &port2222.server,
        &default_config(DefaultAllow::AllUnauthenticated),
    ));
}

#[test]
fn pod_before_node_reset() {
    let mut idx = mk_index(DefaultAllow::Deny);

    // A pod whose node has not been observed is pending, not discoverable.
    idx.reset_pods(vec![mk_pod("ns-0", "pod-0", "node-0", vec![2222])]).unwrap();
    assert!(idx.lookup("ns-0", "pod-0", 2222).is_none());

    // A pod restart replaces the pending set.
    idx.reset_pods(vec![mk_pod("ns-0", "pod-1", "node-0", vec![3333])]).unwrap();

    // The node arrives: only the second pod materializes.
    idx.reset_nodes(vec![mk_node("node-0", "192.0.2.2/28")]).unwrap();
    assert!(idx.lookup("ns-0", "pod-0", 2222).is_none(), "first pod must not exist");
    idx.lookup("ns-0", "pod-1", 3333).expect("second pod must exist");
}

#[test]
fn pod_before_node_remove() {
    let mut idx = mk_index(DefaultAllow::Deny);

    let pod = mk_pod("ns-0", "pod-0", "node-0", vec![2222]);
    idx.reset_pods(vec![clone_pod(&pod)]).unwrap();
    assert!(idx.lookup("ns-0", "pod-0", 2222).is_none());

    // Delete the pending pod, then apply the node: it must not appear.
    idx.delete_pod(pod).unwrap();
    idx.reset_nodes(vec![mk_node("node-0", "192.0.2.2/28")]).unwrap();
    assert!(idx.lookup("ns-0", "pod-0", 2222).is_none());
}

#[test]
fn ambiguous_authorization_rejected() {
    let mut idx = mk_index(DefaultAllow::ClusterUnauthenticated);
    idx.apply_node(mk_node("node-0", "192.0.2.2/28")).unwrap();
    idx.apply_pod(mk_pod("ns-0", "pod-0", "node-0", vec![2222])).unwrap();
    idx.apply_server(mk_server(
        "ns-0",
        "srv-0",
        Port::Number(2222),
        vec![],
        Some(ServerProtocol::Http1),
    ));
    let before = idx.lookup("ns-0", "pod-0", 2222).unwrap();

    // An authorization naming a server and giving a selector is ambiguous.
    let authz = AuthzResource {
        ns: "ns-0".to_string(),
        name: "authz-0".to_string(),
        server: ServerRef {
            name: Some("srv-0".to_string()),
            selector: Some(vec![("app".to_string(), "x".to_string())]),
        },
        client: ClientSpec {
            networks: None,
            unauthenticated: true,
            mesh_tls: None,
        },
    };
    assert_eq!(idx.apply_authz(authz), Err(IndexError::AmbiguousServerSelection));

    // No server's snapshot is affected.
    let after = idx.lookup("ns-0", "pod-0", 2222).unwrap();
    assert!(inbound_server_eq(&before.server, &after.server));
    assert_eq!(before.inner_version, after.inner_version);
    assert_eq!(before.outer_version, after.outer_version);

    // An authorization selecting nothing is rejected too.
    let authz = AuthzResource {
        ns: "ns-0".to_string(),
        name: "authz-1".to_string(),
        server: ServerRef { name: None, selector: None },
        client: ClientSpec { networks: None, unauthenticated: true, mesh_tls: None },
    };
    assert_eq!(idx.apply_authz(authz), Err(IndexError::NoServerSelection));
}

#[test]
fn idempotent_apply_publishes_nothing() {
    let mut idx = mk_index(DefaultAllow::ClusterUnauthenticated);
    idx.apply_node(mk_node("node-0", "192.0.2.2/28")).unwrap();
    idx.apply_pod(mk_pod("ns-0", "pod-0", "node-0", vec![2222])).unwrap();
    idx.apply_server(mk_server(
        "ns-0",
        "srv-0",
        Port::Number(2222),
        vec![],
        Some(ServerProtocol::Http1),
    ));
    let authz = || {
        mk_authz(
            "ns-0",
            "authz-0",
            "srv-0",
            ClientSpec {
                networks: None,
                unauthenticated: true,
                mesh_tls: None,
            },
        )
    };
    idx.apply_authz(authz()).unwrap();
    let before = idx.lookup("ns-0", "pod-0", 2222).unwrap();

    // Applying identical resources again bumps no channel version.
    idx.apply_server(mk_server(
        "ns-0",
        "srv-0",
        Port::Number(2222),
        vec![],
        Some(ServerProtocol::Http1),
    ));
    idx.apply_authz(authz()).unwrap();
    let after = idx.lookup("ns-0", "pod-0", 2222).unwrap();
    assert!(inbound_server_eq(&before.server, &after.server));
    assert_eq!(before.inner_version, after.inner_version);
    assert_eq!(before.outer_version, after.outer_version);
}

#[test]
fn restart_reconciles_servers() {
    let mut idx = mk_index(DefaultAllow::ClusterUnauthenticated);
    idx.apply_node(mk_node("node-0", "192.0.2.2/28")).unwrap();
    idx.apply_pod(mk_pod("ns-0", "pod-0", "node-0", vec![2222, 9999])).unwrap();
    idx.apply_server(mk_server(
        "ns-0",
        "srv-0",
        Port::Number(2222),
        vec![],
        Some(ServerProtocol::Http1),
    ));
    idx.apply_server(mk_server(
        "ns-0",
        "srv-1",
        Port::Number(9999),
        vec![],
        Some(ServerProtocol::Opaque),
    ));

    // A restart that no longer carries srv-1 removes it; srv-0 stays.
    idx.reset_servers(vec![mk_server(
        "ns-0",
        "srv-0",
        Port::Number(2222),
        vec![],
        Some(ServerProtocol::Http1),
    )])
        .unwrap();
    let port2222 = idx.lookup("ns-0", "pod-0", 2222).unwrap();
    assert!(inbound_server_eq(
        &port2222.server,
        &InboundServer { protocol: Protocol::Http1, authorizations: vec![] },
    ));
    let port9999 = idx.lookup("ns-0", "pod-0", 9999).unwrap();
    assert!(inbound_server_eq(
        &port9999.server,
        &default_config(DefaultAllow::ClusterUnauthenticated),
    ));
}

#[test]
fn rejections_name_their_cause() {
    let mut idx = mk_index(DefaultAllow::Deny);

    // A node without a pod CIDR, or with an unparseable one, is rejected.
    assert_eq!(
        idx.apply_node(NodeResource { name: "node-0".to_string(), pod_cidrs: vec![] }),
        Err(IndexError::MissingNodeCidr)
    );
    assert_eq!(
        idx.apply_node(mk_node("node-0", "not-a-cidr")),
        Err(IndexError::InvalidCidr)
    );

    // Deleting what was never indexed is refused.
    assert_eq!(idx.delete_node("node-9"), Err(IndexError::MissingNode));
    assert_eq!(idx.rm_server("ns-9", "srv-9"), Err(IndexError::MissingNamespace));
    assert_eq!(
        idx.delete_pod(mk_pod("ns-9", "pod-9", "node-9", vec![1])),
        Err(IndexError::MissingPod)
    );
    idx.apply_server(mk_server("ns-0", "srv-0", Port::Number(80), vec![], None));
    assert_eq!(idx.rm_server("ns-0", "srv-9"), Err(IndexError::MissingServer));

    // An authorization that is neither unauthenticated nor mesh-TLS, or
    // whose mesh-TLS clause authorizes nobody, or with a bad CIDR, is
    // rejected.
    assert_eq!(
        idx.apply_authz(mk_authz(
            "ns-0",
            "authz-0",
            "srv-0",
            ClientSpec { networks: None, unauthenticated: false, mesh_tls: None },
        )),
        Err(IndexError::MissingMeshTls)
    );
    assert_eq!(
        idx.apply_authz(mk_authz(
            "ns-0",
            "authz-0",
            "srv-0",
            ClientSpec {
                networks: None,
                unauthenticated: false,
                mesh_tls: Some(MeshTls {
                    unauthenticated_tls: false,
                    identities: vec![],
                    service_accounts: vec![],
                }),
            },
        )),
        Err(IndexError::NoClientsAuthorized)
    );
    assert_eq!(
        idx.apply_authz(mk_authz(
            "ns-0",
            "authz-0",
            "srv-0",
            ClientSpec {
                networks: Some(vec![polixy::resource::NetworkSpec {
                    cidr: "not-a-cidr".to_string(),
                    except: vec![],
                }]),
                unauthenticated: true,
                mesh_tls: None,
            },
        )),
        Err(IndexError::InvalidCidr)
    );
}

#[test]
fn identity_parsing_reaches_the_wire() {
    // Identities and service accounts of an authorization reach the wire
    // split into names and suffixes.
    let mut idx = mk_index(DefaultAllow::Deny);
    idx.apply_node(mk_node("node-0", "192.0.2.2/28")).unwrap();
    idx.apply_pod(mk_pod("ns-0", "pod-0", "node-0", vec![2222])).unwrap();
    idx.apply_server(mk_server(
        "ns-0",
        "srv-0",
        Port::Number(2222),
        vec![],
        Some(ServerProtocol::Http1),
    ));
    idx.apply_authz(mk_authz(
        "ns-0",
        "authz-0",
        "srv-0",
        ClientSpec {
            networks: None,
            unauthenticated: false,
            mesh_tls: Some(MeshTls {
                unauthenticated_tls: false,
                identities: vec!["*".to_string(), "*.a.b".to_string(), "exact.name".to_string()],
                service_accounts: vec![polixy::resource::ServiceAccountRef {
                    namespace: None,
                    name: "default".to_string(),
                }],
            }),
        },
    ))
    .unwrap();

    let wire = polixy::discover::get_port(&idx, "ns-0:pod-0", 2222).unwrap();
    // The kubelet entry stands first; the stored authorization follows.
    let authz = &wire.authorizations[1];
    match &authz.authentication {
        Some(polixy::wire::WireAuthn::MeshTls(Some(
            polixy::wire::WireMeshTlsClients::Identities { identities, suffixes },
        ))) => {
            assert_eq!(
                identities,
                &vec![
                    "exact.name".to_string(),
                    "default.ns-0.serviceaccount.identity.cluster.example.com".to_string(),
                ]
            );
            assert_eq!(
                suffixes,
                &vec![vec![], vec!["a".to_string(), "b".to_string()]]
            );
        }
        other => panic!("unexpected permit: {:?}", other),
    }
}
