//! Tests of the discovery façade: workload validation, one-shot lookups,
//! stream deduplication and readiness.

use polixy::defaults::DefaultAllow;
use polixy::discover::{
    discover, get_port, parse_workload, DiscoverError, Readiness, ResourceKind, WatchState,
};
use polixy::inbound::{InboundServer, Protocol};
use polixy::index::Index;
use polixy::net::Cidr;
use polixy::resource::{ContainerPortSpec, ContainerSpec, NodeResource, PodResource};

fn mk_index_with_pod() -> Index {
    let mut idx = Index::new(
        vec![Cidr { bits: 0xC0000200, prefix: 24, v4: true }],
        "cluster.example.com".to_string(),
        DefaultAllow::ClusterUnauthenticated,
        1000,
    );
    idx.apply_node(NodeResource {
        name: "node-0".to_string(),
        pod_cidrs: vec!["192.0.2.2/28".to_string()],
    })
    .unwrap();
    idx.apply_pod(PodResource {
        ns: "ns-0".to_string(),
        name: "pod-0".to_string(),
        node: "node-0".to_string(),
        labels: vec![],
        annotations: vec![],
        containers: vec![ContainerSpec {
            name: "container-0".to_string(),
            ports: vec![ContainerPortSpec { port: 2222, name: None }],
        }],
    })
    .unwrap();
    idx
}

#[test]
fn workload_parsing() {
    assert_eq!(
        parse_workload("ns-0:pod-0"),
        Ok(("ns-0".to_string(), "pod-0".to_string()))
    );
    assert_eq!(parse_workload("nope"), Err(DiscoverError::InvalidWorkload));
    assert_eq!(parse_workload(":pod"), Err(DiscoverError::InvalidWorkload));
    assert_eq!(parse_workload("ns:"), Err(DiscoverError::InvalidWorkload));
    // Only the first colon splits; the pod part may hold more colons.
    assert_eq!(
        parse_workload("ns:pod:extra"),
        Ok(("ns".to_string(), "pod:extra".to_string()))
    );
}

#[test]
fn discover_validates_and_looks_up() {
    let idx = mk_index_with_pod();
    assert_eq!(
        discover(&idx, "bad-workload", 2222).unwrap_err(),
        DiscoverError::InvalidWorkload
    );
    assert_eq!(discover(&idx, "ns-0:pod-0", 0).unwrap_err(), DiscoverError::InvalidPort);
    assert_eq!(
        discover(&idx, "ns-0:pod-0", 70000).unwrap_err(),
        DiscoverError::InvalidPort
    );
    assert_eq!(
        discover(&idx, "ns-0:pod-9", 2222).unwrap_err(),
        DiscoverError::NotFound
    );
    assert_eq!(
        discover(&idx, "ns-0:pod-0", 7000).unwrap_err(),
        DiscoverError::NotFound
    );
    let rx = discover(&idx, "ns-0:pod-0", 2222).unwrap();
    assert_eq!(rx.kubelet_ips.addrs.len(), 1);
}

#[test]
fn get_port_injects_kubelet_authorization() {
    let idx = mk_index_with_pod();
    let wire = get_port(&idx, "ns-0:pod-0", 2222).unwrap();
    // The kubelet authorization stands first; the default's follows.
    assert!(wire.authorizations.len() >= 2);
    assert!(wire.authorizations[0]
        .labels
        .iter()
        .any(|(k, v)| k == "name" && v == "_kubelet"));
    assert!(wire.authorizations[1]
        .labels
        .iter()
        .any(|(k, v)| k == "name" && v == "_cluster_unauthed"));
}

#[test]
fn watch_deduplicates_snapshots() {
    let mut w = WatchState::new();
    let a = InboundServer { protocol: Protocol::Http1, authorizations: vec![] };
    let b = InboundServer { protocol: Protocol::Http2, authorizations: vec![] };

    // The first snapshot is always emitted.
    assert!(w.observe(InboundServer { protocol: Protocol::Http1, authorizations: vec![] })
        .is_some());
    // An identical snapshot is suppressed.
    assert!(w.observe(a).is_none());
    // A different one is emitted.
    assert!(w.observe(b).is_some());
    // And suppressed once it repeats.
    assert!(w.observe(InboundServer { protocol: Protocol::Http2, authorizations: vec![] })
        .is_none());
}

#[test]
fn readiness_publishes_once_per_change() {
    let mut r = Readiness::new();
    assert_eq!(r.poll(), None);
    r.observe_restart(ResourceKind::Nodes);
    r.observe_restart(ResourceKind::Namespaces);
    r.observe_restart(ResourceKind::Pods);
    r.observe_restart(ResourceKind::Servers);
    assert_eq!(r.poll(), None);
    r.observe_restart(ResourceKind::Authorizations);
    // Every stream has restarted once: readiness flips, published once.
    assert_eq!(r.poll(), Some(true));
    assert_eq!(r.poll(), None);
}
