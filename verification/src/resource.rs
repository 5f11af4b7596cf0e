//! The cluster resources the indexer consumes, as plain values: nodes,
//! namespaces, pods, `Server` resources and `ServerAuthorization` resources,
//! and the watch events that deliver them.

use vstd::prelude::*;

verus! {

/// A node: its name and its pod CIDR allocations, as written.
#[derive(Debug)]
pub struct NodeResource {
    pub name: String,
    pub pod_cidrs: Vec<String>,
}

#[verifier::ext_equal]
pub struct NodeResourceView {
    pub name: Seq<char>,
    pub pod_cidrs: Seq<Seq<char>>,
}

impl View for NodeResource {
    type V = NodeResourceView;

    open spec fn view(&self) -> NodeResourceView {
        NodeResourceView { name: self.name@, pod_cidrs: self.pod_cidrs.deep_view() }
    }
}

impl DeepView for NodeResource {
    type V = NodeResourceView;

    open spec fn deep_view(&self) -> NodeResourceView {
        self.view()
    }
}

/// A namespace: its name and annotations.
#[derive(Debug)]
pub struct NsResource {
    pub name: String,
    pub annotations: Vec<(String, String)>,
}

#[verifier::ext_equal]
pub struct NsResourceView {
    pub name: Seq<char>,
    pub annotations: Seq<(Seq<char>, Seq<char>)>,
}

impl View for NsResource {
    type V = NsResourceView;

    open spec fn view(&self) -> NsResourceView {
        NsResourceView { name: self.name@, annotations: self.annotations.deep_view() }
    }
}

impl DeepView for NsResource {
    type V = NsResourceView;

    open spec fn deep_view(&self) -> NsResourceView {
        self.view()
    }
}

/// One exposed container port: its number, and its declared name if any.
#[derive(Debug)]
pub struct ContainerPortSpec {
    pub port: u16,
    pub name: Option<String>,
}

#[verifier::ext_equal]
pub struct ContainerPortView {
    pub port: u16,
    pub name: Option<Seq<char>>,
}

impl View for ContainerPortSpec {
    type V = ContainerPortView;

    open spec fn view(&self) -> ContainerPortView {
        ContainerPortView { port: self.port, name: self.name.deep_view() }
    }
}

impl DeepView for ContainerPortSpec {
    type V = ContainerPortView;

    open spec fn deep_view(&self) -> ContainerPortView {
        self.view()
    }
}

/// One container of a pod: its name and its exposed ports.
#[derive(Debug)]
pub struct ContainerSpec {
    pub name: String,
    pub ports: Vec<ContainerPortSpec>,
}

#[verifier::ext_equal]
pub struct ContainerView {
    pub name: Seq<char>,
    pub ports: Seq<ContainerPortView>,
}

impl View for ContainerSpec {
    type V = ContainerView;

    open spec fn view(&self) -> ContainerView {
        ContainerView { name: self.name@, ports: self.ports.deep_view() }
    }
}

impl DeepView for ContainerSpec {
    type V = ContainerView;

    open spec fn deep_view(&self) -> ContainerView {
        self.view()
    }
}

/// A pod: where it lives and runs, its labels and annotations, and its
/// containers.
#[derive(Debug)]
pub struct PodResource {
    pub ns: String,
    pub name: String,
    pub node: String,
    pub labels: Vec<(String, String)>,
    pub annotations: Vec<(String, String)>,
    pub containers: Vec<ContainerSpec>,
}

#[verifier::ext_equal]
pub struct PodResourceView {
    pub ns: Seq<char>,
    pub name: Seq<char>,
    pub node: Seq<char>,
    pub labels: Seq<(Seq<char>, Seq<char>)>,
    pub annotations: Seq<(Seq<char>, Seq<char>)>,
    pub containers: Seq<ContainerView>,
}

impl View for PodResource {
    type V = PodResourceView;

    open spec fn view(&self) -> PodResourceView {
        PodResourceView {
            ns: self.ns@,
            name: self.name@,
            node: self.node@,
            labels: self.labels.deep_view(),
            annotations: self.annotations.deep_view(),
            containers: self.containers.deep_view(),
        }
    }
}

impl DeepView for PodResource {
    type V = PodResourceView;

    open spec fn deep_view(&self) -> PodResourceView {
        self.view()
    }
}

/// How a `Server` resource names the port it owns: by number or by the
/// port's declared name.
#[derive(Debug)]
pub enum Port {
    Number(u16),
    Name(String),
}

#[verifier::ext_equal]
pub enum PortView {
    Number(u16),
    Name(Seq<char>),
}

impl View for Port {
    type V = PortView;

    open spec fn view(&self) -> PortView {
        match self {
            Port::Number(n) => PortView::Number(*n),
            Port::Name(n) => PortView::Name(n@),
        }
    }
}

impl DeepView for Port {
    type V = PortView;

    open spec fn deep_view(&self) -> PortView {
        self.view()
    }
}

impl Clone for Port {
    /// A clone names the same port.
    fn clone(&self) -> (r: Self)
        ensures
            r@ == self@,
    {
        match self {
            Port::Number(n) => Port::Number(*n),
            Port::Name(n) => Port::Name(n.clone()),
        }
    }
}

/// The protocol a `Server` resource declares.
#[derive(Clone, Copy, Debug, PartialEq, Eq, Structural)]
pub enum ServerProtocol {
    Unknown,
    Http1,
    Http2,
    Grpc,
    Opaque,
    Tls,
}

/// A `Server` resource: a port, a pod selector, and an optional protocol.
#[derive(Debug)]
pub struct ServerResource {
    pub ns: String,
    pub name: String,
    pub labels: Vec<(String, String)>,
    pub port: Port,
    pub pod_selector: Vec<(String, String)>,
    pub proxy_protocol: Option<ServerProtocol>,
}

#[verifier::ext_equal]
pub struct ServerResourceView {
    pub ns: Seq<char>,
    pub name: Seq<char>,
    pub labels: Seq<(Seq<char>, Seq<char>)>,
    pub port: PortView,
    pub pod_selector: Seq<(Seq<char>, Seq<char>)>,
    pub proxy_protocol: Option<ServerProtocol>,
}

impl View for ServerResource {
    type V = ServerResourceView;

    open spec fn view(&self) -> ServerResourceView {
        ServerResourceView {
            ns: self.ns@,
            name: self.name@,
            labels: self.labels.deep_view(),
            port: self.port@,
            pod_selector: self.pod_selector.deep_view(),
            proxy_protocol: self.proxy_protocol,
        }
    }
}

impl DeepView for ServerResource {
    type V = ServerResourceView;

    open spec fn deep_view(&self) -> ServerResourceView {
        self.view()
    }
}

/// One client network of a `ServerAuthorization`: a CIDR and exclusions, as
/// written.
#[derive(Debug)]
pub struct NetworkSpec {
    pub cidr: String,
    pub except: Vec<String>,
}

#[verifier::ext_equal]
pub struct NetworkSpecView {
    pub cidr: Seq<char>,
    pub except: Seq<Seq<char>>,
}

impl View for NetworkSpec {
    type V = NetworkSpecView;

    open spec fn view(&self) -> NetworkSpecView {
        NetworkSpecView { cidr: self.cidr@, except: self.except.deep_view() }
    }
}

impl DeepView for NetworkSpec {
    type V = NetworkSpecView;

    open spec fn deep_view(&self) -> NetworkSpecView {
        self.view()
    }
}

/// A service-account reference of a `ServerAuthorization`.
#[derive(Debug)]
pub struct ServiceAccountRef {
    pub namespace: Option<String>,
    pub name: String,
}

#[verifier::ext_equal]
pub struct ServiceAccountRefView {
    pub namespace: Option<Seq<char>>,
    pub name: Seq<char>,
}

impl View for ServiceAccountRef {
    type V = ServiceAccountRefView;

    open spec fn view(&self) -> ServiceAccountRefView {
        ServiceAccountRefView { namespace: self.namespace.deep_view(), name: self.name@ }
    }
}

impl DeepView for ServiceAccountRef {
    type V = ServiceAccountRefView;

    open spec fn deep_view(&self) -> ServiceAccountRefView {
        self.view()
    }
}

/// The mesh-TLS clause of a `ServerAuthorization`.
#[derive(Debug, Default)]
pub struct MeshTls {
    pub unauthenticated_tls: bool,
    pub identities: Vec<String>,
    pub service_accounts: Vec<ServiceAccountRef>,
}

#[verifier::ext_equal]
pub struct MeshTlsView {
    pub unauthenticated_tls: bool,
    pub identities: Seq<Seq<char>>,
    pub service_accounts: Seq<ServiceAccountRefView>,
}

impl View for MeshTls {
    type V = MeshTlsView;

    open spec fn view(&self) -> MeshTlsView {
        MeshTlsView {
            unauthenticated_tls: self.unauthenticated_tls,
            identities: self.identities.deep_view(),
            service_accounts: self.service_accounts.deep_view(),
        }
    }
}

impl DeepView for MeshTls {
    type V = MeshTlsView;

    open spec fn deep_view(&self) -> MeshTlsView {
        self.view()
    }
}

/// The client clause of a `ServerAuthorization`.
#[derive(Debug, Default)]
pub struct ClientSpec {
    pub networks: Option<Vec<NetworkSpec>>,
    pub unauthenticated: bool,
    pub mesh_tls: Option<MeshTls>,
}

#[verifier::ext_equal]
pub struct ClientSpecView {
    pub networks: Option<Seq<NetworkSpecView>>,
    pub unauthenticated: bool,
    pub mesh_tls: Option<MeshTlsView>,
}

impl View for ClientSpec {
    type V = ClientSpecView;

    open spec fn view(&self) -> ClientSpecView {
        ClientSpecView {
            networks: self.networks.deep_view(),
            unauthenticated: self.unauthenticated,
            mesh_tls: self.mesh_tls.deep_view(),
        }
    }
}

impl DeepView for ClientSpec {
    type V = ClientSpecView;

    open spec fn deep_view(&self) -> ClientSpecView {
        self.view()
    }
}

/// How a `ServerAuthorization` selects servers: by name, or by a label
/// selector; exactly one must be given.
#[derive(Debug)]
pub struct ServerRef {
    pub name: Option<String>,
    pub selector: Option<Vec<(String, String)>>,
}

#[verifier::ext_equal]
pub struct ServerRefView {
    pub name: Option<Seq<char>>,
    pub selector: Option<Seq<(Seq<char>, Seq<char>)>>,
}

impl View for ServerRef {
    type V = ServerRefView;

    open spec fn view(&self) -> ServerRefView {
        ServerRefView { name: self.name.deep_view(), selector: self.selector.deep_view() }
    }
}

impl DeepView for ServerRef {
    type V = ServerRefView;

    open spec fn deep_view(&self) -> ServerRefView {
        self.view()
    }
}

/// A `ServerAuthorization` resource.
#[derive(Debug)]
pub struct AuthzResource {
    pub ns: String,
    pub name: String,
    pub server: ServerRef,
    pub client: ClientSpec,
}

#[verifier::ext_equal]
pub struct AuthzResourceView {
    pub ns: Seq<char>,
    pub name: Seq<char>,
    pub server: ServerRefView,
    pub client: ClientSpecView,
}

impl View for AuthzResource {
    type V = AuthzResourceView;

    open spec fn view(&self) -> AuthzResourceView {
        AuthzResourceView {
            ns: self.ns@,
            name: self.name@,
            server: self.server@,
            client: self.client@,
        }
    }
}

impl DeepView for AuthzResource {
    type V = AuthzResourceView;

    open spec fn deep_view(&self) -> AuthzResourceView {
        self.view()
    }
}

/// A watch event: an upsert, a removal, or a restart carrying the whole set
/// of a kind.
#[derive(Debug)]
pub enum Event<T> {
    Applied(T),
    Deleted(T),
    Restarted(Vec<T>),
}

} // verus!
