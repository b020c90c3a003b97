//! The configuration of the deployment template generator: its defaults and
//! the values it derives for the templates.
use vstd::prelude::*;

use crate::text::{concat_str, push_char};

verus! {

/// The project being deployed.
#[derive(Debug, Clone)]
pub struct ProjectConfig {
    pub name: String,
    pub description: String,
    pub version: String,
    pub rust_version: String,
    pub license: String,
    pub license_url: Option<String>,
    pub contact_name: Option<String>,
    pub contact_url: Option<String>,
}

/// The server's network settings.
#[derive(Debug, Clone)]
pub struct ServerConfig {
    pub bind_address: String,
    pub port: u16,
    pub batch_mode: String,
    pub max_connections: u32,
    pub connection_timeout: u32,
}

/// The container image.
#[derive(Debug, Clone)]
pub struct DockerConfig {
    pub image_name: String,
    pub registry: Option<String>,
    pub expose_ports: Vec<u16>,
}

/// Container resources.
#[derive(Debug, Clone)]
pub struct ResourcesConfig {
    pub requests_memory: String,
    pub requests_cpu: String,
    pub limits_memory: String,
    pub limits_cpu: String,
}

/// The Kubernetes deployment.
#[derive(Debug, Clone)]
pub struct KubernetesConfig {
    pub namespace: String,
    pub replicas: u32,
    pub service_type: String,
    pub resources: ResourcesConfig,
}

/// An RPC method documented in the AsyncAPI description.
#[derive(Debug, Clone)]
pub struct RpcMethod {
    pub name: String,
    pub example_params: Option<String>,
    pub example_result: Option<String>,
}

/// A pub/sub topic documented in the AsyncAPI description.
#[derive(Debug, Clone)]
pub struct PubSubTopic {
    pub name: String,
    pub example_params: Option<String>,
}

/// The AsyncAPI description's settings.
#[derive(Debug, Clone)]
pub struct AsyncApiConfig {
    pub production_host: String,
    pub production_port: u16,
    pub production_protocol: String,
    pub development_host: String,
    pub development_port: u16,
    pub development_protocol: String,
    pub security_enabled: bool,
    pub methods: Vec<RpcMethod>,
    pub topics: Vec<PubSubTopic>,
}

/// The whole generator configuration.
#[derive(Debug, Clone)]
pub struct TemplateConfig {
    pub project: ProjectConfig,
    pub server: ServerConfig,
    pub docker: DockerConfig,
    pub kubernetes: KubernetesConfig,
    pub asyncapi: AsyncApiConfig,
}

/// Whether an optional text holds exactly `s`.
pub open spec fn holds(o: Option<String>, s: Seq<char>) -> bool {
    o matches Some(x) && x@ == s
}

/// The defaults of the project settings.
pub open spec fn default_project(p: ProjectConfig) -> bool {
    &&& p.name@ == "my-jrow-app"@
    &&& p.description@ == "My JROW-based application"@
    &&& p.version@ == "0.1.0"@
    &&& p.rust_version@ == "1.75"@
    &&& p.license@ == "MIT"@
    &&& holds(p.license_url, "https://opensource.org/licenses/MIT"@)
    &&& holds(p.contact_name, "API Support"@)
    &&& p.contact_url is None
}

/// The defaults of the server, container and Kubernetes settings.
pub open spec fn default_deployment(c: TemplateConfig) -> bool {
    &&& c.server.bind_address@ == "0.0.0.0"@
    &&& c.server.port == 8080
    &&& c.server.batch_mode@ == "Parallel"@
    &&& c.server.max_connections == 1000
    &&& c.server.connection_timeout == 300
    &&& c.docker.image_name@ == "my-jrow-app"@
    &&& c.docker.registry is None
    &&& c.docker.expose_ports@ == seq![8080u16]
    &&& c.kubernetes.namespace@ == "default"@
    &&& c.kubernetes.replicas == 3
    &&& c.kubernetes.service_type@ == "LoadBalancer"@
    &&& c.kubernetes.resources.requests_memory@ == "64Mi"@
    &&& c.kubernetes.resources.requests_cpu@ == "100m"@
    &&& c.kubernetes.resources.limits_memory@ == "128Mi"@
    &&& c.kubernetes.resources.limits_cpu@ == "500m"@
}

/// The defaults of the AsyncAPI settings: an `add` and an `echo` method and
/// one example topic.
pub open spec fn default_asyncapi(a: AsyncApiConfig) -> bool {
    &&& a.production_host@ == "api.example.com"@
    &&& a.production_port == 443
    &&& a.production_protocol@ == "wss"@
    &&& a.development_host@ == "localhost"@
    &&& a.development_port == 8080
    &&& a.development_protocol@ == "ws"@
    &&& a.security_enabled
    &&& a.methods@.len() == 2
    &&& a.methods@[0].name@ == "add"@
    &&& holds(a.methods@[0].example_params, "{\"a\": 5, \"b\": 3}"@)
    &&& holds(a.methods@[0].example_result, "8"@)
    &&& a.methods@[1].name@ == "echo"@
    &&& holds(a.methods@[1].example_params, "{\"message\": \"hello\"}"@)
    &&& holds(a.methods@[1].example_result, "{\"echoed\": \"hello\"}"@)
    &&& a.topics@.len() == 1
    &&& a.topics@[0].name@ == "example.topic"@
    &&& holds(a.topics@[0].example_params, "{\"data\": \"value\"}"@)
}

impl Default for TemplateConfig {
    fn default() -> (c: Self)
        ensures
            default_project(c.project),
            default_deployment(c),
            default_asyncapi(c.asyncapi),
    {
        let mut expose_ports: Vec<u16> = Vec::new();
        expose_ports.push(8080);
        let mut methods: Vec<RpcMethod> = Vec::new();
        methods.push(
            RpcMethod {
                name: "add".to_owned(),
                example_params: Some("{\"a\": 5, \"b\": 3}".to_owned()),
                example_result: Some("8".to_owned()),
            },
        );
        methods.push(
            RpcMethod {
                name: "echo".to_owned(),
                example_params: Some("{\"message\": \"hello\"}".to_owned()),
                example_result: Some("{\"echoed\": \"hello\"}".to_owned()),
            },
        );
        let mut topics: Vec<PubSubTopic> = Vec::new();
        topics.push(
            PubSubTopic {
                name: "example.topic".to_owned(),
                example_params: Some("{\"data\": \"value\"}".to_owned()),
            },
        );
        let c = TemplateConfig {
            project: ProjectConfig {
                name: "my-jrow-app".to_owned(),
                description: "My JROW-based application".to_owned(),
                version: "0.1.0".to_owned(),
                rust_version: "1.75".to_owned(),
                license: "MIT".to_owned(),
                license_url: Some("https://opensource.org/licenses/MIT".to_owned()),
                contact_name: Some("API Support".to_owned()),
                contact_url: None,
            },
            server: ServerConfig {
                bind_address: "0.0.0.0".to_owned(),
                port: 8080,
                batch_mode: "Parallel".to_owned(),
                max_connections: 1000,
                connection_timeout: 300,
            },
            docker: DockerConfig { image_name: "my-jrow-app".to_owned(), registry: None, expose_ports },
            kubernetes: KubernetesConfig {
                namespace: "default".to_owned(),
                replicas: 3,
                service_type: "LoadBalancer".to_owned(),
                resources: ResourcesConfig {
                    requests_memory: "64Mi".to_owned(),
                    requests_cpu: "100m".to_owned(),
                    limits_memory: "128Mi".to_owned(),
                    limits_cpu: "500m".to_owned(),
                },
            },
            asyncapi: AsyncApiConfig {
                production_host: "api.example.com".to_owned(),
                production_port: 443,
                production_protocol: "wss".to_owned(),
                development_host: "localhost".to_owned(),
                development_port: 8080,
                development_protocol: "ws".to_owned(),
                security_enabled: true,
                methods,
                topics,
            },
        };
        assert(c.docker.expose_ports@ =~= seq![8080u16]);
        c
    }
}

/// The image reference: `registry/image` with a registry, else the image name.
pub fn full_image(docker: &DockerConfig) -> (s: String)
    ensures
        s@ == match docker.registry {
            Some(r) => r@ + seq!['/'] + docker.image_name@,
            None => docker.image_name@,
        },
{
    match &docker.registry {
        Some(registry) => {
            let mut s = registry.clone();
            push_char(&mut s, '/');
            concat_str(s.as_str(), docker.image_name.as_str())
        },
        None => docker.image_name.clone(),
    }
}

/// The address the server binds: `address:port`.
pub fn bind_full(server: &ServerConfig) -> (s: String)
    ensures
        s@ == server.bind_address@ + seq![':'] + crate::error::decimal(server.port as nat),
{
    let mut s = server.bind_address.clone();
    push_char(&mut s, ':');
    crate::middleware::push_decimal_u64(server.port as u64, &mut s);
    s
}

} // verus!
