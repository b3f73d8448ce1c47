//! The configuration of a service.

use vstd::prelude::*;
use crate::endpoint::{Endpoint, ListenEndpoint, Protocol};
use crate::socket_addr::SocketAddr;
use crate::static_contact_info::StaticContactInfo;

verus! {

/// Used to configure a `Service`.
#[derive(Clone, Debug)]
pub struct Config {
    /// Peers to connect to during bootstrap.
    pub hard_coded_contacts: Vec<StaticContactInfo>,
    /// Endpoints to listen on.
    pub listen_endpoints: Vec<ListenEndpoint>,
    /// Known udp mapper servers.
    pub udp_mapper_servers: Vec<SocketAddr>,
    /// Known tcp mapper servers.
    pub tcp_mapper_servers: Vec<SocketAddr>,
    /// Port for discovering other peers on the local network.
    pub service_discovery_port: Option<u16>,
    /// Name of the bootrap cache file.
    pub bootstrap_cache_name: Option<String>,
}

/// The endpoint that a default configuration listens on: TCP on 0.0.0.0, any port.
pub open spec fn default_listen_endpoint() -> Endpoint {
    Endpoint { protocol: Protocol::Tcp, socket_addr: SocketAddr::V4 { ip: 0, port: 0 } }
}

/// The suffix that turns the executable's file stem into the config file's name.
pub open spec fn config_file_suffix() -> Seq<char> {
    ".crust.config"@
}

impl Default for Config {
    /// No contacts, no mapper servers, no discovery port or cache name, and one listener:
    /// TCP on 0.0.0.0 with any port.
    fn default() -> (c: Config)
        ensures
            c.hard_coded_contacts@.len() == 0,
            c.listen_endpoints@ == seq![default_listen_endpoint()],
            c.udp_mapper_servers@.len() == 0,
            c.tcp_mapper_servers@.len() == 0,
            c.service_discovery_port is None,
            c.bootstrap_cache_name is None,
    {
        let mut listen_endpoints: Vec<ListenEndpoint> = Vec::new();
        listen_endpoints.push(
            Endpoint { protocol: Protocol::Tcp, socket_addr: SocketAddr::V4 { ip: 0, port: 0 } },
        );
        proof {
            assert(listen_endpoints@ =~= seq![default_listen_endpoint()]);
        }
        Config {
            hard_coded_contacts: Vec::new(),
            listen_endpoints,
            udp_mapper_servers: Vec::new(),
            tcp_mapper_servers: Vec::new(),
            service_discovery_port: None,
            bootstrap_cache_name: None,
        }
    }
}

impl Config {
    /// The name of the crust config file that belongs to an executable with the file stem
    /// `exe_file_stem`.
    pub fn file_name_for(exe_file_stem: &str) -> (name: String)
        ensures
            name@ == exe_file_stem@ + config_file_suffix(),
    {
        let mut name = String::from_str(exe_file_stem);
        name.append(".crust.config");
        name
    }
}

} // verus!
