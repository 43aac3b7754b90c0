//! Configuration values the proxy core consumes: the listen port, the
//! outbound connection-pool settings, the log-level table, and the route
//! list. The core receives these already parsed and validated.

use std::collections::HashMap;
use std::time::Duration;
use vstd::prelude::*;

verus! {

/// A configured mapping from a path pattern to an upstream base address,
/// plus the number of leading path segments to strip before forwarding.
pub struct Route {
    id: String,
    uri: String,
    predicate: String,
    strip: usize,
}

impl Route {
    /// Diagnostic name of the route; not a lookup key.
    pub closed spec fn spec_id(&self) -> Seq<char> {
        self.id@
    }

    /// Upstream base address, expected without a trailing slash.
    pub closed spec fn spec_uri(&self) -> Seq<char> {
        self.uri@
    }

    /// Path pattern this route is selected by.
    pub closed spec fn spec_predicate(&self) -> Seq<char> {
        self.predicate@
    }

    /// Number of leading path segments dropped before forwarding.
    pub closed spec fn spec_strip(&self) -> usize {
        self.strip
    }

    pub fn new(id: String, uri: String, predicate: String, strip: usize) -> (r: Route)
        ensures
            r.spec_id() == id@,
            r.spec_uri() == uri@,
            r.spec_predicate() == predicate@,
            r.spec_strip() == strip,
    {
        Route { id, uri, predicate, strip }
    }

    pub fn id(&self) -> (r: &str)
        ensures
            r@ == self.spec_id(),
    {
        self.id.as_str()
    }

    pub fn uri(&self) -> (r: &str)
        ensures
            r@ == self.spec_uri(),
    {
        self.uri.as_str()
    }

    pub fn predicate(&self) -> (r: &str)
        ensures
            r@ == self.spec_predicate(),
    {
        self.predicate.as_str()
    }

    pub fn strip(&self) -> (r: usize)
        ensures
            r == self.spec_strip(),
    {
        self.strip
    }
}

/// Listener settings: the port the inbound side binds to.
pub struct Server {
    port: u16,
}

impl Server {
    pub closed spec fn spec_port(&self) -> u16 {
        self.port
    }

    pub fn new(port: u16) -> (r: Server)
        ensures
            r.spec_port() == port,
    {
        Server { port }
    }

    pub fn port(&self) -> (r: u16)
        ensures
            r == self.spec_port(),
    {
        self.port
    }
}

/// Outbound connection-pool settings. A `pool_max_idle_per_host` of zero
/// and an absent `pool_idle_timeout` both mean "use the transport default".
pub struct Client {
    pool_max_idle_per_host: usize,
    pool_idle_timeout: Option<Duration>,
}

impl Client {
    pub closed spec fn spec_pool_max_idle_per_host(&self) -> usize {
        self.pool_max_idle_per_host
    }

    pub closed spec fn spec_pool_idle_timeout(&self) -> Option<Duration> {
        self.pool_idle_timeout
    }

    pub fn new(pool_max_idle_per_host: usize, pool_idle_timeout: Option<Duration>) -> (r: Client)
        ensures
            r.spec_pool_max_idle_per_host() == pool_max_idle_per_host,
            r.spec_pool_idle_timeout() == pool_idle_timeout,
    {
        Client { pool_max_idle_per_host, pool_idle_timeout }
    }

    pub fn pool_max_idle_per_host(&self) -> (r: usize)
        ensures
            r == self.spec_pool_max_idle_per_host(),
    {
        self.pool_max_idle_per_host
    }

    pub fn pool_idle_timeout(&self) -> (r: Option<Duration>)
        ensures
            r == self.spec_pool_idle_timeout(),
    {
        self.pool_idle_timeout
    }
}

/// Log-level table: module name (or the root scope) to level name.
/// Consumed only by the logging collaborator outside this core.
pub struct Logging {
    level: HashMap<String, String>,
}

impl Logging {
    pub closed spec fn spec_level(&self) -> HashMap<String, String> {
        self.level
    }

    pub fn new(level: HashMap<String, String>) -> (r: Logging)
        ensures
            r.spec_level() == level,
    {
        Logging { level }
    }

    pub fn level(&self) -> (r: &HashMap<String, String>)
        ensures
            *r == self.spec_level(),
    {
        &self.level
    }
}

/// The whole configuration the core is handed at startup.
pub struct Config {
    server: Server,
    client: Client,
    logging: Logging,
    routes: Vec<Route>,
}

impl Config {
    pub closed spec fn spec_server(&self) -> Server {
        self.server
    }

    pub closed spec fn spec_client(&self) -> Client {
        self.client
    }

    pub closed spec fn spec_logging(&self) -> Logging {
        self.logging
    }

    pub closed spec fn spec_routes(&self) -> Seq<Route> {
        self.routes@
    }

    pub fn new(server: Server, client: Client, logging: Logging, routes: Vec<Route>) -> (r:
        Config)
        ensures
            r.spec_server() == server,
            r.spec_client() == client,
            r.spec_logging() == logging,
            r.spec_routes() == routes@,
    {
        Config { server, client, logging, routes }
    }

    pub fn into_parts(self) -> (r: (Server, Client, Logging, Vec<Route>))
        ensures
            r.0 == self.spec_server(),
            r.1 == self.spec_client(),
            r.2 == self.spec_logging(),
            r.3@ == self.spec_routes(),
    {
        let Config { server, client, logging, routes } = self;
        (server, client, logging, routes)
    }
}

} // verus!
