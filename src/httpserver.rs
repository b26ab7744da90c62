//! The server's configuration: where it listens and what it serves.

use vstd::prelude::*;

verus! {

/// A server listening on `host:port` and serving `work_dir`.
pub struct HttpServer {
    host: String,
    port: u16,
    work_dir: String,
}

impl HttpServer {
    /// A server for `host:port` serving `work_dir`.
    pub fn new(host: &str, port: u16, work_dir: &str) -> (r: HttpServer)
        ensures
            r.host()@ == host@,
            r.port() == port,
            r.work_dir()@ == work_dir@,
    {
        HttpServer {
            host: host.to_owned(),
            port,
            work_dir: work_dir.to_owned(),
        }
    }

    pub closed spec fn host(&self) -> String {
        self.host
    }

    pub closed spec fn port(&self) -> u16 {
        self.port
    }

    pub closed spec fn work_dir(&self) -> String {
        self.work_dir
    }

    /// The host to listen on.
    pub fn host_name(&self) -> (r: &str)
        ensures
            r@ == self.host()@,
    {
        self.host.as_str()
    }

    /// The port to listen on.
    pub fn port_number(&self) -> (r: u16)
        ensures
            r == self.port(),
    {
        self.port
    }

    /// The directory that is served.
    pub fn root(&self) -> (r: &str)
        ensures
            r@ == self.work_dir()@,
    {
        self.work_dir.as_str()
    }
}

} // verus!
