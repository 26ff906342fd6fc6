//! Core data model: the service binding, the control-channel messages,
//! the port window, and the locations of the daemon's state files.

use vstd::prelude::*;

verus! {

/// First port of the allocation window.
pub const PORT_RANGE_START: u16 = 4000;

/// Last port of the allocation window.
pub const PORT_RANGE_END: u16 = 5000;

/// True exactly when `port` lies in the allocation window.
pub open spec fn port_in_range(port: u16) -> bool {
    PORT_RANGE_START <= port <= PORT_RANGE_END
}

/// One registered service: a domain bound to a loopback port, together
/// with the pid of the process serving it and the project directory it
/// was started from.
#[derive(Debug)]
pub struct Service {
    pub domain: String,
    pub port: u16,
    pub pid: u32,
    pub directory: String,
}

/// Mathematical image of a `Service`.
pub struct ServiceView {
    pub domain: Seq<char>,
    pub port: u16,
    pub pid: u32,
    pub directory: Seq<char>,
}

impl View for Service {
    type V = ServiceView;

    open spec fn view(&self) -> ServiceView {
        ServiceView {
            domain: self.domain@,
            port: self.port,
            pid: self.pid,
            directory: self.directory@,
        }
    }
}

impl Clone for Service {
    fn clone(&self) -> (r: Service)
        ensures
            r == *self,
    {
        Service {
            domain: self.domain.clone(),
            port: self.port,
            pid: self.pid,
            directory: self.directory.clone(),
        }
    }
}

impl PartialEq for Service {
    fn eq(&self, other: &Service) -> (r: bool) {
        self.domain == other.domain && self.port == other.port && self.pid == other.pid
            && self.directory == other.directory
    }
}

impl vstd::std_specs::cmp::PartialEqSpecImpl for Service {
    open spec fn obeys_eq_spec() -> bool {
        true
    }

    open spec fn eq_spec(&self, other: &Service) -> bool {
        self@ == other@
    }
}

/// A request on the control channel, sent by the CLI to the daemon.
#[derive(Debug)]
pub enum Request {
    Register { domain: String, port: u16, pid: u32, directory: String },
    Unregister { domain: String },
    GetPort,
    List,
    Stop { domain: String },
    Shutdown,
    HttpsStatus,
}

/// Mathematical image of a `Request`.
pub enum RequestView {
    Register { domain: Seq<char>, port: u16, pid: u32, directory: Seq<char> },
    Unregister { domain: Seq<char> },
    GetPort,
    List,
    Stop { domain: Seq<char> },
    Shutdown,
    HttpsStatus,
}

impl View for Request {
    type V = RequestView;

    open spec fn view(&self) -> RequestView {
        match self {
            Request::Register { domain, port, pid, directory } => RequestView::Register {
                domain: domain@,
                port: *port,
                pid: *pid,
                directory: directory@,
            },
            Request::Unregister { domain } => RequestView::Unregister { domain: domain@ },
            Request::GetPort => RequestView::GetPort,
            Request::List => RequestView::List,
            Request::Stop { domain } => RequestView::Stop { domain: domain@ },
            Request::Shutdown => RequestView::Shutdown,
            Request::HttpsStatus => RequestView::HttpsStatus,
        }
    }
}

/// A reply on the control channel, sent by the daemon to the CLI.
#[derive(Debug)]
pub enum Response {
    Okay(Option<String>),
    Port(u16),
    Services(Vec<Service>),
    Error(String),
    HttpsEnabled(bool),
}

/// Mathematical image of a `Response`.
pub enum ResponseView {
    Okay(Option<Seq<char>>),
    Port(u16),
    Services(Seq<ServiceView>),
    Error(Seq<char>),
    HttpsEnabled(bool),
}

impl View for Response {
    type V = ResponseView;

    open spec fn view(&self) -> ResponseView {
        match self {
            Response::Okay(m) => ResponseView::Okay(
                match m {
                    Some(s) => Some(s@),
                    None => None,
                },
            ),
            Response::Port(p) => ResponseView::Port(*p),
            Response::Services(v) => ResponseView::Services(
                Seq::new(v@.len(), |i: int| v@[i]@),
            ),
            Response::Error(e) => ResponseView::Error(e@),
            Response::HttpsEnabled(b) => ResponseView::HttpsEnabled(*b),
        }
    }
}

/// True exactly when the two vectors hold equal bindings in order.
fn services_eq(a: &Vec<Service>, b: &Vec<Service>) -> (r: bool)
    ensures
        r == (Seq::new(a@.len(), |i: int| a@[i]@) == Seq::new(b@.len(), |i: int| b@[i]@)),
{
    let ghost av = Seq::new(a@.len(), |i: int| a@[i]@);
    let ghost bv = Seq::new(b@.len(), |i: int| b@[i]@);
    if a.len() != b.len() {
        proof {
            assert(av.len() != bv.len());
        }
        return false;
    }
    let mut i: usize = 0;
    while i < a.len()
        invariant
            a@.len() == b@.len(),
            0 <= i <= a@.len(),
            av == Seq::new(a@.len(), |k: int| a@[k]@),
            bv == Seq::new(b@.len(), |k: int| b@[k]@),
            forall|k: int| 0 <= k < i ==> av[k] == bv[k],
        decreases a.len() - i,
    {
        if !(a[i] == b[i]) {
            proof {
                assert(av[i as int] != bv[i as int]);
            }
            return false;
        }
        i += 1;
    }
    proof {
        assert(av =~= bv);
    }
    true
}

/// True exactly when the two optional messages hold the same text.
fn opt_string_eq(a: &Option<String>, b: &Option<String>) -> (r: bool)
    ensures
        r == (match (a, b) {
            (Some(x), Some(y)) => x@ == y@,
            (None, None) => true,
            _ => false,
        }),
{
    match (a, b) {
        (Some(x), Some(y)) => crate::strutil::str_eq(x.as_str(), y.as_str()),
        (None, None) => true,
        _ => false,
    }
}

impl PartialEq for Request {
    fn eq(&self, other: &Request) -> (r: bool) {
        match (self, other) {
            (
                Request::Register { domain: d1, port: p1, pid: i1, directory: r1 },
                Request::Register { domain: d2, port: p2, pid: i2, directory: r2 },
            ) => crate::strutil::str_eq(d1.as_str(), d2.as_str()) && *p1 == *p2 && *i1 == *i2
                && crate::strutil::str_eq(r1.as_str(), r2.as_str()),
            (Request::Unregister { domain: d1 }, Request::Unregister { domain: d2 }) =>
                crate::strutil::str_eq(d1.as_str(), d2.as_str()),
            (Request::GetPort, Request::GetPort) => true,
            (Request::List, Request::List) => true,
            (Request::Stop { domain: d1 }, Request::Stop { domain: d2 }) =>
                crate::strutil::str_eq(d1.as_str(), d2.as_str()),
            (Request::Shutdown, Request::Shutdown) => true,
            (Request::HttpsStatus, Request::HttpsStatus) => true,
            _ => false,
        }
    }
}

impl vstd::std_specs::cmp::PartialEqSpecImpl for Request {
    open spec fn obeys_eq_spec() -> bool {
        true
    }

    open spec fn eq_spec(&self, other: &Request) -> bool {
        self@ == other@
    }
}

impl PartialEq for Response {
    fn eq(&self, other: &Response) -> (r: bool) {
        match (self, other) {
            (Response::Okay(a), Response::Okay(b)) => opt_string_eq(a, b),
            (Response::Port(a), Response::Port(b)) => *a == *b,
            (Response::Services(a), Response::Services(b)) => services_eq(a, b),
            (Response::Error(a), Response::Error(b)) => crate::strutil::str_eq(
                a.as_str(),
                b.as_str(),
            ),
            (Response::HttpsEnabled(a), Response::HttpsEnabled(b)) => *a == *b,
            _ => false,
        }
    }
}

impl vstd::std_specs::cmp::PartialEqSpecImpl for Response {
    open spec fn obeys_eq_spec() -> bool {
        true
    }

    open spec fn eq_spec(&self, other: &Response) -> bool {
        self@ == other@
    }
}

/// The daemon's state directory under the user's home directory.
pub open spec fn unport_dir_spec(home: Seq<char>) -> Seq<char> {
    home + "/.unport"@
}

/// Path of the daemon's state directory, given the home directory.
pub fn unport_dir(home: &str) -> (r: String)
    ensures
        r@ == unport_dir_spec(home@),
{
    let mut s = home.to_owned();
    s.append("/.unport");
    s
}

/// Path of the control socket.
pub fn socket_path(home: &str) -> (r: String)
    ensures
        r@ == unport_dir_spec(home@) + "/unport.sock"@,
{
    let mut s = unport_dir(home);
    s.append("/unport.sock");
    s
}

/// Path of the pid file.
pub fn pid_path(home: &str) -> (r: String)
    ensures
        r@ == unport_dir_spec(home@) + "/unport.pid"@,
{
    let mut s = unport_dir(home);
    s.append("/unport.pid");
    s
}

/// Path of the persisted registry snapshot.
pub fn registry_path(home: &str) -> (r: String)
    ensures
        r@ == unport_dir_spec(home@) + "/registry.json"@,
{
    let mut s = unport_dir(home);
    s.append("/registry.json");
    s
}

} // verus!
