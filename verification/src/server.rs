//! The settings of a server.
use vstd::prelude::*;

use crate::errors::ErrorKind;
use crate::errors::ErrorText;
use crate::head::string_view;

verus! {

/// Where a server runs, and how.
pub struct Server {
    addr: String,
    no_delay: bool,
    pool_size: usize,
    keep_alive_secs: u64,
}

/// A `Server` as a value.
pub struct ServerView {
    pub addr: Seq<char>,
    pub no_delay: bool,
    pub pool_size: usize,
    pub keep_alive_secs: u64,
}

impl View for Server {
    type V = ServerView;

    closed spec fn view(&self) -> ServerView {
        ServerView {
            addr: self.addr@,
            no_delay: self.no_delay,
            pool_size: self.pool_size,
            keep_alive_secs: self.keep_alive_secs,
        }
    }
}

/// These settings, but for `tcp_nodelay`.
pub open spec fn with_nodelay(v: ServerView, no_delay: bool) -> ServerView {
    ServerView { no_delay, ..v }
}

/// These settings, but for the number of handlers.
pub open spec fn with_pool_size(v: ServerView, pool_size: usize) -> ServerView {
    ServerView { pool_size, ..v }
}

/// These settings, but for the keep-alive timeout.
pub open spec fn with_keepalive_secs(v: ServerView, keep_alive_secs: u64) -> ServerView {
    ServerView { keep_alive_secs, ..v }
}

/// `num_cpus::get`: how many CPUs there are for this process, at least one. How many is up to the
/// machine.
#[verifier::external_body]
fn cpus() -> (n: usize)
    ensures
        n >= 1,
{
    num_cpus::get()
}

/// The text of the socket address that `text` reads as, or nothing where it reads as none.
pub uninterp spec fn socket_addr(text: Seq<char>) -> Option<Seq<char>>;

/// `core::net::SocketAddr` from a string, and back to one. Which strings it takes rests on the
/// string alone, as no name is looked up; it is not spelled out further.
#[verifier::external_body]
fn parse_addr(text: &str) -> (r: Option<String>)
    ensures
        string_view(r) == socket_addr(text@),
{
    text.parse::<core::net::SocketAddr>().ok().map(|a| a.to_string())
}

/// A server or an error, as a value.
pub open spec fn server_result(r: Result<Server, ErrorKind>) -> Result<ServerView, ErrorText> {
    match r {
        Ok(server) => Ok(server@),
        Err(error) => Err(error@),
    }
}

/// The server for `text`, where that reads as the address `addr`, on a machine with this many CPUs.
/// Where it reads as none, it is at fault.
pub open spec fn default_server(
    text: Seq<char>,
    addr: Option<Seq<char>>,
    cpus: usize,
) -> Result<ServerView, ErrorText> {
    match addr {
        Some(addr) => Ok(default_settings(addr, cpus)),
        None => Err(ErrorText::AddrParse(text)),
    }
}

/// The settings that a server for `addr` starts from on a machine with this many CPUs.
pub open spec fn default_settings(addr: Seq<char>, cpus: usize) -> ServerView {
    ServerView {
        addr,
        no_delay: false,
        pool_size: cpus.wrapping_mul(8),
        keep_alive_secs: 5,
    }
}

impl Server {
    /// Initialize a new default `Server` to run on `addr`
    pub fn new(addr: &str) -> (r: Result<Self, ErrorKind>)
        ensures
            r is Ok == socket_addr(addr@) is Some,
            r matches Ok(server) ==> exists|cpus: usize|
                cpus >= 1 && server@ == #[trigger] default_settings(socket_addr(addr@)->0, cpus),
            r matches Err(error) ==> error@ == ErrorText::AddrParse(addr@),
    {
        let n: usize = cpus();
        let r = Server::with_cpus(addr, n);
        assert(r matches Ok(server) ==> server@ == default_settings(socket_addr(addr@)->0, n));
        r
    }

    /// As `new`, on a machine with this many CPUs.
    pub fn with_cpus(addr: &str, cpus: usize) -> (r: Result<Self, ErrorKind>)
        ensures
            server_result(r) == default_server(addr@, socket_addr(addr@), cpus),
            r matches Ok(server) ==> (cpus * 8 <= usize::MAX ==> server@.pool_size == cpus * 8),
    {
        Server::with_addr(addr, parse_addr(addr), cpus)
    }

    /// As `with_cpus`, where `text` reads as the address `addr` or as none.
    pub fn with_addr(text: &str, addr: Option<String>, cpus: usize) -> (r: Result<Self, ErrorKind>)
        ensures
            server_result(r) == default_server(text@, string_view(addr), cpus),
            r matches Ok(server) ==> (cpus * 8 <= usize::MAX ==> server@.pool_size == cpus * 8),
    {
        proof {
            if cpus * 8 <= usize::MAX {
                vstd::arithmetic::div_mod::lemma_small_mod(
                    (cpus * 8) as nat,
                    (usize::MAX + 1) as nat,
                );
            }
        }
        match addr {
            Some(addr) => Ok(
                Server {
                    addr,
                    no_delay: false,
                    pool_size: cpus.wrapping_mul(8),
                    keep_alive_secs: 5,
                },
            ),
            None => Err(ErrorKind::AddrParse(String::from_str(text))),
        }
    }

    /// Configure `tcp_nodelay` setting for each server socket.
    /// Default: `false`
    pub fn tcp_nodelay(&mut self, no_delay: bool) -> (r: &mut Self)
        ensures
            r@ == (ServerView { no_delay, ..old(self)@ }),
            r@ == with_nodelay(old(self)@, no_delay),
            *final(self) == *final(r),
    {
        self.no_delay = no_delay;
        self
    }

    /// Configure the size of the thread pool that's used for executing handlers
    ///
    /// Defaults to `num_cpus * 8`
    pub fn pool_size(&mut self, pool_size: usize) -> (r: &mut Self)
        ensures
            r@ == (ServerView { pool_size, ..old(self)@ }),
            r@ == with_pool_size(old(self)@, pool_size),
            *final(self) == *final(r),
    {
        self.pool_size = pool_size;
        self
    }

    /// Configure keep-alive timeout in seconds
    ///
    /// Defaults to 5 seconds
    pub fn set_keepalive_secs(&mut self, keep_alive_secs: u64) -> (r: &mut Self)
        ensures
            r@ == (ServerView { keep_alive_secs, ..old(self)@ }),
            r@ == with_keepalive_secs(old(self)@, keep_alive_secs),
            *final(self) == *final(r),
    {
        self.keep_alive_secs = keep_alive_secs;
        self
    }

    /// The address to run on.
    pub fn addr(&self) -> (r: &str)
        ensures
            r@ == self@.addr,
    {
        self.addr.as_str()
    }

    /// The `tcp_nodelay` setting.
    pub fn is_nodelay(&self) -> (r: bool)
        ensures
            r == self@.no_delay,
    {
        self.no_delay
    }

    /// How many handlers can run at a time.
    pub fn handlers(&self) -> (r: usize)
        ensures
            r == self@.pool_size,
    {
        self.pool_size
    }

    /// The keep-alive timeout in seconds.
    pub fn keepalive_secs(&self) -> (r: u64)
        ensures
            r == self@.keep_alive_secs,
    {
        self.keep_alive_secs
    }
}

/// Settings are made in any order, each without touching the others, and stay as they were made
/// last.
pub proof fn law_settings_are_independent(
    v: ServerView,
    no_delay: bool,
    pool_size: usize,
    secs: u64,
    other: ServerView,
)
    ensures
        ({
            let set = with_keepalive_secs(
                with_pool_size(with_nodelay(v, no_delay), pool_size),
                secs,
            );
            &&& set.no_delay == no_delay
            &&& set.pool_size == pool_size
            &&& set.keep_alive_secs == secs
            &&& set.addr == v.addr
            &&& set == with_nodelay(with_pool_size(with_keepalive_secs(v, secs), pool_size), no_delay)
        }),
        with_nodelay(with_nodelay(v, other.no_delay), no_delay) == with_nodelay(v, no_delay),
        with_pool_size(with_pool_size(v, other.pool_size), pool_size) == with_pool_size(
            v,
            pool_size,
        ),
        with_keepalive_secs(with_keepalive_secs(v, other.keep_alive_secs), secs)
            == with_keepalive_secs(v, secs),
        with_nodelay(v, v.no_delay) == v,
        with_pool_size(v, v.pool_size) == v,
        with_keepalive_secs(v, v.keep_alive_secs) == v,
{
}

/// A server starts out with eight handlers for each CPU, five seconds of keep-alive and Nagle's
/// algorithm left on, on the address that its text reads as, and there is none for a text that
/// reads as none.
pub proof fn law_servers_start_out_alike(text: Seq<char>, addr: Option<Seq<char>>, cpus: usize)
    ensures
        default_server(text, addr, cpus) is Ok <==> addr is Some,
        default_server(text, addr, cpus) matches Ok(server) ==> {
            &&& Some(server.addr) == addr
            &&& !server.no_delay
            &&& server.keep_alive_secs == 5
            &&& cpus * 8 <= usize::MAX ==> server.pool_size == cpus * 8
        },
        default_server(text, addr, cpus) matches Err(error) ==> error == ErrorText::AddrParse(text),
{
    if cpus * 8 <= usize::MAX {
        vstd::arithmetic::div_mod::lemma_small_mod((cpus * 8) as nat, (usize::MAX + 1) as nat);
    }
}

} // verus!
