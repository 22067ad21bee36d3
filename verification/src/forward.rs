//! Connections into the container's network, for clients that forward ports.

use vstd::prelude::*;

use crate::text::{decimal, decimal_text, same_text};

verus! {

/// A port that a client asks for, if there is such a port.
pub fn forward_port(port_to_connect: u32) -> (r: Option<u16>)
    ensures
        match r {
            Some(port) => port as int == port_to_connect as int,
            None => port_to_connect > 65535,
        },
{
    if port_to_connect <= 65535 {
        Some(port_to_connect as u16)
    } else {
        None
    }
}

/// The host that a client means: the container itself where it names none.
pub open spec fn forward_host(host: Seq<char>) -> Seq<char> {
    if host == ""@ {
        "127.0.0.1"@
    } else {
        host
    }
}

/// The host that a client means.
pub fn normalize_forward_host(host: &str) -> (out: &str)
    ensures
        out@ == forward_host(host@),
{
    if same_text(host, "") {
        "127.0.0.1"
    } else {
        host
    }
}

/// `host:port`.
pub open spec fn host_port(host: Seq<char>, port: int) -> Seq<char> {
    host + ":"@ + decimal(port)
}

/// `host:port`.
fn host_port_text(host: &str, port: u64) -> (out: String)
    ensures
        out@ == host_port(host@, port as int),
{
    host.to_string().concat(":").concat(decimal_text(port).as_str())
}

/// The network namespace of a process.
pub fn namespace_path(pid: u32) -> (out: String)
    ensures
        out@ == "/proc/"@ + decimal(pid as int) + "/ns/net"@,
{
    "/proc/".to_string().concat(decimal_text(pid as u64).as_str()).concat("/ns/net")
}

/// What went wrong in another network namespace.
#[derive(Debug)]
pub enum NamespaceError<E> {
    /// The connection failed, and the way back did not.
    Connect(E),
    /// The way back failed.
    Restore(E),
    /// Both failed.
    Both { connect: E, restore: E },
}

/// What comes of a connection made in another network namespace. Whatever
/// happened to the connection, it is of no use where the way back failed.
pub fn settle<S, E>(connect: Result<S, E>, restore: Result<(), E>) -> (r: Result<
    S,
    NamespaceError<E>,
>)
    ensures
        r == match (connect, restore) {
            (Ok(stream), Ok(_)) => Ok::<S, NamespaceError<E>>(stream),
            (Err(e), Ok(_)) => Err(NamespaceError::Connect(e)),
            (Ok(_), Err(e)) => Err(NamespaceError::Restore(e)),
            (Err(c), Err(e)) => Err(NamespaceError::Both { connect: c, restore: e }),
        },
{
    match connect {
        Ok(stream) => match restore {
            Ok(_) => Ok(stream),
            Err(e) => Err(NamespaceError::Restore(e)),
        },
        Err(c) => match restore {
            Ok(_) => Err(NamespaceError::Connect(c)),
            Err(e) => Err(NamespaceError::Both { connect: c, restore: e }),
        },
    }
}

/// Attempts to connect to the addresses of a host, one after the other, until
/// one succeeds.
#[derive(Debug)]
pub struct Attempts<E> {
    last: Option<E>,
}

impl<E> Attempts<E> {
    /// The error of the last attempt, where there was one.
    pub closed spec fn last_error(self) -> Option<E> {
        self.last
    }

    /// No attempt has been made.
    pub fn new() -> (out: Attempts<E>)
        ensures
            out.last_error() is None,
    {
        Attempts { last: None }
    }

    /// Takes up an attempt. Its connection, if there is one, ends the series.
    pub fn attempted<S>(&mut self, outcome: Result<S, E>) -> (r: Option<S>)
        ensures
            match outcome {
                Ok(stream) => r == Some(stream) && final(self).last_error() == old(
                    self,
                ).last_error(),
                Err(e) => r is None && final(self).last_error() == Some(e),
            },
    {
        match outcome {
            Ok(stream) => Some(stream),
            Err(e) => {
                self.last = Some(e);
                None
            },
        }
    }

    /// What is told when no address is left: the error of the last attempt and
    /// what it was about, or that there was nothing to attempt.
    pub fn exhausted(self, host: &str, port: u16) -> (r: (Option<E>, String))
        ensures
            r.0 == self.last_error(),
            r.1@ == if self.last_error() is Some {
                "failed to connect to "@ + host_port(host@, port as int)
            } else {
                "no socket addresses resolved for "@ + host_port(host@, port as int)
            },
    {
        let place = host_port_text(host, port as u64);
        let message = if self.last.is_some() {
            "failed to connect to ".to_string().concat(place.as_str())
        } else {
            "no socket addresses resolved for ".to_string().concat(place.as_str())
        };
        (self.last, message)
    }
}

/// What is told of a host whose addresses cannot be found.
pub fn unresolved_message(host: &str, port: u16) -> (out: String)
    ensures
        out@ == "failed to resolve "@ + host_port(host@, port as int),
{
    "failed to resolve ".to_string().concat(host_port_text(host, port as u64).as_str())
}

/// A connection that a client asked for: where to, and where from.
#[derive(Debug, Clone)]
pub struct ForwardRequest {
    pub host: String,
    pub port: u32,
    pub originator: String,
    pub originator_port: u32,
}

impl ForwardRequest {
    /// Where to, and where from.
    pub open spec fn ends(self) -> Seq<char> {
        host_port(self.host@, self.port as int) + " from "@ + host_port(
            self.originator@,
            self.originator_port as int,
        )
    }

    /// Where to, and where from.
    fn ends_text(&self) -> (out: String)
        ensures
            out@ == self.ends(),
    {
        host_port_text(self.host.as_str(), self.port as u64).concat(" from ").concat(
            host_port_text(self.originator.as_str(), self.originator_port as u64).as_str(),
        )
    }

    /// What is logged when no connection is made.
    pub fn rejected(&self, error: &str) -> (out: String)
        ensures
            out@ == "direct-tcpip rejected for "@ + self.ends() + ": "@ + error@,
    {
        "direct-tcpip rejected for ".to_string().concat(self.ends_text().as_str()).concat(
            ": ",
        ).concat(error)
    }

    /// What is logged when a connection breaks.
    pub fn broken(&self, error: &str) -> (out: String)
        ensures
            out@ == "direct-tcpip bridge failed for "@ + self.ends() + ": "@ + error@,
    {
        "direct-tcpip bridge failed for ".to_string().concat(self.ends_text().as_str()).concat(
            ": ",
        ).concat(error)
    }
}

/// The outcome of a series of attempts: the first connection, or else the
/// error of the last attempt.
pub open spec fn series<S, E>(outcomes: Seq<Result<S, E>>) -> Result<S, Option<E>>
    decreases outcomes.len(),
{
    if outcomes.len() == 0 {
        Err(None)
    } else {
        match outcomes[0] {
            Ok(stream) => Ok(stream),
            Err(e) => match series(outcomes.skip(1)) {
                Ok(stream) => Ok(stream),
                Err(Some(later)) => Err(Some(later)),
                Err(None) => Err(Some(e)),
            },
        }
    }
}

/// What the attempts come to from a state on, each taken up in turn.
pub open spec fn taken_up<S, E>(last: Option<E>, outcomes: Seq<Result<S, E>>) -> Result<S, Option<E>>
    decreases outcomes.len(),
{
    if outcomes.len() == 0 {
        Err(last)
    } else {
        match outcomes[0] {
            Ok(stream) => Ok(stream),
            Err(e) => taken_up(Some(e), outcomes.skip(1)),
        }
    }
}

/// Law: the first address that can be reached is used, and where none can, the
/// error told is that of the last one.
pub proof fn first_reachable_address_is_used<S, E>(last: Option<E>, outcomes: Seq<Result<S, E>>)
    ensures
        taken_up(last, outcomes) == match series(outcomes) {
            Ok(stream) => Ok::<S, Option<E>>(stream),
            Err(Some(e)) => Err(Some(e)),
            Err(None) => Err(last),
        },
    decreases outcomes.len(),
{
    if outcomes.len() > 0 {
        match outcomes[0] {
            Ok(stream) => {},
            Err(e) => {
                first_reachable_address_is_used(Some(e), outcomes.skip(1));
            },
        }
    }
}

/// Law: a host is taken as it is, and none stands for the container itself.
pub proof fn a_host_is_taken_as_it_is(host: Seq<char>)
    ensures
        host.len() == 0 ==> forward_host(host) == "127.0.0.1"@,
        host.len() > 0 ==> forward_host(host) == host,
{
    reveal_strlit("");
    if host.len() == 0 {
        assert(host =~= ""@);
    }
}

/// Law: a place is told as its host, a colon and its port, and a connection as
/// where to and where from.
pub proof fn places_are_told_by_host_and_port(request: ForwardRequest, host: Seq<char>, port: int)
    ensures
        host_port(host, port) == host + ":"@ + decimal(port),
        request.ends() == request.host@ + ":"@ + decimal(request.port as int) + " from "@ + (
        request.originator@ + ":"@ + decimal(request.originator_port as int)),
{
}

/// Law: of several attempts the first that succeeds counts, whatever comes
/// behind it; where all fail, the last error does.
pub proof fn the_first_success_or_the_last_error<S, E>(
    last: Option<E>,
    outcomes: Seq<Result<S, E>>,
    k: int,
)
    requires
        0 <= k < outcomes.len(),
        forall|i: int| 0 <= i < k ==> #[trigger] outcomes[i] is Err,
    ensures
        outcomes[k] matches Ok(stream) ==> taken_up(last, outcomes) == Ok::<S, Option<E>>(stream),
        outcomes[k] matches Err(e) ==> k == outcomes.len() - 1 ==> taken_up(last, outcomes) == Err::<
            S,
            Option<E>,
        >(Some(e)),
    decreases k,
{
    let rest = outcomes.skip(1);
    if k > 0 {
        assert forall|i: int| 0 <= i < k - 1 implies #[trigger] rest[i] is Err by {
            assert(rest[i] == outcomes[i + 1]);
        }
        assert(rest[k - 1] == outcomes[k]);
        assert(outcomes[0] is Err);
        the_first_success_or_the_last_error(Some(outcomes[0]->Err_0), rest, k - 1);
    } else {
        reveal_with_fuel(taken_up, 2);
    }
}

/// Law: a port number is taken where there is such a port, and no other.
pub proof fn port_numbers_are_taken_as_they_are(number: u32, port: Option<u16>)
    requires
        call_ensures(forward_port, (number,), port),
    ensures
        number <= 65535 ==> (port matches Some(p) && p as int == number as int),
        number > 65535 ==> port is None,
{
}

/// Law: a client that names no host means the container itself, and any other
/// host is the one that is named.
pub proof fn the_named_host_is_meant(host: &str, meant: &str)
    requires
        call_ensures(normalize_forward_host, (host,), meant),
    ensures
        host@.len() == 0 ==> meant@ == "127.0.0.1"@,
        host@.len() > 0 ==> meant@ == host@,
{
    a_host_is_taken_as_it_is(host@);
}

/// Law: the network namespace is that of the process.
pub proof fn the_namespace_is_that_of_the_process(pid: u32, path: String)
    requires
        call_ensures(namespace_path, (pid,), path),
    ensures
        path@ == "/proc/"@ + decimal(pid as int) + "/ns/net"@,
{
}

/// Law: a connection is used exactly where it was made and the way back was
/// found; otherwise the errors there were are told.
pub proof fn a_connection_needs_both_ways<S, E>(
    connect: Result<S, E>,
    restore: Result<(), E>,
    r: Result<S, NamespaceError<E>>,
)
    requires
        call_ensures(settle::<S, E>, (connect, restore), r),
    ensures
        r is Ok <==> connect is Ok && restore is Ok,
        r matches Ok(stream) ==> connect == Ok::<S, E>(stream),
        r matches Err(NamespaceError::Connect(e)) ==> connect == Err::<S, E>(e) && restore is Ok,
        r matches Err(NamespaceError::Restore(e)) ==> connect is Ok && restore == Err::<(), E>(e),
        r matches Err(NamespaceError::Both { connect: c, restore: w }) ==> connect == Err::<S, E>(c)
            && restore == Err::<(), E>(w),
{
}

/// Law: what is told of a host names the host and the port.
pub proof fn hosts_are_told_with_their_port(
    host: &str,
    port: u16,
    unresolved: String,
    request: &ForwardRequest,
    error: &str,
    rejected: String,
    broken: String,
)
    requires
        call_ensures(unresolved_message, (host, port), unresolved),
        call_ensures(ForwardRequest::rejected, (request, error), rejected),
        call_ensures(ForwardRequest::broken, (request, error), broken),
    ensures
        unresolved@ == "failed to resolve "@ + (host@ + ":"@ + decimal(port as int)),
        rejected@ == "direct-tcpip rejected for "@ + request.ends() + ": "@ + error@,
        broken@ == "direct-tcpip bridge failed for "@ + request.ends() + ": "@ + error@,
{
}

/// Law: when no address is left, the last error is told, or that there was no
/// address.
pub proof fn the_last_error_is_told<E>(
    attempts: Attempts<E>,
    host: &str,
    port: u16,
    r: (Option<E>, String),
)
    requires
        call_ensures(Attempts::<E>::exhausted, (attempts, host, port), r),
    ensures
        r.0 == attempts.last_error(),
        r.0 is Some ==> r.1@ == "failed to connect to "@ + (host@ + ":"@ + decimal(port as int)),
        r.0 is None ==> r.1@ == "no socket addresses resolved for "@ + (host@ + ":"@ + decimal(
            port as int,
        )),
{
}

} // verus!
