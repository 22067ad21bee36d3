//! The check that active mappings can be reached.

use vstd::prelude::*;
use vstd::utf8::{decode_utf8, valid_utf8};

use crate::docker::{ActiveMapping, ActiveView};
use crate::outside::{lossy, lossy_text, private_key, read_private_key};
use crate::serve::KeyError;
use crate::text::{
    a_part_stands_somewhere, chars_of, contains, decimal, decimal_text, holds,
};

verus! {

/// The command that opens the Docker API.
pub fn ping_command() -> (out: &'static str)
    ensures
        out@ == "docker system dial-stdio"@,
{
    "docker system dial-stdio"
}

/// The request that the API is tried with.
pub fn ping_request() -> (out: &'static str)
    ensures
        out@ == "GET /_ping HTTP/1.0\r\nHost: docker\r\n\r\n"@,
{
    "GET /_ping HTTP/1.0\r\nHost: docker\r\n\r\n"
}

/// An answer that says the API is there.
pub open spec fn is_pong(body: Seq<char>) -> bool {
    holds(body, "200 OK"@) && holds(body, "\r\n\r\nOK"@)
}

/// Why a mapping cannot be reached.
#[derive(Debug, Clone)]
pub enum PingError {
    /// The server does not take the key.
    KeyRefused,
    /// The server wants a key.
    KeyWanted,
    /// The answer is not that of a Docker API.
    Unexpected { body: String },
}

impl PingError {
    /// What the user is told.
    pub open spec fn text(self) -> Seq<char> {
        match self {
            PingError::KeyRefused => "public key authentication failed"@,
            PingError::KeyWanted =>
                "none authentication failed; pass --identity or remove authorized_keys"@,
            PingError::Unexpected { body } => "unexpected docker ping response: "@ + body@,
        }
    }

    /// What the user is told.
    pub fn message(&self) -> (out: String)
        ensures
            out@ == self.text(),
    {
        match self {
            PingError::KeyRefused => "public key authentication failed".to_string(),
            PingError::KeyWanted => {
                "none authentication failed; pass --identity or remove authorized_keys".to_string()
            },
            PingError::Unexpected { body } => "unexpected docker ping response: ".to_string()
                .concat(body.as_str()),
        }
    }
}

/// The private key in an identity file.
pub fn identity_key(pem: &str) -> (r: Result<russh::keys::PrivateKey, KeyError>)
    ensures
        match r {
            Ok(key) => private_key(pem@) == Ok::<russh::keys::PrivateKey, Seq<char>>(key),
            Err(e) => private_key(pem@) == Err::<russh::keys::PrivateKey, Seq<char>>(e.cause@),
        },
{
    match read_private_key(pem) {
        Ok(key) => Ok(key),
        Err(cause) => Err(KeyError { cause }),
    }
}

/// Fails where the server does not let the check in.
pub fn check_login(with_key: bool, success: bool) -> (r: Result<(), PingError>)
    ensures
        match r {
            Ok(_) => success,
            Err(PingError::KeyRefused) => !success && with_key,
            Err(PingError::KeyWanted) => !success && !with_key,
            Err(_) => false,
        },
{
    if success {
        Ok(())
    } else if with_key {
        Err(PingError::KeyRefused)
    } else {
        Err(PingError::KeyWanted)
    }
}

/// Fails where the text of an answer does not say that the API is there.
pub fn check_pong(body: String) -> (r: Result<(), PingError>)
    ensures
        match r {
            Ok(_) => is_pong(body@),
            Err(PingError::Unexpected { body: b }) => !is_pong(body@) && b@ == body@,
            Err(_) => false,
        },
{
    let v = chars_of(body.as_str());
    if contains(&v, &chars_of("200 OK")) && contains(&v, &chars_of("\r\n\r\nOK")) {
        Ok(())
    } else {
        Err(PingError::Unexpected { body })
    }
}

/// Fails where the bytes of an answer do not say that the API is there.
pub fn check_answer(answer: &[u8]) -> (r: Result<(), PingError>)
    ensures
        match r {
            Ok(_) => is_pong(lossy(answer@)),
            Err(PingError::Unexpected { body }) => !is_pong(lossy(answer@)) && body@ == lossy(
                answer@,
            ),
            Err(_) => false,
        },
        valid_utf8(answer@) ==> (r is Ok <==> is_pong(decode_utf8(answer@))),
{
    check_pong(lossy_text(answer))
}

/// The address that a mapping is reached under.
pub open spec fn address_of(host: Seq<char>, port: u16) -> Seq<char> {
    host + ":"@ + decimal(port as int)
}

/// The address that a mapping is reached under.
pub fn address(host: &str, port: u16) -> (out: String)
    ensures
        out@ == address_of(host@, port),
{
    host.to_string().concat(":").concat(decimal_text(port as u64).as_str())
}

/// What is told of an address that does not answer.
pub fn unreachable_message(host: &str, port: u16) -> (out: String)
    ensures
        out@ == "connect failed on "@ + address_of(host@, port),
{
    "connect failed on ".to_string().concat(address(host, port).as_str())
}

/// `port -> container`.
pub open spec fn arrow(a: ActiveView) -> Seq<char> {
    decimal(a.port as int) + " -> "@ + a.container_ref
}

/// The line about one mapping, given what was wrong with it, if anything.
pub open spec fn verdict(a: ActiveView, error: Option<Seq<char>>) -> Seq<char> {
    match error {
        None => "ok   "@ + arrow(a),
        Some(e) => "fail "@ + arrow(a) + ": "@ + e,
    }
}

/// The check of all active mappings, so far.
#[derive(Debug, Clone, Copy)]
pub struct Checkup {
    pub failed: bool,
}

/// Some mappings cannot be reached.
#[derive(Debug, Clone, Copy, PartialEq, Eq)]
pub struct Unreachable;

impl Unreachable {
    /// What the user is told.
    pub fn message(&self) -> (out: String)
        ensures
            out@ == "doctor found unreachable mappings"@,
    {
        "doctor found unreachable mappings".to_string()
    }
}

impl Checkup {
    /// Nothing has been checked.
    pub fn new() -> (out: Checkup)
        ensures
            !out.failed,
    {
        Checkup { failed: false }
    }

    /// What is told where there is nothing to check.
    pub fn nothing_to_check(active: &[ActiveMapping]) -> (r: Option<String>)
        ensures
            match r {
                Some(message) => active@.len() == 0 && message@ == "no active mappings"@,
                None => active@.len() > 0,
            },
    {
        if active.len() == 0 {
            Some("no active mappings".to_string())
        } else {
            None
        }
    }

    /// Takes up one mapping, and says what is told of it.
    pub fn checked(&mut self, mapping: &ActiveMapping, error: Option<String>) -> (line: String)
        ensures
            line@ == verdict(
                mapping@,
                match error {
                    Some(e) => Some(e@),
                    None => None,
                },
            ),
            final(self).failed == (old(self).failed || error is Some),
    {
        let mut line = match &error {
            None => "ok   ".to_string(),
            Some(_) => "fail ".to_string(),
        };
        let ghost head = line@;
        let arrow_text = decimal_text(mapping.port as u64).concat(" -> ").concat(
            mapping.container_ref.as_str(),
        );
        line.append(arrow_text.as_str());
        match &error {
            None => {},
            Some(e) => {
                line.append(": ");
                line.append(e.as_str());
                self.failed = true;
            },
        }
        line
    }

    /// Fails where a mapping could not be reached.
    pub fn finish(self) -> (r: Result<(), Unreachable>)
        ensures
            r is Ok <==> !self.failed,
    {
        if self.failed {
            Err(Unreachable)
        } else {
            Ok(())
        }
    }
}

/// The state of the check after some mappings.
pub open spec fn failed_after(failed: bool, errors: Seq<Option<Seq<char>>>) -> bool
    decreases errors.len(),
{
    if errors.len() == 0 {
        failed
    } else {
        failed_after(failed || errors[0] is Some, errors.skip(1))
    }
}

/// Law: the check passes exactly where every mapping can be reached.
pub proof fn check_passes_where_all_are_reached(failed: bool, errors: Seq<Option<Seq<char>>>)
    ensures
        failed_after(failed, errors) <==> failed || exists|i: int|
            0 <= i < errors.len() && #[trigger] errors[i] is Some,
    decreases errors.len(),
{
    if errors.len() > 0 {
        let rest = errors.skip(1);
        check_passes_where_all_are_reached(failed || errors[0] is Some, rest);
        if exists|i: int| 0 <= i < rest.len() && #[trigger] rest[i] is Some {
            let i = choose|i: int| 0 <= i < rest.len() && #[trigger] rest[i] is Some;
            assert(errors[i + 1] is Some);
        }
        assert forall|i: int| 0 <= i < errors.len() && #[trigger] errors[i] is Some implies
            failed_after(failed, errors) by {
            if i > 0 {
                assert(rest[i - 1] is Some);
            }
        }
    }
}

/// Law: an answer is good where it holds both the status and, behind the
/// headers, the body that the API answers with, wherever they stand.
pub proof fn a_good_answer_holds_status_and_body(answer: Seq<char>)
    ensures
        is_pong(answer) <==> {
            &&& exists|a: Seq<char>, b: Seq<char>| answer == #[trigger] (a + "200 OK"@ + b)
            &&& exists|a: Seq<char>, b: Seq<char>| answer == #[trigger] (a + "\r\n\r\nOK"@ + b)
        },
{
    a_part_stands_somewhere(answer, "200 OK"@);
    a_part_stands_somewhere(answer, "\r\n\r\nOK"@);
}

/// Law: a mapping is told by whether it was reached, by its port and container,
/// and by what was wrong.
pub proof fn mappings_are_told_with_what_was_wrong(a: ActiveView, error: Seq<char>)
    ensures
        verdict(a, None) == "ok   "@ + (decimal(a.port as int) + " -> "@ + a.container_ref),
        verdict(a, Some(error)) == "fail "@ + (decimal(a.port as int) + " -> "@ + a.container_ref)
            + ": "@ + error,
        address_of(error, a.port) == error + ":"@ + decimal(a.port as int),
{
}

/// Law: what is wrong with a mapping is told in these words.
pub proof fn what_is_wrong_is_told(body: String)
    ensures
        PingError::KeyRefused.text() == "public key authentication failed"@,
        PingError::KeyWanted.text()
            == "none authentication failed; pass --identity or remove authorized_keys"@,
        (PingError::Unexpected { body }).text() == "unexpected docker ping response: "@ + body@,
{
}

/// Law: the check asks the API as a Docker client does, at the address given,
/// and says where it could not.
pub proof fn the_check_asks_as_a_client_does(
    command: &'static str,
    request: &'static str,
    host: &str,
    port: u16,
    place: String,
    unreachable: String,
)
    requires
        call_ensures(ping_command, (), command),
        call_ensures(ping_request, (), request),
        call_ensures(address, (host, port), place),
        call_ensures(unreachable_message, (host, port), unreachable),
    ensures
        command@ == "docker system dial-stdio"@,
        request@ == "GET /_ping HTTP/1.0\r\nHost: docker\r\n\r\n"@,
        place@ == host@ + ":"@ + decimal(port as int),
        unreachable@ == "connect failed on "@ + (host@ + ":"@ + decimal(port as int)),
{
}

/// Law: the check is let in where the login succeeded, and else says which
/// login failed; a good answer passes, and any other is told whole.
pub proof fn logins_and_answers_are_judged(
    with_key: bool,
    success: bool,
    login: Result<(), PingError>,
    body: String,
    pong: Result<(), PingError>,
)
    requires
        call_ensures(check_login, (with_key, success), login),
        call_ensures(check_pong, (body,), pong),
    ensures
        login is Ok <==> success,
        !success && with_key ==> (login matches Err(e) && e is KeyRefused),
        !success && !with_key ==> (login matches Err(e) && e is KeyWanted),
        pong is Ok <==> {
            &&& exists|a: Seq<char>, b: Seq<char>| body@ == #[trigger] (a + "200 OK"@ + b)
            &&& exists|a: Seq<char>, b: Seq<char>| body@ == #[trigger] (a + "\r\n\r\nOK"@ + b)
        },
        pong matches Err(e) ==> (e matches PingError::Unexpected { body: told } && told@ == body@),
{
    a_good_answer_holds_status_and_body(body@);
}

/// Law: the check passes exactly where nothing failed, and without an active
/// mapping the user is told that there is none.
pub proof fn a_checkup_passes_where_nothing_failed(
    checkup: Checkup,
    r: Result<(), Unreachable>,
    active: &[ActiveMapping],
    told: Option<String>,
)
    requires
        call_ensures(Checkup::finish, (checkup,), r),
        call_ensures(Checkup::nothing_to_check, (active,), told),
    ensures
        r is Ok <==> !checkup.failed,
        told is Some <==> active@.len() == 0,
        told matches Some(message) ==> message@ == "no active mappings"@,
{
}

} // verus!
