//! The server as a whole: what it listens on, where its key and its pid file
//! lie, when it starts over, and how it is stopped.

use vstd::prelude::*;

use crate::config::{mappings_view, ConfigFile, ConfigStore, MappingSpec};
use crate::docker::DockerBackend;
use crate::files::{beside, joined, names_are_joined_by_one_slash, sibling};
use crate::listen::{
    all_endpoints, endpoints_view, parsed_view, plan_endpoints, Endpoint, EndpointView, HostAddr,
    ListenError,
};
use crate::outside::{
    fresh_private_key, parent_of, parent_path, plainly_in, private_key, private_key_algorithm,
    read_private_key,
};
use crate::text::{
    chars_of, decimal, decimal_text, digit, drop_white, is_white, same_text, skip_white, text_of,
    trim, trimmed, trimming_takes_white_space_off,
};

verus! {

/// Seconds after which an idle session ends.
pub const INACTIVITY_SECS: u64 = 3600;

/// Seconds that a refused login takes.
pub const REJECTION_SECS: u64 = 1;

/// Seconds that the first refused login of a session takes.
pub const FIRST_REJECTION_SECS: u64 = 0;

/// The connections that wait to be taken up, at most.
pub const BACKLOG: i32 = 128;

/// The configuration file lies in no directory.
#[derive(Debug, Clone, Copy, PartialEq, Eq)]
pub struct NoDirectory;

impl NoDirectory {
    /// What the user is told.
    pub fn message(&self) -> (out: String)
        ensures
            out@ == "config file must have a parent directory"@,
    {
        "config file must have a parent directory".to_string()
    }
}

/// Where the host key lies: where the configuration says, or else beside the
/// configuration.
pub open spec fn host_key_path(config_path: Seq<char>, configured: Option<Seq<char>>) -> Option<
    Seq<char>,
> {
    match configured {
        Some(path) => Some(path),
        None => beside(config_path, "host_key_ed25519"@),
    }
}

/// Where the host key lies.
pub fn resolve_host_key_path(config_path: &str, configured: Option<&str>) -> (r: Result<
    String,
    NoDirectory,
>)
    ensures
        match r {
            Ok(path) => host_key_path(
                config_path@,
                match configured {
                    Some(c) => Some(c@),
                    None => None,
                },
            ) == Some(path@),
            Err(_) => configured is None && beside(config_path@, "host_key_ed25519"@) is None,
        },
        configured is None ==> forall|directory: Seq<char>| #[trigger]
            plainly_in(config_path@, directory) ==> (r matches Ok(path) && path@ == joined(
                directory,
                "host_key_ed25519"@,
            )),
{
    match configured {
        Some(path) => Ok(path.to_string()),
        None => match sibling(config_path, "host_key_ed25519") {
            Some(path) => Ok(path),
            None => Err(NoDirectory),
        },
    }
}

/// Where the daemon writes its process id: beside the configuration.
pub fn pid_file_path(config_path: &str) -> (r: Result<String, NoDirectory>)
    ensures
        match r {
            Ok(path) => beside(config_path@, "d2s.pid"@) == Some(path@),
            Err(_) => beside(config_path@, "d2s.pid"@) is None,
        },
        forall|directory: Seq<char>| #[trigger]
            plainly_in(config_path@, directory) ==> (r matches Ok(path) && path@ == joined(
                directory,
                "d2s.pid"@,
            )),
{
    match sibling(config_path, "d2s.pid") {
        Some(path) => Ok(path),
        None => Err(NoDirectory),
    }
}

/// A key that cannot be read or made.
#[derive(Debug, Clone)]
pub struct KeyError {
    pub cause: String,
}

/// The server's host key, and what there is to do about its file.
#[derive(Debug)]
pub enum HostKey {
    /// The file holds it, and stays as it is.
    Stored { key: russh::keys::PrivateKey },
    /// It is new, and this text is to be stored, with the directory made where
    /// the path names one.
    Made { key: russh::keys::PrivateKey, text: String, directory: Option<String> },
}

/// A [`HostKey`] with its texts as character sequences.
pub enum HostKeyView {
    Stored { key: russh::keys::PrivateKey },
    Made { key: russh::keys::PrivateKey, text: Seq<char>, directory: Option<Seq<char>> },
}

impl View for HostKey {
    type V = HostKeyView;

    open spec fn view(&self) -> HostKeyView {
        match *self {
            HostKey::Stored { key } => HostKeyView::Stored { key },
            HostKey::Made { key, text, directory } => HostKeyView::Made {
                key,
                text: text@,
                directory: text_of(directory),
            },
        }
    }
}

/// What the host key at a path can be, given what its file holds if there is
/// one. A file is read; without one a new Ed25519 key is made, and its text
/// reads as the key.
pub open spec fn is_host_key(
    path: Seq<char>,
    stored: Option<Seq<char>>,
    r: Result<HostKeyView, Seq<char>>,
) -> bool {
    match stored {
        Some(pem) => match private_key(pem) {
            Ok(key) => r == Ok::<HostKeyView, Seq<char>>(HostKeyView::Stored { key }),
            Err(cause) => r == Err::<HostKeyView, Seq<char>>(cause),
        },
        None => match r {
            Ok(HostKeyView::Made { key, text, directory }) => private_key(text) == Ok::<
                _,
                Seq<char>,
            >(key) && private_key_algorithm(text) == "ssh-ed25519"@ && directory == parent_of(path),
            Ok(HostKeyView::Stored { key: _ }) => false,
            Err(_) => false,
        },
    }
}

/// A [`HostKey`] or an error, as sequences.
pub open spec fn host_key_view(r: Result<HostKey, KeyError>) -> Result<HostKeyView, Seq<char>> {
    match r {
        Ok(host_key) => Ok(host_key@),
        Err(e) => Err(e.cause@),
    }
}

/// The host key for a path without a file, given a key that was made and its
/// text.
pub fn made_host_key(
    path: &str,
    made: Result<(russh::keys::PrivateKey, String), String>,
) -> (r: Result<HostKey, KeyError>)
    ensures
        host_key_view(r) == match made {
            Ok(pair) => Ok::<HostKeyView, Seq<char>>(
                HostKeyView::Made { key: pair.0, text: pair.1@, directory: parent_of(path@) },
            ),
            Err(cause) => Err(cause@),
        },
        forall|d: Seq<char>| #[trigger]
            plainly_in(path@, d) ==> (host_key_view(r) matches Ok(
                HostKeyView::Made { key, text, directory },
            ) ==> directory == Some(d)),
{
    match made {
        Ok((key, text)) => Ok(HostKey::Made { key, text, directory: parent_path(path) }),
        Err(cause) => Err(KeyError { cause }),
    }
}

/// The host key at a path, given what its file holds if there is one. Where
/// there is none, there is always a new key.
pub fn load_or_generate_host_key(path: &str, stored: Option<&str>) -> (r: Result<
    HostKey,
    KeyError,
>)
    ensures
        is_host_key(
            path@,
            match stored {
                Some(pem) => Some(pem@),
                None => None,
            },
            host_key_view(r),
        ),
        stored is None ==> r is Ok,
        forall|d: Seq<char>| #[trigger]
            plainly_in(path@, d) ==> (host_key_view(r) matches Ok(
                HostKeyView::Made { key, text, directory },
            ) ==> directory == Some(d)),
{
    match stored {
        Some(pem) => match read_private_key(pem) {
            Ok(key) => Ok(HostKey::Stored { key }),
            Err(cause) => Err(KeyError { cause }),
        },
        None => made_host_key(path, fresh_private_key("ssh-ed25519")),
    }
}

/// Law: the key that was made for a missing file is the key that its file
/// holds from then on, and nothing is stored in its place.
pub proof fn the_host_key_stays(
    path: Seq<char>,
    key: russh::keys::PrivateKey,
    text: Seq<char>,
    directory: Option<Seq<char>>,
    later: Result<HostKeyView, Seq<char>>,
)
    requires
        is_host_key(
            path,
            None,
            Ok::<HostKeyView, Seq<char>>(HostKeyView::Made { key, text, directory }),
        ),
        is_host_key(path, Some(text), later),
    ensures
        later == Ok::<HostKeyView, Seq<char>>(HostKeyView::Stored { key }),
{
}

/// Law: a missing host key is made.
pub proof fn a_missing_host_key_is_made(path: Seq<char>, r: Result<HostKeyView, Seq<char>>)
    requires
        is_host_key(path, None, r),
    ensures
        r matches Ok(HostKeyView::Made { key, text, directory }) && private_key_algorithm(text)
            == "ssh-ed25519"@,
{
}

/// Law: a file that is there is never replaced. Its key is used, and where it
/// holds none, that is an error.
pub proof fn a_host_key_file_is_kept(
    path: Seq<char>,
    stored: Seq<char>,
    r: Result<HostKeyView, Seq<char>>,
)
    requires
        is_host_key(path, Some(stored), r),
    ensures
        !(r matches Ok(HostKeyView::Made { key: _, text: _, directory: _ })),
        r is Err <==> private_key(stored) is Err,
{
}

/// What the server does with a configuration.
#[derive(Debug, Clone)]
pub enum ServePlan {
    /// There is nothing to serve.
    Idle { message: String },
    /// These listeners are bound.
    Listen { endpoints: Vec<Endpoint> },
}

/// A [`ServePlan`] with its texts as character sequences.
pub enum ServeView {
    Idle { message: Seq<char> },
    Listen { endpoints: Seq<EndpointView> },
}

impl View for ServePlan {
    type V = ServeView;

    open spec fn view(&self) -> ServeView {
        match *self {
            ServePlan::Idle { message } => ServeView::Idle { message: message@ },
            ServePlan::Listen { endpoints } => ServeView::Listen {
                endpoints: endpoints_view(endpoints@),
            },
        }
    }
}

/// The server for a configuration file.
#[derive(Debug, Clone)]
pub struct ServeManager {
    store: ConfigStore,
    docker: DockerBackend,
}

/// A [`ServeManager`] as the paths that it works with.
pub struct ManagerView {
    pub store: Seq<char>,
    pub docker: Seq<char>,
}

impl View for ServeManager {
    type V = ManagerView;

    closed spec fn view(&self) -> ManagerView {
        ManagerView { store: self.store@, docker: self.docker@ }
    }
}

impl ServeManager {
    pub fn new(store: ConfigStore, docker: DockerBackend) -> (out: ServeManager)
        ensures
            out@ == (ManagerView { store: store@, docker: docker@ }),
    {
        ServeManager { store, docker }
    }

    /// The configuration file.
    pub fn store(&self) -> (out: &ConfigStore)
        ensures
            out@ == self@.store,
    {
        &self.store
    }

    /// The Docker daemon.
    pub fn docker(&self) -> (out: &DockerBackend)
        ensures
            out@ == self@.docker,
    {
        &self.docker
    }

    /// What the server does with a configuration, given the address that its
    /// listen host reads as.
    pub fn plan(&self, cfg: &ConfigFile, parsed: &Option<HostAddr>) -> (r: Result<
        ServePlan,
        ListenError,
    >)
        ensures
            match r {
                Ok(plan) => if cfg@.mappings.len() == 0 {
                    plan@ == (ServeView::Idle {
                        message: "no mappings configured in "@ + self@.store,
                    })
                } else {
                    plan@ matches ServeView::Listen { endpoints } && all_endpoints(
                        cfg@.listen_host,
                        parsed_view(*parsed),
                        cfg@.mappings,
                    ) == Some(endpoints)
                },
                Err(e) => cfg@.mappings.len() > 0 && all_endpoints(
                    cfg@.listen_host,
                    parsed_view(*parsed),
                    cfg@.mappings,
                ) is None && e.listen_host@ == cfg@.listen_host,
            },
    {
        if cfg.mappings.len() == 0 {
            return Ok(
                ServePlan::Idle {
                    message: "no mappings configured in ".to_string().concat(self.store.path()),
                },
            );
        }
        match plan_endpoints(cfg, parsed) {
            Ok(endpoints) => Ok(ServePlan::Listen { endpoints }),
            Err(e) => Err(e),
        }
    }
}

/// Tells whether two shells are the same.
fn same_shell(a: &Option<String>, b: &Option<String>) -> (r: bool)
    ensures
        r == (text_of(*a) == text_of(*b)),
{
    match a {
        Some(x) => match b {
            Some(y) => same_text(x.as_str(), y.as_str()),
            None => false,
        },
        None => b.is_none(),
    }
}

/// Tells whether the mappings have changed, so that the listeners have to
/// start over.
pub fn mappings_changed(current: &[MappingSpec], fresh: &[MappingSpec]) -> (r: bool)
    ensures
        r == (mappings_view(current@) != mappings_view(fresh@)),
{
    let ghost a = mappings_view(current@);
    let ghost b = mappings_view(fresh@);
    if current.len() != fresh.len() {
        assert(a.len() != b.len());
        return true;
    }
    let mut i: usize = 0;
    while i < current.len()
        invariant
            i <= current@.len() == fresh@.len(),
            a == mappings_view(current@),
            b == mappings_view(fresh@),
            forall|j: int| 0 <= j < i ==> #[trigger] a[j] == b[j],
        decreases current@.len() - i,
    {
        assert(a[i as int] == current@[i as int]@ && b[i as int] == fresh@[i as int]@);
        if current[i].port != fresh[i].port || !same_text(
            current[i].container.as_str(),
            fresh[i].container.as_str(),
        ) || !same_shell(&current[i].shell, &fresh[i].shell) {
            return true;
        }
        i += 1;
    }
    assert(a =~= b);
    false
}

/// Why there is no daemon to stop.
#[derive(Debug, Clone, Copy, PartialEq, Eq)]
pub enum StopError {
    /// No daemon has left a pid file.
    NotRunning,
    /// The pid file holds no process id.
    BadPidFile,
}

impl StopError {
    /// What the user is told.
    pub open spec fn text(self) -> Seq<char> {
        match self {
            StopError::NotRunning => "daemon is not running"@,
            StopError::BadPidFile => "pid file holds no process id"@,
        }
    }

    /// What the user is told.
    pub fn message(&self) -> (out: String)
        ensures
            out@ == self.text(),
    {
        match self {
            StopError::NotRunning => "daemon is not running".to_string(),
            StopError::BadPidFile => "pid file holds no process id".to_string(),
        }
    }
}

/// The largest process id there can be.
pub const MAX_PID: u32 = 0x7fff_ffff;

/// A text holds a process id: a positive number, written as usual, with
/// nothing but white space around it.
pub open spec fn holds_pid(text: Seq<char>, pid: u32) -> bool {
    1 <= pid <= MAX_PID && trimmed(text) == decimal(pid as int)
}

/// A text holds some process id.
pub open spec fn holds_some_pid(text: Seq<char>) -> bool {
    exists|pid: u32| holds_pid(text, pid)
}

/// What a digit counts.
fn digit_value(c: char) -> (r: Option<u64>)
    ensures
        match r {
            Some(d) => d < 10 && c == digit(d as int),
            None => forall|d: int| 0 <= d < 10 ==> c != #[trigger] digit(d),
        },
{
    if c == '0' {
        Some(0)
    } else if c == '1' {
        Some(1)
    } else if c == '2' {
        Some(2)
    } else if c == '3' {
        Some(3)
    } else if c == '4' {
        Some(4)
    } else if c == '5' {
        Some(5)
    } else if c == '6' {
        Some(6)
    } else if c == '7' {
        Some(7)
    } else if c == '8' {
        Some(8)
    } else if c == '9' {
        Some(9)
    } else {
        None
    }
}

/// The beginning of a number, written out, is the number without its last
/// digits.
proof fn lemma_decimal_take(n: int, k: int)
    requires
        n >= 0,
        1 <= k <= decimal(n).len(),
    ensures
        exists|m: int|
            0 <= m <= n && decimal(n).take(k) == #[trigger] decimal(m) && (k < decimal(n).len()
                ==> n >= 10 && m <= n / 10),
    decreases n,
{
    let s = decimal(n);
    if k == s.len() {
        assert(s.take(k) =~= decimal(n));
    } else {
        assert(n >= 10);
        let t = decimal(n / 10);
        assert(s =~= t.push(digit(n % 10)));
        assert(s.take(k) =~= t.take(k));
        lemma_decimal_take(n / 10, k);
        let m = choose|m: int|
            0 <= m <= n / 10 && t.take(k) == #[trigger] decimal(m) && (k < t.len() ==> n / 10 >= 10
                && m <= (n / 10) / 10);
        assert(decimal(n).take(k) == decimal(m));
    }
}

/// A number is written with digits, at least one.
proof fn lemma_decimal_digits(n: int)
    requires
        n >= 0,
    ensures
        decimal(n).len() >= 1,
        forall|i: int|
            0 <= i < decimal(n).len() ==> exists|d: int|
                0 <= d < 10 && #[trigger] decimal(n)[i] == #[trigger] digit(d),
    decreases n,
{
    if n < 10 {
        assert(decimal(n)[0] == digit(n));
    } else {
        lemma_decimal_digits(n / 10);
        let t = decimal(n / 10);
        assert forall|i: int| 0 <= i < decimal(n).len() implies exists|d: int|
            0 <= d < 10 && #[trigger] decimal(n)[i] == #[trigger] digit(d) by {
            if i < t.len() {
                assert(decimal(n)[i] == t[i]);
                let d = choose|d: int| 0 <= d < 10 && t[i] == #[trigger] digit(d);
                assert(decimal(n)[i] == digit(d));
            } else {
                assert(decimal(n)[i] == digit(n % 10));
            }
        }
    }
}

/// No two numbers are written alike.
pub proof fn lemma_decimal_injective(n: int, m: int)
    requires
        n >= 0,
        m >= 0,
        decimal(n) == decimal(m),
    ensures
        n == m,
    decreases n,
{
    lemma_decimal_digits(n / 10);
    lemma_decimal_digits(m / 10);
    if n >= 10 && m >= 10 {
        assert(decimal(n / 10) =~= decimal(n).drop_last());
        assert(decimal(m / 10) =~= decimal(m).drop_last());
        lemma_decimal_injective(n / 10, m / 10);
        assert(decimal(n).last() == digit(n % 10));
        assert(decimal(m).last() == digit(m % 10));
    } else if n < 10 && m < 10 {
        assert(decimal(n)[0] == digit(n));
        assert(decimal(m)[0] == digit(m));
    } else if n < 10 {
        assert(decimal(n).len() == 1);
        assert(decimal(m).len() == decimal(m / 10).len() + 1);
    } else {
        assert(decimal(m).len() == 1);
        assert(decimal(n).len() == decimal(n / 10).len() + 1);
    }
}

/// The process id that a text holds.
pub fn parse_pid(text: &str) -> (r: Option<u32>)
    ensures
        match r {
            Some(pid) => holds_pid(text@, pid),
            None => forall|pid: u32| !holds_pid(text@, pid),
        },
        r is Some <==> holds_some_pid(text@),
{
    let t = trim(text);
    let v = chars_of(t.as_str());
    let mut n: u64 = 0;
    let mut i: usize = 0;
    while i < v.len()
        invariant
            v@ == trimmed(text@),
            i <= v@.len(),
            n <= MAX_PID,
            forall|pid: u32| #[trigger]
                holds_pid(text@, pid) ==> (i == 0 && n == 0) || v@.take(i as int) == decimal(
                    n as int,
                ),
        decreases v@.len() - i,
    {
        match digit_value(v[i]) {
            Some(d) => {
                let next: u64 = n * 10 + d;
                if next > MAX_PID as u64 {
                    proof {
                        assert forall|pid: u32| !holds_pid(text@, pid) by {
                            if holds_pid(text@, pid) {
                                lemma_pid_step(v@, i as int, n as int, d as int, pid);
                            }
                        }
                    }
                    return None;
                }
                proof {
                    assert forall|pid: u32| #[trigger] holds_pid(text@, pid) implies v@.take(i + 1)
                        == decimal(next as int) by {
                        lemma_pid_step(v@, i as int, n as int, d as int, pid);
                    }
                }
                n = next;
            },
            None => {
                proof {
                    assert forall|pid: u32| !holds_pid(text@, pid) by {
                        if holds_pid(text@, pid) {
                            lemma_decimal_digits(pid as int);
                            let d = choose|d: int|
                                0 <= d < 10 && decimal(pid as int)[i as int] == #[trigger] digit(d);
                            assert(v@[i as int] == digit(d));
                        }
                    }
                }
                return None;
            },
        }
        i += 1;
    }
    if n >= 1 && same_text(t.as_str(), decimal_text(n).as_str()) {
        assert(holds_pid(text@, n as u32));
        return Some(n as u32);
    }
    proof {
        assert forall|pid: u32| !holds_pid(text@, pid) by {
            if holds_pid(text@, pid) {
                lemma_decimal_digits(pid as int);
                assert(v@.take(i as int) =~= v@);
                lemma_decimal_injective(n as int, pid as int);
            }
        }
    }
    None
}

/// One more digit of a process id.
proof fn lemma_pid_step(v: Seq<char>, i: int, n: int, d: int, pid: u32)
    requires
        0 <= i < v.len(),
        v == decimal(pid as int),
        1 <= pid <= MAX_PID,
        0 <= n,
        0 <= d < 10,
        v[i] == digit(d),
        (i == 0 && n == 0) || v.take(i) == decimal(n),
    ensures
        v.take(i + 1) == decimal(n * 10 + d),
        n * 10 + d <= pid,
{
    lemma_decimal_take(pid as int, i + 1);
    let m = choose|m: int|
        0 <= m <= pid as int && v.take(i + 1) == #[trigger] decimal(m) && (i + 1 < v.len() ==> pid
            >= 10 && m <= pid as int / 10);
    lemma_decimal_digits(m / 10);
    lemma_decimal_digits(n);
    assert(decimal(m).last() == v[i]);
    if i == 0 {
        assert(decimal(m).len() == 1);
        assert(m < 10);
        assert(digit(m) == digit(d));
        assert(n == 0);
    } else {
        assert(decimal(m).len() == i + 1);
        assert(m >= 10);
        assert(decimal(m / 10) =~= decimal(m).drop_last());
        assert(v.take(i + 1).drop_last() =~= v.take(i));
        lemma_decimal_injective(m / 10, n);
        assert(decimal(m).last() == digit(m % 10));
    }
}

/// The process to stop, given what the pid file holds if there is one.
pub fn daemon_to_stop(pid_file: Option<&str>) -> (r: Result<u32, StopError>)
    ensures
        match (pid_file, r) {
            (None, Err(e)) => e == StopError::NotRunning,
            (Some(text), Ok(pid)) => holds_pid(text@, pid),
            (Some(text), Err(e)) => e == StopError::BadPidFile && forall|pid: u32|
                !holds_pid(text@, pid),
            _ => false,
        },
        pid_file matches Some(text) ==> (r is Ok <==> holds_some_pid(text@)),
{
    match pid_file {
        None => Err(StopError::NotRunning),
        Some(text) => match parse_pid(text) {
            Some(pid) => Ok(pid),
            None => Err(StopError::BadPidFile),
        },
    }
}

/// What a pid file holds for a process.
pub fn pid_text(pid: u32) -> (out: String)
    ensures
        out@ == decimal(pid as int).push('\n'),
{
    let mut out = decimal_text(pid as u64);
    out.push('\n');
    out
}

/// Law: a daemon's pid file leads back to the daemon, and to no other process.
pub proof fn pid_file_leads_back(pid: u32, other: u32)
    requires
        1 <= pid <= MAX_PID,
    ensures
        holds_pid(decimal(pid as int).push('\n'), other) <==> other == pid,
{
    let s = decimal(pid as int);
    let t = s.push('\n');
    lemma_decimal_digits(pid as int);
    assert(t[0] == s[0]);
    let first = choose|d: int| 0 <= d < 10 && s[0] == #[trigger] digit(d);
    let end = s.len() - 1;
    let last = choose|d: int| 0 <= d < 10 && s[end] == #[trigger] digit(d);
    assert(!is_white(s[0]) && !is_white(s[end]));
    assert(skip_white(t) == t);
    assert(t.drop_last() =~= s);
    assert(drop_white(s) == s);
    assert(trimmed(t) == s);
    if holds_pid(t, other) {
        lemma_decimal_injective(pid as int, other as int);
    }
}

/// Law: a configured host key path is used as it is; without one the key lies
/// in the directory of the configuration file.
pub proof fn the_host_key_lies_where_it_should(
    config_path: Seq<char>,
    configured: Seq<char>,
)
    ensures
        host_key_path(config_path, Some(configured)) == Some(configured),
        parent_of(config_path) is None ==> host_key_path(config_path, None) is None,
        parent_of(config_path) matches Some(directory) ==> {
            &&& directory.len() > 0 && directory.last() != '/' ==> host_key_path(config_path, None)
                == Some(directory + seq!['/'] + "host_key_ed25519"@)
            &&& directory.len() > 0 && directory.last() == '/' ==> host_key_path(config_path, None)
                == Some(directory + "host_key_ed25519"@)
            &&& directory.len() == 0 ==> host_key_path(config_path, None) == Some(
                "host_key_ed25519"@,
            )
        },
{
    reveal_strlit("host_key_ed25519");
    if let Some(directory) = parent_of(config_path) {
        names_are_joined_by_one_slash(directory, "host_key_ed25519"@);
    }
}

/// Law: a number written by itself, with white space around it at most, is the
/// process id, and no other number is.
pub proof fn a_pid_is_a_number_by_itself(
    front: Seq<char>,
    number: Seq<char>,
    back: Seq<char>,
    pid: u32,
)
    requires
        forall|i: int| 0 <= i < front.len() ==> is_white(#[trigger] front[i]),
        forall|i: int| 0 <= i < back.len() ==> is_white(#[trigger] back[i]),
        number.len() > 0,
        !is_white(number[0]) && !is_white(number.last()),
    ensures
        holds_pid(front + number + back, pid) <==> 1 <= pid <= 0x7fff_ffff && number == decimal(
            pid as int,
        ),
{
    trimming_takes_white_space_off(front, number, back);
}

/// Law: where there is no daemon to stop, the user is told why.
pub proof fn without_a_daemon_the_user_is_told_why()
    ensures
        StopError::NotRunning.text() == "daemon is not running"@,
        StopError::BadPidFile.text() == "pid file holds no process id"@,
{
}

/// Law: what the server does, and its host key, are seen as they are.
pub proof fn plans_are_seen_as_they_are(
    message: String,
    endpoints: Vec<Endpoint>,
    key: russh::keys::PrivateKey,
    text: String,
    directory: Option<String>,
    cause: String,
)
    ensures
        (ServePlan::Idle { message })@ == (ServeView::Idle { message: message@ }),
        (ServePlan::Listen { endpoints })@ == (ServeView::Listen {
            endpoints: endpoints_view(endpoints@),
        }),
        (HostKey::Stored { key })@ == (HostKeyView::Stored { key }),
        (HostKey::Made { key, text, directory })@ == (HostKeyView::Made {
            key,
            text: text@,
            directory: match directory {
                Some(d) => Some(d@),
                None => None,
            },
        }),
        host_key_view(Ok(HostKey::Stored { key })) == Ok::<HostKeyView, Seq<char>>(
            HostKeyView::Stored { key },
        ),
        host_key_view(Err(KeyError { cause })) == Err::<HostKeyView, Seq<char>>(cause@),
{
}

/// Law: what a host key file holds is the key that is used, and a key that was
/// made is stored by a text that reads as it, in the directory of its path.
pub proof fn a_host_key_is_what_its_text_reads_as(
    path: Seq<char>,
    stored: Option<Seq<char>>,
    r: Result<HostKeyView, Seq<char>>,
)
    requires
        is_host_key(path, stored, r),
    ensures
        r matches Ok(HostKeyView::Stored { key }) ==> (stored matches Some(pem) && private_key(pem)
            == Ok::<russh::keys::PrivateKey, Seq<char>>(key)),
        r matches Ok(HostKeyView::Made { key, text, directory }) ==> stored is None && private_key(
            text,
        ) == Ok::<russh::keys::PrivateKey, Seq<char>>(key) && directory == parent_of(path),
        r matches Err(cause) ==> (stored matches Some(pem) && private_key(pem) == Err::<
            russh::keys::PrivateKey,
            Seq<char>,
        >(cause)),
{
}

/// Law: without mappings the server is idle and says so; with mappings it
/// listens for every one of them, or says which host it cannot listen on.
pub proof fn the_server_listens_for_its_mappings(
    manager: &ServeManager,
    cfg: &ConfigFile,
    parsed: &Option<HostAddr>,
    r: Result<ServePlan, ListenError>,
)
    requires
        call_ensures(ServeManager::plan, (manager, cfg, parsed), r),
    ensures
        cfg.mappings@.len() == 0 ==> (r matches Ok(ServePlan::Idle { message }) && message@
            == "no mappings configured in "@ + manager@.store),
        cfg.mappings@.len() > 0 ==> {
            &&& !(r matches Ok(ServePlan::Idle { message: _ }))
            &&& r matches Ok(ServePlan::Listen { endpoints }) ==> all_endpoints(
                cfg.listen_host@,
                parsed_view(*parsed),
                mappings_view(cfg.mappings@),
            ) == Some(endpoints_view(endpoints@))
            &&& r matches Err(e) ==> e.listen_host@ == cfg.listen_host@
        },
{
    assert(cfg@.mappings.len() == cfg.mappings@.len());
}

/// Law: the listeners start over exactly where a mapping was added, removed or
/// changed in its port, its container or its shell.
pub proof fn changed_mappings_start_listeners_over(
    current: &[MappingSpec],
    new: &[MappingSpec],
    changed: bool,
)
    requires
        call_ensures(mappings_changed, (current, new), changed),
    ensures
        current@.len() != new@.len() ==> changed,
        !changed ==> forall|i: int|
            0 <= i < current@.len() ==> {
                &&& (#[trigger] current@[i]).port == new@[i].port
                &&& current@[i].container@ == new@[i].container@
                &&& text_of(current@[i].shell) == text_of(new@[i].shell)
            },
        current@.len() == new@.len() && (forall|i: int|
            0 <= i < current@.len() ==> {
                &&& (#[trigger] current@[i]).port == new@[i].port
                &&& current@[i].container@ == new@[i].container@
                &&& text_of(current@[i].shell) == text_of(new@[i].shell)
            }) ==> !changed,
{
    let a = mappings_view(current@);
    let b = mappings_view(new@);
    assert(a.len() == current@.len() && b.len() == new@.len());
    if !changed {
        assert forall|i: int| 0 <= i < current@.len() implies {
            &&& (#[trigger] current@[i]).port == new@[i].port
            &&& current@[i].container@ == new@[i].container@
            &&& text_of(current@[i].shell) == text_of(new@[i].shell)
        } by {
            assert(a[i] == current@[i]@);
            assert(b[i] == new@[i]@);
        }
    }
    if current@.len() == new@.len() && (forall|i: int|
        0 <= i < current@.len() ==> {
            &&& (#[trigger] current@[i]).port == new@[i].port
            &&& current@[i].container@ == new@[i].container@
            &&& text_of(current@[i].shell) == text_of(new@[i].shell)
        }) {
        assert forall|i: int| 0 <= i < a.len() implies a[i] == b[i] by {
            assert(a[i] == current@[i]@);
            assert(b[i] == new@[i]@);
        }
        assert(a =~= b);
    }
}

/// Law: the daemon's process id is written out as a line, and the daemon that
/// is stopped is the one whose id is written.
pub proof fn the_daemon_that_is_stopped_is_the_one_written(
    pid: u32,
    written: String,
    text: &str,
    r: Result<u32, StopError>,
    missing: Result<u32, StopError>,
)
    requires
        1 <= pid <= 0x7fff_ffff,
        call_ensures(pid_text, (pid,), written),
        call_ensures(daemon_to_stop, (Some(text),), r),
        call_ensures(daemon_to_stop, (None,), missing),
        text@ == written@,
    ensures
        written@ == decimal(pid as int) + seq!['\n'],
        r == Ok::<u32, StopError>(pid),
        missing == Err::<u32, StopError>(StopError::NotRunning),
{
    assert(decimal(pid as int).push('\n') =~= decimal(pid as int) + seq!['\n']);
    pid_file_leads_back(pid, pid);
    assert(holds_pid(text@, pid));
    assert(holds_some_pid(text@));
    if let Ok(other) = r {
        pid_file_leads_back(pid, other);
    }
}

/// Law: the pid file of the daemon is `d2s.pid` in the directory of the
/// configuration file.
pub proof fn the_pid_file_lies_beside_the_configuration(
    config_path: &str,
    directory: Seq<char>,
    r: Result<String, NoDirectory>,
)
    requires
        call_ensures(pid_file_path, (config_path,), r),
        parent_of(config_path@) == Some(directory),
        directory.len() > 0,
        directory.last() != '/',
    ensures
        r matches Ok(path) && path@ == directory + "/d2s.pid"@,
{
    reveal_strlit("d2s.pid");
    reveal_strlit("/d2s.pid");
    names_are_joined_by_one_slash(directory, "d2s.pid"@);
    assert(directory + seq!['/'] + "d2s.pid"@ =~= directory + "/d2s.pid"@);
}

} // verus!
