//! The Docker side: the daemon's socket, its answers, and the rule that a
//! request may reach the mapped container and the daemon's global endpoints
//! only.

use vstd::prelude::*;

use crate::config::{mappings_view, ConfigFile, MappingSpec, MappingView};
use crate::outside::{is_uri_char, read_uri, status_phrase, status_text, uri_reading};
use crate::text::{
    a_beginning_is_a_prefix, a_shortened_text_is_its_beginning, at_most, chars_of, cut, find_char,
    find_from, first_of, is_white, lemma_first_of, lemma_first_of_is, same_text, starts,
    starts_with, take_chars, text_between, texts, trim, trimmed, trimming_takes_white_space_off,
};

verus! {

/// Why a request path is refused.
#[derive(Debug, Clone)]
pub enum PathError {
    /// Below `/containers/` there is no container reference followed by `/`.
    UnsupportedContainerPath,
    /// The reference names no accepted container.
    ContainerMismatch,
    /// The path is no endpoint that the proxy serves.
    PathNotAllowed { path: String },
}

/// A [`PathError`] with its texts as character sequences.
pub enum PathErrorView {
    UnsupportedContainerPath,
    ContainerMismatch,
    PathNotAllowed { path: Seq<char> },
}

impl View for PathError {
    type V = PathErrorView;

    open spec fn view(&self) -> PathErrorView {
        match *self {
            PathError::UnsupportedContainerPath => PathErrorView::UnsupportedContainerPath,
            PathError::ContainerMismatch => PathErrorView::ContainerMismatch,
            PathError::PathNotAllowed { path } => PathErrorView::PathNotAllowed { path: path@ },
        }
    }
}

impl PathErrorView {
    /// What a client is told.
    pub open spec fn message(self) -> Seq<char> {
        match self {
            PathErrorView::UnsupportedContainerPath => "unsupported container path"@,
            PathErrorView::ContainerMismatch =>
                "requested container does not match mapped container"@,
            PathErrorView::PathNotAllowed { path } =>
                "path not allowed for mapped docker endpoint: "@ + path,
        }
    }
}

impl PathError {
    /// What a client is told.
    pub fn message(&self) -> (out: String)
        ensures
            out@ == self@.message(),
    {
        match self {
            PathError::UnsupportedContainerPath => "unsupported container path".to_string(),
            PathError::ContainerMismatch => {
                "requested container does not match mapped container".to_string()
            },
            PathError::PathNotAllowed { path } => {
                "path not allowed for mapped docker endpoint: ".to_string().concat(path.as_str())
            },
        }
    }
}

/// `c` may stand in an API version after its `v`.
pub open spec fn is_version_char(c: char) -> bool {
    ('0' <= c <= '9') || c == '.'
}

/// `s` is an API version without its `v`, such as `1.46`.
pub open spec fn is_version(s: Seq<char>) -> bool {
    s.len() > 0 && forall|i: int| 0 <= i < s.len() ==> is_version_char(#[trigger] s[i])
}

/// A path without the `/v<version>` that Docker clients put before it.
pub open spec fn unversioned(s: Seq<char>) -> Seq<char> {
    if starts(s, "/v"@) {
        match cut(s.skip(1), '/') {
            Some((version, rest)) => if is_version(version.skip(1)) {
                seq!['/'] + rest
            } else {
                s
            },
            None => s,
        }
    } else {
        s
    }
}

/// The path before the first `?`.
pub open spec fn path_part(s: Seq<char>) -> Seq<char> {
    match cut(s, '?') {
        Some((path, query)) => path,
        None => s,
    }
}

/// The query behind the first `?`.
pub open spec fn query_part(s: Seq<char>) -> Option<Seq<char>> {
    match cut(s, '?') {
        Some((path, query)) => Some(query),
        None => None,
    }
}

/// `?query`, or nothing.
pub open spec fn query_suffix(query: Option<Seq<char>>) -> Seq<char> {
    match query {
        Some(q) => seq!['?'] + q,
        None => Seq::empty(),
    }
}

/// `target` refers to the mapped container: it is the beginning of the
/// container's id or all of it, or an accepted reference.
pub open spec fn refers_to(target: Seq<char>, id: Seq<char>, refs: Seq<Seq<char>>) -> bool {
    starts(id, target) || refs.contains(target)
}

/// The daemon's endpoints that are open whatever container is mapped.
pub open spec fn is_global_endpoint(path: Seq<char>) -> bool {
    ||| starts(path, "/_ping"@)
    ||| starts(path, "/version"@)
    ||| starts(path, "/info"@)
    ||| starts(path, "/events"@)
    ||| starts(path, "/system/"@)
    ||| starts(path, "/auth"@)
    ||| starts(path, "/session"@)
    ||| starts(path, "/distribution/"@)
    ||| starts(path, "/build"@)
    ||| starts(path, "/images/"@)
    ||| starts(path, "/networks/"@)
    ||| starts(path, "/volumes/"@)
    ||| starts(path, "/plugins/"@)
    ||| starts(path, "/swarm"@)
    ||| starts(path, "/nodes"@)
    ||| starts(path, "/services"@)
    ||| starts(path, "/tasks"@)
    ||| starts(path, "/secrets"@)
    ||| starts(path, "/configs"@)
    ||| path == "/"@
}

/// The container list, filtered down to the container `id`.
pub open spec fn own_list(id: Seq<char>) -> Seq<char> {
    "/containers/json?filters=%7B%22id%22%3A%5B%22"@ + id + "%22%5D%7D"@
}

/// A path below the container `id`.
pub open spec fn own_path(id: Seq<char>, suffix: Seq<char>, query: Option<Seq<char>>) -> Seq<char> {
    "/containers/"@ + id + "/"@ + suffix + query_suffix(query)
}

/// What becomes of a request path: the path that the daemon is asked for, or
/// the refusal.
pub open spec fn sanitized(s: Seq<char>, id: Seq<char>, refs: Seq<Seq<char>>) -> Result<
    Seq<char>,
    PathErrorView,
> {
    let normalized = unversioned(s);
    let path = path_part(normalized);
    if path == "/containers/json"@ {
        Ok(own_list(id))
    } else if starts(path, "/containers/"@) {
        match cut(path.skip("/containers/"@.len() as int), '/') {
            None => Err(PathErrorView::UnsupportedContainerPath),
            Some((target, suffix)) => if refers_to(target, id, refs) {
                Ok(own_path(id, suffix, query_part(normalized)))
            } else {
                Err(PathErrorView::ContainerMismatch)
            },
        }
    } else if is_global_endpoint(path) {
        Ok(normalized)
    } else {
        Err(PathErrorView::PathNotAllowed { path })
    }
}

/// Tells whether `c` may stand in an API version after its `v`.
fn version_char(c: char) -> (r: bool)
    ensures
        r == is_version_char(c),
{
    ('0' <= c && c <= '9') || c == '.'
}

/// The path without the `/v<version>` that Docker clients put before it.
pub fn strip_version_prefix(path_and_query: &str) -> (out: String)
    ensures
        out@ == unversioned(path_and_query@),
{
    let v = chars_of(path_and_query);
    proof {
        reveal_strlit("/v");
    }
    if !starts_with(&v, &chars_of("/v")) {
        return path_and_query.to_string();
    }
    assert(v@.take(2)[0] == v@[0] && v@.take(2)[1] == v@[1]);
    let ghost rest = v@.skip(1);
    let slash: usize = find_from(&v, 1, '/');
    if slash == v.len() {
        return path_and_query.to_string();
    }
    proof {
        lemma_first_of(rest, '/');
        assert(rest[0] == 'v');
    }
    let ghost version = rest.take(slash - 1).skip(1);
    assert(version.len() == slash - 2);
    if slash == 2 {
        return path_and_query.to_string();
    }
    let mut i: usize = 2;
    while i < slash
        invariant
            2 <= i <= slash < v@.len(),
            v@ == path_and_query@,
            rest == v@.skip(1),
            version == rest.take(slash - 1).skip(1),
            slash == 1 + first_of(rest, '/'),
            starts(v@, "/v"@),
            forall|j: int| 2 <= j < i ==> is_version_char(#[trigger] v@[j]),
        decreases slash - i,
    {
        if !version_char(v[i]) {
            assert(version[i - 2] == v@[i as int]);
            return path_and_query.to_string();
        }
        i += 1;
    }
    assert forall|j: int| 0 <= j < version.len() implies is_version_char(#[trigger] version[j]) by {
        assert(version[j] == v@[j + 2]);
    }
    let mut out = String::new();
    out.push('/');
    let n: usize = v.len();
    out.append(text_between(&v, slash + 1, n).as_str());
    assert(out@ =~= seq!['/'] + rest.skip(slash as int));
    out
}

/// The path before the first `?` and the query behind it.
pub fn split_path_query(path_and_query: &str) -> (r: (&str, Option<&str>))
    ensures
        r.0@ == path_part(path_and_query@),
        match r.1 {
            Some(query) => query_part(path_and_query@) == Some(query@),
            None => query_part(path_and_query@) is None,
        },
{
    let v = chars_of(path_and_query);
    let k: usize = find_char(&v, '?');
    proof {
        lemma_first_of(v@, '?');
    }
    if k < v.len() {
        let n: usize = v.len();
        let path = path_and_query.substring_char(0, k);
        let query = path_and_query.substring_char(k + 1, n);
        assert(path@ =~= v@.take(k as int));
        assert(query@ =~= v@.skip(k + 1));
        (path, Some(query))
    } else {
        (path_and_query, None)
    }
}

/// Tells whether `target` refers to the mapped container.
pub fn container_ref_matches(
    target: &str,
    mapped_container_id: &str,
    accepted_refs: &[String],
) -> (r: bool)
    ensures
        r == refers_to(target@, mapped_container_id@, texts(accepted_refs@)),
{
    if starts_with(&chars_of(mapped_container_id), &chars_of(target)) {
        return true;
    }
    let ghost refs = texts(accepted_refs@);
    let mut i: usize = 0;
    while i < accepted_refs.len()
        invariant
            i <= accepted_refs@.len(),
            refs == texts(accepted_refs@),
            forall|j: int| 0 <= j < i ==> #[trigger] refs[j] != target@,
        decreases accepted_refs@.len() - i,
    {
        assert(refs[i as int] == accepted_refs@[i as int]@);
        if same_text(accepted_refs[i].as_str(), target) {
            assert(refs.contains(target@));
            return true;
        }
        i += 1;
    }
    false
}

/// Tells whether a path is open whatever container is mapped.
fn global_endpoint(path: &str) -> (r: bool)
    ensures
        r == is_global_endpoint(path@),
{
    let p = chars_of(path);
    starts_with(&p, &chars_of("/_ping")) || starts_with(&p, &chars_of("/version")) || starts_with(
        &p,
        &chars_of("/info"),
    ) || starts_with(&p, &chars_of("/events")) || starts_with(&p, &chars_of("/system/"))
        || starts_with(&p, &chars_of("/auth")) || starts_with(&p, &chars_of("/session"))
        || starts_with(&p, &chars_of("/distribution/")) || starts_with(&p, &chars_of("/build"))
        || starts_with(&p, &chars_of("/images/")) || starts_with(&p, &chars_of("/networks/"))
        || starts_with(&p, &chars_of("/volumes/")) || starts_with(&p, &chars_of("/plugins/"))
        || starts_with(&p, &chars_of("/swarm")) || starts_with(&p, &chars_of("/nodes"))
        || starts_with(&p, &chars_of("/services")) || starts_with(&p, &chars_of("/tasks"))
        || starts_with(&p, &chars_of("/secrets")) || starts_with(&p, &chars_of("/configs"))
        || same_text(path, "/")
}

/// Turns the path of a client's request into the path that the daemon is
/// asked for. Whatever names the mapped container is rewritten to its id; the
/// container list is filtered down to it; the daemon's global endpoints pass;
/// everything else is refused.
pub fn sanitize_path_for_container(
    path_and_query: &str,
    mapped_container_id: &str,
    accepted_refs: &[String],
) -> (r: Result<String, PathError>)
    ensures
        match r {
            Ok(out) => sanitized(path_and_query@, mapped_container_id@, texts(accepted_refs@))
                == Ok::<Seq<char>, PathErrorView>(out@),
            Err(e) => sanitized(path_and_query@, mapped_container_id@, texts(accepted_refs@))
                == Err::<Seq<char>, PathErrorView>(e@),
        },
{
    let normalized = strip_version_prefix(path_and_query);
    let (path, query) = split_path_query(normalized.as_str());

    if same_text(path, "/containers/json") {
        return Ok(
            "/containers/json?filters=%7B%22id%22%3A%5B%22".to_string().concat(
                mapped_container_id,
            ).concat("%22%5D%7D"),
        );
    }
    let p = chars_of(path);
    let prefix = chars_of("/containers/");
    if starts_with(&p, &prefix) {
        let from: usize = prefix.len();
        let slash: usize = find_from(&p, from, '/');
        let ghost rest = p@.skip(from as int);
        if slash == p.len() {
            return Err(PathError::UnsupportedContainerPath);
        }
        let target = text_between(&p, from, slash);
        assert(target@ =~= rest.take(slash - from));
        if !container_ref_matches(target.as_str(), mapped_container_id, accepted_refs) {
            return Err(PathError::ContainerMismatch);
        }
        let n: usize = p.len();
        let suffix = text_between(&p, slash + 1, n);
        assert(suffix@ =~= rest.skip(slash - from + 1));
        let mut out = "/containers/".to_string().concat(mapped_container_id).concat("/").concat(
            suffix.as_str(),
        );
        let ghost base = out@;
        match query {
            Some(q) => {
                out.push('?');
                out.append(q);
                assert(out@ =~= base + (seq!['?'] + q@));
            },
            None => {
                assert(out@ =~= base + Seq::empty());
            },
        }
        return Ok(out);
    }
    if global_endpoint(path) {
        return Ok(normalized);
    }
    Err(PathError::PathNotAllowed { path: path.to_string() })
}

/// `command` asks for the Docker API over the session's stdio.
pub open spec fn is_dial_stdio(command: Seq<char>) -> bool {
    ||| trimmed(command) == "docker system dial-stdio"@
    ||| trimmed(command) == "docker -H unix:///var/run/docker.sock system dial-stdio"@
}

/// Tells whether `command` asks for the Docker API over the session's stdio.
pub fn docker_authorized_command(command: &str) -> (r: bool)
    ensures
        r == is_dial_stdio(command@),
{
    let c = trim(command);
    same_text(c.as_str(), "docker system dial-stdio") || same_text(
        c.as_str(),
        "docker -H unix:///var/run/docker.sock system dial-stdio",
    )
}

/// The address under which the daemon is asked for a path.
pub open spec fn docker_address(path_and_query: Seq<char>) -> Seq<char> {
    "http://docker"@ + path_and_query
}

/// Why an address is no URI.
#[derive(Debug, Clone)]
pub struct UriError {
    pub message: String,
}

/// The URI under which the daemon is asked for a path, written out.
pub fn build_docker_uri(path_and_query: &str) -> (r: Result<String, UriError>)
    ensures
        match r {
            Ok(uri) => uri_reading(docker_address(path_and_query@)) == Ok::<Seq<char>, Seq<char>>(
                uri@,
            ),
            Err(e) => uri_reading(docker_address(path_and_query@)) == Err::<Seq<char>, Seq<char>>(
                e.message@,
            ),
        },
        starts(path_and_query@, "/"@) ==> (r matches Ok(uri) ==> uri@ == docker_address(
            path_and_query@.take(first_of(path_and_query@, '#')),
        )),
        starts(path_and_query@, "/"@) && docker_address(path_and_query@).len() < 65535 && (forall|i: int|
            0 <= i < path_and_query@.len() ==> is_uri_char(#[trigger] path_and_query@[i]))
            ==> r is Ok,
{
    let address = "http://docker".to_string().concat(path_and_query);
    proof {
        lemma_docker_address(path_and_query@);
    }
    match read_uri(address.as_str()) {
        Ok(uri) => Ok(uri),
        Err(message) => Err(UriError { message }),
    }
}

/// An address for an absolute path lies below `http://docker/`, and its
/// fragment is that of the path.
proof fn lemma_docker_address(p: Seq<char>)
    ensures
        starts(p, "/"@) ==> starts(docker_address(p), "http://docker/"@),
        docker_address(p).take(first_of(docker_address(p), '#')) == docker_address(
            p.take(first_of(p, '#')),
        ),
        docker_address(p).len() == 13 + p.len(),
        (forall|i: int| 0 <= i < p.len() ==> is_uri_char(#[trigger] p[i])) ==> forall|i: int|
            0 <= i < docker_address(p).len() ==> is_uri_char(#[trigger] docker_address(p)[i]),
{
    reveal_strlit("http://docker");
    reveal_strlit("http://docker/");
    reveal_strlit("/");
    let a = docker_address(p);
    if starts(p, "/"@) {
        lemma_starts(p, "/"@);
        assert(a[13] == p[0]);
        assert(a.take(14) =~= "http://docker/"@);
    }
    lemma_first_of(p, '#');
    lemma_first_of_is(a, '#', 13 + first_of(p, '#'));
    assert(a.take(13 + first_of(p, '#')) =~= docker_address(p.take(first_of(p, '#'))));
    if forall|i: int| 0 <= i < p.len() ==> is_uri_char(#[trigger] p[i]) {
        assert forall|i: int| 0 <= i < a.len() implies is_uri_char(#[trigger] a[i]) by {
            if i >= 13 {
                assert(a[i] == p[i - 13]);
            }
        }
    }
}

/// The daemon's Unix socket.
#[derive(Debug, Clone)]
pub struct DockerBackend {
    socket_path: String,
}

impl View for DockerBackend {
    type V = Seq<char>;

    /// The path of the socket.
    closed spec fn view(&self) -> Seq<char> {
        self.socket_path@
    }
}

impl DockerBackend {
    /// The daemon behind a socket.
    pub fn from_socket_path(socket_path: String) -> (out: DockerBackend)
        ensures
            out@ == socket_path@,
    {
        DockerBackend { socket_path }
    }

    /// The daemon behind the socket that `D2S_DOCKER_SOCKET` names, or else
    /// `D2S_DOCKER_ENDPOINT`, or else the configuration.
    pub fn from_env_or_config(
        socket_var: Option<String>,
        endpoint_var: Option<String>,
        cfg: &ConfigFile,
    ) -> (out: DockerBackend)
        ensures
            out@ == match (socket_var, endpoint_var) {
                (Some(socket), _) => socket@,
                (None, Some(endpoint)) => endpoint@,
                (None, None) => cfg@.docker_socket,
            },
    {
        let socket_path = match socket_var {
            Some(socket) => socket,
            None => match endpoint_var {
                Some(endpoint) => endpoint,
                None => cfg.docker_socket.clone(),
            },
        };
        DockerBackend { socket_path }
    }

    /// The path of the socket.
    pub fn socket_path(&self) -> (out: &str)
        ensures
            out@ == self@,
    {
        self.socket_path.as_str()
    }

    /// The same daemon once more.
    pub fn copy(&self) -> (out: DockerBackend)
        ensures
            out@ == self@,
    {
        DockerBackend { socket_path: self.socket_path.clone() }
    }

    /// What connects requests to this daemon.
    pub fn connector(&self) -> (out: UnixConnector)
        ensures
            out@ == self@,
    {
        UnixConnector::new(self.socket_path.clone())
    }

    /// The mappings whose containers run, in their order, given what the
    /// daemon says of each container.
    pub fn active_mappings(
        &self,
        mappings: &[MappingSpec],
        inspected: &[ContainerInspect],
    ) -> (out: Vec<ActiveMapping>)
        requires
            mappings@.len() == inspected@.len(),
        ensures
            actives_view(out@) == active_of(
                mappings_view(mappings@),
                inspects_view(inspected@),
            ),
    {
        let ghost ms = mappings_view(mappings@);
        let ghost told = inspects_view(inspected@);
        let mut out: Vec<ActiveMapping> = Vec::new();
        let mut i: usize = 0;
        assert(actives_view(out@) =~= Seq::empty());
        while i < mappings.len()
            invariant
                i <= mappings@.len() == inspected@.len(),
                ms == mappings_view(mappings@),
                told == inspects_view(inspected@),
                actives_view(out@) == active_of(ms.take(i as int), told.take(i as int)),
            decreases mappings@.len() - i,
        {
            let ghost done = actives_view(out@);
            assert(ms.take(i + 1).drop_last() =~= ms.take(i as int));
            assert(told.take(i + 1).drop_last() =~= told.take(i as int));
            assert(ms.take(i + 1).last() == mappings@[i as int]@);
            assert(told.take(i + 1).last() == inspected@[i as int]@);
            if inspected[i].state.running {
                let a = ActiveMapping {
                    port: mappings[i].port,
                    container_ref: mappings[i].container.clone(),
                    container_id_short: short_id(inspected[i].id.as_str()),
                };
                let ghost av = a@;
                out.push(a);
                assert(actives_view(out@) =~= done.push(av));
            }
            i += 1;
        }
        assert(ms.take(i as int) =~= ms);
        assert(told.take(i as int) =~= told);
        out
    }
}

/// What connects to the daemon's Unix socket.
#[derive(Debug, Clone)]
pub struct UnixConnector {
    socket_path: String,
}

impl View for UnixConnector {
    type V = Seq<char>;

    /// The path of the socket.
    closed spec fn view(&self) -> Seq<char> {
        self.socket_path@
    }
}

impl UnixConnector {
    pub fn new(socket_path: String) -> (out: UnixConnector)
        ensures
            out@ == socket_path@,
    {
        UnixConnector { socket_path }
    }

    /// The path of the socket.
    pub fn socket_path(&self) -> (out: &str)
        ensures
            out@ == self@,
    {
        self.socket_path.as_str()
    }
}

/// A mapping whose container runs.
#[derive(Debug, Clone)]
pub struct ActiveMapping {
    pub port: u16,
    pub container_ref: String,
    pub container_id_short: String,
}

/// An [`ActiveMapping`] with its texts as character sequences.
pub struct ActiveView {
    pub port: u16,
    pub container_ref: Seq<char>,
    pub container_id_short: Seq<char>,
}

impl View for ActiveMapping {
    type V = ActiveView;

    open spec fn view(&self) -> ActiveView {
        ActiveView {
            port: self.port,
            container_ref: self.container_ref@,
            container_id_short: self.container_id_short@,
        }
    }
}

/// What a list of active mappings holds.
pub open spec fn actives_view(v: Seq<ActiveMapping>) -> Seq<ActiveView> {
    v.map_values(|a: ActiveMapping| a@)
}

/// What the daemon says of a container.
#[derive(Debug, Clone)]
pub struct ContainerInspect {
    pub id: String,
    pub name: String,
    pub state: ContainerState,
}

/// Whether a container runs.
#[derive(Debug, Clone, Copy)]
pub struct ContainerState {
    pub running: bool,
}

/// A [`ContainerInspect`] with its texts as character sequences.
pub struct InspectView {
    pub id: Seq<char>,
    pub name: Seq<char>,
    pub running: bool,
}

impl View for ContainerInspect {
    type V = InspectView;

    open spec fn view(&self) -> InspectView {
        InspectView { id: self.id@, name: self.name@, running: self.state.running }
    }
}

/// What a list of inspected containers holds.
pub open spec fn inspects_view(v: Seq<ContainerInspect>) -> Seq<InspectView> {
    v.map_values(|c: ContainerInspect| c@)
}

/// The mappings whose containers run.
pub open spec fn active_of(ms: Seq<MappingView>, told: Seq<InspectView>) -> Seq<ActiveView>
    decreases ms.len(),
{
    if ms.len() == 0 {
        Seq::empty()
    } else {
        let rest = active_of(ms.drop_last(), told.drop_last());
        if told.last().running {
            rest.push(
                ActiveView {
                    port: ms.last().port,
                    container_ref: ms.last().container,
                    container_id_short: at_most(told.last().id, 12),
                },
            )
        } else {
            rest
        }
    }
}

/// The short form of a container id: its first twelve characters.
pub fn short_id(id: &str) -> (out: String)
    ensures
        out@ == at_most(id@, 12),
{
    take_chars(id, 12)
}

/// The path that the daemon tells of a container under.
pub fn inspect_path(name_or_id: &str) -> (out: String)
    ensures
        out@ == "/containers/"@ + name_or_id@ + "/json"@,
{
    "/containers/".to_string().concat(name_or_id).concat("/json")
}

/// Why the daemon's answer is of no use.
#[derive(Debug, Clone)]
pub enum DockerError {
    /// The daemon knows no such container.
    ContainerNotFound,
    /// The daemon could not do what it was asked for.
    Failed { op: String, status: u16 },
    /// The container does not run.
    NotRunning,
    /// The daemon names no process for the container.
    NoProcess,
}

/// A status that says the request was done.
pub open spec fn is_success(status: u16) -> bool {
    200 <= status < 300
}

impl DockerError {
    /// A status that has a number of its own to show.
    pub open spec fn valid(self) -> bool {
        self matches DockerError::Failed { op, status } ==> 100 <= status < 1000
    }

    /// What the user is told.
    pub open spec fn text(self) -> Seq<char> {
        match self {
            DockerError::ContainerNotFound => "container not found"@,
            DockerError::Failed { op, status } => op@ + " failed with status "@ + status_phrase(
                status,
            ),
            DockerError::NotRunning => "container is not running"@,
            DockerError::NoProcess => "container has no running process"@,
        }
    }

    /// What the user is told.
    pub fn message(&self) -> (out: String)
        requires
            self.valid(),
        ensures
            out@ == self.text(),
    {
        match self {
            DockerError::ContainerNotFound => "container not found".to_string(),
            DockerError::Failed { op, status } => op.clone().concat(" failed with status ").concat(
                status_text(*status).as_str(),
            ),
            DockerError::NotRunning => "container is not running".to_string(),
            DockerError::NoProcess => "container has no running process".to_string(),
        }
    }
}

/// Fails where the status does not say that the request was done.
pub fn ensure_success(status: u16, op: &str) -> (r: Result<(), DockerError>)
    ensures
        match r {
            Ok(_) => is_success(status),
            Err(DockerError::Failed { op: what, status: code }) => !is_success(status) && what@
                == op@ && code == status,
            Err(_) => false,
        },
{
    if 200 <= status && status < 300 {
        Ok(())
    } else {
        Err(DockerError::Failed { op: op.to_string(), status })
    }
}

/// Fails where the status of the daemon's answer says that it does not tell of
/// a container.
pub fn inspect_answer(status: u16) -> (r: Result<(), DockerError>)
    ensures
        match r {
            Ok(_) => is_success(status),
            Err(DockerError::ContainerNotFound) => status == 404,
            Err(DockerError::Failed { op, status: code }) => !is_success(status) && status != 404
                && op@ == "inspect container"@ && code == status,
            Err(_) => false,
        },
{
    if status == 404 {
        return Err(DockerError::ContainerNotFound);
    }
    ensure_success(status, "inspect container")
}

/// The process whose network namespace a running container lives in.
pub fn running_pid(state: ContainerState, pid: Option<u32>) -> (r: Result<u32, DockerError>)
    ensures
        match r {
            Ok(p) => state.running && pid == Some(p) && p != 0,
            Err(DockerError::NotRunning) => !state.running,
            Err(DockerError::NoProcess) => state.running && (pid is None || pid == Some(0u32)),
            Err(_) => false,
        },
{
    if !state.running {
        return Err(DockerError::NotRunning);
    }
    match pid {
        Some(p) => if p == 0 {
            Err(DockerError::NoProcess)
        } else {
            Ok(p)
        },
        None => Err(DockerError::NoProcess),
    }
}

/// `s` holds no `c`.
pub open spec fn lacks(s: Seq<char>, c: char) -> bool {
    forall|i: int| 0 <= i < s.len() ==> #[trigger] s[i] != c
}

/// Cutting `head`, `c`, `tail` at `c` gives back head and tail, where the head
/// lacks `c`.
proof fn lemma_cut_join(head: Seq<char>, c: char, tail: Seq<char>)
    requires
        lacks(head, c),
    ensures
        cut(head + seq![c] + tail, c) == Some((head, tail)),
{
    let s = head + seq![c] + tail;
    lemma_first_of_is(s, c, head.len() as int);
    assert(s.take(head.len() as int) =~= head);
    assert(s.skip(head.len() as int + 1) =~= tail);
}

/// There is nothing to cut where `c` is lacking.
proof fn lemma_cut_none(s: Seq<char>, c: char)
    requires
        lacks(s, c),
    ensures
        cut(s, c) is None,
{
    lemma_first_of_is(s, c, s.len() as int);
}

/// The characters of a beginning are those of the whole.
proof fn lemma_starts(s: Seq<char>, p: Seq<char>)
    ensures
        starts(s, p) ==> forall|i: int| 0 <= i < p.len() ==> #[trigger] s[i] == p[i],
{
    if starts(s, p) {
        assert forall|i: int| 0 <= i < p.len() implies #[trigger] s[i] == p[i] by {
            assert(s.take(p.len() as int)[i] == s[i]);
        }
    }
}

/// The path part begins the whole, and lacks `?`.
proof fn lemma_path_part(s: Seq<char>)
    ensures
        starts(s, path_part(s)),
        lacks(path_part(s), '?'),
        s == path_part(s) + query_suffix(query_part(s)),
{
    lemma_first_of(s, '?');
    let k = first_of(s, '?');
    if k < s.len() {
        assert(s =~= s.take(k) + (seq!['?'] + s.skip(k + 1)));
    } else {
        assert(s.take(s.len() as int) =~= s);
        assert(s =~= s + Seq::empty());
    }
}

/// A beginning without `?` is a beginning of the path part, and the other way
/// round.
proof fn lemma_path_starts(s: Seq<char>, p: Seq<char>)
    requires
        lacks(p, '?'),
    ensures
        starts(s, p) == starts(path_part(s), p),
{
    lemma_path_part(s);
    lemma_first_of(s, '?');
    let path = path_part(s);
    if starts(s, p) {
        if path.len() < p.len() {
            let k = first_of(s, '?');
            assert(s.take(p.len() as int)[k] == '?');
            assert(false);
        }
        assert(path.take(p.len() as int) =~= p);
    }
    if starts(path, p) {
        assert(s.take(p.len() as int) =~= path.take(p.len() as int));
    }
}

/// A path with a query comes apart again, where the path lacks `?`.
proof fn lemma_path_query_join(path: Seq<char>, query: Option<Seq<char>>)
    requires
        lacks(path, '?'),
    ensures
        path_part(path + query_suffix(query)) == path,
        query_part(path + query_suffix(query)) == query,
{
    match query {
        Some(q) => {
            assert(path + query_suffix(query) =~= path + seq!['?'] + q);
            lemma_cut_join(path, '?', q);
        },
        None => {
            assert(path + query_suffix(query) =~= path);
            lemma_cut_none(path, '?');
        },
    }
}

/// Every global endpoint is an absolute path; none lies below `/containers/`,
/// and none is taken for a version.
proof fn lemma_global_endpoint(path: Seq<char>)
    requires
        is_global_endpoint(path),
    ensures
        starts(path, "/"@),
        path != "/containers/json"@,
        !starts(path, "/containers/"@),
        starts(path, "/v"@) ==> starts(path, "/ve"@) || starts(path, "/vo"@),
{
    reveal_strlit("/containers/json");
    reveal_strlit("/containers/");
    reveal_strlit("/v");
    reveal_strlit("/ve");
    reveal_strlit("/vo");
    reveal_strlit("/_ping");
    reveal_strlit("/version");
    reveal_strlit("/info");
    reveal_strlit("/events");
    reveal_strlit("/system/");
    reveal_strlit("/auth");
    reveal_strlit("/session");
    reveal_strlit("/distribution/");
    reveal_strlit("/build");
    reveal_strlit("/images/");
    reveal_strlit("/networks/");
    reveal_strlit("/volumes/");
    reveal_strlit("/plugins/");
    reveal_strlit("/swarm");
    reveal_strlit("/nodes");
    reveal_strlit("/services");
    reveal_strlit("/tasks");
    reveal_strlit("/secrets");
    reveal_strlit("/configs");
    reveal_strlit("/");
    lemma_starts(path, "/containers/"@);
    lemma_starts(path, "/v"@);
    lemma_starts(path, "/_ping"@);
    lemma_starts(path, "/version"@);
    lemma_starts(path, "/info"@);
    lemma_starts(path, "/events"@);
    lemma_starts(path, "/system/"@);
    lemma_starts(path, "/auth"@);
    lemma_starts(path, "/session"@);
    lemma_starts(path, "/distribution/"@);
    lemma_starts(path, "/build"@);
    lemma_starts(path, "/images/"@);
    lemma_starts(path, "/networks/"@);
    lemma_starts(path, "/volumes/"@);
    lemma_starts(path, "/plugins/"@);
    lemma_starts(path, "/swarm"@);
    lemma_starts(path, "/nodes"@);
    lemma_starts(path, "/services"@);
    lemma_starts(path, "/tasks"@);
    lemma_starts(path, "/secrets"@);
    lemma_starts(path, "/configs"@);
    assert(path.len() > 1 ==> path[1] != 'c' || (path[2] == 'o' && path[3] == 'n' && path[4]
        == 'f'));
    assert(path.take(1) =~= "/"@);
    if starts(path, "/v"@) {
        if path[2] == 'e' {
            assert(path.take(3) =~= "/ve"@);
        } else {
            assert(path.take(3) =~= "/vo"@);
        }
    }
}

/// A path that begins like `/version` or `/volumes` carries no API version.
proof fn lemma_not_versioned(s: Seq<char>)
    requires
        starts(s, "/v"@) ==> starts(s, "/ve"@) || starts(s, "/vo"@),
    ensures
        unversioned(s) == s,
{
    reveal_strlit("/v");
    reveal_strlit("/ve");
    reveal_strlit("/vo");
    if starts(s, "/v"@) {
        let rest = s.skip(1);
        lemma_first_of(rest, '/');
        let k = first_of(rest, '/');
        assert(s.take(3)[1] == s[1] && s.take(3)[2] == s[2]);
        assert(s[1] == 'v' && (s[2] == 'e' || s[2] == 'o'));
        if k < rest.len() {
            assert(rest[0] == s[1] && rest[1] == s[2]);
            assert(k >= 2);
            let version = rest.take(k).skip(1);
            assert(version[0] == s[2]);
            assert(!is_version_char(version[0]));
        }
    }
}

/// A path below `/containers/` carries no API version.
proof fn lemma_containers_not_versioned(s: Seq<char>)
    requires
        starts(s, "/containers/"@),
    ensures
        unversioned(s) == s,
{
    reveal_strlit("/containers/");
    reveal_strlit("/v");
    assert(s.take(12)[1] == s[1]);
    if starts(s, "/v"@) {
        assert(s.take(2)[1] == s[1]);
    }
}

/// Law: requests below `/containers/` stay within the mapped container. What
/// the daemon is asked for there is the list filtered down to that container,
/// or a path below its id.
pub proof fn containers_are_confined(s: Seq<char>, id: Seq<char>, refs: Seq<Seq<char>>)
    ensures
        sanitized(s, id, refs) matches Ok(out) ==> starts(out, "/containers/"@) ==> out
            == own_list(id) || starts(out, "/containers/"@ + id + "/"@),
{
    let normalized = unversioned(s);
    let path = path_part(normalized);
    reveal_strlit("/containers/");
    if path == "/containers/json"@ {
    } else if starts(path, "/containers/"@) {
        match cut(path.skip("/containers/"@.len() as int), '/') {
            None => {},
            Some((target, suffix)) => {
                let out = own_path(id, suffix, query_part(normalized));
                let head = "/containers/"@ + id + "/"@;
                assert(out.take(head.len() as int) =~= head);
            },
        }
    } else if is_global_endpoint(path) {
        assert(lacks("/containers/"@, '?'));
        lemma_path_starts(normalized, "/containers/"@);
    }
}

/// Law: a request `/containers/<target>/<suffix>` goes to the mapped container
/// where `target` refers to it, with suffix and query as they were, and is
/// refused otherwise.
pub proof fn container_request_is_rewritten_or_refused(
    target: Seq<char>,
    suffix: Seq<char>,
    query: Option<Seq<char>>,
    id: Seq<char>,
    refs: Seq<Seq<char>>,
)
    requires
        lacks(target, '/'),
        lacks(target, '?'),
        lacks(suffix, '?'),
    ensures
        sanitized(own_path(target, suffix, query), id, refs) == if refers_to(target, id, refs) {
            Ok::<Seq<char>, PathErrorView>(own_path(id, suffix, query))
        } else {
            Err(PathErrorView::ContainerMismatch)
        },
{
    let s = own_path(target, suffix, query);
    let path = "/containers/"@ + target + "/"@ + suffix;
    reveal_strlit("/containers/");
    reveal_strlit("/");
    reveal_strlit("/containers/json");
    assert(s.take(12) =~= "/containers/"@);
    lemma_containers_not_versioned(s);
    assert(lacks(path, '?'));
    lemma_path_query_join(path, query);
    assert(path.take(12) =~= "/containers/"@);
    let rest = path.skip(12);
    assert(rest =~= target + seq!['/'] + suffix);
    lemma_cut_join(target, '/', suffix);
    if path == "/containers/json"@ {
        assert("/containers/json"@.skip(12)[target.len() as int] == '/');
    }
}

/// Law: a container is referred to by its whole id, by its short id and by
/// each accepted reference.
pub proof fn own_references_are_accepted(target: Seq<char>, id: Seq<char>, refs: Seq<Seq<char>>)
    requires
        target == id || target == at_most(id, 12) || refs.contains(target),
    ensures
        refers_to(target, id, refs),
{
    assert(id.take(id.len() as int) =~= id);
    if id.len() > 12 {
        assert(id.take(12).len() == 12);
    }
}

/// Law: the daemon's global endpoints pass unchanged, query and all.
pub proof fn global_endpoints_pass(s: Seq<char>, id: Seq<char>, refs: Seq<Seq<char>>)
    requires
        is_global_endpoint(path_part(s)),
    ensures
        sanitized(s, id, refs) == Ok::<Seq<char>, PathErrorView>(s),
{
    lemma_global_endpoint(path_part(s));
    lemma_unversioned_by_path(s);
}

/// A global endpoint with its query carries no API version.
proof fn lemma_unversioned_by_path(s: Seq<char>)
    requires
        is_global_endpoint(path_part(s)),
    ensures
        unversioned(s) == s,
{
    lemma_global_endpoint(path_part(s));
    reveal_strlit("/v");
    reveal_strlit("/ve");
    reveal_strlit("/vo");
    assert(lacks("/v"@, '?') && lacks("/ve"@, '?') && lacks("/vo"@, '?'));
    lemma_path_starts(s, "/v"@);
    lemma_path_starts(s, "/ve"@);
    lemma_path_starts(s, "/vo"@);
    lemma_not_versioned(s);
}

/// Law: the API version in front of a path makes no difference.
pub proof fn version_prefix_is_ignored(
    version: Seq<char>,
    s: Seq<char>,
    id: Seq<char>,
    refs: Seq<Seq<char>>,
)
    requires
        is_version(version),
        s.len() > 0,
        s[0] == '/',
        unversioned(s) == s,
    ensures
        sanitized("/v"@ + version + s, id, refs) == sanitized(s, id, refs),
{
    reveal_strlit("/v");
    let t = "/v"@ + version + s;
    assert(t.take(2) =~= "/v"@);
    let head = seq!['v'] + version;
    assert forall|i: int| 0 <= i < head.len() implies #[trigger] head[i] != '/' by {
        if i > 0 {
            assert(is_version_char(version[i - 1]));
        }
    }
    assert(t.skip(1) =~= head + seq!['/'] + s.skip(1));
    lemma_cut_join(head, '/', s.skip(1));
    assert(head.skip(1) =~= version);
    assert(seq!['/'] + s.skip(1) =~= s);
}

/// Law: what passes once passes again, unchanged, whatever id the container
/// has, as long as no `/` or `?` stands in it.
pub proof fn sanitizing_is_stable(s: Seq<char>, id: Seq<char>, refs: Seq<Seq<char>>)
    requires
        lacks(id, '/'),
        lacks(id, '?'),
    ensures
        sanitized(s, id, refs) matches Ok(out) ==> sanitized(out, id, refs) == Ok::<
            Seq<char>,
            PathErrorView,
        >(out),
{
    let normalized = unversioned(s);
    let path = path_part(normalized);
    lemma_path_part(normalized);
    reveal_strlit("/containers/");
    if path == "/containers/json"@ {
        let out = own_list(id);
        reveal_strlit("/containers/json");
        reveal_strlit("/containers/json?filters=%7B%22id%22%3A%5B%22");
        assert(out.take(12) =~= "/containers/"@);
        lemma_containers_not_versioned(out);
        lemma_first_of_is(out, '?', 16);
        assert(path_part(out) =~= "/containers/json"@);
    } else if starts(path, "/containers/"@) {
        let rest = path.skip("/containers/"@.len() as int);
        match cut(rest, '/') {
            None => {},
            Some((target, suffix)) => {
                lemma_first_of(rest, '/');
                assert forall|i: int| 0 <= i < suffix.len() implies #[trigger] suffix[i] != '?' by {
                    assert(suffix[i] == path[12 + first_of(rest, '/') + 1 + i]);
                }
                container_request_is_rewritten_or_refused(
                    id,
                    suffix,
                    query_part(normalized),
                    id,
                    refs,
                );
                assert(id.take(id.len() as int) =~= id);
            },
        }
    } else if is_global_endpoint(path) {
        global_endpoints_pass(normalized, id, refs);
    }
}

/// Law: whatever passes is an absolute path.
pub proof fn what_passes_is_absolute(s: Seq<char>, id: Seq<char>, refs: Seq<Seq<char>>)
    ensures
        sanitized(s, id, refs) matches Ok(out) ==> starts(out, "/"@),
{
    let normalized = unversioned(s);
    let path = path_part(normalized);
    reveal_strlit("/");
    reveal_strlit("/containers/");
    reveal_strlit("/containers/json?filters=%7B%22id%22%3A%5B%22");
    if let Ok(out) = sanitized(s, id, refs) {
        if path != "/containers/json"@ && !starts(path, "/containers/"@) {
            lemma_global_endpoint(path);
            lemma_path_part(normalized);
            lemma_starts(normalized, path);
            lemma_starts(path, "/"@);
        }
        assert(out.take(1) =~= "/"@);
    }
}

/// Law: the active mappings are those whose containers run, with the beginning
/// of the container's id, and no others.
pub proof fn active_mappings_are_those_that_run(
    ms: Seq<MappingView>,
    told: Seq<InspectView>,
    a: ActiveView,
)
    requires
        ms.len() == told.len(),
    ensures
        active_of(ms, told).contains(a) <==> exists|i: int|
            0 <= i < ms.len() && (#[trigger] told[i]).running && a == (ActiveView {
                port: ms[i].port,
                container_ref: ms[i].container,
                container_id_short: at_most(told[i].id, 12),
            }),
    decreases ms.len(),
{
    if ms.len() > 0 {
        let ms0 = ms.drop_last();
        let told0 = told.drop_last();
        let rest = active_of(ms0, told0);
        let all = active_of(ms, told);
        let n = ms.len() - 1;
        active_mappings_are_those_that_run(ms0, told0, a);
        if rest.contains(a) {
            let i = choose|i: int|
                0 <= i < ms0.len() && (#[trigger] told0[i]).running && a == (ActiveView {
                    port: ms0[i].port,
                    container_ref: ms0[i].container,
                    container_id_short: at_most(told0[i].id, 12),
                });
            assert(told[i] == told0[i]);
            let j = choose|j: int| 0 <= j < rest.len() && rest[j] == a;
            assert(all[j] == a);
        }
        if all.contains(a) && !rest.contains(a) {
            let j = choose|j: int| 0 <= j < all.len() && all[j] == a;
            if j < rest.len() {
                assert(rest[j] == a);
            }
            assert(told[n] == told.last());
        }
        assert forall|i: int|
            0 <= i < ms.len() && (#[trigger] told[i]).running && a == (ActiveView {
                port: ms[i].port,
                container_ref: ms[i].container,
                container_id_short: at_most(told[i].id, 12),
            }) implies all.contains(a) by {
            if i < n {
                assert(told0[i] == told[i]);
                assert(rest.contains(a));
            } else {
                assert(all[all.len() - 1] == a);
            }
        }
    }
}

/// Law: a text lacks a character where none of its characters is that.
pub proof fn lacking_is_not_containing(s: Seq<char>, c: char)
    ensures
        lacks(s, c) <==> !s.contains(c),
{
    if lacks(s, c) && s.contains(c) {
        let i = choose|i: int| 0 <= i < s.len() && s[i] == c;
        assert(s[i] != c);
    }
    if !s.contains(c) {
        assert forall|i: int| 0 <= i < s.len() implies #[trigger] s[i] != c by {
            assert(s.contains(s[i]));
        }
    }
}

/// Law: an API version of digits and dots in front of a path is taken off, and
/// the path behind it is left as it is.
pub proof fn a_version_is_taken_off(version: Seq<char>, rest: Seq<char>)
    requires
        version.len() > 0,
        forall|i: int|
            0 <= i < version.len() ==> '0' <= #[trigger] version[i] <= '9' || version[i] == '.',
    ensures
        unversioned("/v"@ + version + "/"@ + rest) == "/"@ + rest,
{
    reveal_strlit("/v");
    reveal_strlit("/");
    let t = "/v"@ + version + "/"@ + rest;
    let head = seq!['v'] + version;
    assert(t.take(2) =~= "/v"@);
    assert forall|i: int| 0 <= i < head.len() implies #[trigger] head[i] != '/' by {
        if i > 0 {
            assert(head[i] == version[i - 1]);
        }
    }
    assert(t.skip(1) =~= head + seq!['/'] + rest);
    lemma_cut_join(head, '/', rest);
    assert(head.skip(1) =~= version);
    assert forall|i: int| 0 <= i < version.len() implies is_version_char(#[trigger] version[i]) by {
    }
    assert(seq!['/'] + rest =~= "/"@ + rest);
}

/// Law: nothing but an API version is ever taken off a path.
pub proof fn only_a_version_is_taken_off(s: Seq<char>)
    ensures
        unversioned(s) == s || exists|version: Seq<char>, rest: Seq<char>|
            {
                &&& s == #[trigger] ("/v"@ + version + "/"@ + rest)
                &&& unversioned(s) == "/"@ + rest
                &&& version.len() > 0
                &&& forall|i: int|
                    0 <= i < version.len() ==> '0' <= #[trigger] version[i] <= '9' || version[i]
                        == '.'
            },
{
    reveal_strlit("/v");
    reveal_strlit("/");
    if unversioned(s) != s {
        let k = first_of(s.skip(1), '/');
        lemma_first_of(s.skip(1), '/');
        lemma_starts(s, "/v"@);
        let version = s.skip(1).take(k).skip(1);
        let rest = s.skip(1).skip(k + 1);
        assert(s.skip(1)[0] == 'v');
        assert(s.skip(1)[k] == '/');
        assert(s =~= "/v"@ + version + "/"@ + rest);
        assert(seq!['/'] + rest =~= "/"@ + rest);
        assert forall|i: int| 0 <= i < version.len() implies '0' <= #[trigger] version[i] <= '9'
            || version[i] == '.' by {
            assert(is_version_char(version[i]));
        }
    }
}

/// Law: the query of a path begins behind its first question mark.
pub proof fn the_query_follows_the_first_question_mark(path: Seq<char>, query: Seq<char>)
    requires
        !path.contains('?'),
    ensures
        path_part(path + "?"@ + query) == path,
        query_part(path + "?"@ + query) == Some(query),
        path_part(path) == path,
        query_part(path) is None,
{
    reveal_strlit("?");
    lacking_is_not_containing(path, '?');
    assert(path + "?"@ + query =~= path + seq!['?'] + query);
    lemma_cut_join(path, '?', query);
    lemma_cut_none(path, '?');
}

/// What a request comes to does not depend on the API version in front of it.
proof fn lemma_versioned(
    version: Seq<char>,
    s: Seq<char>,
    rest: Seq<char>,
    id: Seq<char>,
    refs: Seq<Seq<char>>,
)
    requires
        version.len() > 0,
        forall|i: int|
            0 <= i < version.len() ==> '0' <= #[trigger] version[i] <= '9' || version[i] == '.',
        s == "/"@ + rest,
        unversioned(s) == s,
    ensures
        sanitized("/v"@ + version + s, id, refs) == sanitized(s, id, refs),
{
    a_version_is_taken_off(version, rest);
    assert("/v"@ + version + s =~= "/v"@ + version + "/"@ + rest);
}

/// Law: a request for the container list, with or without an API version and a
/// query, asks the daemon for the list filtered down to the mapped container,
/// by its whole id.
pub proof fn the_container_list_is_filtered(
    version: Seq<char>,
    query: Seq<char>,
    id: Seq<char>,
    refs: Seq<Seq<char>>,
)
    requires
        version.len() > 0,
        forall|i: int|
            0 <= i < version.len() ==> '0' <= #[trigger] version[i] <= '9' || version[i] == '.',
    ensures
        sanitized("/containers/json"@, id, refs) == Ok::<Seq<char>, PathErrorView>(
            "/containers/json?filters=%7B%22id%22%3A%5B%22"@ + id + "%22%5D%7D"@,
        ),
        sanitized("/containers/json"@ + "?"@ + query, id, refs) == Ok::<Seq<char>, PathErrorView>(
            "/containers/json?filters=%7B%22id%22%3A%5B%22"@ + id + "%22%5D%7D"@,
        ),
        sanitized("/v"@ + version + "/containers/json"@, id, refs) == Ok::<
            Seq<char>,
            PathErrorView,
        >("/containers/json?filters=%7B%22id%22%3A%5B%22"@ + id + "%22%5D%7D"@),
        sanitized("/v"@ + version + ("/containers/json"@ + "?"@ + query), id, refs) == Ok::<
            Seq<char>,
            PathErrorView,
        >("/containers/json?filters=%7B%22id%22%3A%5B%22"@ + id + "%22%5D%7D"@),
{
    reveal_strlit("/containers/json");
    reveal_strlit("/containers/");
    reveal_strlit("/");
    let a = "/containers/json"@;
    let b = a + "?"@ + query;
    assert(lacks(a, '?'));
    lacking_is_not_containing(a, '?');
    the_query_follows_the_first_question_mark(a, query);
    assert(a.take(12) =~= "/containers/"@);
    assert(b.take(12) =~= "/containers/"@);
    lemma_containers_not_versioned(a);
    lemma_containers_not_versioned(b);
    assert(a =~= "/"@ + a.skip(1));
    assert(b =~= "/"@ + b.skip(1));
    lemma_versioned(version, a, a.skip(1), id, refs);
    lemma_versioned(version, b, b.skip(1), id, refs);
}

/// Law: whatever path passes for the container list carries the filter with
/// the whole id of the mapped container, and nothing else.
pub proof fn no_unfiltered_list_passes(s: Seq<char>, id: Seq<char>, refs: Seq<Seq<char>>)
    requires
        !id.contains('?'),
    ensures
        path_part(unversioned(s)) == "/containers/json"@ ==> sanitized(s, id, refs) == Ok::<
            Seq<char>,
            PathErrorView,
        >("/containers/json?filters=%7B%22id%22%3A%5B%22"@ + id + "%22%5D%7D"@),
        sanitized(s, id, refs) matches Ok(out) ==> "/containers/json"@.is_prefix_of(out) && (
        out.len() == 16 || out[16] == '?') ==> out
            == "/containers/json?filters=%7B%22id%22%3A%5B%22"@ + id + "%22%5D%7D"@,
{
    reveal_strlit("/containers/json");
    reveal_strlit("/containers/");
    reveal_strlit("/");
    let normalized = unversioned(s);
    let path = path_part(normalized);
    lacking_is_not_containing(id, '?');
    if let Ok(out) = sanitized(s, id, refs) {
        if "/containers/json"@.is_prefix_of(out) && (out.len() == 16 || out[16] == '?') {
            assert forall|i: int| 0 <= i < 16 implies out[i] == "/containers/json"@[i] by {
                assert(out.subrange(0, 16)[i] == out[i]);
            }
            if path == "/containers/json"@ {
            } else if starts(path, "/containers/"@) {
                assert(out[12 + id.len() as int] == '/');
                if id.len() > 4 {
                    assert(out[16] == id[4]);
                }
                assert(false);
            } else {
                lemma_path_part(normalized);
                lemma_first_of_is(out, '?', 16);
                assert(out.take(16) =~= "/containers/json"@);
                assert(path =~= "/containers/json"@);
            }
        }
    }
}

/// Law: a request for a container goes to the mapped container where it names
/// the container by a beginning of its id or by exactly an accepted reference,
/// with what stands behind the reference and with the query, and with or
/// without an API version.
pub proof fn container_requests_are_rewritten(
    version: Seq<char>,
    target: Seq<char>,
    suffix: Seq<char>,
    query: Seq<char>,
    id: Seq<char>,
    refs: Seq<Seq<char>>,
)
    requires
        version.len() > 0,
        forall|i: int|
            0 <= i < version.len() ==> '0' <= #[trigger] version[i] <= '9' || version[i] == '.',
        !target.contains('/'),
        !target.contains('?'),
        !suffix.contains('?'),
        target.is_prefix_of(id) || refs.contains(target),
    ensures
        sanitized("/containers/"@ + target + "/"@ + suffix, id, refs) == Ok::<
            Seq<char>,
            PathErrorView,
        >("/containers/"@ + id + "/"@ + suffix),
        sanitized("/containers/"@ + target + "/"@ + suffix + "?"@ + query, id, refs) == Ok::<
            Seq<char>,
            PathErrorView,
        >("/containers/"@ + id + "/"@ + suffix + "?"@ + query),
        sanitized("/v"@ + version + ("/containers/"@ + target + "/"@ + suffix), id, refs) == Ok::<
            Seq<char>,
            PathErrorView,
        >("/containers/"@ + id + "/"@ + suffix),
        sanitized(
            "/v"@ + version + ("/containers/"@ + target + "/"@ + suffix + "?"@ + query),
            id,
            refs,
        ) == Ok::<Seq<char>, PathErrorView>("/containers/"@ + id + "/"@ + suffix + "?"@ + query),
{
    lemma_container_requests(version, target, suffix, query, id, refs);
    if target.is_prefix_of(id) {
        assert(id.take(target.len() as int) =~= target);
    }
}

/// What becomes of a request for a container, in its four forms.
proof fn lemma_container_requests(
    version: Seq<char>,
    target: Seq<char>,
    suffix: Seq<char>,
    query: Seq<char>,
    id: Seq<char>,
    refs: Seq<Seq<char>>,
)
    requires
        version.len() > 0,
        forall|i: int|
            0 <= i < version.len() ==> '0' <= #[trigger] version[i] <= '9' || version[i] == '.',
        !target.contains('/'),
        !target.contains('?'),
        !suffix.contains('?'),
    ensures
        ({
            let plain = "/containers/"@ + target + "/"@ + suffix;
            let asking = plain + "?"@ + query;
            let own = "/containers/"@ + id + "/"@ + suffix;
            let (bare, with_query) = if refers_to(target, id, refs) {
                (
                    Ok::<Seq<char>, PathErrorView>(own),
                    Ok::<Seq<char>, PathErrorView>(own + "?"@ + query),
                )
            } else {
                (
                    Err(PathErrorView::ContainerMismatch),
                    Err(PathErrorView::ContainerMismatch),
                )
            };
            &&& sanitized(plain, id, refs) == bare
            &&& sanitized(asking, id, refs) == with_query
            &&& sanitized("/v"@ + version + plain, id, refs) == bare
            &&& sanitized("/v"@ + version + asking, id, refs) == with_query
        }),
{
    reveal_strlit("/containers/");
    reveal_strlit("/");
    reveal_strlit("?");
    lacking_is_not_containing(target, '/');
    lacking_is_not_containing(target, '?');
    lacking_is_not_containing(suffix, '?');
    let plain = "/containers/"@ + target + "/"@ + suffix;
    let asking = plain + "?"@ + query;
    let own = "/containers/"@ + id + "/"@ + suffix;
    container_request_is_rewritten_or_refused(target, suffix, None, id, refs);
    container_request_is_rewritten_or_refused(target, suffix, Some(query), id, refs);
    assert(own_path(target, suffix, None) =~= plain);
    assert(own_path(target, suffix, Some(query)) =~= asking);
    assert(own_path(id, suffix, None) =~= own);
    assert(own_path(id, suffix, Some(query)) =~= own + "?"@ + query);
    assert(plain.take(12) =~= "/containers/"@);
    assert(asking.take(12) =~= "/containers/"@);
    lemma_containers_not_versioned(plain);
    lemma_containers_not_versioned(asking);
    assert(plain =~= "/"@ + plain.skip(1));
    assert(asking =~= "/"@ + asking.skip(1));
    lemma_versioned(version, plain, plain.skip(1), id, refs);
    lemma_versioned(version, asking, asking.skip(1), id, refs);
}

/// Law: a request for a container by anything else is refused, in each of its
/// forms.
pub proof fn requests_for_other_containers_are_refused(
    version: Seq<char>,
    target: Seq<char>,
    suffix: Seq<char>,
    query: Seq<char>,
    id: Seq<char>,
    refs: Seq<Seq<char>>,
)
    requires
        version.len() > 0,
        forall|i: int|
            0 <= i < version.len() ==> '0' <= #[trigger] version[i] <= '9' || version[i] == '.',
        !target.contains('/'),
        !target.contains('?'),
        !suffix.contains('?'),
        !target.is_prefix_of(id),
        !refs.contains(target),
    ensures
        sanitized("/containers/"@ + target + "/"@ + suffix, id, refs) == Err::<
            Seq<char>,
            PathErrorView,
        >(PathErrorView::ContainerMismatch),
        sanitized("/containers/"@ + target + "/"@ + suffix + "?"@ + query, id, refs) == Err::<
            Seq<char>,
            PathErrorView,
        >(PathErrorView::ContainerMismatch),
        sanitized("/v"@ + version + ("/containers/"@ + target + "/"@ + suffix), id, refs) == Err::<
            Seq<char>,
            PathErrorView,
        >(PathErrorView::ContainerMismatch),
        sanitized(
            "/v"@ + version + ("/containers/"@ + target + "/"@ + suffix + "?"@ + query),
            id,
            refs,
        ) == Err::<Seq<char>, PathErrorView>(PathErrorView::ContainerMismatch),
{
    lemma_container_requests(version, target, suffix, query, id, refs);
    if starts(id, target) {
        assert(id.subrange(0, target.len() as int) =~= target);
    }
}

/// Law: a reference is accepted where it is a beginning of the container's id
/// or exactly one of the accepted references, and nowhere else.
pub proof fn references_are_ids_or_accepted(
    target: Seq<char>,
    id: Seq<char>,
    refs: Seq<Seq<char>>,
)
    ensures
        refers_to(target, id, refs) <==> target.is_prefix_of(id) || exists|i: int|
            0 <= i < refs.len() && #[trigger] refs[i] == target,
{
    if starts(id, target) {
        assert(id.subrange(0, target.len() as int) =~= target);
    }
    if target.is_prefix_of(id) {
        assert(id.take(target.len() as int) =~= target);
    }
}

/// Law: below `/containers/` nothing passes that has no `/` behind the
/// reference, but for the list.
pub proof fn a_container_path_needs_more_than_a_reference(
    name: Seq<char>,
    query: Seq<char>,
    id: Seq<char>,
    refs: Seq<Seq<char>>,
)
    requires
        !name.contains('/'),
        !name.contains('?'),
        name != "json"@,
    ensures
        sanitized("/containers/"@ + name, id, refs) == Err::<Seq<char>, PathErrorView>(
            PathErrorView::UnsupportedContainerPath,
        ),
        sanitized("/containers/"@ + name + "?"@ + query, id, refs) == Err::<
            Seq<char>,
            PathErrorView,
        >(PathErrorView::UnsupportedContainerPath),
{
    reveal_strlit("/containers/");
    reveal_strlit("/containers/json");
    reveal_strlit("json");
    lacking_is_not_containing(name, '/');
    lacking_is_not_containing(name, '?');
    let path = "/containers/"@ + name;
    let asking = path + "?"@ + query;
    assert(lacks(path, '?'));
    lacking_is_not_containing(path, '?');
    the_query_follows_the_first_question_mark(path, query);
    assert(path.take(12) =~= "/containers/"@);
    assert(asking.take(12) =~= "/containers/"@);
    lemma_containers_not_versioned(path);
    lemma_containers_not_versioned(asking);
    assert(path.skip(12) =~= name);
    lemma_cut_none(name, '/');
    if path == "/containers/json"@ {
        assert(name =~= "json"@);
    }
}

/// Law: a path is one of the daemon's global endpoints where it begins with
/// one of these names, or is the root.
pub proof fn global_endpoints_by_name(path: Seq<char>)
    ensures
        is_global_endpoint(path) <==> {
            ||| "/_ping"@.is_prefix_of(path)
            ||| "/version"@.is_prefix_of(path)
            ||| "/info"@.is_prefix_of(path)
            ||| "/events"@.is_prefix_of(path)
            ||| "/system/"@.is_prefix_of(path)
            ||| "/auth"@.is_prefix_of(path)
            ||| "/session"@.is_prefix_of(path)
            ||| "/distribution/"@.is_prefix_of(path)
            ||| "/build"@.is_prefix_of(path)
            ||| "/images/"@.is_prefix_of(path)
            ||| "/networks/"@.is_prefix_of(path)
            ||| "/volumes/"@.is_prefix_of(path)
            ||| "/plugins/"@.is_prefix_of(path)
            ||| "/swarm"@.is_prefix_of(path)
            ||| "/nodes"@.is_prefix_of(path)
            ||| "/services"@.is_prefix_of(path)
            ||| "/tasks"@.is_prefix_of(path)
            ||| "/secrets"@.is_prefix_of(path)
            ||| "/configs"@.is_prefix_of(path)
            ||| path == "/"@
        },
{
    a_beginning_is_a_prefix(path, "/_ping"@);
    a_beginning_is_a_prefix(path, "/version"@);
    a_beginning_is_a_prefix(path, "/info"@);
    a_beginning_is_a_prefix(path, "/events"@);
    a_beginning_is_a_prefix(path, "/system/"@);
    a_beginning_is_a_prefix(path, "/auth"@);
    a_beginning_is_a_prefix(path, "/session"@);
    a_beginning_is_a_prefix(path, "/distribution/"@);
    a_beginning_is_a_prefix(path, "/build"@);
    a_beginning_is_a_prefix(path, "/images/"@);
    a_beginning_is_a_prefix(path, "/networks/"@);
    a_beginning_is_a_prefix(path, "/volumes/"@);
    a_beginning_is_a_prefix(path, "/plugins/"@);
    a_beginning_is_a_prefix(path, "/swarm"@);
    a_beginning_is_a_prefix(path, "/nodes"@);
    a_beginning_is_a_prefix(path, "/services"@);
    a_beginning_is_a_prefix(path, "/tasks"@);
    a_beginning_is_a_prefix(path, "/secrets"@);
    a_beginning_is_a_prefix(path, "/configs"@);
}

/// Law: a global endpoint passes as it is, with its query, and without the API
/// version in front of it.
pub proof fn global_endpoints_pass_as_they_are(
    version: Seq<char>,
    path: Seq<char>,
    query: Seq<char>,
    id: Seq<char>,
    refs: Seq<Seq<char>>,
)
    requires
        version.len() > 0,
        forall|i: int|
            0 <= i < version.len() ==> '0' <= #[trigger] version[i] <= '9' || version[i] == '.',
        !path.contains('?'),
        is_global_endpoint(path),
    ensures
        sanitized(path, id, refs) == Ok::<Seq<char>, PathErrorView>(path),
        sanitized(path + "?"@ + query, id, refs) == Ok::<Seq<char>, PathErrorView>(
            path + "?"@ + query,
        ),
        sanitized("/v"@ + version + path, id, refs) == Ok::<Seq<char>, PathErrorView>(path),
        sanitized("/v"@ + version + (path + "?"@ + query), id, refs) == Ok::<
            Seq<char>,
            PathErrorView,
        >(path + "?"@ + query),
{
    reveal_strlit("/");
    let asking = path + "?"@ + query;
    the_query_follows_the_first_question_mark(path, query);
    global_endpoints_pass(path, id, refs);
    global_endpoints_pass(asking, id, refs);
    lemma_unversioned_by_path(path);
    lemma_unversioned_by_path(asking);
    lemma_global_endpoint(path);
    lemma_starts(path, "/"@);
    assert(path =~= "/"@ + path.skip(1));
    assert(asking =~= "/"@ + asking.skip(1));
    lemma_versioned(version, path, path.skip(1), id, refs);
    lemma_versioned(version, asking, asking.skip(1), id, refs);
}

/// Law: a path that neither begins with `/containers/` nor is a global endpoint
/// is refused, and the refusal names the path.
pub proof fn other_paths_are_refused_by_name(
    path: Seq<char>,
    query: Seq<char>,
    id: Seq<char>,
    refs: Seq<Seq<char>>,
)
    requires
        !path.contains('?'),
        !"/containers/"@.is_prefix_of(path),
        !is_global_endpoint(path),
        unversioned(path) == path,
        unversioned(path + "?"@ + query) == path + "?"@ + query,
    ensures
        sanitized(path, id, refs) == Err::<Seq<char>, PathErrorView>(
            PathErrorView::PathNotAllowed { path },
        ),
        sanitized(path + "?"@ + query, id, refs) == Err::<Seq<char>, PathErrorView>(
            PathErrorView::PathNotAllowed { path },
        ),
{
    reveal_strlit("/containers/json");
    reveal_strlit("/containers/");
    the_query_follows_the_first_question_mark(path, query);
    a_beginning_is_a_prefix(path, "/containers/"@);
    if path == "/containers/json"@ {
        assert(path.take(12) =~= "/containers/"@);
    }
}

/// Law: a refusal says why.
pub proof fn refusals_say_why(path: Seq<char>)
    ensures
        PathErrorView::UnsupportedContainerPath.message() == "unsupported container path"@,
        PathErrorView::ContainerMismatch.message()
            == "requested container does not match mapped container"@,
        (PathErrorView::PathNotAllowed { path }).message()
            == "path not allowed for mapped docker endpoint: "@ + path,
{
}

/// Law: the Docker API is opened by these two commands, whatever white space
/// stands around them, and by no other.
pub proof fn two_commands_open_the_api(
    front: Seq<char>,
    command: Seq<char>,
    back: Seq<char>,
)
    requires
        forall|i: int| 0 <= i < front.len() ==> is_white(#[trigger] front[i]),
        forall|i: int| 0 <= i < back.len() ==> is_white(#[trigger] back[i]),
        command.len() > 0 ==> !is_white(command[0]) && !is_white(command.last()),
    ensures
        is_dial_stdio(front + command + back) <==> {
            ||| command == "docker system dial-stdio"@
            ||| command == "docker -H unix:///var/run/docker.sock system dial-stdio"@
        },
{
    trimming_takes_white_space_off(front, command, back);
}

/// Law: the daemon is asked under the host `docker`, with the path as it is.
pub proof fn the_daemon_is_asked_for_the_path(path: Seq<char>)
    ensures
        docker_address(path) == "http://docker"@ + path,
{
}

/// Law: a request is done where its status is in the two hundreds.
pub proof fn two_hundreds_are_successes(status: u16)
    ensures
        is_success(status) <==> status / 100 == 2,
{
}

/// Law: one more mapping is active exactly where its container runs, and then
/// it comes last, with its own port and container and with the first twelve
/// characters of the container's id.
pub proof fn a_running_container_makes_its_mapping_active(
    ms: Seq<MappingView>,
    told: Seq<InspectView>,
    m: MappingView,
    t: InspectView,
)
    requires
        ms.len() == told.len(),
    ensures
        active_of(Seq::empty(), Seq::empty()) == Seq::<ActiveView>::empty(),
        !t.running ==> active_of(ms.push(m), told.push(t)) == active_of(ms, told),
        t.running ==> {
            let more = active_of(ms.push(m), told.push(t));
            &&& more.len() == active_of(ms, told).len() + 1
            &&& more.drop_last() == active_of(ms, told)
            &&& more.last().port == m.port
            &&& more.last().container_ref == m.container
            &&& more.last().container_id_short.is_prefix_of(t.id)
            &&& more.last().container_id_short.len() == if t.id.len() < 12 {
                t.id.len() as int
            } else {
                12int
            }
        },
{
    assert(ms.push(m).drop_last() =~= ms);
    assert(told.push(t).drop_last() =~= told);
    a_shortened_text_is_its_beginning(t.id, 12);
    let more = active_of(ms.push(m), told.push(t));
    if t.running {
        assert(more.drop_last() =~= active_of(ms, told));
    }
}

/// Law: what is told of containers and mappings is seen field by field.
pub proof fn what_is_told_is_seen_as_it_is(a: ActiveMapping, c: ContainerInspect)
    ensures
        a@.port == a.port,
        a@.container_ref == a.container_ref@,
        a@.container_id_short == a.container_id_short@,
        c@.id == c.id@,
        c@.name == c.name@,
        c@.running == c.state.running,
        actives_view(seq![a]) =~= seq![a@],
        inspects_view(seq![c]) =~= seq![c@],
{
}

/// Law: lists of containers and mappings are seen one for one.
pub proof fn lists_are_seen_one_for_one(
    actives: Seq<ActiveMapping>,
    containers: Seq<ContainerInspect>,
)
    ensures
        actives_view(actives).len() == actives.len(),
        forall|i: int| 0 <= i < actives.len() ==> #[trigger] actives_view(actives)[i] == actives[i]@,
        inspects_view(containers).len() == containers.len(),
        forall|i: int|
            0 <= i < containers.len() ==> #[trigger] inspects_view(containers)[i] == containers[i]@,
{
}

/// Law: an error of the daemon is told by what went wrong.
pub proof fn daemon_errors_say_what_went_wrong(op: String, status: u16)
    ensures
        DockerError::ContainerNotFound.text() == "container not found"@,
        (DockerError::Failed { op, status }).text() == op@ + " failed with status "@
            + status_phrase(status),
        DockerError::NotRunning.text() == "container is not running"@,
        DockerError::NoProcess.text() == "container has no running process"@,
{
}

/// Law: what a request path is turned into. The container list is filtered by
/// the whole id; a reference that is a beginning of the id or exactly accepted
/// is replaced by the id; any other reference is refused.
pub proof fn request_paths_are_turned_into_own_paths(
    asked: &str,
    id: &str,
    refs: &[String],
    target: Seq<char>,
    suffix: Seq<char>,
    query: Seq<char>,
    r: Result<String, PathError>,
)
    requires
        call_ensures(sanitize_path_for_container, (asked, id, refs), r),
        !target.contains('/'),
        !target.contains('?'),
        !suffix.contains('?'),
    ensures
        asked@ == "/containers/json"@ || asked@ == "/containers/json"@ + "?"@ + query ==> (
        r matches Ok(out) && out@ == "/containers/json?filters=%7B%22id%22%3A%5B%22"@ + id@
            + "%22%5D%7D"@),
        asked@ == "/containers/"@ + target + "/"@ + suffix ==> {
            &&& target.is_prefix_of(id@) || texts(refs@).contains(target) ==> (r matches Ok(out)
                && out@ == "/containers/"@ + id@ + "/"@ + suffix)
            &&& !target.is_prefix_of(id@) && !texts(refs@).contains(target) ==> (r matches Err(e)
                && e is ContainerMismatch)
        },
        asked@ == "/containers/"@ + target + "/"@ + suffix + "?"@ + query ==> {
            &&& target.is_prefix_of(id@) || texts(refs@).contains(target) ==> (r matches Ok(out)
                && out@ == "/containers/"@ + id@ + "/"@ + suffix + "?"@ + query)
            &&& !target.is_prefix_of(id@) && !texts(refs@).contains(target) ==> (r matches Err(e)
                && e is ContainerMismatch)
        },
{
    let version = seq!['1'];
    the_container_list_is_filtered(version, query, id@, texts(refs@));
    if target.is_prefix_of(id@) || texts(refs@).contains(target) {
        container_requests_are_rewritten(version, target, suffix, query, id@, texts(refs@));
    } else {
        requests_for_other_containers_are_refused(
            version,
            target,
            suffix,
            query,
            id@,
            texts(refs@),
        );
    }
}

/// Law: a reference is accepted where it is a beginning of the id or exactly an
/// accepted reference.
pub proof fn matching_references_are_own_references(
    target: &str,
    id: &str,
    refs: &[String],
    matching: bool,
)
    requires
        call_ensures(container_ref_matches, (target, id, refs), matching),
    ensures
        matching <==> target@.is_prefix_of(id@) || texts(refs@).contains(target@),
{
    references_are_ids_or_accepted(target@, id@, texts(refs@));
}

/// Law: the daemon is found at the socket of the environment, the first of the
/// two that is set, or else at that of the configuration.
pub proof fn the_environment_comes_before_the_configuration(
    socket_var: Option<String>,
    endpoint_var: Option<String>,
    cfg: &ConfigFile,
    backend: DockerBackend,
)
    requires
        call_ensures(DockerBackend::from_env_or_config, (socket_var, endpoint_var, cfg), backend),
    ensures
        socket_var matches Some(path) ==> backend@ == path@,
        socket_var is None ==> (endpoint_var matches Some(path) ==> backend@ == path@),
        socket_var is None && endpoint_var is None ==> backend@ == cfg.docker_socket@,
{
}

/// Law: a container is asked for by its own path, and what the daemon answers
/// counts by its status.
pub proof fn containers_are_asked_for_by_name(
    name: &str,
    path: String,
    status: u16,
    r: Result<(), DockerError>,
)
    requires
        call_ensures(inspect_path, (name,), path),
        call_ensures(inspect_answer, (status,), r),
    ensures
        path@ == "/containers/"@ + name@ + "/json"@,
        r is Ok <==> status / 100 == 2,
        status == 404 ==> (r matches Err(e) && e is ContainerNotFound),
        status != 404 && status / 100 != 2 ==> (r matches Err(DockerError::Failed {
            op,
            status: told,
        }) && op@ == "inspect container"@ && told == status),
{
}

/// Law: a running container has the process that the daemon names, and no
/// other container has one.
pub proof fn running_containers_have_a_process(
    state: ContainerState,
    pid: Option<u32>,
    r: Result<u32, DockerError>,
)
    requires
        call_ensures(running_pid, (state, pid), r),
    ensures
        !state.running ==> (r matches Err(e) && e is NotRunning),
        state.running && (pid is None || pid == Some(0u32)) ==> (r matches Err(e)
            && e is NoProcess),
        state.running ==> (pid matches Some(p) ==> p != 0 ==> r == Ok::<u32, DockerError>(p)),
{
}

/// Law: a short id is the first twelve characters of the id.
pub proof fn a_short_id_begins_the_id(id: &str, short: String)
    requires
        call_ensures(short_id, (id,), short),
    ensures
        short@.is_prefix_of(id@),
        id@.len() <= 12 ==> short@.len() == id@.len(),
        id@.len() > 12 ==> short@.len() == 12,
{
    a_shortened_text_is_its_beginning(id@, 12);
}

/// Law: the two commands that open the Docker API are taken with white space
/// around them, and no other command is.
pub proof fn only_two_commands_are_taken_for_the_api(
    command: &str,
    taken: bool,
    front: Seq<char>,
    core: Seq<char>,
    back: Seq<char>,
)
    requires
        call_ensures(docker_authorized_command, (command,), taken),
        command@ == front + core + back,
        forall|i: int| 0 <= i < front.len() ==> is_white(#[trigger] front[i]),
        forall|i: int| 0 <= i < back.len() ==> is_white(#[trigger] back[i]),
        core.len() > 0 ==> !is_white(core[0]) && !is_white(core.last()),
    ensures
        taken <==> core == "docker system dial-stdio"@ || core
            == "docker -H unix:///var/run/docker.sock system dial-stdio"@,
{
    two_commands_open_the_api(front, core, back);
}

/// Law: a path with an API version in front is left with the path alone.
pub proof fn a_versioned_path_is_left_with_the_path(
    s: &str,
    out: String,
    version: Seq<char>,
    rest: Seq<char>,
)
    requires
        call_ensures(strip_version_prefix, (s,), out),
        version.len() > 0,
        forall|i: int|
            0 <= i < version.len() ==> '0' <= #[trigger] version[i] <= '9' || version[i] == '.',
        s@ == "/v"@ + version + "/"@ + rest,
    ensures
        out@ == "/"@ + rest,
{
    a_version_is_taken_off(version, rest);
}

/// Law: an absolute path of plain characters that is not too long is asked for
/// under the host `docker`, as it is.
pub proof fn plain_paths_make_their_own_uri(path: &str, r: Result<String, UriError>)
    requires
        call_ensures(build_docker_uri, (path,), r),
        "/"@.is_prefix_of(path@),
        path@.len() < 65522,
        !path@.contains('#'),
        forall|i: int| 0 <= i < path@.len() ==> is_uri_char(#[trigger] path@[i]),
    ensures
        r matches Ok(uri) && uri@ == "http://docker"@ + path@,
{
    reveal_strlit("http://docker");
    a_beginning_is_a_prefix(path@, "/"@);
    lacking_is_not_containing(path@, '#');
    lemma_first_of_is(path@, '#', path@.len() as int);
    assert(path@.take(path@.len() as int) =~= path@);
}

} // verus!
