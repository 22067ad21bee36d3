//! The Docker API proxy: which references lead to the mapped container, and
//! what becomes of a client's request.

use vstd::prelude::*;

use crate::docker::{
    build_docker_uri, container_request_is_rewritten_or_refused, docker_address, lacks, own_path,
    own_references_are_accepted, sanitize_path_for_container, sanitized, short_id,
    what_passes_is_absolute, ContainerInspect, DockerBackend, PathError, PathErrorView, UriError,
};
use crate::outside::{is_uri_char, uri_reading};
use crate::text::{
    a_run_in_front_is_skipped, a_shortened_text_is_its_beginning, at_most, comes_before, first_of,
    precedes, same_text, skip_char, starts, texts, trim_start_char,
};

verus! {

/// `refs` are in order, and none stands there twice.
pub open spec fn strictly_ordered(refs: Seq<Seq<char>>) -> bool {
    forall|i: int, j: int|
        0 <= i < j < refs.len() ==> precedes(#[trigger] refs[i], #[trigger] refs[j])
}

/// The references to a container: the one it was asked for by, its id, its
/// short id and its name.
pub open spec fn is_reference(
    container_ref: Seq<char>,
    id: Seq<char>,
    name: Seq<char>,
    r: Seq<char>,
) -> bool {
    ||| r == container_ref
    ||| r == id
    ||| r == at_most(id, 12)
    ||| r == skip_char(name, '/')
}

/// No text comes before itself.
proof fn lemma_precedes_irreflexive(a: Seq<char>)
    ensures
        !precedes(a, a),
    decreases a.len(),
{
    if a.len() > 0 {
        lemma_precedes_irreflexive(a.skip(1));
    }
}

/// Of two texts one comes first, or they are the same.
proof fn lemma_precedes_total(a: Seq<char>, b: Seq<char>)
    ensures
        precedes(a, b) || precedes(b, a) || a == b,
    decreases a.len(),
{
    if a.len() > 0 && b.len() > 0 && a[0] == b[0] {
        lemma_precedes_total(a.skip(1), b.skip(1));
        if a.skip(1) == b.skip(1) {
            assert(a =~= seq![a[0]] + a.skip(1));
            assert(b =~= seq![b[0]] + b.skip(1));
        }
    } else if a.len() == 0 && b.len() == 0 {
        assert(a =~= b);
    }
}

/// What comes before a text comes before all that comes after that text.
proof fn lemma_precedes_transitive(a: Seq<char>, b: Seq<char>, c: Seq<char>)
    requires
        precedes(a, b),
        precedes(b, c),
    ensures
        precedes(a, c),
    decreases a.len(),
{
    if a.len() > 0 && b.len() > 0 && c.len() > 0 && a[0] == b[0] && b[0] == c[0] {
        lemma_precedes_transitive(a.skip(1), b.skip(1), c.skip(1));
    }
}

/// Law: a list of references in order is determined by what it holds.
pub proof fn ordered_references_are_determined(x: Seq<Seq<char>>, y: Seq<Seq<char>>)
    requires
        strictly_ordered(x),
        strictly_ordered(y),
        forall|r: Seq<char>| x.contains(r) <==> y.contains(r),
    ensures
        x == y,
    decreases x.len(),
{
    if x.len() == 0 {
        if y.len() > 0 {
            assert(y.contains(y[0]));
        }
        assert(x =~= y);
    } else {
        assert(x.contains(x.last()));
        let i = choose|i: int| 0 <= i < y.len() && y[i] == x.last();
        assert(y.contains(y.last()));
        let j = choose|j: int| 0 <= j < x.len() && x[j] == y.last();
        if i < y.len() - 1 {
            assert(precedes(y[i], y[y.len() - 1]));
            if j < x.len() - 1 {
                assert(precedes(x[j], x[x.len() - 1]));
                lemma_precedes_transitive(x.last(), y.last(), x.last());
            }
            lemma_precedes_irreflexive(x.last());
        }
        assert(x.last() == y.last());
        let x0 = x.drop_last();
        let y0 = y.drop_last();
        assert forall|r: Seq<char>| x0.contains(r) <==> y0.contains(r) by {
            lemma_precedes_irreflexive(x.last());
            if x0.contains(r) {
                let k = choose|k: int| 0 <= k < x0.len() && x0[k] == r;
                assert(x[k] == r);
                assert(x.contains(r));
                assert(precedes(x[k], x[x.len() - 1]));
                let l = choose|l: int| 0 <= l < y.len() && y[l] == r;
                assert(y0[l] == r);
            }
            if y0.contains(r) {
                let k = choose|k: int| 0 <= k < y0.len() && y0[k] == r;
                assert(y[k] == r);
                assert(y.contains(r));
                assert(precedes(y[k], y[y.len() - 1]));
                let l = choose|l: int| 0 <= l < x.len() && x[l] == r;
                assert(x0[l] == r);
            }
        }
        ordered_references_are_determined(x0, y0);
        assert(x =~= x0.push(x.last()));
        assert(y =~= y0.push(y.last()));
    }
}

/// Puts a reference in its place, unless it is there already.
fn add_reference(refs: &mut Vec<String>, r: String)
    requires
        strictly_ordered(texts(old(refs)@)),
    ensures
        strictly_ordered(texts(final(refs)@)),
        forall|t: Seq<char>|
            #![trigger texts(final(refs)@).contains(t)]
            texts(final(refs)@).contains(t) <==> texts(old(refs)@).contains(t) || t == r@,
{
    let ghost before = texts(refs@);
    let mut k: usize = 0;
    while k < refs.len() && comes_before(refs[k].as_str(), r.as_str())
        invariant
            *refs == *old(refs),
            before == texts(refs@),
            k <= refs@.len(),
            forall|i: int| 0 <= i < k ==> precedes(#[trigger] before[i], r@),
        decreases refs@.len() - k,
    {
        assert(before[k as int] == refs@[k as int]@);
        k += 1;
    }
    if k < refs.len() && same_text(refs[k].as_str(), r.as_str()) {
        assert(before[k as int] == refs@[k as int]@);
        assert(before.contains(r@));
        return ;
    }
    let ghost rv = r@;
    proof {
        if k < refs@.len() {
            assert(before[k as int] == refs@[k as int]@);
            lemma_precedes_total(rv, before[k as int]);
        }
    }
    refs.insert(k, r);
    proof {
        let after = texts(refs@);
        assert(after =~= before.insert(k as int, rv));
        assert forall|i: int, j: int| 0 <= i < j < after.len() implies precedes(
            #[trigger] after[i],
            #[trigger] after[j],
        ) by {
            if i < k && j > k {
                assert(precedes(before[i], before[j - 1]));
            } else if i > k {
                assert(precedes(before[i - 1], before[j - 1]));
            } else if i == k && j > k + 1 {
                assert(precedes(before[k as int], before[j - 1]));
                lemma_precedes_transitive(rv, before[k as int], before[j - 1]);
            } else if j < k {
                assert(precedes(before[i], before[j]));
            }
        }
        assert forall|t: Seq<char>| #[trigger]
            after.contains(t) <==> before.contains(t) || t == rv by {
            if after.contains(t) {
                let i = choose|i: int| 0 <= i < after.len() && after[i] == t;
                if i < k {
                    assert(before[i] == t);
                } else if i > k {
                    assert(before[i - 1] == t);
                }
            }
            if before.contains(t) {
                let i = choose|i: int| 0 <= i < before.len() && before[i] == t;
                if i < k {
                    assert(after[i] == t);
                } else {
                    assert(after[i + 1] == t);
                }
            }
            assert(after[k as int] == rv);
        }
    }
}

/// The container that a proxied session leads to.
#[derive(Debug, Clone)]
pub struct ProxyTarget {
    backend: DockerBackend,
    container_id: String,
    accepted_refs: Vec<String>,
}

/// A [`ProxyTarget`] with its texts as character sequences.
pub struct TargetView {
    pub backend: Seq<char>,
    pub container_id: Seq<char>,
    pub accepted_refs: Seq<Seq<char>>,
}

impl View for ProxyTarget {
    type V = TargetView;

    closed spec fn view(&self) -> TargetView {
        TargetView {
            backend: self.backend@,
            container_id: self.container_id@,
            accepted_refs: texts(self.accepted_refs@),
        }
    }
}

/// What a proxied request comes to.
#[derive(Debug, Clone)]
pub enum Route {
    /// The daemon is asked for this URI.
    Forward { uri: String },
    /// The client is answered without the daemon.
    Answer(Reply),
}

/// An answer that the daemon has no part in.
#[derive(Debug, Clone)]
pub struct Reply {
    pub status: u16,
    pub message: String,
}

/// A [`Route`] with its texts as character sequences.
pub enum RouteView {
    Forward { uri: Seq<char> },
    Answer { status: u16, message: Seq<char> },
}

impl View for Route {
    type V = RouteView;

    open spec fn view(&self) -> RouteView {
        match *self {
            Route::Forward { uri } => RouteView::Forward { uri: uri@ },
            Route::Answer(reply) => RouteView::Answer {
                status: reply.status,
                message: reply.message@,
            },
        }
    }
}

/// Where a request goes once its path is settled, given how its address reads
/// as a URI.
pub open spec fn uri_route(reading: Result<Seq<char>, Seq<char>>) -> RouteView {
    match reading {
        Ok(uri) => RouteView::Forward { uri },
        Err(message) => RouteView::Answer { status: 400, message },
    }
}

/// Where a request for a path goes: what may not pass is forbidden, what is no
/// URI is a bad request, and the rest is forwarded.
pub open spec fn routed(target: TargetView, path_and_query: Option<Seq<char>>) -> RouteView {
    let asked = match path_and_query {
        Some(p) => p,
        None => "/"@,
    };
    match sanitized(asked, target.container_id, target.accepted_refs) {
        Ok(path) => uri_route(uri_reading(docker_address(path))),
        Err(e) => RouteView::Answer { status: 403, message: e.message() },
    }
}

/// The path that a request is for.
pub open spec fn asked_for(path_and_query: Option<&str>) -> Seq<char> {
    match path_and_query {
        Some(p) => p@,
        None => "/"@,
    }
}

/// The path that a request passes with, where it passes.
pub open spec fn passing(target: TargetView, asked: Seq<char>) -> Option<Seq<char>> {
    match sanitized(asked, target.container_id, target.accepted_refs) {
        Ok(path) => Some(path),
        Err(_) => None,
    }
}

impl ProxyTarget {
    /// The target that a container is, given what the daemon says of it.
    pub fn resolve(
        backend: DockerBackend,
        container_ref: &str,
        inspect: ContainerInspect,
    ) -> (out: ProxyTarget)
        ensures
            out@.backend == backend@,
            out@.container_id == inspect@.id,
            strictly_ordered(out@.accepted_refs),
            forall|r: Seq<char>| #[trigger]
                out@.accepted_refs.contains(r) <==> is_reference(
                    container_ref@,
                    inspect@.id,
                    inspect@.name,
                    r,
                ),
    {
        let mut accepted_refs: Vec<String> = Vec::new();
        assert(texts(accepted_refs@) =~= Seq::empty());
        add_reference(&mut accepted_refs, container_ref.to_string());
        add_reference(&mut accepted_refs, inspect.id.clone());
        add_reference(&mut accepted_refs, short_id(inspect.id.as_str()));
        add_reference(&mut accepted_refs, trim_start_char(inspect.name.as_str(), '/'));
        ProxyTarget { backend, container_id: inspect.id, accepted_refs }
    }

    /// A target made of its parts.
    pub fn from_parts(
        backend: DockerBackend,
        container_id: String,
        accepted_refs: Vec<String>,
    ) -> (out: ProxyTarget)
        ensures
            out@ == (TargetView {
                backend: backend@,
                container_id: container_id@,
                accepted_refs: texts(accepted_refs@),
            }),
    {
        ProxyTarget { backend, container_id, accepted_refs }
    }

    /// The daemon that requests are forwarded to.
    pub fn backend(&self) -> (out: &DockerBackend)
        ensures
            out@ == self@.backend,
    {
        &self.backend
    }

    /// The references that lead to the container.
    pub fn accepted_refs(&self) -> (out: &Vec<String>)
        ensures
            texts(out@) == self@.accepted_refs,
    {
        &self.accepted_refs
    }

    /// Decides on a request by its path. A request without one is for `/`.
    pub fn route(&self, path_and_query: Option<&str>) -> (out: Route)
        ensures
            out@ == routed(
                self@,
                match path_and_query {
                    Some(p) => Some(p@),
                    None => None,
                },
            ),
            out matches Route::Forward { uri } ==> (passing(self@, asked_for(path_and_query))
                matches Some(path) && uri@ == docker_address(path.take(first_of(path, '#')))),
            passing(self@, asked_for(path_and_query)) matches Some(path) ==> docker_address(path).len()
                < 65535 && (forall|i: int| 0 <= i < path.len() ==> is_uri_char(#[trigger] path[i]))
                ==> out is Forward,
    {
        proof {
            what_passes_is_absolute(
                asked_for(path_and_query),
                self@.container_id,
                self@.accepted_refs,
            );
        }
        let asked = match path_and_query {
            Some(p) => p,
            None => "/",
        };
        match sanitize_path_for_container(
            asked,
            self.container_id.as_str(),
            self.accepted_refs.as_slice(),
        ) {
            Ok(path) => route_uri(build_docker_uri(path.as_str())),
            Err(e) => refuse(&e),
        }
    }
}

/// Where a request goes whose path may pass.
pub fn route_uri(uri: Result<String, UriError>) -> (out: Route)
    ensures
        out@ == uri_route(
            match uri {
                Ok(u) => Ok(u@),
                Err(e) => Err(e.message@),
            },
        ),
{
    match uri {
        Ok(uri) => Route::Forward { uri },
        Err(e) => Route::Answer(Reply { status: 400, message: e.message }),
    }
}

/// What a client is told whose path may not pass.
pub fn refuse(e: &PathError) -> (out: Route)
    ensures
        out@ == (RouteView::Answer { status: 403, message: e@.message() }),
{
    Route::Answer(Reply { status: 403, message: e.message() })
}

/// What a client is told whose request cannot be written out again.
pub fn invalid_request(error: &str) -> (out: Reply)
    ensures
        out.status == 400,
        out.message@ == "invalid request: "@ + error@,
{
    Reply { status: 400, message: "invalid request: ".to_string().concat(error) }
}

/// What a client is told when the daemon does not answer.
pub fn backend_failed(error: &str) -> (out: Reply)
    ensures
        out.status == 502,
        out.message@ == "docker backend request failed: "@ + error@,
{
    Reply { status: 502, message: "docker backend request failed: ".to_string().concat(error) }
}

/// Law: a request for the container by any of its references goes to the
/// container, with the rest of the path and the query as they were.
pub proof fn every_reference_is_served(
    target: TargetView,
    container_ref: Seq<char>,
    name: Seq<char>,
    r: Seq<char>,
    suffix: Seq<char>,
    query: Option<Seq<char>>,
)
    requires
        forall|x: Seq<char>| #[trigger]
            target.accepted_refs.contains(x) <==> is_reference(
                container_ref,
                target.container_id,
                name,
                x,
            ),
        is_reference(container_ref, target.container_id, name, r),
        lacks(r, '/'),
        lacks(r, '?'),
        lacks(suffix, '?'),
    ensures
        passing(target, own_path(r, suffix, query)) == Some(
            own_path(target.container_id, suffix, query),
        ),
        routed(target, Some(own_path(r, suffix, query))) == uri_route(
            uri_reading(docker_address(own_path(target.container_id, suffix, query))),
        ),
{
    assert(target.accepted_refs.contains(r));
    own_references_are_accepted(r, target.container_id, target.accepted_refs);
    container_request_is_rewritten_or_refused(
        r,
        suffix,
        query,
        target.container_id,
        target.accepted_refs,
    );
}

/// Law: a request for a container by anything but the mapped container's own
/// references and the beginnings of its id is forbidden, and the client is
/// told why.
pub proof fn other_containers_are_forbidden(
    target: TargetView,
    container_ref: Seq<char>,
    name: Seq<char>,
    other: Seq<char>,
    suffix: Seq<char>,
    query: Option<Seq<char>>,
)
    requires
        forall|x: Seq<char>| #[trigger]
            target.accepted_refs.contains(x) <==> is_reference(
                container_ref,
                target.container_id,
                name,
                x,
            ),
        !is_reference(container_ref, target.container_id, name, other),
        !starts(target.container_id, other),
        lacks(other, '/'),
        lacks(other, '?'),
        lacks(suffix, '?'),
    ensures
        routed(target, Some(own_path(other, suffix, query))) == (RouteView::Answer {
            status: 403,
            message: "requested container does not match mapped container"@,
        }),
{
    container_request_is_rewritten_or_refused(
        other,
        suffix,
        query,
        target.container_id,
        target.accepted_refs,
    );
}

/// Law: every request is forwarded, forbidden or a bad request, and what is
/// forbidden is what may not pass.
pub proof fn refusals_are_forbidden(target: TargetView, asked: Seq<char>)
    ensures
        match routed(target, Some(asked)) {
            RouteView::Forward { uri } => passing(target, asked) is Some,
            RouteView::Answer { status, message } => {
                &&& status == 403 || status == 400
                &&& status == 403 <==> passing(target, asked) is None
            },
        },
{
}

/// Law: a request is forwarded to what its path reads as below `http://docker`
/// where it may pass, answered with 400 and the reason where that is no URI,
/// and answered with 403 and the reason where it may not pass. A request
/// without a path is one for `/`.
pub proof fn requests_are_forwarded_or_answered(target: TargetView, asked: Seq<char>)
    ensures
        routed(target, None) == routed(target, Some("/"@)),
        match sanitized(asked, target.container_id, target.accepted_refs) {
            Ok(path) => match uri_reading("http://docker"@ + path) {
                Ok(uri) => routed(target, Some(asked)) == (RouteView::Forward { uri }),
                Err(message) => routed(target, Some(asked)) == (RouteView::Answer {
                    status: 400,
                    message,
                }),
            },
            Err(PathErrorView::UnsupportedContainerPath) => routed(target, Some(asked)) == (
            RouteView::Answer { status: 403, message: "unsupported container path"@ }),
            Err(PathErrorView::ContainerMismatch) => routed(target, Some(asked)) == (
            RouteView::Answer {
                status: 403,
                message: "requested container does not match mapped container"@,
            }),
            Err(PathErrorView::PathNotAllowed { path }) => routed(target, Some(asked)) == (
            RouteView::Answer {
                status: 403,
                message: "path not allowed for mapped docker endpoint: "@ + path,
            }),
        },
        passing(target, asked) == (match sanitized(
            asked,
            target.container_id,
            target.accepted_refs,
        ) {
            Ok(path) => Some(path),
            Err(_) => None,
        }),
        asked_for(None) == "/"@,
{
}

/// Law: the references of a container are what it is mapped by, its id, the
/// first twelve characters of its id, and its name without slashes in front.
pub proof fn references_of_a_container(
    container_ref: Seq<char>,
    id: Seq<char>,
    slashes: nat,
    name: Seq<char>,
    r: Seq<char>,
)
    requires
        name.len() > 0 ==> name[0] != '/',
    ensures
        is_reference(container_ref, id, Seq::new(slashes, |i: int| '/') + name, r) <==> {
            ||| r == container_ref
            ||| r == id
            ||| r.is_prefix_of(id) && r.len() == 12
            ||| r == name
        },
{
    let told = Seq::new(slashes, |i: int| '/') + name;
    a_run_in_front_is_skipped(told, '/');
    let bare = skip_char(told, '/');
    let n = told.len() - bare.len();
    if n > slashes {
        assert(told[slashes as int] == name[0]);
    }
    if n < slashes {
        assert(bare[0] == told[n]);
    }
    assert(bare =~= name);
    a_shortened_text_is_its_beginning(id, 12);
    if r.is_prefix_of(id) && r.len() == 12 {
        assert(at_most(id, 12) =~= r);
    }
}

/// Law: references are in order where each comes before those behind it.
pub proof fn references_are_in_order(refs: Seq<Seq<char>>)
    ensures
        strictly_ordered(refs) <==> forall|i: int, j: int|
            0 <= i < j < refs.len() ==> precedes(#[trigger] refs[i], #[trigger] refs[j]),
{
}

/// Law: routes are seen as they are.
pub proof fn routes_are_seen_as_they_are(uri: String, reply: Reply)
    ensures
        (Route::Forward { uri })@ == (RouteView::Forward { uri: uri@ }),
        Route::Answer(reply)@ == (RouteView::Answer {
            status: reply.status,
            message: reply.message@,
        }),
{
}

/// Law: what a client is told is the failure that there was, with its status.
pub proof fn clients_are_told_of_failures(error: &str, invalid: Reply, failed: Reply)
    requires
        call_ensures(invalid_request, (error,), invalid),
        call_ensures(backend_failed, (error,), failed),
    ensures
        invalid.status == 400,
        invalid.message@ == "invalid request: "@ + error@,
        failed.status == 502,
        failed.message@ == "docker backend request failed: "@ + error@,
{
}

/// Law: a container that is mapped is reached by what it is mapped by, its id,
/// its short id and its name, and by nothing else but the beginnings of its id.
pub proof fn a_resolved_target_has_its_own_references(
    backend: DockerBackend,
    container_ref: &str,
    inspect: ContainerInspect,
    target: ProxyTarget,
    r: Seq<char>,
)
    requires
        call_ensures(ProxyTarget::resolve, (backend, container_ref, inspect), target),
    ensures
        target@.backend == backend@,
        target@.container_id == inspect.id@,
        inspect.name@.len() > 0 && inspect.name@[0] != '/' ==> (target@.accepted_refs.contains(r)
            <==> {
            ||| r == container_ref@
            ||| r == inspect.id@
            ||| r.is_prefix_of(inspect.id@) && r.len() == 12
            ||| r == inspect.name@
        }),
        inspect.name@.len() > 1 && inspect.name@[0] == '/' && inspect.name@[1] != '/' ==> (
        target@.accepted_refs.contains(r) <==> {
            ||| r == container_ref@
            ||| r == inspect.id@
            ||| r.is_prefix_of(inspect.id@) && r.len() == 12
            ||| r == inspect.name@.skip(1)
        }),
{
    let name = inspect.name@;
    if name.len() > 0 && name[0] != '/' {
        references_of_a_container(container_ref@, inspect.id@, 0, name, r);
        assert(Seq::new(0, |i: int| '/') + name =~= name);
    }
    if name.len() > 1 && name[0] == '/' && name[1] != '/' {
        references_of_a_container(container_ref@, inspect.id@, 1, name.skip(1), r);
        assert(Seq::new(1, |i: int| '/') + name.skip(1) =~= name);
    }
}

/// Law: a request is answered with 403 exactly where its path may not pass, and
/// a request that is forwarded goes to what its own path reads as.
pub proof fn requests_go_where_their_path_says(
    target: &ProxyTarget,
    asked: &str,
    route: Route,
)
    requires
        call_ensures(ProxyTarget::route, (target, Some(asked)), route),
    ensures
        match sanitized(asked@, target@.container_id, target@.accepted_refs) {
            Ok(path) => match uri_reading("http://docker"@ + path) {
                Ok(uri) => route matches Route::Forward { uri: sent } && sent@ == uri,
                Err(message) => route matches Route::Answer(reply) && reply.status == 400
                    && reply.message@ == message,
            },
            Err(_) => route matches Route::Answer(reply) && reply.status == 403,
        },
{
    requests_are_forwarded_or_answered(target@, asked@);
}

} // verus!
