//! Which addresses the SSH listeners are bound to.

use vstd::prelude::*;

use crate::config::{mappings_view, ConfigFile, MappingSpec, MappingView};
use crate::text::{
    a_run_at_the_end_is_dropped, a_run_in_front_is_skipped, decimal, decimal_text, drop_char,
    is_white, same_text, skip_char, trim, trim_end_char, trim_start_char, trimmed,
    trimming_takes_white_space_off,
};

verus! {

/// A listen host as it is looked up: without white space around it and
/// without the brackets of an IPv6 literal.
pub open spec fn bare_host(host: Seq<char>) -> Seq<char> {
    drop_char(skip_char(trimmed(host), '['), ']')
}

/// The host stands for every address of the machine, old and new.
pub open spec fn is_wildcard(host: Seq<char>) -> bool {
    host == "0.0.0.0"@ || host == "::"@
}

/// The host without white space around it and without brackets.
pub fn normalize_listen_host(listen_host: &str) -> (out: String)
    ensures
        out@ == bare_host(listen_host@),
{
    let inner = trim(listen_host);
    let opened = trim_start_char(inner.as_str(), '[');
    trim_end_char(opened.as_str(), ']')
}

/// Tells whether the host stands for every address of the machine.
pub fn is_dual_stack_wildcard(listen_host: &str) -> (r: bool)
    ensures
        r == is_wildcard(listen_host@),
{
    same_text(listen_host, "0.0.0.0") || same_text(listen_host, "::")
}

/// An IP address, written out.
#[derive(Debug, Clone)]
pub enum HostAddr {
    V4(String),
    V6(String),
}

/// A [`HostAddr`] with its text as a character sequence.
pub enum HostView {
    V4(Seq<char>),
    V6(Seq<char>),
}

impl View for HostAddr {
    type V = HostView;

    open spec fn view(&self) -> HostView {
        match *self {
            HostAddr::V4(ip) => HostView::V4(ip@),
            HostAddr::V6(ip) => HostView::V6(ip@),
        }
    }
}

/// A listener to be bound.
#[derive(Debug, Clone)]
pub struct ListenerPlan {
    /// How the listener is shown to the user.
    pub label: String,
    pub address: HostAddr,
    pub port: u16,
    /// Whether an IPv6 socket leaves IPv4 alone.
    pub v6_only: bool,
}

/// A [`ListenerPlan`] with its texts as character sequences.
pub struct ListenerView {
    pub label: Seq<char>,
    pub address: HostView,
    pub port: u16,
    pub v6_only: bool,
}

impl View for ListenerPlan {
    type V = ListenerView;

    open spec fn view(&self) -> ListenerView {
        ListenerView {
            label: self.label@,
            address: self.address@,
            port: self.port,
            v6_only: self.v6_only,
        }
    }
}

/// What a list of listeners holds.
pub open spec fn listeners_view(v: Seq<ListenerPlan>) -> Seq<ListenerView> {
    v.map_values(|l: ListenerPlan| l@)
}

/// How an address with a port is shown: an IPv6 address stands in brackets.
pub open spec fn shown(address: HostView, port: u16) -> Seq<char> {
    match address {
        HostView::V4(ip) => ip + ":"@ + decimal(port as int),
        HostView::V6(ip) => "["@ + ip + "]:"@ + decimal(port as int),
    }
}

/// The listener for one address. An IPv6 listener leaves IPv4 alone.
pub open spec fn listener_at(address: HostView, port: u16) -> ListenerView {
    ListenerView {
        label: shown(address, port),
        address,
        port,
        v6_only: address is V6,
    }
}

/// The listeners for a host, given the address that its bare form reads as. A
/// host for every address gets one listener for IPv4 and one for IPv6; a host
/// that is no address gets none.
pub open spec fn listeners_for(
    host: Seq<char>,
    port: u16,
    parsed: Option<HostView>,
) -> Option<Seq<ListenerView>> {
    if is_wildcard(bare_host(host)) {
        Some(
            seq![
                listener_at(HostView::V4("0.0.0.0"@), port),
                listener_at(HostView::V6("::"@), port),
            ],
        )
    } else {
        match parsed {
            Some(address) => Some(seq![listener_at(address, port)]),
            None => None,
        }
    }
}

/// A listen host that is no IP address.
#[derive(Debug, Clone)]
pub struct ListenError {
    pub listen_host: String,
}

impl ListenError {
    /// What the user is told.
    pub fn message(&self) -> (out: String)
        ensures
            out@ == "invalid listen_host: "@ + self.listen_host@,
    {
        "invalid listen_host: ".to_string().concat(self.listen_host.as_str())
    }
}

/// How an address with a port is shown.
pub fn display_socket_addr(address: &HostAddr, port: u16) -> (out: String)
    ensures
        out@ == shown(address@, port),
{
    let number = decimal_text(port as u64);
    match address {
        HostAddr::V4(ip) => ip.clone().concat(":").concat(number.as_str()),
        HostAddr::V6(ip) => "[".to_string().concat(ip.as_str()).concat("]:").concat(
            number.as_str(),
        ),
    }
}

/// The listener for one address.
fn plan_listener(address: HostAddr, port: u16) -> (out: ListenerPlan)
    ensures
        out@ == listener_at(address@, port),
{
    let label = display_socket_addr(&address, port);
    let v6_only = match &address {
        HostAddr::V4(_) => false,
        HostAddr::V6(_) => true,
    };
    ListenerPlan { label, address, port, v6_only }
}

/// The address that a value of the type reads as, if any.
pub open spec fn parsed_view(parsed: Option<HostAddr>) -> Option<HostView> {
    match parsed {
        Some(a) => Some(a@),
        None => None,
    }
}

/// The same address once more.
fn copy_address(a: &HostAddr) -> (out: HostAddr)
    ensures
        out@ == a@,
{
    match a {
        HostAddr::V4(ip) => HostAddr::V4(ip.clone()),
        HostAddr::V6(ip) => HostAddr::V6(ip.clone()),
    }
}

/// The listeners for a host and a port, given the address that the host's bare
/// form reads as.
pub fn build_listeners(listen_host: &str, port: u16, parsed: &Option<HostAddr>) -> (r: Result<
    Vec<ListenerPlan>,
    ListenError,
>)
    ensures
        match r {
            Ok(out) => listeners_for(listen_host@, port, parsed_view(*parsed)) == Some(
                listeners_view(out@),
            ),
            Err(e) => listeners_for(listen_host@, port, parsed_view(*parsed)) is None
                && e.listen_host@ == listen_host@,
        },
{
    let normalized = normalize_listen_host(listen_host);
    let mut out: Vec<ListenerPlan> = Vec::new();
    if is_dual_stack_wildcard(normalized.as_str()) {
        out.push(plan_listener(HostAddr::V4("0.0.0.0".to_string()), port));
        out.push(plan_listener(HostAddr::V6("::".to_string()), port));
        assert(listeners_view(out@) =~= seq![
            listener_at(HostView::V4("0.0.0.0"@), port),
            listener_at(HostView::V6("::"@), port),
        ]);
        return Ok(out);
    }
    match parsed {
        Some(address) => {
            let l = plan_listener(copy_address(address), port);
            out.push(l);
            assert(listeners_view(out@) =~= seq![listener_at(address@, port)]);
            Ok(out)
        },
        None => Err(ListenError { listen_host: listen_host.to_string() }),
    }
}

/// A listener and the container that it leads to.
#[derive(Debug, Clone)]
pub struct Endpoint {
    pub listener: ListenerPlan,
    pub mapping: MappingSpec,
}

/// An [`Endpoint`] with its texts as character sequences.
pub struct EndpointView {
    pub listener: ListenerView,
    pub mapping: MappingView,
}

impl View for Endpoint {
    type V = EndpointView;

    open spec fn view(&self) -> EndpointView {
        EndpointView { listener: self.listener@, mapping: self.mapping@ }
    }
}

/// What a list of endpoints holds.
pub open spec fn endpoints_view(v: Seq<Endpoint>) -> Seq<EndpointView> {
    v.map_values(|e: Endpoint| e@)
}

impl Endpoint {
    /// What the user is told when the listener is up.
    pub fn announcement(&self) -> (out: String)
        ensures
            out@ == "listening on "@ + self@.listener.label + " -> "@ + self@.mapping.container,
    {
        "listening on ".to_string().concat(self.listener.label.as_str()).concat(" -> ").concat(
            self.mapping.container.as_str(),
        )
    }
}

/// The endpoints of one mapping.
pub open spec fn endpoints_of(listeners: Seq<ListenerView>, mapping: MappingView) -> Seq<
    EndpointView,
> {
    listeners.map_values(|l: ListenerView| EndpointView { listener: l, mapping })
}

/// The endpoints of all mappings, in their order.
pub open spec fn all_endpoints(
    host: Seq<char>,
    parsed: Option<HostView>,
    ms: Seq<MappingView>,
) -> Option<Seq<EndpointView>>
    decreases ms.len(),
{
    if ms.len() == 0 {
        Some(Seq::empty())
    } else {
        match (
            all_endpoints(host, parsed, ms.drop_last()),
            listeners_for(host, ms.last().port, parsed),
        ) {
            (Some(rest), Some(listeners)) => Some(rest + endpoints_of(listeners, ms.last())),
            _ => None,
        }
    }
}

/// Where one mapping cannot be served, none of those after it can.
proof fn lemma_all_endpoints_none(
    host: Seq<char>,
    parsed: Option<HostView>,
    ms: Seq<MappingView>,
    k: int,
)
    requires
        0 <= k < ms.len(),
        listeners_for(host, ms[k].port, parsed) is None,
    ensures
        all_endpoints(host, parsed, ms) is None,
    decreases ms.len(),
{
    if k < ms.len() - 1 {
        lemma_all_endpoints_none(host, parsed, ms.drop_last(), k);
    }
}

/// The endpoints of all mappings, given the address that the listen host's
/// bare form reads as.
pub fn plan_endpoints(cfg: &ConfigFile, parsed: &Option<HostAddr>) -> (r: Result<
    Vec<Endpoint>,
    ListenError,
>)
    ensures
        match r {
            Ok(out) => all_endpoints(cfg@.listen_host, parsed_view(*parsed), cfg@.mappings) == Some(
                endpoints_view(out@),
            ),
            Err(e) => all_endpoints(cfg@.listen_host, parsed_view(*parsed), cfg@.mappings) is None
                && e.listen_host@ == cfg@.listen_host,
        },
{
    let ghost ms = cfg@.mappings;
    let ghost pv = parsed_view(*parsed);
    let mut out: Vec<Endpoint> = Vec::new();
    let mut i: usize = 0;
    assert(endpoints_view(out@) =~= Seq::empty());
    while i < cfg.mappings.len()
        invariant
            i <= cfg.mappings@.len(),
            ms == mappings_view(cfg.mappings@),
            ms == cfg@.mappings,
            pv == parsed_view(*parsed),
            all_endpoints(cfg@.listen_host, pv, ms.take(i as int)) == Some(endpoints_view(out@)),
        decreases cfg.mappings@.len() - i,
    {
        let ghost done = endpoints_view(out@);
        let ghost mv = cfg.mappings@[i as int]@;
        assert(ms.take(i + 1).drop_last() =~= ms.take(i as int));
        assert(ms.take(i + 1).last() == mv);
        assert(ms[i as int] == mv);
        let listeners = match build_listeners(
            cfg.listen_host.as_str(),
            cfg.mappings[i].port,
            parsed,
        ) {
            Ok(l) => l,
            Err(e) => {
                proof {
                    lemma_all_endpoints_none(cfg@.listen_host, pv, ms, i as int);
                }
                return Err(e);
            },
        };
        let ghost lv = listeners_view(listeners@);
        let mut rest = listeners;
        let mut added: Vec<Endpoint> = Vec::new();
        assert(endpoints_view(added@) =~= Seq::empty());
        while rest.len() > 0
            invariant
                i < cfg.mappings@.len(),
                mv == cfg.mappings@[i as int]@,
                rest@.len() + added@.len() == lv.len(),
                listeners_view(rest@) == lv.skip(added@.len() as int),
                endpoints_view(added@) == endpoints_of(lv.take(added@.len() as int), mv),
            decreases rest@.len(),
        {
            let ghost n = added@.len() as int;
            let ghost before = endpoints_view(added@);
            assert(listeners_view(rest@)[0] == lv[n]);
            let ghost rest0 = rest@;
            let listener = rest.remove(0);
            let ghost l0 = listener@;
            assert(l0 == lv[n]);
            let e = Endpoint { listener, mapping: cfg.mappings[i].copy() };
            let ghost ev = e@;
            added.push(e);
            assert(endpoints_view(added@) =~= before.push(ev));
            assert(endpoints_of(lv.take(n + 1), mv) =~= endpoints_of(lv.take(n), mv).push(ev));
            assert forall|j: int| 0 <= j < rest@.len() implies listeners_view(rest@)[j] == lv.skip(
                n + 1,
            )[j] by {
                assert(rest@[j] == rest0[j + 1]);
                assert(listeners_view(rest0)[j + 1] == lv.skip(n)[j + 1]);
            }
            assert(listeners_view(rest@) =~= lv.skip(n + 1));
        }
        assert(lv.take(added@.len() as int) =~= lv);
        let ghost av = endpoints_view(added@);
        out.append(&mut added);
        assert(endpoints_view(out@) =~= done + av);
        i += 1;
    }
    assert(ms.take(i as int) =~= ms);
    Ok(out)
}

/// Law: every mapping is served, on its own port, and nothing else is.
pub proof fn endpoints_serve_the_mappings(
    host: Seq<char>,
    parsed: Option<HostView>,
    ms: Seq<MappingView>,
)
    ensures
        all_endpoints(host, parsed, ms) matches Some(es) ==> {
            &&& forall|i: int|
                0 <= i < ms.len() ==> exists|j: int|
                    0 <= j < es.len() && (#[trigger] es[j]).mapping == #[trigger] ms[i]
            &&& forall|j: int|
                0 <= j < es.len() ==> {
                    &&& (#[trigger] es[j]).listener.port == es[j].mapping.port
                    &&& es[j].listener.label == shown(
                        es[j].listener.address,
                        es[j].listener.port,
                    )
                    &&& ms.contains(es[j].mapping)
                }
        },
    decreases ms.len(),
{
    if ms.len() > 0 {
        let init = ms.drop_last();
        endpoints_serve_the_mappings(host, parsed, init);
        if let Some(es) = all_endpoints(host, parsed, ms) {
            let rest = all_endpoints(host, parsed, init).unwrap();
            let listeners = listeners_for(host, ms.last().port, parsed).unwrap();
            let added = endpoints_of(listeners, ms.last());
            assert(es == rest + added);
            assert forall|i: int| 0 <= i < ms.len() implies exists|j: int|
                0 <= j < es.len() && (#[trigger] es[j]).mapping == #[trigger] ms[i] by {
                if i < init.len() {
                    assert(init[i] == ms[i]);
                    let j = choose|j: int| 0 <= j < rest.len() && (#[trigger] rest[j]).mapping == init[i];
                    assert(es[j] == rest[j]);
                } else {
                    assert(es[rest.len() as int] == added[0]);
                    assert(added[0].mapping == ms[i]);
                }
            }
            assert forall|j: int| 0 <= j < es.len() implies {
                &&& (#[trigger] es[j]).listener.port == es[j].mapping.port
                &&& es[j].listener.label == shown(es[j].listener.address, es[j].listener.port)
                &&& ms.contains(es[j].mapping)
            } by {
                if j < rest.len() {
                    assert(es[j] == rest[j]);
                    let k = choose|k: int| 0 <= k < init.len() && init[k] == rest[j].mapping;
                    assert(ms[k] == es[j].mapping);
                } else {
                    assert(es[j] == added[j - rest.len()]);
                    assert(ms[ms.len() - 1] == es[j].mapping);
                }
            }
        }
    }
}

/// Law: a host for every address gets an IPv4 and an IPv6 listener on the same
/// port; any other host that is an address gets one.
pub proof fn wildcard_listens_on_both(host: Seq<char>, port: u16, parsed: Option<HostView>)
    ensures
        match listeners_for(host, port, parsed) {
            Some(ls) => {
                &&& ls.len() == if is_wildcard(bare_host(host)) {
                    2int
                } else {
                    1int
                }
                &&& is_wildcard(bare_host(host)) ==> ls[0].address is V4 && ls[1].address is V6
                    && ls[1].v6_only
                &&& forall|i: int| 0 <= i < ls.len() ==> (#[trigger] ls[i]).port == port
            },
            None => !is_wildcard(bare_host(host)) && parsed is None,
        },
{
}

/// Law: these two hosts, and no other, stand for every address of the machine.
pub proof fn two_hosts_stand_for_every_address(host: Seq<char>)
    ensures
        is_wildcard(host) <==> host == "0.0.0.0"@ || host == "::"@,
{
}

/// Law: a listen host is looked up without white space around it and without
/// the brackets around an address.
pub proof fn a_listen_host_is_looked_up_bare(
    front: Seq<char>,
    opening: nat,
    host: Seq<char>,
    closing: nat,
    back: Seq<char>,
)
    requires
        forall|i: int| 0 <= i < front.len() ==> is_white(#[trigger] front[i]),
        forall|i: int| 0 <= i < back.len() ==> is_white(#[trigger] back[i]),
        host.len() > 0,
        host[0] != '[' && host.last() != ']',
        opening > 0 || !is_white(host[0]),
        closing > 0 || !is_white(host.last()),
    ensures
        bare_host(
            front + (Seq::new(opening, |i: int| '[') + host + Seq::new(closing, |i: int| ']'))
                + back,
        ) == host,
{
    let a = Seq::new(opening, |i: int| '[');
    let b = Seq::new(closing, |i: int| ']');
    let core = a + host + b;
    assert(core[0] == '[' || core[0] == host[0]);
    assert(core.last() == ']' || core.last() == host.last());
    trimming_takes_white_space_off(front, core, back);
    a_run_in_front_is_skipped(core, '[');
    let inner = skip_char(core, '[');
    let n = core.len() - inner.len();
    if n > opening {
        assert(core[opening as int] == host[0]);
    }
    if n < opening {
        assert(inner[0] == core[n]);
    }
    assert(inner =~= host + b);
    a_run_at_the_end_is_dropped(inner, ']');
    let out = drop_char(inner, ']');
    if out.len() > host.len() {
        assert(out.last() == inner[out.len() - 1]);
    }
    if out.len() < host.len() {
        assert(inner[host.len() - 1] == host.last());
    }
    assert(out =~= host);
}

/// Law: a host that is neither `0.0.0.0` nor `::` and reads as an address is
/// bound once, at exactly that address and the port given; those two are bound
/// once for IPv4 and once for IPv6; any other host is not bound.
pub proof fn a_host_is_bound_where_it_says(
    host: Seq<char>,
    port: u16,
    parsed: Option<HostView>,
)
    ensures
        bare_host(host) != "0.0.0.0"@ && bare_host(host) != "::"@ ==> {
            &&& parsed is None ==> listeners_for(host, port, parsed) is None
            &&& parsed matches Some(address) ==> (listeners_for(host, port, parsed) matches Some(ls)
                && {
                &&& ls.len() == 1
                &&& ls[0].address == address
                &&& ls[0].port == port
                &&& ls[0].v6_only == (address is V6)
            })
        },
        bare_host(host) == "0.0.0.0"@ || bare_host(host) == "::"@ ==> (listeners_for(
            host,
            port,
            parsed,
        ) matches Some(ls) && {
            &&& ls.len() == 2
            &&& ls[0].address == HostView::V4("0.0.0.0"@)
            &&& ls[1].address == HostView::V6("::"@)
            &&& ls[0].port == port && ls[1].port == port
            &&& !ls[0].v6_only && ls[1].v6_only
        }),
{
}

/// Law: a listener is shown by its address, in brackets where it is an IPv6
/// address, a colon and its port.
pub proof fn listeners_are_shown_by_address_and_port(ip: Seq<char>, port: u16)
    ensures
        listener_at(HostView::V4(ip), port).label == ip + ":"@ + decimal(port as int),
        listener_at(HostView::V6(ip), port).label == "["@ + ip + "]:"@ + decimal(port as int),
        shown(HostView::V4(ip), port) == ip + ":"@ + decimal(port as int),
        shown(HostView::V6(ip), port) == "["@ + ip + "]:"@ + decimal(port as int),
{
}

/// Law: one more mapping adds its own listeners behind those of the others, in
/// their order, and nothing else.
pub proof fn a_mapping_adds_its_own_listeners(
    host: Seq<char>,
    parsed: Option<HostView>,
    ms: Seq<MappingView>,
    m: MappingView,
)
    ensures
        all_endpoints(host, parsed, Seq::empty()) == Some(Seq::<EndpointView>::empty()),
        match (all_endpoints(host, parsed, ms), listeners_for(host, m.port, parsed)) {
            (Some(es), Some(ls)) => all_endpoints(host, parsed, ms.push(m)) matches Some(more) && {
                &&& more.len() == es.len() + ls.len()
                &&& forall|i: int| 0 <= i < es.len() ==> #[trigger] more[i] == es[i]
                &&& forall|j: int|
                    es.len() <= j < more.len() ==> (#[trigger] more[j]).listener == ls[j - es.len()]
                        && more[j].mapping == m
            },
            _ => all_endpoints(host, parsed, ms.push(m)) is None,
        },
{
    assert(ms.push(m).drop_last() =~= ms);
}

/// Law: listeners and endpoints are seen field by field, and lists of them one
/// for one.
pub proof fn listeners_are_seen_as_they_are(
    l: ListenerPlan,
    e: Endpoint,
    ls: Seq<ListenerPlan>,
    es: Seq<Endpoint>,
    ip: String,
)
    ensures
        HostAddr::V4(ip)@ == HostView::V4(ip@),
        HostAddr::V6(ip)@ == HostView::V6(ip@),
        parsed_view(None) is None,
        parsed_view(Some(l.address)) == Some(l.address@),
        l@.label == l.label@,
        l@.address == l.address@,
        l@.port == l.port,
        l@.v6_only == l.v6_only,
        e@.listener == e.listener@,
        e@.mapping == e.mapping@,
        listeners_view(ls).len() == ls.len(),
        forall|i: int| 0 <= i < ls.len() ==> #[trigger] listeners_view(ls)[i] == ls[i]@,
        endpoints_view(es).len() == es.len(),
        forall|i: int| 0 <= i < es.len() ==> #[trigger] endpoints_view(es)[i] == es[i]@,
{
}

/// Law: the listeners that are built are those of the host: one at exactly the
/// address that it reads as, or one for each family where it is `0.0.0.0` or
/// `::`; and there are none, but an error that names the host, where it reads
/// as no address.
pub proof fn built_listeners_are_those_of_the_host(
    host: &str,
    port: u16,
    parsed: &Option<HostAddr>,
    bare: String,
    r: Result<Vec<ListenerPlan>, ListenError>,
)
    requires
        call_ensures(normalize_listen_host, (host,), bare),
        call_ensures(build_listeners, (host, port, parsed), r),
    ensures
        bare@ == "0.0.0.0"@ || bare@ == "::"@ ==> (r matches Ok(ls) && {
            &&& ls@.len() == 2
            &&& ls@[0].address@ == HostView::V4("0.0.0.0"@)
            &&& ls@[1].address@ == HostView::V6("::"@)
            &&& ls@[0].port == port && ls@[1].port == port
            &&& !ls@[0].v6_only && ls@[1].v6_only
        }),
        bare@ != "0.0.0.0"@ && bare@ != "::"@ ==> {
            &&& parsed matches Some(address) ==> (r matches Ok(ls) && {
                &&& ls@.len() == 1
                &&& ls@[0].address@ == address@
                &&& ls@[0].port == port
                &&& ls@[0].v6_only == (address is V6)
            })
            &&& parsed is None ==> (r matches Err(e) && e.listen_host@ == host@)
        },
{
    a_host_is_bound_where_it_says(host@, port, parsed_view(*parsed));
    if let Ok(ls) = r {
        let v = listeners_view(ls@);
        assert(v.len() == ls@.len());
        if ls@.len() > 0 {
            assert(v[0] == ls@[0]@);
        }
        if ls@.len() > 1 {
            assert(v[1] == ls@[1]@);
        }
    }
}

/// Law: these two hosts, and no other, are told to stand for every address.
pub proof fn two_hosts_are_wildcards(host: &str, wildcard: bool)
    requires
        call_ensures(is_dual_stack_wildcard, (host,), wildcard),
    ensures
        wildcard <==> host@ == "0.0.0.0"@ || host@ == "::"@,
{
}

/// Law: a listener that is up is announced with its container, and a host that
/// is no address is told.
pub proof fn listeners_are_announced(
    endpoint: &Endpoint,
    announced: String,
    e: &ListenError,
    told: String,
)
    requires
        call_ensures(Endpoint::announcement, (endpoint,), announced),
        call_ensures(ListenError::message, (e,), told),
    ensures
        announced@ == "listening on "@ + endpoint.listener.label@ + " -> "@
            + endpoint.mapping.container@,
        told@ == "invalid listen_host: "@ + e.listen_host@,
{
}

/// Law: the endpoints that are planned are those of all mappings, each with its
/// own port and container.
pub proof fn planned_endpoints_are_those_of_the_mappings(
    cfg: &ConfigFile,
    parsed: &Option<HostAddr>,
    r: Result<Vec<Endpoint>, ListenError>,
)
    requires
        call_ensures(plan_endpoints, (cfg, parsed), r),
    ensures
        r matches Ok(es) ==> {
            &&& forall|j: int|
                0 <= j < es@.len() ==> (#[trigger] es@[j]).listener.port == es@[j].mapping.port
            &&& forall|i: int|
                0 <= i < cfg.mappings@.len() ==> exists|j: int|
                    0 <= j < es@.len() && (#[trigger] es@[j]).mapping@ == (
                    #[trigger] cfg.mappings@[i])@
        },
        r matches Err(e) ==> e.listen_host@ == cfg.listen_host@,
{
    let pv = parsed_view(*parsed);
    let ms = mappings_view(cfg.mappings@);
    endpoints_serve_the_mappings(cfg@.listen_host, pv, ms);
    if let Ok(es) = r {
        let v = endpoints_view(es@);
        assert(v.len() == es@.len());
        assert forall|j: int| 0 <= j < es@.len() implies (#[trigger] es@[j]).listener.port
            == es@[j].mapping.port by {
            assert(v[j] == es@[j]@);
        }
        assert forall|i: int| 0 <= i < cfg.mappings@.len() implies exists|j: int|
            0 <= j < es@.len() && (#[trigger] es@[j]).mapping@ == (
            #[trigger] cfg.mappings@[i])@ by {
            assert(ms[i] == cfg.mappings@[i]@);
            let j = choose|j: int| 0 <= j < v.len() && (#[trigger] v[j]).mapping == ms[i];
            assert(v[j] == es@[j]@);
            assert(es@[j].mapping@ == cfg.mappings@[i]@);
        }
    }
}

/// Law: an address is shown with its port, in brackets where it is IPv6.
pub proof fn addresses_are_shown_with_their_port(ip: String, port: u16, four: String, six: String)
    requires
        call_ensures(display_socket_addr, (&HostAddr::V4(ip), port), four),
        call_ensures(display_socket_addr, (&HostAddr::V6(ip), port), six),
    ensures
        four@ == ip@ + ":"@ + decimal(port as int),
        six@ == "["@ + ip@ + "]:"@ + decimal(port as int),
{
}

} // verus!
