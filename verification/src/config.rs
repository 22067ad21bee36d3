//! The configuration: where it lies, what it holds by default, and how the
//! mappings of ports to containers in it are kept.

use vstd::prelude::*;

use crate::files::{join_path, joined, names_are_joined_by_one_slash};
use crate::outside::{parent_of, parent_path};
use crate::text::{copy_text, text_of};

verus! {

/// A port that leads to a container.
#[derive(Debug, Clone)]
pub struct MappingSpec {
    pub port: u16,
    /// Container name or id.
    pub container: String,
    /// Optional shell binary inside the container, e.g. /bin/bash.
    pub shell: Option<String>,
}

/// A [`MappingSpec`] with its texts as character sequences.
pub struct MappingView {
    pub port: u16,
    pub container: Seq<char>,
    pub shell: Option<Seq<char>>,
}

impl View for MappingSpec {
    type V = MappingView;

    open spec fn view(&self) -> MappingView {
        MappingView { port: self.port, container: self.container@, shell: text_of(self.shell) }
    }
}

impl MappingSpec {
    /// The same mapping once more.
    pub fn copy(&self) -> (out: MappingSpec)
        ensures
            out@ == self@,
    {
        MappingSpec {
            port: self.port,
            container: self.container.clone(),
            shell: copy_text(&self.shell),
        }
    }
}

/// What a list of mappings holds.
pub open spec fn mappings_view(v: Seq<MappingSpec>) -> Seq<MappingView> {
    v.map_values(|m: MappingSpec| m@)
}

/// The contents of the configuration file.
#[derive(Debug, Clone)]
pub struct ConfigFile {
    /// Host/IP to bind SSH listeners to.
    pub listen_host: String,
    /// Docker Unix socket path on the host.
    pub docker_socket: String,
    /// Optional OpenSSH authorized_keys file path. If absent, the server
    /// accepts any key (unsafe).
    pub authorized_keys: Option<String>,
    /// OpenSSH private host key path (ed25519). If missing, auto-generated.
    pub host_key: Option<String>,
    pub mappings: Vec<MappingSpec>,
}

/// A [`ConfigFile`] with its texts as character sequences.
pub struct ConfigView {
    pub listen_host: Seq<char>,
    pub docker_socket: Seq<char>,
    pub authorized_keys: Option<Seq<char>>,
    pub host_key: Option<Seq<char>>,
    pub mappings: Seq<MappingView>,
}

impl View for ConfigFile {
    type V = ConfigView;

    open spec fn view(&self) -> ConfigView {
        ConfigView {
            listen_host: self.listen_host@,
            docker_socket: self.docker_socket@,
            authorized_keys: text_of(self.authorized_keys),
            host_key: text_of(self.host_key),
            mappings: mappings_view(self.mappings@),
        }
    }
}

/// The address that listeners are bound to unless the file says otherwise.
pub fn default_listen_host() -> (out: String)
    ensures
        out@ == "0.0.0.0"@,
{
    "0.0.0.0".to_string()
}

/// The daemon's socket unless the file says otherwise.
pub fn default_docker_socket() -> (out: String)
    ensures
        out@ == "/var/run/docker.sock"@,
{
    "/var/run/docker.sock".to_string()
}

/// `ports` ascend.
pub open spec fn ascending(ms: Seq<MappingView>) -> bool {
    forall|i: int, j: int| 0 <= i <= j < ms.len() ==> (#[trigger] ms[i]).port <= (
    #[trigger] ms[j]).port
}

/// No two mappings have the same port.
pub open spec fn distinct_ports(ms: Seq<MappingView>) -> bool {
    forall|i: int, j: int| 0 <= i < j < ms.len() ==> (#[trigger] ms[i]).port != (
    #[trigger] ms[j]).port
}

/// The mappings of one port, in their order.
pub open spec fn of_port(ms: Seq<MappingView>, port: u16) -> Seq<MappingView>
    decreases ms.len(),
{
    if ms.len() == 0 {
        ms
    } else if ms.last().port == port {
        of_port(ms.drop_last(), port).push(ms.last())
    } else {
        of_port(ms.drop_last(), port)
    }
}

/// The mappings of all ports but one, in their order.
pub open spec fn without_port(ms: Seq<MappingView>, port: u16) -> Seq<MappingView>
    decreases ms.len(),
{
    if ms.len() == 0 {
        ms
    } else if ms.last().port == port {
        without_port(ms.drop_last(), port)
    } else {
        without_port(ms.drop_last(), port).push(ms.last())
    }
}

/// `after` is `before` sorted by port, with mappings of the same port left in
/// their order.
pub open spec fn sorted_from(before: Seq<MappingView>, after: Seq<MappingView>) -> bool {
    &&& ascending(after)
    &&& forall|port: u16| #[trigger] of_port(after, port) == of_port(before, port)
}

/// The place of the first mapping of `port`, or the number of mappings.
pub open spec fn first_with(ms: Seq<MappingView>, port: u16) -> int
    decreases ms.len(),
{
    if ms.len() == 0 || ms[0].port == port {
        0
    } else {
        1 + first_with(ms.skip(1), port)
    }
}

/// A mapping led to another container; its shell stays unless a new setting is
/// given.
pub open spec fn remapped(
    m: MappingView,
    container: Seq<char>,
    shell: Option<Option<Seq<char>>>,
) -> MappingView {
    MappingView {
        port: m.port,
        container,
        shell: match shell {
            Some(setting) => setting,
            None => m.shell,
        },
    }
}

/// A mapping that did not exist before.
pub open spec fn fresh(
    port: u16,
    container: Seq<char>,
    shell: Option<Option<Seq<char>>>,
) -> MappingView {
    MappingView {
        port,
        container,
        shell: match shell {
            Some(setting) => setting,
            None => None,
        },
    }
}

/// Setting `port` turns `before` into `after`: the first mapping of the port is
/// led elsewhere, or else a new one is added and all are sorted.
pub open spec fn upserted(
    before: Seq<MappingView>,
    port: u16,
    container: Seq<char>,
    shell: Option<Option<Seq<char>>>,
    after: Seq<MappingView>,
) -> bool {
    let k = first_with(before, port);
    if k < before.len() {
        after == before.update(k, remapped(before[k], container, shell))
    } else {
        sorted_from(before.push(fresh(port, container, shell)), after)
    }
}

/// A new shell setting, where there is one.
pub open spec fn setting_view(shell: Option<Option<String>>) -> Option<Option<Seq<char>>> {
    match shell {
        Some(setting) => Some(text_of(setting)),
        None => None,
    }
}

/// What [`first_with`] finds is the first of its kind.
proof fn lemma_first_with(ms: Seq<MappingView>, port: u16)
    ensures
        0 <= first_with(ms, port) <= ms.len(),
        first_with(ms, port) < ms.len() ==> ms[first_with(ms, port)].port == port,
        forall|i: int| 0 <= i < first_with(ms, port) ==> (#[trigger] ms[i]).port != port,
    decreases ms.len(),
{
    if ms.len() > 0 && ms[0].port != port {
        lemma_first_with(ms.skip(1), port);
        assert forall|i: int| 0 <= i < first_with(ms, port) implies (#[trigger] ms[i]).port
            != port by {
            if i > 0 {
                assert(ms.skip(1)[i - 1] == ms[i]);
            }
        }
    }
}

/// The mappings of one port are found piece by piece.
proof fn lemma_of_port_add(a: Seq<MappingView>, b: Seq<MappingView>, port: u16)
    ensures
        of_port(a + b, port) == of_port(a, port) + of_port(b, port),
    decreases b.len(),
{
    if b.len() == 0 {
        assert(a + b =~= a);
        assert(of_port(a, port) + of_port(b, port) =~= of_port(a, port));
    } else {
        lemma_of_port_add(a, b.drop_last(), port);
        assert((a + b).drop_last() =~= a + b.drop_last());
        assert((a + b).last() == b.last());
        assert(of_port(a + b, port) =~= of_port(a, port) + of_port(b, port));
    }
}

/// The mappings of one port, out of a single one.
proof fn lemma_of_port_one(m: MappingView, port: u16)
    ensures
        of_port(seq![m], port) == if m.port == port {
            seq![m]
        } else {
            Seq::empty()
        },
{
    reveal_with_fuel(of_port, 2);
    assert(seq![m].drop_last() =~= Seq::empty());
    assert(Seq::empty().push(m) =~= seq![m]);
}

/// The mappings of one port, where there are none.
proof fn lemma_of_port_none(ms: Seq<MappingView>, port: u16)
    requires
        forall|i: int| 0 <= i < ms.len() ==> (#[trigger] ms[i]).port != port,
    ensures
        of_port(ms, port) == Seq::<MappingView>::empty(),
    decreases ms.len(),
{
    if ms.len() > 0 {
        lemma_of_port_none(ms.drop_last(), port);
    } else {
        assert(ms =~= Seq::empty());
    }
}

/// Putting `m` into `out` before all mappings of its port and above puts it
/// first among those of its port.
proof fn lemma_insert_keeps_order(
    out: Seq<MappingView>,
    m: MappingView,
    k: int,
    port: u16,
)
    requires
        0 <= k <= out.len(),
        forall|i: int| 0 <= i < k ==> (#[trigger] out[i]).port < m.port,
    ensures
        of_port(out.insert(k, m), port) == of_port(seq![m] + out, port),
{
    let head = out.take(k);
    let tail = out.skip(k);
    assert(out.insert(k, m) =~= head + (seq![m] + tail));
    assert(out =~= head + tail);
    lemma_of_port_add(head, seq![m] + tail, port);
    lemma_of_port_add(seq![m], tail, port);
    lemma_of_port_add(seq![m], out, port);
    lemma_of_port_add(head, tail, port);
    lemma_of_port_one(m, port);
    let one = of_port(seq![m], port);
    if m.port == port {
        lemma_of_port_none(head, port);
        assert(of_port(head, port) + (one + of_port(tail, port)) =~= one + (of_port(head, port)
            + of_port(tail, port)));
    } else {
        assert(of_port(head, port) + (one + of_port(tail, port)) =~= one + (of_port(head, port)
            + of_port(tail, port)));
    }
}

/// Sorts mappings by port. Mappings of the same port stay in their order.
fn sort_by_port(mappings: Vec<MappingSpec>) -> (out: Vec<MappingSpec>)
    ensures
        sorted_from(mappings_view(mappings@), mappings_view(out@)),
{
    let ghost all = mappings_view(mappings@);
    let mut rest = mappings;
    let mut out: Vec<MappingSpec> = Vec::new();
    proof {
        assert forall|port: u16| #[trigger] of_port(all, port) == of_port(
            mappings_view(rest@),
            port,
        ) + of_port(mappings_view(out@), port) by {
            assert(of_port(mappings_view(out@), port) =~= Seq::empty());
            assert(of_port(all, port) + Seq::empty() =~= of_port(all, port));
        }
    }
    while rest.len() > 0
        invariant
            ascending(mappings_view(out@)),
            forall|port: u16| #[trigger]
                of_port(all, port) == of_port(mappings_view(rest@), port) + of_port(
                    mappings_view(out@),
                    port,
                ),
        decreases rest@.len(),
    {
        let ghost rest0 = mappings_view(rest@);
        let ghost out0 = mappings_view(out@);
        let m = rest.pop().unwrap();
        let mut k: usize = 0;
        while k < out.len() && out[k].port < m.port
            invariant
                k <= out@.len(),
                out0 == mappings_view(out@),
                ascending(out0),
                forall|i: int| 0 <= i < k ==> (#[trigger] out0[i]).port < m.port,
            decreases out@.len() - k,
        {
            assert(out0[k as int].port == out@[k as int].port);
            k += 1;
        }
        let ghost mv = m@;
        proof {
            if k < out@.len() {
                assert(out0[k as int].port == out@[k as int].port);
            }
        }
        out.insert(k, m);
        proof {
            let out1 = mappings_view(out@);
            let rest1 = mappings_view(rest@);
            assert(out1 =~= out0.insert(k as int, mv));
            assert(rest0 =~= rest1.push(mv));
            assert(rest0.drop_last() =~= rest1);
            assert forall|i: int, j: int| 0 <= i <= j < out1.len() implies (
            #[trigger] out1[i]).port <= (#[trigger] out1[j]).port by {
                if i < k && j > k {
                    assert(out0[i].port <= out0[j - 1].port);
                } else if i >= k && j > k {
                    if i > k {
                        assert(out0[i - 1].port <= out0[j - 1].port);
                    } else {
                        assert(out0[k as int].port <= out0[j - 1].port);
                    }
                }
            }
            assert forall|port: u16| #[trigger]
                of_port(all, port) == of_port(rest1, port) + of_port(out1, port) by {
                lemma_insert_keeps_order(out0, mv, k as int, port);
                lemma_of_port_add(seq![mv], out0, port);
                lemma_of_port_one(mv, port);
                assert(of_port(rest0, port) + of_port(out0, port) =~= of_port(rest1, port) + (
                of_port(seq![mv], port) + of_port(out0, port)));
            }
        }
    }
    proof {
        let sorted = mappings_view(out@);
        assert forall|port: u16| #[trigger] of_port(sorted, port) == of_port(all, port) by {
            assert(of_port(mappings_view(rest@), port) =~= Seq::empty());
            assert(Seq::empty() + of_port(sorted, port) =~= of_port(sorted, port));
        }
    }
    out
}

impl ConfigFile {
    /// The configuration that a missing file stands for.
    pub fn initial() -> (out: ConfigFile)
        ensures
            out@ == (ConfigView {
                listen_host: "0.0.0.0"@,
                docker_socket: "/var/run/docker.sock"@,
                authorized_keys: None,
                host_key: None,
                mappings: Seq::empty(),
            }),
    {
        let out = ConfigFile {
            listen_host: default_listen_host(),
            docker_socket: default_docker_socket(),
            authorized_keys: None,
            host_key: None,
            mappings: Vec::new(),
        };
        assert(mappings_view(out.mappings@) =~= Seq::empty());
        out
    }

    /// Adds or updates a mapping. The shell of an existing mapping stays as it
    /// is unless a new setting is given.
    pub fn upsert_mapping(&mut self, port: u16, container: String, shell: Option<Option<String>>)
        ensures
            upserted(
                old(self)@.mappings,
                port,
                container@,
                setting_view(shell),
                final(self)@.mappings,
            ),
            final(self)@ == (ConfigView { mappings: final(self)@.mappings, ..old(self)@ }),
    {
        let ghost before = self@.mappings;
        let mut k: usize = 0;
        while k < self.mappings.len() && self.mappings[k].port != port
            invariant
                *self == *old(self),
                before == mappings_view(self.mappings@),
                k <= self.mappings@.len(),
                forall|i: int| 0 <= i < k ==> (#[trigger] before[i]).port != port,
            decreases self.mappings@.len() - k,
        {
            assert(before[k as int].port == self.mappings@[k as int].port);
            k += 1;
        }
        proof {
            lemma_first_with(before, port);
            if k < self.mappings@.len() {
                assert(before[k as int].port == self.mappings@[k as int].port);
            }
            assert(first_with(before, port) == k);
        }
        if k < self.mappings.len() {
            let kept = copy_text(&self.mappings[k].shell);
            let m = MappingSpec {
                port,
                container,
                shell: match shell {
                    Some(setting) => setting,
                    None => kept,
                },
            };
            let ghost mv = m@;
            self.mappings.set(k, m);
            assert(mappings_view(self.mappings@) =~= before.update(k as int, mv));
        } else {
            let m = MappingSpec {
                port,
                container,
                shell: match shell {
                    Some(setting) => setting,
                    None => None,
                },
            };
            let ghost mv = m@;
            let mut all: Vec<MappingSpec> = Vec::new();
            std::mem::swap(&mut all, &mut self.mappings);
            all.push(m);
            assert(mappings_view(all@) =~= before.push(mv));
            self.mappings = sort_by_port(all);
        }
    }

    /// Removes every mapping of a port.
    pub fn remove_mapping(&mut self, port: u16)
        ensures
            final(self)@ == (ConfigView {
                mappings: without_port(old(self)@.mappings, port),
                ..old(self)@
            }),
    {
        let ghost before = self@.mappings;
        let mut all: Vec<MappingSpec> = Vec::new();
        std::mem::swap(&mut all, &mut self.mappings);
        let mut kept: Vec<MappingSpec> = Vec::new();
        let mut i: usize = 0;
        assert(before.take(0) =~= Seq::empty());
        assert(mappings_view(kept@) =~= Seq::empty());
        while i < all.len()
            invariant
                i <= all@.len(),
                before == mappings_view(all@),
                mappings_view(kept@) == without_port(before.take(i as int), port),
            decreases all@.len() - i,
        {
            let ghost done = mappings_view(kept@);
            assert(before.take(i + 1).drop_last() =~= before.take(i as int));
            assert(before.take(i + 1).last() == all@[i as int]@);
            if all[i].port != port {
                let m = all[i].copy();
                let ghost mv = m@;
                kept.push(m);
                assert(mappings_view(kept@) =~= done.push(mv));
            }
            i += 1;
        }
        assert(before.take(i as int) =~= before);
        self.mappings = kept;
    }
}

/// Why there is no configuration to work with.
#[derive(Debug, Clone, Copy, PartialEq, Eq)]
pub enum ConfigError {
    /// No path was given, and the system names no configuration directory.
    NoConfigDir,
}

impl ConfigError {
    /// What the user is told.
    pub fn message(&self) -> (out: String)
        ensures
            out@ == "could not determine config dir"@,
    {
        "could not determine config dir".to_string()
    }
}

/// The file that holds the configuration.
#[derive(Debug, Clone)]
pub struct ConfigStore {
    path: String,
}

impl View for ConfigStore {
    type V = Seq<char>;

    /// The path of the file.
    closed spec fn view(&self) -> Seq<char> {
        self.path@
    }
}

/// The configuration file below the system's configuration directory.
pub open spec fn default_path_in(config_dir: Seq<char>) -> Seq<char> {
    joined(joined(config_dir, "d2s"@), "config.toml"@)
}

/// The file that is used unless one is named.
pub fn default_config_path(config_dir: Option<String>) -> (r: Result<String, ConfigError>)
    ensures
        match (config_dir, r) {
            (Some(dir), Ok(path)) => path@ == default_path_in(dir@),
            (None, Err(e)) => e == ConfigError::NoConfigDir,
            _ => false,
        },
{
    match config_dir {
        Some(dir) => Ok(join_path(join_path(dir.as_str(), "d2s").as_str(), "config.toml")),
        None => Err(ConfigError::NoConfigDir),
    }
}

impl ConfigStore {
    /// Where the configuration lies: at the path given, or else below the
    /// system's configuration directory.
    pub fn locate(path_override: Option<String>, config_dir: Option<String>) -> (r: Result<
        ConfigStore,
        ConfigError,
    >)
        ensures
            match (path_override, config_dir, r) {
                (Some(path), _, Ok(store)) => store@ == path@,
                (None, Some(dir), Ok(store)) => store@ == default_path_in(dir@),
                (None, None, Err(e)) => e == ConfigError::NoConfigDir,
                _ => false,
            },
    {
        match path_override {
            Some(path) => Ok(ConfigStore { path }),
            None => match default_config_path(config_dir) {
                Ok(path) => Ok(ConfigStore { path }),
                Err(e) => Err(e),
            },
        }
    }

    /// The path of the file.
    pub fn path(&self) -> (out: &str)
        ensures
            out@ == self@,
    {
        self.path.as_str()
    }

    /// The directory that has to exist for the file to be written.
    pub fn directory(&self) -> (r: Option<String>)
        ensures
            text_of(r) == parent_of(self@),
    {
        parent_path(self.path.as_str())
    }
}

/// Where a port leads: its first mapping.
pub open spec fn lookup(ms: Seq<MappingView>, port: u16) -> Option<MappingView> {
    let k = first_with(ms, port);
    if k < ms.len() {
        Some(ms[k])
    } else {
        None
    }
}

/// The first of the mappings of a port is the one that the port leads to.
proof fn lemma_lookup(ms: Seq<MappingView>, port: u16)
    ensures
        lookup(ms, port) == if of_port(ms, port).len() > 0 {
            Some(of_port(ms, port)[0])
        } else {
            None
        },
{
    lemma_first_with(ms, port);
    let k = first_with(ms, port);
    if k < ms.len() {
        let head = ms.take(k);
        let tail = ms.skip(k + 1);
        assert(ms =~= head + (seq![ms[k]] + tail));
        lemma_of_port_none(head, port);
        lemma_of_port_add(head, seq![ms[k]] + tail, port);
        lemma_of_port_add(seq![ms[k]], tail, port);
        lemma_of_port_one(ms[k], port);
    } else {
        lemma_of_port_none(ms, port);
    }
}

/// Where a port has mappings, one of them is there to be found.
proof fn lemma_of_port_some(ms: Seq<MappingView>, port: u16) -> (i: int)
    requires
        of_port(ms, port).len() > 0,
    ensures
        0 <= i < ms.len(),
        ms[i].port == port,
{
    lemma_first_with(ms, port);
    if first_with(ms, port) == ms.len() {
        lemma_of_port_none(ms, port);
    }
    first_with(ms, port)
}

/// Changing the mapping of one port leaves the others alone.
proof fn lemma_update_other_port(ms: Seq<MappingView>, k: int, m: MappingView, port: u16)
    requires
        0 <= k < ms.len(),
        m.port == ms[k].port,
        m.port != port,
    ensures
        of_port(ms.update(k, m), port) == of_port(ms, port),
{
    let head = ms.take(k);
    let tail = ms.skip(k + 1);
    assert(ms =~= head + (seq![ms[k]] + tail));
    assert(ms.update(k, m) =~= head + (seq![m] + tail));
    lemma_of_port_add(head, seq![ms[k]] + tail, port);
    lemma_of_port_add(seq![ms[k]], tail, port);
    lemma_of_port_one(ms[k], port);
    lemma_of_port_add(head, seq![m] + tail, port);
    lemma_of_port_add(seq![m], tail, port);
    lemma_of_port_one(m, port);
}

/// Of distinct ports, each has at most one mapping; and the other way round.
proof fn lemma_distinct(ms: Seq<MappingView>)
    ensures
        distinct_ports(ms) <==> forall|port: u16| #[trigger] of_port(ms, port).len() <= 1,
{
    if distinct_ports(ms) {
        assert forall|port: u16| #[trigger] of_port(ms, port).len() <= 1 by {
            lemma_first_with(ms, port);
            let k = first_with(ms, port);
            if k < ms.len() {
                let head = ms.take(k);
                let tail = ms.skip(k + 1);
                assert(ms =~= head + (seq![ms[k]] + tail));
                assert forall|i: int| 0 <= i < tail.len() implies (#[trigger] tail[i]).port
                    != port by {
                    assert(tail[i] == ms[k + 1 + i]);
                }
                lemma_of_port_none(head, port);
                lemma_of_port_none(tail, port);
                lemma_of_port_add(head, seq![ms[k]] + tail, port);
                lemma_of_port_add(seq![ms[k]], tail, port);
                lemma_of_port_one(ms[k], port);
            } else {
                lemma_of_port_none(ms, port);
            }
        }
    }
    if forall|port: u16| #[trigger] of_port(ms, port).len() <= 1 {
        assert forall|i: int, j: int| 0 <= i < j < ms.len() implies (#[trigger] ms[i]).port != (
        #[trigger] ms[j]).port by {
            if ms[i].port == ms[j].port {
                let port = ms[i].port;
                let a = ms.take(i);
                let b = ms.subrange(i + 1, j);
                let c = ms.skip(j + 1);
                let rest = seq![ms[j]] + c;
                assert(ms =~= a + (seq![ms[i]] + (b + rest)));
                lemma_of_port_add(a, seq![ms[i]] + (b + rest), port);
                lemma_of_port_add(seq![ms[i]], b + rest, port);
                lemma_of_port_add(b, rest, port);
                lemma_of_port_add(seq![ms[j]], c, port);
                lemma_of_port_one(ms[i], port);
                lemma_of_port_one(ms[j], port);
                assert(of_port(ms, port).len() >= 2);
            }
        }
    }
}

/// Law: sorting by port has one result. Two ascending lists with the same
/// mappings for every port, in the same order, are the same list.
pub proof fn sorting_is_determined(x: Seq<MappingView>, y: Seq<MappingView>)
    requires
        ascending(x),
        ascending(y),
        forall|port: u16| #[trigger] of_port(x, port) == of_port(y, port),
    ensures
        x == y,
    decreases x.len(),
{
    if x.len() == 0 {
        if y.len() > 0 {
            assert(of_port(x, y.last().port) == of_port(y, y.last().port));
        }
        assert(x =~= y);
    } else {
        let p = x.last().port;
        assert(of_port(x, p) == of_port(y, p));
        let i = lemma_of_port_some(y, p);
        let q = y.last().port;
        assert(of_port(x, q) == of_port(y, q));
        let j = lemma_of_port_some(x, q);
        assert(y[i].port <= y[y.len() - 1].port);
        assert(x[j].port <= x[x.len() - 1].port);
        assert(p == q);
        assert(of_port(x, p).last() == x.last());
        assert(of_port(y, p).last() == y.last());
        let x0 = x.drop_last();
        let y0 = y.drop_last();
        assert forall|port: u16| #[trigger] of_port(x0, port) == of_port(y0, port) by {
            assert(of_port(x, port) == of_port(y, port));
            if port == p {
                assert(of_port(x0, port) =~= of_port(x, port).drop_last());
                assert(of_port(y0, port) =~= of_port(y, port).drop_last());
            }
        }
        sorting_is_determined(x0, y0);
        assert(x =~= x0.push(x.last()));
        assert(y =~= y0.push(y.last()));
    }
}

/// Law: after a port is set it leads to the container given, with the shell
/// given, or with the shell it had, or with none.
pub proof fn set_port_leads_there(
    before: Seq<MappingView>,
    port: u16,
    container: Seq<char>,
    shell: Option<Option<Seq<char>>>,
    after: Seq<MappingView>,
)
    requires
        upserted(before, port, container, shell, after),
    ensures
        lookup(after, port) == Some(
            match lookup(before, port) {
                Some(m) => remapped(m, container, shell),
                None => fresh(port, container, shell),
            },
        ),
{
    lemma_first_with(before, port);
    lemma_first_with(after, port);
    let k = first_with(before, port);
    if k < before.len() {
        assert(after[k].port == port);
        assert forall|i: int| 0 <= i < k implies (#[trigger] after[i]).port != port by {
            assert(after[i] == before[i]);
        }
        if first_with(after, port) < k {
            assert(after[first_with(after, port)].port != port);
        }
    } else {
        let m = fresh(port, container, shell);
        lemma_lookup(after, port);
        lemma_of_port_none(before, port);
        assert(before.push(m).drop_last() =~= before);
        assert(of_port(after, port) == of_port(before.push(m), port));
    }
}

/// Law: setting one port changes no other.
pub proof fn set_port_leaves_others(
    before: Seq<MappingView>,
    port: u16,
    container: Seq<char>,
    shell: Option<Option<Seq<char>>>,
    after: Seq<MappingView>,
    other: u16,
)
    requires
        upserted(before, port, container, shell, after),
        other != port,
    ensures
        of_port(after, other) == of_port(before, other),
        lookup(after, other) == lookup(before, other),
{
    lemma_first_with(before, port);
    let k = first_with(before, port);
    if k < before.len() {
        lemma_update_other_port(before, k, remapped(before[k], container, shell), other);
    } else {
        let m = fresh(port, container, shell);
        assert(before.push(m).drop_last() =~= before);
        assert(of_port(after, other) == of_port(before.push(m), other));
    }
    lemma_lookup(before, other);
    lemma_lookup(after, other);
}

/// Law: a list of distinct ports in ascending order stays one when a port is
/// set.
pub proof fn set_port_keeps_order(
    before: Seq<MappingView>,
    port: u16,
    container: Seq<char>,
    shell: Option<Option<Seq<char>>>,
    after: Seq<MappingView>,
)
    requires
        upserted(before, port, container, shell, after),
        ascending(before),
        distinct_ports(before),
    ensures
        ascending(after),
        distinct_ports(after),
{
    lemma_first_with(before, port);
    let k = first_with(before, port);
    if k < before.len() {
        assert forall|i: int| 0 <= i < after.len() implies (#[trigger] after[i]).port
            == before[i].port by {}
    } else {
        let m = fresh(port, container, shell);
        lemma_distinct(before);
        assert forall|p: u16| #[trigger] of_port(after, p).len() <= 1 by {
            assert(before.push(m).drop_last() =~= before);
            assert(of_port(after, p) == of_port(before.push(m), p));
            assert(of_port(before, p).len() <= 1);
            if p == port {
                lemma_of_port_none(before, port);
            }
        }
        lemma_distinct(after);
    }
}

/// Law: setting a port twice is setting it once.
pub proof fn set_port_twice(
    before: Seq<MappingView>,
    port: u16,
    container: Seq<char>,
    shell: Option<Option<Seq<char>>>,
    once: Seq<MappingView>,
    twice: Seq<MappingView>,
)
    requires
        upserted(before, port, container, shell, once),
        upserted(once, port, container, shell, twice),
    ensures
        twice == once,
{
    set_port_leads_there(before, port, container, shell, once);
    lemma_first_with(once, port);
    assert(twice =~= once);
}

/// What is left without one port is what there was of the others.
proof fn lemma_without_port(ms: Seq<MappingView>, port: u16, other: u16)
    ensures
        of_port(without_port(ms, port), other) == if other == port {
            Seq::empty()
        } else {
            of_port(ms, other)
        },
    decreases ms.len(),
{
    if ms.len() > 0 {
        lemma_without_port(ms.drop_last(), port, other);
        if ms.last().port != port {
            let rest = without_port(ms.drop_last(), port);
            assert(rest.push(ms.last()).drop_last() =~= rest);
        }
    } else {
        assert(ms =~= Seq::empty());
    }
}

/// What is left without one port keeps its order.
proof fn lemma_without_port_ascending(ms: Seq<MappingView>, port: u16)
    requires
        ascending(ms),
    ensures
        ascending(without_port(ms, port)),
        forall|i: int|
            0 <= i < without_port(ms, port).len() ==> exists|j: int|
                0 <= j < ms.len() && (#[trigger] without_port(ms, port)[i]) == ms[j],
    decreases ms.len(),
{
    if ms.len() > 0 {
        let init = ms.drop_last();
        assert(ascending(init)) by {
            assert forall|i: int, j: int| 0 <= i <= j < init.len() implies (
            #[trigger] init[i]).port <= (#[trigger] init[j]).port by {
                assert(ms[i].port <= ms[j].port);
            }
        }
        lemma_without_port_ascending(init, port);
        let rest = without_port(init, port);
        let all = without_port(ms, port);
        assert forall|i: int| 0 <= i < rest.len() implies exists|j: int|
            0 <= j < ms.len() && (#[trigger] rest[i]) == ms[j] by {
            let j = choose|j: int| 0 <= j < init.len() && rest[i] == init[j];
            assert(rest[i] == ms[j]);
        }
        if ms.last().port != port {
            assert forall|i: int, j: int| 0 <= i <= j < all.len() implies (
            #[trigger] all[i]).port <= (#[trigger] all[j]).port by {
                if j == rest.len() && i < j {
                    let k = choose|k: int| 0 <= k < ms.len() && rest[i] == ms[k];
                    assert(all[i] == rest[i]);
                    assert(ms[k].port <= ms[ms.len() - 1].port);
                } else if j < rest.len() {
                    assert(rest[i].port <= rest[j].port);
                }
            }
            assert forall|i: int| 0 <= i < all.len() implies exists|j: int|
                0 <= j < ms.len() && (#[trigger] all[i]) == ms[j] by {
                if i < rest.len() {
                    assert(all[i] == rest[i]);
                } else {
                    assert(all[i] == ms[ms.len() - 1]);
                }
            }
        }
    }
}

/// Law: a removed port leads nowhere, and removing it changes no other port.
pub proof fn removed_port_is_gone(ms: Seq<MappingView>, port: u16, other: u16)
    requires
        other != port,
    ensures
        lookup(without_port(ms, port), port) is None,
        of_port(without_port(ms, port), other) == of_port(ms, other),
        lookup(without_port(ms, port), other) == lookup(ms, other),
{
    lemma_without_port(ms, port, port);
    lemma_without_port(ms, port, other);
    lemma_lookup(without_port(ms, port), port);
    lemma_lookup(without_port(ms, port), other);
    lemma_lookup(ms, other);
}

/// Law: removing a port keeps distinct ports distinct and ascending ports
/// ascending.
pub proof fn removing_keeps_order(ms: Seq<MappingView>, port: u16)
    requires
        ascending(ms),
        distinct_ports(ms),
    ensures
        ascending(without_port(ms, port)),
        distinct_ports(without_port(ms, port)),
{
    lemma_without_port_ascending(ms, port);
    lemma_distinct(ms);
    assert forall|p: u16| #[trigger] of_port(without_port(ms, port), p).len() <= 1 by {
        lemma_without_port(ms, port, p);
        assert(of_port(ms, p).len() <= 1);
    }
    lemma_distinct(without_port(ms, port));
}

/// Law: removing a port undoes adding it to a list in ascending order.
pub proof fn removing_undoes_adding(
    before: Seq<MappingView>,
    port: u16,
    container: Seq<char>,
    shell: Option<Option<Seq<char>>>,
    after: Seq<MappingView>,
)
    requires
        ascending(before),
        lookup(before, port) is None,
        upserted(before, port, container, shell, after),
    ensures
        without_port(after, port) == before,
{
    let rest = without_port(after, port);
    lemma_first_with(before, port);
    lemma_without_port_ascending(after, port);
    assert forall|p: u16| #[trigger] of_port(rest, p) == of_port(before, p) by {
        lemma_without_port(after, port, p);
        if p == port {
            lemma_of_port_none(before, port);
        } else {
            set_port_leaves_others(before, port, container, shell, after, p);
        }
    }
    sorting_is_determined(rest, before);
}

/// Law: the mappings of a port are those with that port, and what is left
/// without a port are those with another, all of them, in their order.
pub proof fn mappings_are_told_apart_by_port(ms: Seq<MappingView>, port: u16)
    ensures
        of_port(ms, port) == ms.filter(|m: MappingView| m.port == port),
        without_port(ms, port) == ms.filter(|m: MappingView| m.port != port),
    decreases ms.len(),
{
    reveal(Seq::filter);
    if ms.len() > 0 {
        mappings_are_told_apart_by_port(ms.drop_last(), port);
    }
}

/// Law: a port leads to its first mapping, and nowhere where it has none.
pub proof fn a_port_leads_to_its_first_mapping(ms: Seq<MappingView>, port: u16)
    ensures
        lookup(ms, port) is None <==> forall|i: int|
            0 <= i < ms.len() ==> (#[trigger] ms[i]).port != port,
        lookup(ms, port) matches Some(m) ==> exists|i: int|
            {
                &&& 0 <= i < ms.len()
                &&& #[trigger] ms[i] == m
                &&& m.port == port
                &&& forall|j: int| 0 <= j < i ==> (#[trigger] ms[j]).port != port
            },
{
    lemma_first_with(ms, port);
    let k = first_with(ms, port);
    if k < ms.len() {
        assert(ms[k].port == port);
    }
}

/// Law: after a port is set it leads to exactly the container given, whether it
/// led somewhere before or not. Its shell is the setting given, or else the
/// one it had, or else none.
pub proof fn a_set_port_leads_to_the_container_given(
    before: Seq<MappingView>,
    port: u16,
    container: Seq<char>,
    shell: Option<Option<Seq<char>>>,
    after: Seq<MappingView>,
)
    requires
        upserted(before, port, container, shell, after),
    ensures
        lookup(after, port) matches Some(m) && {
            &&& m.port == port
            &&& m.container == container
            &&& shell matches Some(setting) ==> m.shell == setting
            &&& shell is None ==> (lookup(before, port) matches Some(had) ==> m.shell == had.shell)
            &&& shell is None && lookup(before, port) is None ==> m.shell is None
        },
{
    set_port_leads_there(before, port, container, shell, after);
    lemma_first_with(before, port);
}

/// Law: setting a port that leads somewhere changes its first mapping and
/// nothing else.
pub proof fn setting_a_known_port_changes_one_mapping(
    before: Seq<MappingView>,
    port: u16,
    container: Seq<char>,
    shell: Option<Option<Seq<char>>>,
    after: Seq<MappingView>,
    k: int,
)
    requires
        upserted(before, port, container, shell, after),
        0 <= k < before.len(),
        before[k].port == port,
        forall|i: int| 0 <= i < k ==> (#[trigger] before[i]).port != port,
    ensures
        after.len() == before.len(),
        forall|i: int| 0 <= i < before.len() && i != k ==> #[trigger] after[i] == before[i],
        after[k].port == port,
        after[k].container == container,
{
    lemma_first_with(before, port);
    assert(first_with(before, port) == k);
}

/// Law: setting a port that led nowhere adds one mapping to those there were,
/// and puts all in the order of their ports, those of one port as they were.
pub proof fn setting_a_new_port_adds_one_mapping(
    before: Seq<MappingView>,
    port: u16,
    container: Seq<char>,
    shell: Option<Option<Seq<char>>>,
    after: Seq<MappingView>,
)
    requires
        upserted(before, port, container, shell, after),
        forall|i: int| 0 <= i < before.len() ==> (#[trigger] before[i]).port != port,
    ensures
        forall|i: int, j: int|
            0 <= i < j < after.len() ==> (#[trigger] after[i]).port <= (#[trigger] after[j]).port,
        ({
            let own = after.filter(|m: MappingView| m.port == port);
            &&& own.len() == 1
            &&& own[0].port == port
            &&& own[0].container == container
            &&& shell matches Some(setting) ==> own[0].shell == setting
            &&& shell is None ==> own[0].shell is None
        }),
        forall|other: u16|
            other != port ==> #[trigger] of_port(after, other) == before.filter(
                |m: MappingView| m.port == other,
            ),
{
    lemma_first_with(before, port);
    let m = fresh(port, container, shell);
    assert(before.push(m).drop_last() =~= before);
    lemma_of_port_none(before, port);
    assert(of_port(after, port) == of_port(before.push(m), port));
    mappings_are_told_apart_by_port(after, port);
    assert forall|other: u16| other != port implies #[trigger] of_port(after, other)
        == before.filter(|m: MappingView| m.port == other) by {
        set_port_leaves_others(before, port, container, shell, after, other);
        mappings_are_told_apart_by_port(before, other);
    }
}

/// Law: ports are in order where none is less than one before it, and distinct
/// where none is that of another mapping.
pub proof fn order_and_distinctness_of_ports(ms: Seq<MappingView>)
    ensures
        ascending(ms) <==> forall|i: int, j: int|
            0 <= i < j < ms.len() ==> (#[trigger] ms[i]).port <= (#[trigger] ms[j]).port,
        distinct_ports(ms) <==> forall|i: int, j: int|
            0 <= i < ms.len() && 0 <= j < ms.len() && (#[trigger] ms[i]).port == (
            #[trigger] ms[j]).port ==> i == j,
{
}

/// Law: a configuration is seen field by field, and its mappings one for one.
pub proof fn a_configuration_is_seen_as_it_is(
    cfg: ConfigFile,
    m: MappingSpec,
    ms: Seq<MappingSpec>,
    shell: String,
)
    ensures
        m@.port == m.port,
        m@.container == m.container@,
        m@.shell == (match m.shell {
            Some(s) => Some(s@),
            None => None,
        }),
        mappings_view(ms).len() == ms.len(),
        forall|i: int| 0 <= i < ms.len() ==> #[trigger] mappings_view(ms)[i] == ms[i]@,
        cfg@.listen_host == cfg.listen_host@,
        cfg@.docker_socket == cfg.docker_socket@,
        cfg@.authorized_keys == (match cfg.authorized_keys {
            Some(s) => Some(s@),
            None => None,
        }),
        cfg@.host_key == (match cfg.host_key {
            Some(s) => Some(s@),
            None => None,
        }),
        cfg@.mappings == mappings_view(cfg.mappings@),
        setting_view(None) is None,
        setting_view(Some(None)) == Some(None::<Seq<char>>),
        setting_view(Some(Some(shell))) == Some(Some(shell@)),
{
}

/// Law: the usual configuration file is `d2s/config.toml` in the system's
/// configuration directory.
pub proof fn the_usual_file_lies_in_the_config_dir(dir: Seq<char>)
    requires
        dir.len() > 0,
    ensures
        dir.last() != '/' ==> default_path_in(dir) == dir + "/d2s/config.toml"@,
        dir.last() == '/' ==> default_path_in(dir) == dir + "d2s/config.toml"@,
{
    reveal_strlit("/");
    reveal_strlit("d2s");
    reveal_strlit("config.toml");
    reveal_strlit("/d2s/config.toml");
    reveal_strlit("d2s/config.toml");
    names_are_joined_by_one_slash(dir, "d2s"@);
    let inner = joined(dir, "d2s"@);
    assert(inner.last() == 's');
    names_are_joined_by_one_slash(inner, "config.toml"@);
    if dir.last() != '/' {
        assert(default_path_in(dir) =~= dir + "/d2s/config.toml"@);
    } else {
        assert(default_path_in(dir) =~= dir + "d2s/config.toml"@);
    }
}

/// Law: a configuration that did not exist listens on every address, finds the
/// daemon at its usual socket, and holds nothing else.
pub proof fn a_new_configuration_holds_the_defaults(
    cfg: ConfigFile,
    host: String,
    socket: String,
)
    requires
        call_ensures(ConfigFile::initial, (), cfg),
        call_ensures(default_listen_host, (), host),
        call_ensures(default_docker_socket, (), socket),
    ensures
        cfg.listen_host@ == "0.0.0.0"@,
        cfg.docker_socket@ == "/var/run/docker.sock"@,
        cfg.authorized_keys is None,
        cfg.host_key is None,
        cfg.mappings@.len() == 0,
        host@ == "0.0.0.0"@,
        socket@ == "/var/run/docker.sock"@,
{
    assert(cfg@.mappings.len() == cfg.mappings@.len());
    assert(cfg@.authorized_keys is None);
    assert(cfg@.host_key is None);
}

/// Law: a named configuration file is used; without one, the usual file in the
/// configuration directory is, where there is such a directory.
pub proof fn a_named_file_is_used(
    named: Option<String>,
    config_dir: Option<String>,
    r: Result<ConfigStore, ConfigError>,
)
    requires
        call_ensures(ConfigStore::locate, (named, config_dir), r),
    ensures
        named matches Some(path) ==> (r matches Ok(store) && store@ == path@),
        named is None && config_dir is None ==> r is Err,
        named is None ==> (config_dir matches Some(dir) ==> (r matches Ok(store) && (dir@.len() > 0
            && dir@.last() != '/' ==> store@ == dir@ + "/d2s/config.toml"@))),
{
    if let Some(dir) = config_dir {
        if dir@.len() > 0 {
            the_usual_file_lies_in_the_config_dir(dir@);
        }
    }
}

} // verus!
