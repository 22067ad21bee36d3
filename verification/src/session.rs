//! One SSH session: who is let in, which channels are open, and what a
//! request on a channel starts.

use std::collections::HashMap;

use vstd::prelude::*;
use vstd::utf8::{decode_utf8, valid_utf8};

use crate::authz::{Authz, AuthzView};
use crate::config::{MappingSpec, MappingView};
use crate::docker::{
    docker_authorized_command, is_dial_stdio, two_commands_open_the_api, DockerBackend,
};
use crate::outside::{lossy, lossy_text};
use crate::text::{
    is_white, lemma_trimmed_twice, trim, trimmed, trimming_takes_white_space_off,
};

verus! {

/// A terminal that a client asked for.
#[derive(Debug, Clone)]
pub struct PtySpec {
    pub term: String,
    pub cols: u32,
    pub rows: u32,
    pub px_width: u32,
    pub px_height: u32,
}

/// A [`PtySpec`] with its text as a character sequence.
pub struct PtyView {
    pub term: Seq<char>,
    pub cols: u32,
    pub rows: u32,
    pub px_width: u32,
    pub px_height: u32,
}

impl View for PtySpec {
    type V = PtyView;

    open spec fn view(&self) -> PtyView {
        PtyView {
            term: self.term@,
            cols: self.cols,
            rows: self.rows,
            px_width: self.px_width,
            px_height: self.px_height,
        }
    }
}

/// A terminal that may be missing.
pub open spec fn pty_view(pty: Option<PtySpec>) -> Option<PtyView> {
    match pty {
        Some(p) => Some(p@),
        None => None,
    }
}

/// The size of a terminal, as the system takes it.
#[derive(Debug, Clone, Copy, PartialEq, Eq)]
pub struct WindowSize {
    pub rows: u16,
    pub cols: u16,
    pub xpixel: u16,
    pub ypixel: u16,
}

/// A length that the system can hold: nothing stands for the default, and what
/// is too large is cut down to the largest there is.
pub open spec fn dimension(value: u32, default_value: u16) -> u16 {
    if value == 0 {
        default_value
    } else if value > 65535 {
        65535u16
    } else {
        value as u16
    }
}

/// A length that the system can hold.
pub fn normalized_pty_dimension(value: u32, default_value: u16) -> (out: u16)
    ensures
        out == dimension(value, default_value),
{
    if value == 0 {
        default_value
    } else if value > 65535 {
        65535
    } else {
        value as u16
    }
}

impl PtySpec {
    /// The size of the terminal, 80 by 24 where the client named none.
    pub fn window_size(&self) -> (out: WindowSize)
        ensures
            out == (WindowSize {
                rows: dimension(self.rows, 24),
                cols: dimension(self.cols, 80),
                xpixel: dimension(self.px_width, 0),
                ypixel: dimension(self.px_height, 0),
            }),
    {
        WindowSize {
            rows: normalized_pty_dimension(self.rows, 24),
            cols: normalized_pty_dimension(self.cols, 80),
            xpixel: normalized_pty_dimension(self.px_width, 0),
            ypixel: normalized_pty_dimension(self.px_height, 0),
        }
    }
}

/// A request on a channel.
#[derive(Debug, Clone, Copy, PartialEq, Eq)]
pub enum RequestKind {
    Pty,
    Shell,
    Exec,
}

/// A request on a channel that is not open, or that something runs on already.
#[derive(Debug, Clone, Copy, PartialEq, Eq)]
pub struct MissingChannel {
    pub request: RequestKind,
}

impl MissingChannel {
    /// What is logged.
    pub open spec fn text(self) -> Seq<char> {
        match self.request {
            RequestKind::Pty => "missing channel state for pty request"@,
            RequestKind::Shell => "missing channel state for shell request"@,
            RequestKind::Exec => "missing channel state for exec request"@,
        }
    }

    /// What is logged.
    pub fn message(&self) -> (out: String)
        ensures
            out@ == self.text(),
    {
        match self.request {
            RequestKind::Pty => "missing channel state for pty request".to_string(),
            RequestKind::Shell => "missing channel state for shell request".to_string(),
            RequestKind::Exec => "missing channel state for exec request".to_string(),
        }
    }
}

/// What an exec request starts.
#[derive(Debug, Clone)]
pub enum ExecStart {
    /// The Docker API over the channel.
    Proxy,
    /// A command in the container.
    Command { command: String, pty: Option<PtySpec> },
}

/// An [`ExecStart`] with its texts as character sequences.
pub enum ExecView {
    Proxy,
    Command { command: Seq<char>, pty: Option<PtyView> },
}

impl View for ExecStart {
    type V = ExecView;

    open spec fn view(&self) -> ExecView {
        match *self {
            ExecStart::Proxy => ExecView::Proxy,
            ExecStart::Command { command, pty } => ExecView::Command {
                command: command@,
                pty: pty_view(pty),
            },
        }
    }
}

/// What a command starts on a channel with the given terminal.
pub open spec fn exec_of(command: Seq<char>, pty: Option<PtyView>) -> ExecView {
    if is_dial_stdio(command) {
        ExecView::Proxy
    } else {
        ExecView::Command { command: trimmed(command), pty }
    }
}

/// The server behind one port.
#[derive(Debug, Clone)]
pub struct PortServer {
    mapping: MappingSpec,
    docker: DockerBackend,
    authz: Authz,
}

/// A [`PortServer`] as what it serves.
pub struct ServerView {
    pub mapping: MappingView,
    pub docker: Seq<char>,
    pub authz: AuthzView,
}

impl View for PortServer {
    type V = ServerView;

    closed spec fn view(&self) -> ServerView {
        ServerView { mapping: self.mapping@, docker: self.docker@, authz: self.authz@ }
    }
}

impl PortServer {
    pub fn new(mapping: MappingSpec, docker: DockerBackend, authz: Authz) -> (out: PortServer)
        ensures
            out@ == (ServerView { mapping: mapping@, docker: docker@, authz: authz@ }),
    {
        PortServer { mapping, docker, authz }
    }

    /// The mapping that is served.
    pub fn mapping(&self) -> (out: &MappingSpec)
        ensures
            out@ == self@.mapping,
    {
        &self.mapping
    }

    /// The same server once more.
    pub fn copy(&self) -> (out: PortServer)
        ensures
            out@ == self@,
    {
        PortServer {
            mapping: self.mapping.copy(),
            docker: self.docker.copy(),
            authz: self.authz.copy(),
        }
    }

    /// A session for a client that has just connected.
    pub fn new_client(&self) -> (out: PortHandler)
        ensures
            out@.server == self@,
            out@.channels == Map::<u32, Option<PtyView>>::empty(),
    {
        let out = PortHandler { server: self.copy(), channels: HashMap::new() };
        assert(out@.channels =~= Map::empty());
        out
    }
}

/// One client's session.
pub struct PortHandler {
    server: PortServer,
    channels: HashMap<u32, Option<PtySpec>>,
}

/// A [`PortHandler`] as what it serves and the channels that wait for
/// something to run on them, with their terminals.
pub struct HandlerView {
    pub server: ServerView,
    pub channels: Map<u32, Option<PtyView>>,
}

impl View for PortHandler {
    type V = HandlerView;

    closed spec fn view(&self) -> HandlerView {
        HandlerView {
            server: self.server@,
            channels: self.channels@.map_values(|pty: Option<PtySpec>| pty_view(pty)),
        }
    }
}

/// A handler after a channel is opened on it, without a terminal.
pub open spec fn opened(h: HandlerView, channel: u32) -> HandlerView {
    HandlerView { channels: h.channels.insert(channel, None), ..h }
}

/// A handler after a channel is taken for something to run on it.
pub open spec fn taken(h: HandlerView, channel: u32) -> HandlerView {
    HandlerView { channels: h.channels.remove(channel), ..h }
}

/// A handler after a terminal is asked for on a channel, and the answer.
pub open spec fn pty_step(h: HandlerView, channel: u32, pty: PtyView) -> (
    HandlerView,
    Result<(), MissingChannel>,
) {
    if h.channels.contains_key(channel) {
        (HandlerView { channels: h.channels.insert(channel, Some(pty)), ..h }, Ok(()))
    } else {
        (h, Err(MissingChannel { request: RequestKind::Pty }))
    }
}

/// A handler after a shell is asked for on a channel, and the terminal that
/// the shell gets.
pub open spec fn shell_step(h: HandlerView, channel: u32) -> (
    HandlerView,
    Result<Option<PtyView>, MissingChannel>,
) {
    if h.channels.contains_key(channel) {
        (taken(h, channel), Ok(h.channels[channel]))
    } else {
        (h, Err(MissingChannel { request: RequestKind::Shell }))
    }
}

/// A handler after a command is asked for on a channel, and what it starts.
pub open spec fn exec_step(h: HandlerView, channel: u32, command: Seq<char>) -> (
    HandlerView,
    Result<ExecView, MissingChannel>,
) {
    if h.channels.contains_key(channel) {
        (taken(h, channel), Ok(exec_of(command, h.channels[channel])))
    } else {
        (h, Err(MissingChannel { request: RequestKind::Exec }))
    }
}

/// What an exec request starts, or the error, as sequences.
pub open spec fn start_view(r: Result<ExecStart, MissingChannel>) -> Result<
    ExecView,
    MissingChannel,
> {
    match r {
        Ok(start) => Ok(start@),
        Err(e) => Err(e),
    }
}

impl PortHandler {
    /// The mapping that is served.
    pub fn mapping(&self) -> (out: &MappingSpec)
        ensures
            out@ == self@.server.mapping,
    {
        &self.server.mapping
    }

    /// The daemon that the container lives in.
    pub fn docker(&self) -> (out: &DockerBackend)
        ensures
            out@ == self@.server.docker,
    {
        &self.server.docker
    }

    /// Tells whether the client gets in without a key.
    pub fn auth_none(&self) -> (r: bool)
        ensures
            r == self@.server.authz.open_to_all,
    {
        self.server.authz.allows_none()
    }

    /// Tells whether the client gets in with a public key, given in the
    /// encoding of the SSH protocol.
    pub fn auth_publickey(&self, key: &[u8]) -> (r: bool)
        ensures
            r == (self@.server.authz.open_to_all || self@.server.authz.keys.contains(key@)),
    {
        self.server.authz.allows(key)
    }

    /// Opens a channel, without a terminal. Every channel is let in.
    pub fn channel_open_session(&mut self, channel: u32) -> (accepted: bool)
        ensures
            accepted,
            final(self)@ == opened(old(self)@, channel),
    {
        broadcast use vstd::std_specs::hash::group_hash_axioms;

        let ghost before = self@.channels;
        self.channels.insert(channel, None);
        assert(self@.channels =~= before.insert(channel, None));
        true
    }

    /// Gives an open channel a terminal, in place of the one it had.
    pub fn pty_request(&mut self, channel: u32, pty: PtySpec) -> (r: Result<(), MissingChannel>)
        ensures
            (final(self)@, r) == pty_step(old(self)@, channel, pty@),
    {
        broadcast use vstd::std_specs::hash::group_hash_axioms;

        if !self.channels.contains_key(&channel) {
            return Err(MissingChannel { request: RequestKind::Pty });
        }
        let ghost before = self@.channels;
        let ghost pv = pty@;
        self.channels.insert(channel, Some(pty));
        assert(self@.channels =~= before.insert(channel, Some(pv)));
        Ok(())
    }

    /// Takes an open channel, with its terminal, for something to run on it.
    fn take_channel(&mut self, channel: u32) -> (r: Option<Option<PtySpec>>)
        ensures
            match r {
                Some(pty) => old(self)@.channels.contains_key(channel) && pty_view(pty)
                    == old(self)@.channels[channel] && final(self)@ == taken(old(self)@, channel),
                None => !old(self)@.channels.contains_key(channel) && final(self)@ == old(self)@,
            },
    {
        broadcast use vstd::std_specs::hash::group_hash_axioms;

        let ghost before = self@.channels;
        let r = self.channels.remove(&channel);
        assert(self@.channels =~= before.remove(channel));
        assert(r is None ==> before.remove(channel) =~= before);
        r
    }

    /// Starts the container's shell on an open channel, with the terminal
    /// returned.
    pub fn shell_request(&mut self, channel: u32) -> (r: Result<Option<PtySpec>, MissingChannel>)
        ensures
            (
                final(self)@,
                match r {
                    Ok(pty) => Ok::<Option<PtyView>, MissingChannel>(pty_view(pty)),
                    Err(e) => Err(e),
                },
            ) == shell_step(old(self)@, channel),
    {
        match self.take_channel(channel) {
            Some(pty) => Ok(pty),
            None => Err(MissingChannel { request: RequestKind::Shell }),
        }
    }

    /// Starts what a command asks for on an open channel: the Docker API, or
    /// the command in the container.
    pub fn start_exec(&mut self, channel: u32, command: &str) -> (r: Result<
        ExecStart,
        MissingChannel,
    >)
        ensures
            (final(self)@, start_view(r)) == exec_step(old(self)@, channel, command@),
    {
        match self.take_channel(channel) {
            Some(pty) => if docker_authorized_command(command) {
                Ok(ExecStart::Proxy)
            } else {
                Ok(ExecStart::Command { command: trim(command), pty })
            },
            None => Err(MissingChannel { request: RequestKind::Exec }),
        }
    }

    /// Starts what the bytes of an exec request ask for on an open channel.
    pub fn exec_request(&mut self, channel: u32, data: &[u8]) -> (r: Result<
        ExecStart,
        MissingChannel,
    >)
        ensures
            (final(self)@, start_view(r)) == exec_step(old(self)@, channel, lossy(data@)),
            valid_utf8(data@) ==> (final(self)@, start_view(r)) == exec_step(
                old(self)@,
                channel,
                decode_utf8(data@),
            ),
    {
        let command = lossy_text(data);
        self.start_exec(channel, command.as_str())
    }
}

/// Law: on a channel that a shell or a command was started on, nothing more is
/// started and no terminal is given, until it is opened anew.
pub proof fn a_channel_runs_once(
    h: HandlerView,
    channel: u32,
    command: Seq<char>,
    next_command: Seq<char>,
    pty: PtyView,
)
    ensures
        ({
            let after = shell_step(h, channel).0;
            &&& shell_step(after, channel).1 is Err
            &&& exec_step(after, channel, next_command).1 is Err
            &&& pty_step(after, channel, pty).1 is Err
        }),
        ({
            let after = exec_step(h, channel, command).0;
            &&& shell_step(after, channel).1 is Err
            &&& exec_step(after, channel, next_command).1 is Err
            &&& pty_step(after, channel, pty).1 is Err
        }),
        shell_step(opened(shell_step(h, channel).0, channel), channel).1 is Ok,
{
}

/// Law: what happens on one channel makes no difference to another.
pub proof fn channels_are_independent(
    h: HandlerView,
    channel: u32,
    other: u32,
    command: Seq<char>,
    other_command: Seq<char>,
    pty: PtyView,
)
    requires
        other != channel,
    ensures
        shell_step(opened(h, channel), other).1 == shell_step(h, other).1,
        shell_step(pty_step(h, channel, pty).0, other).1 == shell_step(h, other).1,
        shell_step(shell_step(h, channel).0, other).1 == shell_step(h, other).1,
        shell_step(exec_step(h, channel, command).0, other).1 == shell_step(h, other).1,
        exec_step(opened(h, channel), other, other_command).1 == exec_step(
            h,
            other,
            other_command,
        ).1,
        exec_step(pty_step(h, channel, pty).0, other, other_command).1 == exec_step(
            h,
            other,
            other_command,
        ).1,
        exec_step(shell_step(h, channel).0, other, other_command).1 == exec_step(
            h,
            other,
            other_command,
        ).1,
        exec_step(exec_step(h, channel, command).0, other, other_command).1 == exec_step(
            h,
            other,
            other_command,
        ).1,
{
}

/// Law: what is started on a channel gets the terminal that was asked for
/// last, and none where none was asked for.
pub proof fn the_last_terminal_counts(
    h: HandlerView,
    channel: u32,
    first: PtyView,
    second: PtyView,
    command: Seq<char>,
)
    ensures
        shell_step(opened(h, channel), channel).1 == Ok::<Option<PtyView>, MissingChannel>(None),
        exec_step(opened(h, channel), channel, command).1 == Ok::<ExecView, MissingChannel>(
            exec_of(command, None),
        ),
        ({
            let once = pty_step(opened(h, channel), channel, first).0;
            let twice = pty_step(once, channel, second).0;
            &&& shell_step(once, channel).1 == Ok::<Option<PtyView>, MissingChannel>(Some(first))
            &&& shell_step(twice, channel).1 == Ok::<Option<PtyView>, MissingChannel>(Some(second))
            &&& exec_step(twice, channel, command).1 == Ok::<ExecView, MissingChannel>(
                exec_of(command, Some(second)),
            )
        }),
{
}

/// Law: white space around a command changes nothing.
pub proof fn white_space_around_a_command_is_ignored(command: Seq<char>, pty: Option<PtyView>)
    ensures
        exec_of(trimmed(command), pty) == exec_of(command, pty),
{
    lemma_trimmed_twice(command);
}

/// Law: one of the two commands that open the Docker API opens it; any other
/// command is run as it is, without the white space around it, with the
/// terminal of its channel.
pub proof fn a_command_opens_the_api_or_is_run(
    front: Seq<char>,
    command: Seq<char>,
    back: Seq<char>,
    pty: Option<PtyView>,
)
    requires
        forall|i: int| 0 <= i < front.len() ==> is_white(#[trigger] front[i]),
        forall|i: int| 0 <= i < back.len() ==> is_white(#[trigger] back[i]),
        command.len() > 0 ==> !is_white(command[0]) && !is_white(command.last()),
    ensures
        command == "docker system dial-stdio"@ || command
            == "docker -H unix:///var/run/docker.sock system dial-stdio"@ ==> exec_of(
            front + command + back,
            pty,
        ) == ExecView::Proxy,
        command != "docker system dial-stdio"@ && command
            != "docker -H unix:///var/run/docker.sock system dial-stdio"@ ==> exec_of(
            front + command + back,
            pty,
        ) == (ExecView::Command { command, pty }),
{
    two_commands_open_the_api(front, command, back);
    trimming_takes_white_space_off(front, command, back);
}

/// Law: a length of a terminal is the one asked for, as far as the system can
/// hold it, and the default where none was asked for.
pub proof fn a_terminal_is_as_large_as_asked_for(value: u32, default_value: u16)
    ensures
        value == 0 ==> dimension(value, default_value) == default_value,
        1 <= value <= 65535 ==> dimension(value, default_value) as int == value as int,
        value > 65535 ==> dimension(value, default_value) as int == 65535,
{
}

/// Law: a request is answered where its channel is open, and an error tells
/// which request it was that found none. What is open, and with which
/// terminal, is changed on that channel alone.
pub proof fn requests_are_for_open_channels(
    h: HandlerView,
    channel: u32,
    pty: PtyView,
    command: Seq<char>,
)
    ensures
        opened(h, channel).channels == h.channels.insert(channel, None),
        opened(h, channel).server == h.server,
        h.channels.contains_key(channel) ==> {
            &&& pty_step(h, channel, pty).1 is Ok
            &&& pty_step(h, channel, pty).0.channels == h.channels.insert(channel, Some(pty))
            &&& pty_step(h, channel, pty).0.server == h.server
            &&& shell_step(h, channel).1 == Ok::<Option<PtyView>, MissingChannel>(
                h.channels[channel],
            )
            &&& shell_step(h, channel).0.channels == h.channels.remove(channel)
            &&& shell_step(h, channel).0.server == h.server
            &&& exec_step(h, channel, command).1 == Ok::<ExecView, MissingChannel>(
                exec_of(command, h.channels[channel]),
            )
            &&& exec_step(h, channel, command).0.channels == h.channels.remove(channel)
            &&& exec_step(h, channel, command).0.server == h.server
        },
        !h.channels.contains_key(channel) ==> {
            &&& pty_step(h, channel, pty) == (
                h,
                Err::<(), MissingChannel>(MissingChannel { request: RequestKind::Pty }),
            )
            &&& shell_step(h, channel) == (
                h,
                Err::<Option<PtyView>, MissingChannel>(
                    MissingChannel { request: RequestKind::Shell },
                ),
            )
            &&& exec_step(h, channel, command) == (
                h,
                Err::<ExecView, MissingChannel>(MissingChannel { request: RequestKind::Exec }),
            )
        },
{
}

/// Law: a request without a channel is told by its kind.
pub proof fn missing_channels_are_told_by_the_request()
    ensures
        (MissingChannel { request: RequestKind::Pty }).text()
            == "missing channel state for pty request"@,
        (MissingChannel { request: RequestKind::Shell }).text()
            == "missing channel state for shell request"@,
        (MissingChannel { request: RequestKind::Exec }).text()
            == "missing channel state for exec request"@,
{
}

/// Law: terminals, and what a request starts, are seen field by field.
pub proof fn terminals_are_seen_as_they_are(pty: PtySpec, command: String, given: Option<PtySpec>)
    ensures
        pty@.term == pty.term@,
        pty@.cols == pty.cols,
        pty@.rows == pty.rows,
        pty@.px_width == pty.px_width,
        pty@.px_height == pty.px_height,
        pty_view(None) is None,
        pty_view(Some(pty)) == Some(pty@),
        ExecStart::Proxy@ == ExecView::Proxy,
        (ExecStart::Command { command, pty: given })@ == (ExecView::Command {
            command: command@,
            pty: pty_view(given),
        }),
        start_view(Ok(ExecStart::Proxy)) == Ok::<ExecView, MissingChannel>(ExecView::Proxy),
        start_view(Ok(ExecStart::Command { command, pty: given })) == Ok::<
            ExecView,
            MissingChannel,
        >(ExecView::Command { command: command@, pty: pty_view(given) }),
        forall|e: MissingChannel| #[trigger]
            start_view(Err(e)) == Err::<ExecView, MissingChannel>(e),
{
}

/// Law: a terminal is as large as the client asked for, 80 by 24 where it did
/// not say.
pub proof fn the_window_is_as_large_as_asked_for(pty: &PtySpec, size: WindowSize)
    requires
        call_ensures(PtySpec::window_size, (pty,), size),
    ensures
        1 <= pty.rows <= 65535 ==> size.rows as int == pty.rows as int,
        1 <= pty.cols <= 65535 ==> size.cols as int == pty.cols as int,
        1 <= pty.px_width <= 65535 ==> size.xpixel as int == pty.px_width as int,
        1 <= pty.px_height <= 65535 ==> size.ypixel as int == pty.px_height as int,
        pty.rows == 0 ==> size.rows == 24,
        pty.cols == 0 ==> size.cols == 80,
        pty.px_width == 0 ==> size.xpixel == 0,
        pty.px_height == 0 ==> size.ypixel == 0,
        pty.rows > 65535 ==> size.rows == 65535,
        pty.cols > 65535 ==> size.cols == 65535,
{
}

/// Law: a client gets in without a key where everybody does, and with a key
/// where everybody does or the key is among those that may log in.
pub proof fn clients_get_in_by_their_keys(
    h: &PortHandler,
    none: bool,
    key: &[u8],
    with_key: bool,
)
    requires
        call_ensures(PortHandler::auth_none, (h,), none),
        call_ensures(PortHandler::auth_publickey, (h, key), with_key),
    ensures
        none <==> h@.server.authz.open_to_all,
        with_key <==> h@.server.authz.open_to_all || h@.server.authz.keys.contains(key@),
{
}

/// Law: a new client is served what its port serves, with no channel open.
pub proof fn new_clients_start_with_nothing_open(server: &PortServer, h: PortHandler, channel: u32)
    requires
        call_ensures(PortServer::new_client, (server,), h),
    ensures
        h@.server == server@,
        !h@.channels.contains_key(channel),
{
}

} // verus!
