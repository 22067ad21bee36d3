# d2s

`d2s` exposes Docker containers through SSH-compatible ports. Each configured
port leads to one container: a shell or a command becomes a `docker exec`, and
`docker system dial-stdio` becomes a proxy to the Docker API that is confined to
that container.

## Layout

- `src/` is the library, written in Verus. It holds every decision of the tool,
  with its contract:
  - `docker`, `proxy`: which API paths pass, what they are rewritten to, what a
    refused client is told
  - `config`, `cli`, `serve`, `listen`: mappings, commands, the daemon, listeners
  - `authz`, `session`: who may log in, and what a client's requests start
  - `exec`, `attach`: runs in a container, and how a process is tied to a channel
  - `forward`, `doctor`, `report`: port forwarding, the health check, debug reports
  - `text`, `files`: the text and path functions that the rest is built on
  - `outside`: calls into other crates, with what is taken on trust about them
- `app/` is the program around it: the command line, files, sockets, processes.
- `tests/` run the library on concrete values.

What the tool promises as a whole stands beside the functions it is about, as
public proof functions whose comments begin with "Law".

## Commands

```bash
d2s config set <port> <container> [--shell <path> | --clear-shell]
d2s config rm <port>
d2s config list
d2s show
d2s doctor --host 127.0.0.1 --user docker [--identity /path/to/id_ed25519]
d2s serve
d2s stop
d2s upgrade
```

`serve` starts a daemon in the background and writes its pid to `d2s.pid` beside
the configuration file; `stop` ends it. The daemon looks at the configuration
file and starts its listeners over when the mappings change.

## Keys

With an `authorized_keys` file, the keys that it lists may log in, and no others.
Each line holds one key in OpenSSH's format; a comment behind the key is no part
of it. Empty lines and lines that begin with `#` are skipped, and any other line
is an error. The host key is made when its file is missing, and from then on it
is the key in the file.
