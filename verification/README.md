# git_relay

A Git relay whose rules are proved with Verus.

The relay accepts pushes to authoritative repositories, carries them to the
configured upstreams, serves cached copies of upstream repositories, and moves
flake inputs from shorthand URLs to Git transports. The library under `src/`
holds every decision that it makes, each with a contract. The programs under
`app/` do what the decisions ask for: they run Git and Nix, read and write
files, parse arguments and print reports.

## Sessions

Work that alternates with the host is written as a session: `action` says what
is to be done next, and `advance` takes what came of it. The contract of
`advance` says which stage follows which event, so that what holds of a session
holds of every run of it.

- `read_path`: preparing a cached repository for a read
- `reconcile`: bringing one upstream to the state of the relay
- `locking`, `run`: one reconciliation of a repository, under its lock
- `upstream`: probing what an upstream supports, without leaving refs behind
- `relock`: rewriting a flake and its lock file, or restoring both
- `sweep`: one maintenance sweep of a repository

## Modules

| module | what it decides |
| --- | --- |
| `config`, `table`, `text`, `order`, `path`, `sanitize` | values, names and their text |
| `git`, `platform` | what the host can be asked |
| `refs` | snapshots of refs, and which of them are exported |
| `validator`, `classification`, `deploy` | whether a repository may accept writes |
| `ssh_wrapper`, `hooks` | who may do what, and what a push may change |
| `reconcile`, `locking`, `run` | how upstreams are brought up to date |
| `read_path`, `maintenance`, `sweep` | how caches are refreshed, kept and evicted |
| `upstream`, `release` | what was shown of upstreams and of hosts |
| `flake`, `shorthand`, `lock`, `migration`, `relock` | how flake inputs are moved |
| `audit`, `crash`, `cli` | logs, checkpoints and reports |

A proof function whose name begins with `law_` states what holds of several
functions together, such as that refs of the relay are never pushed, or that a
migration that fails leaves both files as they were.

## What is trusted

Four things are believed without proof, each stated where it is declared: what
`shlex` makes of a command line, what `serde_json` reads of one member of a
record, the text that `Debug` gives for a list of strings, and that
`String::push` appends a character.

The host's answers are not trusted. `GitExecutor` and `PlatformProbe` promise
nothing, and every contract holds whatever they say.
