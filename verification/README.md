# solstone-tmux

An observer for tmux: it captures what the active sessions show, keeps it in segments on
disk, uploads the segments to a paired journal over a private link, and removes a segment
here only after the journal has proved that it holds every file of it.

`src/` is the library. Everything in it is written in Verus: what a function returns or
changes is stated in its contract and proved. What the program does step by step with the
outside world (uploading, removing, appending, capturing, dialling, supervising) is
written as state machines, from a state and an event to the next state.

| module | what it holds |
| --- | --- |
| `text`, `order`, `paths`, `json`, `digest` | characters, byte order, paths as bytes, JSON, SHA-256 |
| `name` | session and stream names as path components |
| `config`, `migration` | settings, and taking over those of an older installation |
| `command`, `model`, `tmux`, `capture` | what tmux is asked, what it answers, captures |
| `indicator` | the indicator in tmux's status line |
| `storage`, `frame` | frames that are appended with their metadata or undone, files that are replaced in one step |
| `observer` | polls, the end of the observer, supervision |
| `journal`, `client_metadata`, `journal_version` | the journal's protocol, receipts, metadata, version |
| `private_link`, `relay_access`, `post_connect` | dialling, access over a relay, jobs after a connection |
| `sync` | segments, ledger, sweep, removal, schedule, credentials |
| `service` | the unit of systemd |
| `cli` | the command line |

Warnings and errors hold neither what a pane shows nor the name of a session; that is
stated by the laws whose names end in `_name_no_session`.

The laws that hold across functions are public proof functions, `lemma_..`, beside what
they speak of. The one at the centre is `sync::sweep::lemma_removal_needs_custody`.

Calls into other crates (`serde_json`, `sha2`, `reqwest`'s URLs, `time`) and a few into the
standard library stand behind functions marked `#[verifier::external_body]`; their doc
comments say what is believed of them.

`app/` is ordinary Rust around the library: files, processes, connections and tasks.
`tests/` runs the library on concrete values.
