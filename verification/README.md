# raft

A small implementation of the Raft consensus protocol whose decision logic
is verified with Verus.

* `src/` is the verified library. A server, a client and the log checker
  are state machines: each call takes the current state and one event (a
  message, a tick) and returns the next state and the messages to send.
  - `raftlog`: the replicated log.
  - `rpc`: the messages.
  - `protocol`: the mathematical model of a server (`ServerView`) and what
    each event does to it (`step`, `after_leader_tick`, `after_apply`, ...).
  - `server`: the executable server, proved against `protocol`.
  - `replicate`: how received entries are merged into a log.
  - `peers`, `quorum`: per-peer indices, and counting the servers that
    store an entry for the leader's majority commit rule.
  - `client`, `checker`, `cluster`, `opts`: the client, the comparison of
    the logs of a run, node names and links, options.
  - `laws`: properties that span calls (what an accepted AppendEntries
    leaves in a follower's log, resending is harmless, one vote per term, leader append-only, ...).
  - `random`: the calls into `rand`.
* `app/` is the program around it: argument parsing, threads, channels and
  UDP sockets, log files, and the loops that feed events to the library.
* `tests/` exercises the library on concrete values.
