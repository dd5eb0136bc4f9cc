# iceoryx2_iam

Identity and access management for secured services, verified with Verus.

A service's server decides who may take part in the service, keeps account of what each session
uses, and brokers the handles of shared memory segments between producers and consumers. The
library holds these decisions; everything that talks to the operating system is around it.

## Layout

- `src/` is the verified library.
  - `types`, `error`, `protocol`, `wire`: plain values, errors, messages and their framing.
  - `policy`, `configured_policy`, `text`: who may do what, and policies that are written down.
  - `session`, `segment_manager`, `ledger`: what is known of sessions and of segments, and what
    counts for which session.
  - `server_state`, `server`, `turn`: the state of the server, the requests, and the steps of a
    turn, each of which tells the process around the server what to do next.
  - `client`, `secured_context`: the client, and what the ports of a secured service ask of it.
  - `segment_factory`, `data_segment`, `resource`, `audit`: segments, resources and the audit log.
  - `segment_laws`, `server_laws`, `accounting_laws`, `holding_laws`, `conversation_laws`: what holds
    across these.
- `tests/` runs the library.
- `app/` is ordinary Rust around the library: control channels, policy files, the audit log,
  threads and shared memory.

## Reading the contracts

Each type has a view: a server is a `ServerState`, a segment manager a `SegmentTable`, a session a
`SessionState`. What a request comes to is an `Effect`: an event for the audit log, what is to be
done, and the state afterwards. Policies and connections are for users to implement; contracts
speak of what they may answer, and hold for every answer.
