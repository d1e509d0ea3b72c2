# betcode_daemon

The decision logic of the BetCode daemon, which runs AI coding agents as
subprocesses and relays them to clients, written in Verus and proved
against its contracts.

- `src/` is the verified library: the orchestration scheduler and run
  state machine, the event bridge and stdout pipeline of a relay session,
  permission requests and grants, the session multiplexer, the command
  registry, completion indexes, plugins, the repository, subagent, agent,
  health and version services, the GitLab client's URLs and conversions,
  and the text, JSON and timestamp helpers they rest on. Each module states
  its model in spec functions and views; laws that relate several
  operations are public proof functions named `law_*`.
- `tests/` exercises the library on concrete values.
- `app/` is the program around it: process spawning, terminal input, file
  system walks, HTTP and configuration files.

## What the library leaves out

- The conversion of the agent's MCP tool list into command entries
  belongs to the shared core crate of the project, which is not part of
  this library: the event bridge keeps no MCP entries from a `system_init`
  message. The library reads the stream-JSON lines themselves
  (`ndjson::parse_message_line`).
- The gRPC services, the database and the subagent process pool are not
  modelled; the library holds the decisions they make (admission,
  validation, scheduling, registration plans) as functions over plain
  values.
