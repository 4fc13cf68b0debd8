# openab

The logic of a broker between chat platforms and coding agents, verified with
Verus.

- `src/` is the library. `http` decides which prompts over HTTP are taken and
  what each is answered. `reactions` shows on a chat message how far a turn is;
  `reaction_laws` states what holds of that over a whole turn. `adapter`, `rpc`
  and `streaming` drive an agent's command line as a protocol server. `agy_log`
  and `log_scan` find errors that the agent wrote to its logs and nowhere else.
  `protobuf` and `narration` read answers out of recorded steps. `startup` checks
  the configuration. `text` holds what the others need of strings.
- `app/` is the program around it: configuration, processes, files, sockets and
  timers.
- `tests/` runs the library.

The library does no input or output. Where work outside it and decisions take
turns, it is a state machine: the program performs an action, and hands back what
happened.

What is trusted rather than proved stands behind functions marked
`external_body`, and one `assume_specification`; the comment above each says what
it claims.
