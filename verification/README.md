# yoyo

The REPL logic of the yoyo coding agent, written in Verus and verified.

- `src/` is the library. It recognises slash commands and their arguments,
  takes the decisions behind each command (session paths, `/run` commands,
  `/diff` and `/undo` plans, the `/history` listing, `/config` labels),
  searches and summarises the conversation, and keeps the bookkeeping of a
  prompt run (turn indicators, streamed text, token usage). Every public
  function carries a contract; the `law_*` proof functions state properties
  that relate several of them.
- `app/` is the part that prints, runs git and shell commands, reads and
  writes files and drives the agent. It converts the agent crate's messages
  into the library's plain values and asks the library what to do. What it
  needs from the rest of the program (building agents, pricing, formatting of
  numbers) comes through the `Host` trait.
- `tests/` runs the library on concrete values.
