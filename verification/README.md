# aichat_core

The core of a chat program for language models, written in Rust and verified with
Verus: roles and agents, sessions, the messages that go to a model, the functions
that a model may call, and functions that are written in Lua.

- `src/` is the library. Every function in it has a contract that Verus proves.
  What it takes from other crates stands behind a few functions whose contracts are
  trusted; their doc comments name the outside function and say what is claimed.
- `app/` is ordinary Rust around the library: files, processes, the terminal, the
  Lua virtual machine, and the loops that wait for the model.
- `tests/` runs the library.

What the library cannot do itself, such as reading a file, asking the user or
calling into Lua, comes to it as a plain value or as a function that it is handed.
The contracts then say what holds for every answer.

| modules | what they hold |
|---|---|
| `text`, `table`, `json`, `closure` | text, tables in order, JSON documents, functions that are handed in |
| `model`, `settings`, `input`, `message`, `prompt` | what goes to a model |
| `role`, `activation`, `agent` | roles and agents, and how an agent is made ready |
| `session`, `keeping` | conversations, and how they are kept and shown |
| `function`, `config`, `dispatch`, `harness` | the functions that a model calls, subagents, and the loop of a completion |
| `doc_comment`, `lua_value`, `lua_tool`, `lua_run` | functions in Lua |
| `render`, `error` | display, and what can go wrong |
