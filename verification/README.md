# goose

The logic of an AI agent as a Verus library: what the agent decides is stated in
contracts and proved, and what it does to the world is left to the program around it.

- `src/` is the library. It decides how a reply goes on (`reply`,
  `reply_loop`, `reply_machine`, `reply_parts`, `dispatch`, `permission`, `hooks`), which extensions and tools there
  are (`extensions`, `extension_manager`, `tools`, `env`, `http_client`, `discovery`,
  `mcp_servers`, `code_execution`), how the built-in tools answer (`apps`, `image`,
  `orchestrator`, `schedule`, `summarize`, `doctor`, `recipe`), how providers are
  configured (`providers`, `declarative_providers`, `signup_nanogpt`, `tls`), how model
  files are downloaded (`download_manager`) and how the protocol's schema is put
  together (`acp_schema`). `text`, `json`, `paths`, `patterns`, `times`, `conversation` and
  `tool_args` are what these modules share.
- `tests/` runs the library on concrete values, with the outside crates linked.
- `app/` reads and writes files, starts processes, talks to servers and asks the model.
  It hands plain values to the library and does what the library answers.

A function whose name begins with `law_` states something that holds of several
functions, or of every state; its doc comment says it in words.

What an outside crate computes enters through a few functions whose contracts are
believed: regular expressions, JSON texts, header names and values, addresses, images,
base64, dates, `.gitignore` patterns and ordered maps. Each of them says in its doc comment
which outside function it calls and what it claims of it.
