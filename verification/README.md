# dsh-rs

An agent harness: a model is asked, answers with text or tool calls, the tools
run, and every step of it is written to an append-only session log.

`src/` is the library. All of it is verified with Verus: what a function returns
or changes is stated in its contract, and what holds across functions is stated
in public proof functions whose names start with `law_`.

| module | what it holds |
| --- | --- |
| `types` | messages, stream chunks, session events, tool results, agent options |
| `llm` | assembling streamed blocks, provider routes, the mock provider, request bodies and server-sent events of OpenAI-compatible endpoints |
| `session` | the event log and its message history, the store of live sessions, session files and their repair, renderings |
| `tools` | the registry and its guarded pipeline, the built-in tools, glob patterns, the walk over files |
| `agent` | the inbox and its driver, the turn as a state machine, the system prompt |
| `bundle` | configuration, the base bundle and its contracts, plugins in shared libraries |
| `plugin` | the buffer contract of such plugins, and an example of one |
| `api` | service names, the interface of the system-prompt service, typed events, plugin manifests |
| `cli` | arguments, profiles, transcripts, the chat state and the terminal chat |
| `json`, `text`, `paths`, `ordered_map` | what the rest is built on |

Apart from reading the clock the library performs no I/O. Where the harness alternates between outside work
and decisions (a turn, a tool call, a walk over directories), the library holds
the state and asks for the next piece of work; the answer is an event that it is
stepped with.

What it takes from other crates stands behind a few small functions whose
contracts are believed, not proved; the doc comment of each names the outside
function and says what is claimed of it.

`app/` is the `dsh` program around the library: files, processes, HTTP, the
terminal, and the JSON forms of the library's types. `tests/` runs the library.
