# Local Agent

A coding agent for the terminal that works with a language model behind an OpenAI-compatible
server, such as a local llama-server.

The decisions of the agent are a Verus library in `src/`: every function there has a contract
that Verus proves, but for a few wrappers around outside calls, which are trusted. The program in
`app/` reads, writes, runs and sends, and asks the library what to do next.

| Module             | What it decides                                                        |
| ------------------ | ---------------------------------------------------------------------- |
| `rounds`           | the loop of the agent: compaction, request, tool calls, and again      |
| `agent`            | system prompt, plan mode, what a tool call leads to, what users see    |
| `tools`            | shell commands, files, listings and searches, one request at a time    |
| `listing`          | the order and the lines of a directory tree, and the walk through it   |
| `paths`            | which paths lie within the workspace                                   |
| `context`          | clearing old tool results, and beginning anew with a summary           |
| `llm_client`       | messages, settings, retries, and the assembly of a streamed reply      |
| `tool_call_stream` | the assembly of tool calls that arrive in fragments                    |
| `skills`           | front matter, the registry of skills, and the `load_skill` tool        |
| `todo_manager`     | the todo list and the `todo_write` tool                                |
| `repl`             | the lines that users type                                              |
| `schema`           | tool definitions                                                       |
| `json`             | JSON values, and the conversions to and from `serde_json`              |
| `text`             | trimming, searching, splitting, joining and cutting                    |

Public proof functions whose names begin with `law_` state what holds across functions: that
plan mode starts no tool that writes, that every tool call gets one result under its own id, that
no tool but the shell touches a path outside the workspace, that clearing keeps all ids and never
makes a conversation larger, and more.

What the library takes on trust from outside is marked `external_body` or stands in an
`assume_specification`, in `json` and `text`; each such item says what it claims.

## Settings

| Variable          | Default                    |
| ----------------- | -------------------------- |
| `LLM_BASE_URL`    | `http://localhost:8080/v1` |
| `LLM_API_KEY`     | `sk-no-key-required`       |
| `LLM_MODEL`       | `any-model-name`           |
| `LLM_MAX_TOKENS`  | `32768`                    |
| `LLM_TEMPERATURE` | `0.6`                      |
