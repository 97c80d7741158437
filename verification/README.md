# pocagentskills

A terminal chat agent that streams replies from an OpenAI-compatible chat API, offers the
model local tools (`Read`, `Write`, `Bash`, `ReadSkill`), asks the user before any tool
runs, and lists the skills found under `.skills/*/SKILL.md` in its system prompt.

The logic is a Verus library under `src/`, proved against its contracts:

- `wrap`, `text`: wrapping chat text and the typed message to a width; line counting.
- `view`: the chat window's message log (fed by start/stream/end events) and its input and
  scroll state (keys, mouse wheel, layout), and the keys that answer a tool approval.
- `chat`: the events that show the agent's messages in the chat window (start, streamed
  text, end), each under its stream's number; `app/` sends them through the channel.
- `agent`: assembling a streamed reply and its tool calls, the conversation's messages
  (every turn's tool calls answered right after it), the decision taken on each tool call,
  and what is recorded about it.
- `tooling`, `arguments`, `handlers`: the tools offered to the model, their registry, the
  arguments the model passes, and what each tool asks for and replies.
- `skills`: the front matter of a skill file and the system prompt.
- `json`, `assoc`: JSON values as plain data, and string-keyed association lists.

`app/` is the program around it: terminal drawing and events, the HTTP stream, files,
processes, environment and YAML parsing.

Configuration is read from `.env`: `OPENROUTER_API_KEY`, `OPENROUTER_MODEL`, and
optionally `OPENROUTER_BASE_URL` (default `https://openrouter.ai/api/v1`). Inside the UI,
type a message and press Enter to send it, Ctrl+X to exit, PageUp/PageDown or the mouse
wheel to scroll, and `y`/`n` (or Escape) to answer a tool approval.
