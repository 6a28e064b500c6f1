# offcode

An offline coding assistant that talks to a local Ollama server, with its logic written
in Verus and proved against its contracts.

- `src/` is the `offcode` library, verified by Verus:
  - `text` — character sequences: trimming, splitting, lines, searching, decimals,
    UTF-8 byte lengths, sorting.
  - `wrap` — cutting text into lines of a given width, and byte offsets in text.
  - `ansi`, `html` — escape sequences removed from command output; HTML fragments and
    pages as plain text; search result pages read.
  - `sandbox` — the path check that a shell command passes before it runs.
  - `tools` — the tools the model may call: their table, how JSON arguments are read,
    what a call asks for, the SSH session it keeps, and the report it gives back.
  - `models` — installed models: sizes and the listing.
  - `chat` — messages, a streamed reply, one round of an agentic turn, compaction.
  - `tui` — the interactive session as a state machine: keys, commands, the worker's
    events, and what the screen shows.
  - `cli` — the command line, the plain prompt loop's commands, and the confirmation of
    tool calls.
  - `config` — configuration defaults.
- `app/` is the program around the library: terminal, files, processes, HTTP, threads.
- `tests/` exercise the library on concrete values.
