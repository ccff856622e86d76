# airicode

The logic of a terminal coding agent, verified with Verus: editing tools, provider
protocols, sandbox policies, session plugins and user-interface state.

## Layout

- `src/` is the library. Every function is verified against its contract. What
  the library asks of other crates stands behind small functions whose doc
  comments say what is relied on.
  - `text`, `bytes`, `lists`, `paths`, `glob`, `json`, `digest`, `ids`, `bounded`,
    `environment`:
    the ground that everything stands on.
  - `model`, `history`: messages, tools, events and edits of a conversation.
  - `plugins`: tools, sandboxes, worktrees, logs, skills, summaries and providers.
  - `providers`: chat completions and server-sent events.
  - `utils`: line anchors, points in time, corrections of paths.
  - `ui`: editor, transcript, fragments and the terminal application.
- `tests/` runs the library on concrete values.
- `app/` is the ordinary Rust around it: files, processes, network and terminal.

Functions named `law_...` state what holds of the library as a whole: that what is
appended to a log is read back, that a stream is decoded the same however it
arrives, that a sandboxed path never leaves its project, and the like.
