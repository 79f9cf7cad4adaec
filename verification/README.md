# forge

The editing logic of the Forge code editor, as a library whose behaviour is
specified and proved with Verus, and a thin executable around it.

* `src/` — the verified library. Each module holds one editor feature:
  bracket matching, indentation folding and guides, comment toggling,
  Emmet expansion, Markdown preview, the command palette, find bar,
  go-to-line prompt, breadcrumbs, gutter breakpoints, the file picker,
  autocomplete popup, context menu, editor groups, cursor movement over
  UTF-8 text, the debugger's breakpoints and views, extensions, git
  status/blame/gutter/diff decisions, UI modes, the AI agent's prompts and
  its request/reply state machine, provider selection, and the ghost-tab
  predictor (a Markov chain over opened files). Specifications are written
  over `Seq`, `Map`-like views and spec functions; the `law_*` proof
  functions state properties that hold across calls.
* `src/text.rs` — the character-level model shared by the features
  (`str::lines`, `trim`, decimal numerals, ...).
* Calls into `regex`, `git2`, `ropey` and a few `std` functions go through
  small trusted wrappers whose contracts name what the outside code
  computes.
* `app/` — command-line entry point and everything that does I/O: reading
  and writing configuration and saved state, git repositories, running
  formatters, HTTP calls to language-model services, and the parts that
  measure in floating point.
* `tests/` — executable tests of the library.
