# transbot

A translation robot for HTML, EPUB, MarkDown and plain-text documents that works through an
LLM, with the decisions of every pass verified by Verus.

## Layout

- `src/` is the verified library. Each module states its behaviour in `requires`/`ensures`
  contracts over mathematical models (`Seq`, `Option`, views of the state structs):
  - `strutil`: newline counting and restoring, trimming, decimal numbers, splitting;
  - `config`: the configuration types and the parsing of their names;
  - `settings`: defaults, LLM endpoints and authentication headers, the prompt, URL checks;
  - `route`: which pass handles a document, file and state-file paths, format detection;
  - `llm`: the messages of a request and what is kept of a reply;
  - `progress`: the resumable loop that sends pieces to the LLM, as a state machine;
  - `tagged`: numbered pieces and the reading back of a tagged reply;
  - `html`, `markdown`, `text`, `toc`, `book`: the state machines of the document passes;
  - `mdpass`: the MarkDown parser's events read from a document and folded through the
    numbered-piece state machine, and the writer fed with its decisions;
  - `htmlpass`: the HTML rewriter's reports read from a document and folded through the HTML
    state machines, and the rewriter fed with their decisions.
  Public proof functions named `law_*` state properties that span several functions.
- `tests/` runs the library on concrete values.
- `app/` is the command-line program: argument parsing, file and network I/O, the MarkDown
  writer of the 'byllm' strategy, the EPUB container and the state files. It hands each event
  to the library and performs what the library decides.
