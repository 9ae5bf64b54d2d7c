# studybuddy

Flashcards out of Markdown notes: a feeder pushes notes, the server cuts them
into chunks, asks a language model to propose cards for each chunk, and keeps
them until they are accepted or rejected. Accepted cards come up for review on
the SuperMemo SM-2 schedule.

The rules stand in a library that is verified with Verus; the rest is ordinary
Rust around it.

## Layout

- `src/`: the verified library
  - `ingest/`: notes to chunks (frontmatter and its entries, Obsidian syntax,
    sections, tags)
  - `llm/`: prompts, the Ollama protocol, fields of JSON values, when to try again
  - `store/`: what a store is, the in-memory store, the layout of a store on disk
  - `scheduler.rs`: when a card comes up again
  - `api/`: what each endpoint decides
  - `cli/`: the review and curation sessions, and what they print
  - `watcher.rs`, `path.rs`: walking a vault, and names of notes
  - `cloze.rs`, `client.rs`, `config.rs`, `wire/`, `model.rs`, `error.rs`, `text.rs`
  - `trusted.rs`: every statement that is believed and not proved: what the
    outside functions do that the library calls
- `tests/`: tests of the library
- `app/`: the programs: the HTTP server, the `sb` command line, and the vault
  watcher; file and network I/O, serialisation, and the floating-point part of
  SM-2

The proof functions named `law_...` state what holds across functions; each
stands in the module that it is about.
