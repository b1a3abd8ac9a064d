# sst

A simple terminal client for Signal. Its logic is written in Verus: what a
function returns or changes is stated in its contract and proved.

- `src/` is the library: messages, edits, reactions and receipts (`content`,
  `history`, `reactions`), threads and contacts (`ids`, `roster`, `known`), the
  answers to keys, pastes and commands (`app`, `chat`, `command`, `complete`,
  `exec`), the messages that are sent (`outgoing`, `attach`), the lines on the
  screen (`wrap`, `layout`, `scroll`, `ui`) and the output of the command line
  (`cli`, `json`, `times`). Proof functions whose names begin with `law_` state
  what holds across functions.
- `tests/` runs the library on concrete values.
- `app/` is the program around it: arguments, the terminal, files and the
  connection to the service.

What is taken on trust are the contracts of a few calls into `chrono`, `emojis`,
`serde_json`, `uuid` and the standard library. Each stands in a function marked
`external_body`, or in an `assume_specification`, with a comment that says what
it claims.
