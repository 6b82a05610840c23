# remux

A shell in a terminal that is shared: on the local screen, and in any number of
browsers that reach it through a `cloudflared` tunnel.

`src/` is the library, verified with Verus. It holds what the program decides
and computes, as functions on plain values:

| module | what it holds |
| --- | --- |
| `input` | keys and mouse reports |
| `local` | the loop around the local screen, as a state machine |
| `sync` | modes and cursor of the outer terminal |
| `render`, `terminal` | drawing the screen and the status bar |
| `modal` | the share dialog |
| `shared_session` | clients, the size of the terminal, the replay of output |
| `protocol`, `session` | messages of browsers |
| `tunnel` | the tunnel's address, and watching over it |
| `cloudflared`, `update`, `archive` | finding and fetching programs |
| `config`, `files`, `uninstall` | settings, paths, shell start files |
| `ansi`, `escape`, `base64`, `text`, `debug` | control sequences and text |

What is proved of several functions together stands as public proof functions
near the end of each module. What is believed of outside crates stands in
private functions marked `external_body`. What is believed of the standard
library stands in two `assume_specification` items, of `String::push` in `text`
and of `from_utf8` in `input`, with the error type of the latter. The comments
say what is claimed.

`app/` is the program around it: files, sockets, processes, the terminal
emulator. `tests/` runs the library.
