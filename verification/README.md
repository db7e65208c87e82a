# ArenaNext

A companion for the Arena mode of Hearthstone. It follows the game's log files, keeps the state of
the draft and of the deck, reads the offered cards and the deck list off the game's window, rates
what is offered, and shows it in an overlay.

- `src/` is the library. It is written in Verus: every function has a contract, and the laws of the
  library are public proof functions beside the code that they speak of.
- `tests/` runs the library on concrete values.
- `app/` is ordinary Rust around the library: files, sockets, the network, the command lines of the
  native client and of the background service, floating point, and, on macOS, the overlay and the
  capture of the game's window.

## Modules

| Topic | Modules |
| --- | --- |
| Texts and tables | `text`, `text_map`, `single` |
| Card data | `card_data`, `fingerprint` |
| Log files | `log_component`, `log_reader`, `log_parser`, `pattern`, `merge`, `session` |
| Following a session | `observer`, `tail_attach`, `checkpoint`, `following`, `live`, `tailer`, `daemon` |
| Finding the game | `paths`, `ini`, `log_config` |
| State of the game | `state`, `snapshot`, `rules` |
| Deck analysis | `analysis`, `deck_profile`, `offer` |
| Ratings | `ratings`, `composite`, `imports`, `scoring` |
| Reading the window | `frame`, `recognition`, `sidebar`, `offer_ocr`, `capture_workers` |
| What is shown | `overlay`, `draft_view`, `popup` |
| The client | `options`, `client` |

## What is trusted

The library believes, without proof, the contracts of a few functions that it calls: the `regex`
crate's matching, `chrono`'s reading and writing of dates, and a handful of functions of the
standard library on characters and texts. Each stands behind one item whose comment says what is
claimed of it.
