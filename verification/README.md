# akagi

The Riichi City side of a mahjong assistant, as a verified library: what a bot's
decision looks like on the wire, when the next round may be advanced, and how a
table is rebuilt after a reconnect.

## The library (`src/`)

- `tiles`, `events`, `json`, `text`, `lists`: tiles and card codes, mjai events,
  JSON values, and small tools on texts and lists.
- `rack`, `requests`: the client's tile rack and the requests that perform a
  decision.
- `planner`: which decisions are ours, how long to wait, and what to send.
- `restore`: the events that rebuild a table from a reconnect snapshot, or the
  reason why the snapshot is refused.
- `vision`, `window`: the settlement OK button in a captured frame, and the
  client's window on the desktop.
- `round_advance`: when the button may be pressed.
- `session`: the auto-queue session and the wait between games.
- `overlay`: the suggestion overlay's window.

Every executable function states what it returns; proof functions named `law_..`
state what holds across functions. What the library takes on trust of `std` and
`rand` stands in `session` and `window`, each with a comment that says what is
claimed.

## Around it

`app/` captures the screen, runs the event loop, owns the overlay window and
turns packets into bytes. `tests/` runs the library.
