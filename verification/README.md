# yapstack

The decisions of a desktop application that records meetings and dictations, transcribes
them while they run, and keeps them searchable. Everything here is plain values in, plain
values out; each function states what it returns or changes, and Verus proves it.

## The library, `src/`

| Module | What it decides |
| --- | --- |
| `single` | numbers with a fraction, by their bits: order, rounding, sample counts |
| `text` | characters, UTF-8 lengths, decimal numbers |
| `error`, `labels`, `model`, `platform`, `host` | the values that cross the boundary |
| `vad` | the state machine that hears where speech begins and ends |
| `dispatch` | where chunks are cut, and what the microphone's owner changes |
| `backfill` | how recorded history is cut and in which order it is worked on |
| `prompt` | what the engine is told of the text so far, and when that is forgotten |
| `chunk` | requests for the engine, its answers, counters and status |
| `scheduler` | which job is next, shutting down, and one retry after a crash |
| `mic` | which stretches of the microphone belong to dictation |
| `health` | when a stream is restarted and when it is given up |
| `recording` | the file that a session records into |
| `slots`, `start`, `live_loop` | starting, running and ending a live transcription |
| `engine` | which engine is started and what it needs |
| `device_broker` | bursts of device changes and where they are routed |
| `capture`, `tray`, `stream`, `files` | capture replies, the tray, served recordings, files |
| `parts`, `sweep`, `migrations`, `db_service` | the database and the parts on disk |
| `embedding` | vectors of texts: what is written, and how hits are ranked |

Time is a parameter, in nanoseconds since the application began. Samples are counted, not
held: the audio itself stays with the caller.

Functions named `law_...` state what holds across several functions, such as that nothing a
stream recorded is sent to the engine twice.

Four items are taken on trust, each with what is claimed of it: `String::push` and
`String::from_utf8_lossy` of std, the SHA-256 digest of `sha2`, and the percent decoding of
`percent-encoding`.

## Around it

`tests/` runs the library, the SQL it hands out included. `app/` is the application: it
reads, waits, sends and stores, and reaches devices, engines and windows through the traits
of `app/host.rs`.
