# klavier_jack

Plays scores of [klavier-core](https://crates.io/crates/klavier-core) on a MIDI instrument through
the JACK audio server. The library is verified with [Verus](https://github.com/verus-lang/verus).

## Time

- Ticks per quarter note (TPQ): 240
- A tick takes `sampling rate * 60 / tempo / TPQ` cycles.
- In a cycle `tempo * TPQ / sampling rate / 60` ticks go by.

Divisions round down, so a position that is reported can be one tick behind. `timing` states both
formulas for whole scores, with their tempo changes and repeats.

## Layout

- `src/player.rs`: commands, the state of the process callback, what is written, what is reported
- `src/tracker.rs`: what is being played, and which requests are taken
- `src/prepared.rs`, `src/score.rs`: scores, and what is relied on of klavier-core
- `src/messages.rs`, `src/timing.rs`: MIDI messages by cycle; ticks and cycles
- `src/client.rs`: the client of the server, and doubles for where there is none
- `src/laws.rs`, `src/timing_laws.rs`: what holds over several calls
- `app/`: the JACK client, the channels and the threads

The functions that are relied on without proof are those of `src/score.rs` that call klavier-core
and klavier-helper. Each says in its comment what is claimed of the function that it calls.

## Running

JACK has to be installed (`libjack-jackd2-dev` on Debian) and running before a player is opened.
Connect the port `MIDI OUT` of the application to the instrument.
