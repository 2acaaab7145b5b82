# radio_utils

Amateur-radio utilities whose logic is verified with Verus.

| Directory | What it holds |
|-----------|---------------|
| `src/keyer` | Morse keyer: timing, engine, paddles, MIDI bindings, the laws of keying |
| `src/decoder.rs` | Morse decoder |
| `src/protocol` | host side of HPSDR Protocol 1 and 2: packets, discovery, pacing |
| `src/emulator` | emulated Hermes and Hermes Lite 2: server, clients, echo |
| `src/ring.rs`, `src/clock.rs`, `src/protocol/tx_ring.rs` | the outside crates that the library leans on |
| `tests` | tests of the library |
| `app` | the emulator program and the I/O around the library |

Samples are integers in the library. `app` turns them into floating-point numbers,
adds noise, shifts echoes to the frequency of a receiver and reads the power meter.

Run the emulator with

    radio-utils-emu --radio hermeslite --echo-live

Every public function of `src` has a contract. What has to hold across several
calls stands in public proof functions, for instance:

* `keyer::laws`, `keyer::mode_laws`: key-down and key-up alternate, held paddles and
  squeezes keep exact time, each mode ends an element as it should.
* `keyer::text_laws`: a queued text is sent completely, mark by mark.
* `keyer::session_laws`: over any sequence of calls outputs alternate, the recorded
  transitions are the last moves of the key, and the dead zone is ignored outside
  iambic B.
* `decoder`, `decoder_laws`: a text keyed with exact timing is decoded, what the
  keyer makes of a text is read back, and silence adds at most one character and
  one space.
* `protocol::protocol1`: packets are numbered without gaps. What waits in the client
  and what it fetches from the ring goes out in order, no sample lost or sent twice,
  and voice is not padded with silence.
* `protocol::tx_ring`: what comes out of the ring is what was handed over, in order.
* `emulator::laws`: what the host sends is what the emulated radio hears, and the
  other way round.
* `emulator::echo_laws`: concurrent transmitters add up, and a short pause is kept.
* `emulator::echo_session_laws`: a whole transmission becomes a loop, and live
  playback gives consecutive samples, a little later.
