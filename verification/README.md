# fan-controller

Controls 433 MHz ceiling fans with a software-defined radio. The library in
`src/` holds what is decided, with contracts that Verus proves; `app/` holds the
programs around it.

| Module | What it holds |
|---|---|
| `rx`, `rx_laws` | Decoder of the frames of fan remotes, from blocks of signal and quiet to codes |
| `speed`, `speed_laws` | Speed levels read from decimal numbers of any length |
| `mqtt`, `mqtt_laws` | Home Assistant bridge: from messages to commands, states and publications |
| `discovery`, `json` | What the bridge announces when it connects |
| `homekit`, `homekit_laws` | HomeKit bridge: accessories, speeds and lights |
| `config`, `text` | Configured fans, and text |

Texts are modelled as sequences of characters, what is known of the fans as a map
from names to states, and the decoder as the reception that it has made of the
blocks so far. The modules `*_laws` hold what follows from the contracts for
runs of calls.

What is taken on trust stands in `json` (building and rendering values with
`serde_json`), in `mqtt` (decoding payloads with `String::from_utf8_lossy`) and
in `text` (`String::push`). The numbers in `homekit` are single-precision numbers
given by their bits; the adaptive threshold of the receiver is floating point
and stands in `app/receiver.rs`.
