# aquilo

An offline stand-in for the cloud behind an Aquilo WiFi septic-tank sensor. The device shows
whatever state the cloud computes and pushes back to it over MQTT; this server computes that
state on the local network, so that the device keeps working without the internet.

`src/` is a library verified with Verus: every function in it is proved to do what its
contract says, without panics or overflow. `app/` is the program around it: sockets, the MQTT
client and the embedded broker, files, the clock, and the command line. `tests/` runs the
library on captured payloads and edge cases.

## The library

| Module | What it holds |
| --- | --- |
| `exact`, `number`, `decimal` | integers of any size, decimal integers as text, decimal fractions |
| `text`, `json` | strings, and JSON documents through `serde_json` |
| `battery`, `calibration`, `history` | battery curve, fill level, pump-outs and the days left |
| `reading`, `state` | the device's `/read` payload, and the `/state` computed from it |
| `config`, `defaults`, `store`, `topics`, `args` | configuration, persisted state, topics, command line |
| `config_file`, `rendering` | the configuration file as lines, and what the rendered one reads back as |
| `mqtt_wire` | the MQTT packets that onboarding reads and writes |
| `firmware`, `server`, `broker` | the `serve` logic |
| `onboard` | the `learn` and `observe` logic |

Levels and distances are exact decimals, not floating-point numbers, so a formula gives the
value that it states, rounded once.

The functions whose names start with `law_` state what holds of the library as a whole: that
a stream of packets may be cut anywhere, that a restart restores the last state, that a fact
learned from its best source is kept, and so on.

## What is trusted

The proofs rest on the contracts of a few wrappers, each with a comment on what it claims:
`String::from_utf8_lossy` and `str::from_utf8` in `text`, the RFC 3339 parser of `chrono` in
`history`, and the values of `serde_json` in `json`.

## Modes

- `serve` keeps the device alive and answers every reading with a retained `/state`.
- `learn` proxies the device to the real cloud once, and writes a configuration and an initial
  state from what it hears.
- `observe` does the same without the cloud.
