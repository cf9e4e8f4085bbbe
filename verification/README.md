# dante_babelbox

Control and monitoring of professional audio devices on a Dante network, as a library of verified
protocol logic and a thin program around it.

`src/` is the library. Every function in it is verified by Verus against its contract; no function
performs I/O. Protocols are state machines that take what arrived and say what to send.

| Module        | What it holds                                                                        |
| ------------- | ------------------------------------------------------------------------------------ |
| `oca`         | OCA objects: classes, values, descriptors, addresses, object numbers                 |
| `ocp1`        | AES70 over OCP.1: values, PDUs, the client, the walk over a device's object tree     |
| `bridge`      | channels as objects, mappings, the router, preamp adapters as objects, plugin hosting |
| `plugin`      | the plugin boundary, the plugins and what they declare, the X32 plugin               |
| `rednet`      | Focusrite RedNet devices: roles, objects, reads and writes                           |
| `osc`         | OSC packets and the X32 family                                                       |
| `allen_heath` | dLive and AHM over MIDI, the DT boxes over ConMon                                    |
| `aphex`       | Aphex preamps over SysEx                                                             |
| `mic`         | radio microphones: Shure (command strings and ACN), Sennheiser, Lectrosonics         |
| `discovery`   | Dante devices: advertisements and the control protocol                               |
| `config`      | the bridge's configuration                                                           |

`text`, `bytes`, `float32`, `address` and `idset` are what these share. Floating-point numbers are
carried as bit patterns; converting them to and from units is left to the program.

`app/` is the program: sockets, timers, files, threads, the plugin loader and the conversions. It
performs what the library decides. `tests/` runs the library on concrete values.

Two outside crates are called from the library, behind functions whose contracts are trusted:
`rosc` for OSC packets (`src/osc.rs`) and `serde_json` for JSON (`src/mic/json.rs`). Three functions
of the standard library are trusted in the same way (`src/text.rs`).
