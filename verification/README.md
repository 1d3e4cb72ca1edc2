# miracast

The logic of a Miracast / Wi-Fi Display source, verified with Verus: scanning for
sinks and linking to them through `wpa_cli`, and the RTSP control session that
negotiates and starts the media stream.

- `src/` is the library. Texts are modelled as sequences of characters, maps of
  fields as mathematical maps, and everything that talks to the outside world as a
  state machine that takes what happened and says what to do next.
  - `text`, `number`, `order`, `fields`, `encoding`, `random`: the ground it stands on
  - `error`, `process`, `wpa`: child processes and `wpa_cli`
  - `device`, `peer`, `scan`, `connect`: Wi-Fi Direct peers and links
  - `config`, `params`, `rtsp`, `reader`, `serve`, `session`: the RTSP source
  - `exchange`, `dialogue`: what one side reads of what the other side wrote
  - `cli`, `report`: the commands and what is shown of their results
- `app/` runs processes, sockets and the command line around it.
- `tests/` runs the library.
