# RockCast

Internet radio on Google Cast receivers and on the speakers of this computer.

The library in `src/` holds what the player decides and computes, with contracts that
Verus proves:

- `audio`: which format a stream has; titles out of ICY metadata; packets out of Ogg
  pages; ADTS frames; the pace at which samples go out; rings, windows and channels.
- `cast`: the CASTV2 messages (`proto`, `channel`); the dialogue with a receiver from
  the connection to the stream and back (`client`); how receivers are found by
  multicast and by address, and how the reports of both are merged (`discovery`).
- `personal_data`: favourites and history, how they follow the catalog, and what is
  forgotten after a while.
- `app`: the player as its user sees it: what each click and each report changes, and
  what is to be done then.
- `local`, `output`, `observers`, `playback`, `net`, `stations`: outputs, watchers of a
  stream, attempts to play, headers, stations.
- `text`, `order`, `json`, `clock`: what the others rest on. The calls into `serde_json`,
  `time`, `uuid`, `reqwest`, `symphonia`, `ropus` and `fdk-aac` that the library makes
  stand behind small functions whose contracts are taken as given; each says in its
  comment what it claims.

The program in `app/` does what touches the world: the window, files, TLS, HTTP,
multicast, the sound card, and floating-point signal processing. It asks the library
what to do next and does it.

`tests/` runs the library.
