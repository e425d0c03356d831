# dictate-desktop

A push-to-talk dictation daemon for Wayland desktops: it records while a key is held, has the
recording transcribed by one of four services, and delivers the text to the focused application.

- `src/` is the library. It decides and computes: settings and commands, the choice of models, what
  is sent to a service and what its replies mean, the cutting of utterances, what the overlay and the
  tray show, and how a text is delivered. Every function states in its contract what it returns, and
  Verus proves it. The proof functions named `law_*` state what holds of several functions together.
- `app/` is the program around it: capture and playback, files, sockets, network, Wayland, drawing.
- `tests/` runs the library on concrete values.

What the library has from other crates (`serde_json`, `toml`, `hound`) and from the tables of the
standard library is called through small functions whose contracts are not proved; each says in its
comment what it claims.
