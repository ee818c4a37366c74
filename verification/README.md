# RoostBar

A thin, glanceable status bar for **Huginn** on **Raven Linux**: one strip of
26 px in a `zwlr_layer_shell` exclusive zone, with the date on the left and
Wi-Fi, Bluetooth, volume, battery and clock on the right. A click on the clock
opens a panel with the notifications that Huginn holds.

What the bar decides is a library, written in Verus: each function states what
it returns or changes, and that is proved. The program around it talks to the
compositor, the buses, the sound servers and the files.

| Where     | Action       | Effect                                                        |
|-----------|--------------|---------------------------------------------------------------|
| Volume    | scroll       | ±5 % (`volume_step`)                                          |
| Volume    | click        | toggle mute                                                   |
| Bluetooth | left click   | connected → disconnect; off → power on; idle → connect        |
| Bluetooth | middle/right | toggle adapter power                                          |
| Clock     | left click   | the panel: time, date, notifications                          |

```
roostbar vol up | down | mute | get
roostbar bt list | on | off | scan | pair | connect | disconnect | forget
```

## Layout

- `src/bar.rs` — the modules: what they say, where they stand, what a click or
  a scroll does, and when to draw
- `src/panel.rs` — the clock panel: heights, layout, scrolling, the pointer
- `src/painting.rs` — what is painted on both, in order
- `src/render.rs` — the ARGB canvas
- `src/lettering.rs` — which face draws which character; text cut to fit
- `src/clock.rs` — the time and the date, and how long ago something was
- `src/notifications.rs` — Huginn's notification centre
- `src/bluetooth.rs`, `src/bluetooth_cli.rs` — BlueZ, and `roostbar bt`
- `src/audio.rs` — the ALSA mixer's arithmetic, and the choice of a backend
- `src/pipewire_cli.rs` — PipeWire's objects as `pw-dump` tells of them
- `src/pipewire_audio.rs` — the same from a PipeWire main loop
- `src/json.rs`, `src/text.rs` — values and strings
- `src/config.rs`, `src/system.rs`, `src/session.rs` — the settings, the
  battery and the Wi-Fi, and starting up
- `app/` — the program

A lemma whose name begins with `law_` states what holds of the library as a
whole.

Positions are whole numbers: steps of 1/1280 of a logical pixel. Volumes of
PipeWire's channels are 32-bit floats and stand for themselves by their bits.
Coverage of a pixel, the width of a glyph and the cube root of a volume are
floating point and are worked out in `app/`.
