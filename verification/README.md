# cosmic_panel

The decisions of the COSMIC panel and dock, written in Verus with their
contracts proved: how the dock hides and places its applets and what it
redraws in a frame, how the panel lays out its three sections and moves
applets into and out of the overflow popups, when a panel hides and shows
itself, how stacked panels make room for each other, what a configuration
change asks of a running panel, which panels an output gets, which applet
receives minimized windows, how applets are launched, and where popups
open.

Layout:

- `src/` — the verified library. Each module starts with a short
  description of what it decides. Where the library calls an outside crate
  (itertools, shlex, freedesktop-desktop-entry) or a std function that Verus
  has no specification for, the call sits in a small trusted function whose
  contract states what the crate documents.
- `tests/` — ordinary Rust tests of the library on concrete values.
- `app/` — the command-line front end: it reads and writes the dock's RON
  configuration under the XDG configuration directory, finds the applets'
  desktop files and reads their text (which the library decodes), and holds
  the floating-point easing of the hiding animation.

The library deals in plain values: Wayland surfaces, outputs and clients
appear as integer identities, sizes and positions as integers, and times as
nanoseconds of one monotonic clock. The Wayland, EGL and GUI plumbing that
carries out the decisions is not part of this crate.
