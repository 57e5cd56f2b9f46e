# otter

A terminal front end for FFmpeg batch transcodes, with its logic proved in Verus.

- `src/` is the verified library: the encoding settings and their validation,
  the FFmpeg command line and its shell-quoted preview, ffprobe report
  interpretation, FFmpeg progress parsing, the file picker, the application's
  state machine (keys, mouse, queue events), the transcode worker's decisions
  (cancel, kill, persist without overwriting, cleanup, queue order), the layout
  of the screens and the text of every card and of the help popup.
- `app/` is the program around it: the terminal session, drawing with ratatui,
  ffprobe and FFmpeg processes, private output directories, directory listings,
  the floating-point size estimate, and the native file dialog helper.
- `tests/` exercises the library from outside.

The library never touches the disk, the clock or a process: it records what it
needs as effects or actions, and `app/` reports the results back through the
library's own methods.
