# ashot

A screenshot, annotation and screen-recording tool for Linux/Wayland, for
people and for programs: `ashot capture`, `ashot annotate` and `ashot record`
work without a window and speak JSON, and `ashot ui` opens the desktop app
(toolbar, region overlay, annotation editor, recorder, video editor).

The library in `src/` is verified with Verus. It holds everything that decides
or computes:

- `spec`, `color`, `render`: the annotation spec, marker numbers, colors.
- `pixmap`, `capture`, `geometry`: pictures, cropping, monitors, fitting.
- `record`, `recorder`, `tray`, `micmon`: pipelines, the clock of a recording
  and its controls, the check of the microphone.
- `captions`, `srt`, `audio`, `thumbnails`, `player`, `video`, `json`: formats
  and streams of the video tools.
- `overlay`, `launcher`, `editor`, `draw`, `theme`: the windows as states and
  what each event makes of them.
- `video_editor`: segments, zooms, undo, timeline, preview and inspector.
- `cli`, `clipboard`, `timeline_media`, `error`, `text`, `math`: what the others
  stand on.
- `binary`: products and quotients rounded as binary fractions are.

Times are nanoseconds and lengths in windows and videos are 1/256 pixels, so
that the library computes with whole numbers only. Laws that relate several
functions are the public proof functions named `law_...`.

PNG coding, JSON reading and the quoting of a refused color are calls into
`tiny-skia`, `serde_json` and the standard library; the contracts of those calls
are trusted.

`app/` is the program around the library: the command line, files, processes,
the desktop portal, drawing with floating-point numbers, and the windows.
`tests/` runs the library on concrete values.
