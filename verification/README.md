# lae_tui

The verified core of LAE, a terminal FLAC player that drives a C audio engine
through ALSA or PipeWire and shows time-synced lyrics and album art.

`src/` is the library, proved with Verus:

- `text`: character-level splitting, line breaking and trimming, as `str` does them.
- `truncate`: fitting a labelled value into a number of terminal cells.
- `lrc`: the time-tagged lines of an LRC lyric file.
- `lyrics`: the `.lrc` path of a track, the LRCLIB query URL, and the lyrics in its reply.
- `sort`: stable sorting by key, ascending or descending.
- `playlist`: the track list, its FLAC filter, ordering and navigation.
- `menu`: the directory browser's entries, selection moves, scrolling and the search filter.
- `ui`: the screen state and how keys, the mouse wheel and the passing of time change it.
- `art`: the Kitty graphics escape sequences for album art and where the art goes.
- `output`: which kind of DAC output is reported.

`app/` is the program around it: the terminal, the audio engine's C interface,
the file system, the network and the floating-point display values.
