# rplayer

The logic of a media player, verified with Verus: playlists (with M3U and PLS
files), playback history and resume points, bookmarks, the choice of the next
track, the remote-control routes, subtitle search requests, karaoke files, and
the small formats the player writes and reads.

- `src/` is the verified library. Each public function states what it returns
  or changes; the laws that relate several functions are public proof
  functions next to them (for instance `move_down_undoes_move_up`,
  `saved_progress_reads_back`, `written_colour_reads_back`).
- `tests/` runs the library on concrete values.
- `app/` is a small command-line program around the library: files and
  settings on disk, the HTTP server, the subtitle service, and the values the
  player measures in floating point.

Paths are text. Taking a path apart is done by `std::path`, whose results the
library names (`path_file_name`, `path_join`, ...) rather than restates.
Seconds and other floating-point values are held by their bits (`f64::to_bits`).
