# soxbar

A control centre for the `play` program of SoX: a GTK window with buttons
for the playlist, a scrolling one-line player display, and small helper
programs that prepare the playlist, start and stop playback, and install
the suite.

- `src/` is the verified library: line-oriented playlist files
  (`lines`), stepping forward and back through the playlist and its history
  (`playlist`), the player display (`ticker`), command lines and setup
  decisions (`commands`), and character-level string helpers (`text`).
- `app/` holds the programs around it: the GTK window, file and process
  handling, and the polling loop of the player display. They share one
  executable; the name it runs under picks the program.
- `tests/` runs the library on concrete values.
