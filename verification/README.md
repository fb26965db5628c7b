# music_terminal_player

The logic of a keyboard-driven terminal music player for local folders, Telegram channels and
YouTube audio, written in Verus: every function states what it returns, and Verus proves it.

- `src/` is the library: the playback queue and its shuffle, the player as a state machine, menus
  and pickers, catalogs, playlists and settings files, channel identities, language packs, the
  progressive download, the login dialog, SponsorBlock segments, and the text of every screen.
- `app/` is the program around it: the terminal, files, processes, Telegram and the audio output.
- `tests/` run the library on concrete values.

Properties that relate several functions stand as public proof functions next to the functions
they speak of, for example that saved playlists are read back as they were
(`playlist::playlists_round_trip`), or that turning shuffle on and off again changes nothing where
the tracks to come were in order (`player::shuffle_off_restores_the_order`).

Volume, playback share and times read from yt-dlp are floating-point numbers, so `app/` reads and
writes those; the library takes them as text or as whole nanoseconds.
