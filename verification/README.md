# siren

A music player for the terminal. mpv plays on this machine, HEOS speakers play over the
network; free and legal music comes from the Internet Archive and ccMixter.

## Layout

- `src/` is the library: everything that the player decides and computes, with contracts that
  Verus proves. It touches no file, socket, process or clock.
- `app/` is the program around it: the command line, files, sockets, processes, the clock, the
  terminal, and what is floating point (the spectrum, clocks, progress).
- `tests/` runs the library on concrete values.

## The library

| Module | What it holds |
|---|---|
| `text`, `nums`, `paths`, `urls`, `order` | texts, numbers, paths, addresses and sorting over sequences of characters |
| `json` | JSON values; reading and writing them is left to `serde_json` |
| `config` | the configuration: defaults, reading, one key at a time |
| `places` | where files stand |
| `library` | what the library roots hold, and which tracks a query means |
| `player` | what is said to mpv, and what its answers mean |
| `queue`, `playlist` | the session queue, saved playlists, and what playing them asks of mpv |
| `heos`, `dlna` | requests to a speaker, its replies, and casting a file to it |
| `output` | one channel for whatever is played |
| `meta` | tags and their cache |
| `radio` | community stations and favourites |
| `trove`, `download` | searching and downloading |
| `spectrum` | stored spectra, the order of the transform, and which are kept at hand |
| `cli`, `commands` | the commands, as conversations with whoever runs them |
| `tui`, `screen` | the terminal interface: its state, its keys, and what it shows |

A command or a cast that alternates decisions and outside work is a function from what is known
to what is asked for next; `app/` answers and calls it again.

## What is trusted

The contracts of a few calls are believed without proof: the Unicode tables and the lossy decoder
of the standard library (`text`), and reading and writing JSON by `serde_json` (`json`). Each
stands in a function of its own, whose comment says what is claimed.
