# Steam Achievement Manager for Linux

A tool for managing achievements and statistics in Steam, as an ordinary native
process that talks to the Steam client that is already running. What it decides
is verified with Verus; what it asks of the system is ordinary Rust around that.

```sh
sam                 # browse owned games that have achievements
sam --app 620       # open the editor for one game directly
sam --app 620 --screenshot shot.png   # render, save a PNG, exit
```

Under the name `sam-probe` the same program checks the Steam client of a machine,
read-only, and under the name `sam-survey` its cached schema files.

Steam must be installed natively, running, and signed in. Each game opens in its
own process: `steamclient.so` reads `SteamAppId` when it initialises, and a
process that has bound to one app can never rebind to another.

## Layout

`src/` is the library. It does no I/O and calls no Steam function: where a step
needs one, the library says which, and takes the answer.

| Module | Role |
|--------|------|
| `vdf`, `wire` | Steam's binary KeyValues format: reading it, and what reading has to do with writing |
| `schema` | Achievement and statistic definitions from a cached schema file |
| `paths`, `fs_path` | Locating a Steam installation and the files in it |
| `interfaces`, `client` | Vtable slots, checking them, and opening a session step by step |
| `user_stats` | Which way round the `int32` and `float` overloads are |
| `callbacks` | Draining Steam's callback queue and decoding callbacks |
| `rows`, `editor`, `lines` | The editor: its rows, what it writes in which order, what it shows |
| `library`, `ordering`, `picker` | The picker: which games there are, in which order, what it shows |
| `images` | Which pictures to download, and making them fit |
| `probe`, `survey` | Checking a machine: which app to use, what answers mean, which dialects its schemas are in |
| `options` | The command line |
| `calendar`, `float`, `split`, `text` | Dates, real numbers as bit patterns, and texts |

`tests/` runs the library, and `app/` is the program: windows, files, threads,
downloads, and the calls into `steamclient.so`.

## What is trusted

The proofs rest on the contracts of a few functions from outside: decoding,
measuring, shrinking and copying a picture (the `image` crate), and appending a
character, lossy UTF-8 decoding and lower case (the standard library). Each stands in
`src/images.rs` or `src/text.rs` with a comment that says what is claimed of it.

Real numbers are held as their 32-bit patterns. Their decimal texts, in both
directions, come from the caller.
