# ani-rust, verified

A terminal tool that searches the AnimeX catalog, inspects an episode's
sources and downloads the media one is authorized to save. It refuses
encrypted and DRM-protected sources.

The logic is a Verus library (`src/`), each function proved against its
contract:

| Module | What it decides |
| --- | --- |
| `cli` | option values, the quality syntax, episode lists such as `1,3,5-10` |
| `hls` | playlist attributes, refusal of keys and content protection, variants, quality selection, export with absolute URLs, the restricted local playlist that ffmpeg reads |
| `api` | request pacing, transfer size limits, retries with exponential backoff, header validity, saved and API resolver responses |
| `downloader` | folder names, the stream of an episode, manifests and the skip of complete episodes, detection of protected MP4 files |
| `subtitles` | which tracks are saved and under what name |
| `catalog` | search checks, the GraphQL reply, the listing of results |
| `app`, `screen`, `tui` | the interactive session as a state machine, and the text of each screen |
| `filenames`, `text`, `urls`, `models` | portable names, text and URL helpers, resolver records |

`app/` is the program around it: argument parsing, HTTP transfers, files,
ffmpeg, JSON, and the terminal.

Run `cargo test` for the tests in `tests/`.
