# livecapture

The core of a recorder for live streams, verified with Verus. It decides which
bytes go to which file, when a file ends and the next begins, what a request
says and what an answer means. Sockets, files, processes and clocks are left to
the caller, who performs what the core asks for and hands back what came of it.

- `src/` — the verified library
  - recording: `flv`, `flv_frames`, `httpflv` (FLV over HTTP), `hls` (numbered pieces),
    `ffmpeg`, `ffmpeg_args`, `ffmpeg_internal` (a process that records)
  - the time axis and the limits of a file: `timestamp`, `segment`, `time`
  - names of files and the log: `path`, `lifecycle`, `logging`
  - Huya: `huya`, `huya_streams`, `page_json`, `json`, `anticode` (rooms and
    signed addresses), `tars`, `tars_input`, `wup` (tokens), `danmaku` (comments)
  - texts and maps: `text`, `string_map`, `live`
  - `outside*` — calls into other crates; their contracts are believed, not proved
  - `*_laws` — what holds of several functions together
- `tests/` — the library on concrete values
- `app/` — the network, the processes and the files around it
