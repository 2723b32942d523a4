# wisp

A clipboard history, memo snippets and a small IP tool for the Windows desktop,
with the logic proved in [Verus](https://github.com/verus-lang/verus).

## Layout

- `src/` is the library. It holds every rule of the program and does no I/O:
  time, answers from the network and what is on disk come in as plain values,
  and what has to be done goes out as plain values.
  - History: `clip`, `store`, `store_laws`, `service`, `like`, `watcher`
  - Handing entries back: `clip_write`, `paste`, `retry`
  - Pictures and files: `picture`, `path`, `path_laws`, `data_dir`, `ico`, `assets`
  - Memos: `memo`, `memo_store`, `memo_service`
  - Addresses and latency: `ip`, `ip_addr`
  - Pages: `home_view`, `clipboard_view`, `memo_view`, `ip_view`,
    `settings_view`, `wisp_view`, `shell`, `selection`
  - Settings: `config`, `hotkey`, `theme`
  - Text, order and arithmetic: `text`, `order`, `rounding`
- `tests/` runs the library.
- `app/` is the program around it: SQLite, files, HTTP, the Windows clipboard
  and the windows themselves.

## Reading the contracts

Each data type has a view onto plain mathematical values (`Seq`, `Map`, `int`),
and the contracts speak of those. What should hold of the library as a whole
stands as public proof functions next to the functions they are about, the ones
on the history in `store_laws` and those on paths in `path_laws`. Functions marked `external_body` call an outside
crate or the standard library; their doc comments say what is taken on trust.
