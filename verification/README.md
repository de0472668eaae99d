# lean-goalview

The goal state of Lean 4 for editors that cannot host the infoview. A proxy sits
between the editor and `lake serve`; a native window beside the editor shows the
infoview, a markdown file and hovers show the goal as text, and a debug adapter
shows it in the editor's debug panel.

`src/` is the library: the logic of these programs, written and proved in Verus.
`app/` holds the programs themselves: threads, sockets, files and the window, with
which port is free and what is tried to open the infoview. `tests/` runs the library on concrete messages.

| Module | What it holds |
|---|---|
| `text` | trimming, splitting, searching, decimal numbers |
| `json` | JSON values, to and from text through `serde_json` |
| `frame` | `Content-Length` framing |
| `table` | a map keyed by text |
| `ids` | a set of request ids |
| `state` | what the proxy remembers between messages |
| `render` | the goal file and what hovers show |
| `snapshot` | the goal state as JSON |
| `bridge` | infoview clients on the server's connection |
| `session` | what each message of editor and server changes, and where it goes |
| `publish` | one turn of the proxy's loop |
| `debug`, `adapter` | the debug panel |
| `http` | the server of the infoview |
| `paths` | programs, sockets, files, the package root |
| `window` | the native window |
| `extension` | what the editor extension tells the editor |
| `laws` | what holds across messages |

## Configuration

| Variable | Default | Meaning |
|---|---|---|
| `LEAN_GOALVIEW_FILE` | `<workspace>/.goalview.md` | the goal file |
| `LEAN_GOALVIEW_LAKE` | `lake` on the search path, else `~/.elan/bin/lake` | the Lake program |
| `LEAN_GOALVIEW_ROOT` | found | the directory to run `lake serve` in; `--root` goes before it |
| `LEAN_GOALVIEW_WEBUI` | `~/.local/share/lean-goalview/webui` | the pages of the infoview |
| `LEAN_GOALVIEW_WINDOW` | beside the proxy, else on the search path | the window program |
| `LEAN_GOALVIEW_NO_OPEN` | unset | do not open the window at the start |
