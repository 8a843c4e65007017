# mlm

The rules of a library of audiobooks and ebooks that come from a torrent client
and from folders of purchased books: which library takes a torrent, where its
files go, what is written of it, and what the web pages list.

- `src/linker`: paths and formats, torrents, relinking, and folders.
- `src/server`: the server's run over a client's torrents, its requests to the
  client, its reports on the disk, and a made-up tracker and client.
- `src/web`: the pages of torrents and of torrents selected for download.
- `src/text.rs`, `src/path.rs`, `src/order.rs`, `src/ids.rs`, `src/model.rs`: what
  the others are made of.
- `src/outside.rs`: the calls into other crates, with what is believed of them.
- `app`: the disk, the client, the tracker, HTTP and the browser.

Each function of the library states in its contract what it returns, and Verus
proves it. A step function takes a state and an event and returns the next state
and an action; `app` performs the action and reports the next event.

Paths and file names follow the rules of Unix on every system: `/` alone
separates, and no name is reserved. Only `windows_fs_path` and the file names of
a torrent client know the separators of Windows.

A search is for a text of at most 512 characters (`MAX_QUERY`).
