# torrentfs

The rules of a FUSE filesystem that serves BitTorrent content, verified with
Verus.

- `src/` is the library. Everything in it is verified: what a read waits for and
  how long, which pieces it makes the swarm fetch, how the bytes of pieces make up
  an answer, what a directory lists, how torrents get into the database and out
  of it, what the `.stats` files say, how torrent files are read and written, and
  how the local tracker keeps its swarms.
- `tests/` runs the library.
- `app/` is the program around it: arguments, the configuration file, SQLite, the
  engine thread, the kernel's requests, sockets. It holds no rules of its own.

A law that spans several functions stands as a public proof function whose name
begins with `law_`. What is believed of other crates and of the standard library
without proof is marked `external_body`, `assume_specification` or `uninterp`,
with a comment that says what is claimed.
