# lxmfchat

An LXMF messenger for Reticulum networks, written in Verus. The library holds what the
messenger decides and computes, with its contracts proved:

- `message`, `msgpack`, `stamp`, `sha256`, `float`: LXMF messages, their encoding, and
  proof-of-work stamps
- `outbox`, `inbox`, `threads`, `frames`: delivering messages, taking them in, and what
  every event of the network leads to
- `sync`, `transfer`, `request`: fetching stored messages from a propagation node
- `browser`, `micron`, `document`: reading pages of NomadNet nodes
- `dialogue`, `ui`, `layout`, `chat_api`, `commands`, `picker`: conversations, the
  screen, the keys and the menu
- `connection`, `autoiface`: the connection to a hub, and peers on the local network
- `storage`, `book`, `address`, `announce`, `hex`, `bytes`, `text`: what is kept, and
  what the rest is built from
- `bzip2`: the frame of compressed streams

Sockets, clocks, keys and drawing are left to `app`: on Xous the application itself, and
elsewhere a command line client. `app` asks the library what to do, does it, and hands
back what came of it.
