# p2p_download

Verified logic of two downloaders, in Verus:

- `ed2k://` links: the link format, the gateways that serve such files over HTTP, and the order in
  which addresses are tried (`link`, `percent`, `gateway`, `http`, `ed2k`);
- BitTorrent: setting up a session, adding a torrent and watching its progress (`torrent`, `place`,
  `status`).

`text` and `number` hold what both need. Each download is a state machine: `begin_download` gives the
first step, and `step` takes what happened and says what to do next. The crate under `app/` does what
the steps say: it talks to HTTP servers and to the BitTorrent client, writes files and waits.

A gateway is a template with `{hash}`, `{name}` or `{size}` in it, or the address below which
`/hash/<hash>` serves a file. Gateways that are themselves sources of a link are not tried twice.
