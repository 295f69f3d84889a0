# topos_host

The verified core of the Topos native host, which bridges a browser extension
to Chromecast / Google TV devices.

- `src/` is the library, checked by Verus:
  - `text` — character-sequence search and copying helpers;
  - `attributes` — forcing `DEFAULT=YES` / `AUTOSELECT=YES` on subtitle media tags;
  - `links` — proxy links (reference resolution with `url`, percent-encoding with `urlencoding`);
  - `playlist` — rewriting HLS playlists so every URI goes through the local proxy;
  - `protobuf` — varints and the Cast channel's `CastMessage`;
  - `framing` — native-messaging and Cast frames (byte order with `byteorder`);
  - `cast` — MIME type, proxied URLs and subtitle language of a cast;
  - `proxy` — upstream headers, preflight headers, playlist detection, proxy base URL;
  - `devices` — devices found by mDNS;
  - `host` — the host's decisions for each browser message.
- `app/main.rs` is the program: stdin/stdout messaging, the axum/reqwest proxy,
  mDNS discovery, TLS and `rust_cast` connections.
- `tests/` runs the library on concrete inputs.
