# LibreOffice Collab — verified core

Co-editing of LibreOffice documents on an office LAN: a host shares a folder,
speaks WOPI to Collabora Online and announces itself over mDNS; desktop
clients find it, list its documents and open editor windows.

- `src/` — the library, verified with Verus: document ids and the shared
  folder listing (`docs`), WOPI access tokens (`sessions`), the session
  endpoint (`api`), the WOPI decisions (`wopi`), configuration (`config`),
  the mDNS advert (`mdns`) and, for the client, discovery (`discovery`),
  server addresses (`server`), settings, texts and update decisions.
- `app/` — the host program (HTTP server, file system, mDNS daemon) and the
  client's network and file I/O, in ordinary Rust around the library.
- `tests/` — tests of the library on concrete values.

The desktop shell of the client (windows, tray, native notifications and the
signed installer) is not part of this crate: app/ holds the client's network,
discovery, settings and update-check code that such a shell calls.
