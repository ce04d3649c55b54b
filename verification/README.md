# symbiotic

Clipboard sharing between computers, as a verified library and a thin program
around it.

* `src/` is the library, verified with Verus:
  * `protocol/` — the wire format of the messages peers exchange (varints,
    fields, length-delimited frames) and the clipboard and handshake
    messages, with their encoders and decoders proved inverse;
  * `connection/` — peers, the handshake check, and turning changes into
    messages and back;
  * `config.rs`, `settings.rs`, `text.rs` — the configuration file's TOML
    text (parsed by the `toml` crate) and the command line, read into
    settings;
  * `routing.rs` — where each change goes, with the MIME-type filter and
    the size limit;
  * `entries.rs` — clipboard contents as maps from MIME type to data;
  * `platform/` — the decisions of the X11 and Windows back ends: atom
    caches, answers to selection requests, change detection, clipboard
    formats, text and bitmap conversions;
  * `util.rs` — taking the latest value off a channel, content hashes.
* `app/` is the program: argument handling, reading the configuration file, TLS connections, and the
  calls into Xlib and the Windows API.
* `tests/` exercises the library on concrete values.
