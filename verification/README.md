# rclippy

Text clipboard sharing between two paired computers on the same LAN or VPN,
over TLS 1.3 with pinned self-signed device certificates, after a one-time
pairing with a short code.

`src/` is the library, verified with Verus: the wire framing, the JSON forms
of the secret vault and of the pairing transcript (the vault written
compactly and read back from any JSON text that `serde_json` reads as one), the pairing handshake as
a state machine with its key derivation and proofs, the echo suppression and
status rules of the sync loop, the configuration rules and the `ip:port`
parser, the tray icon choice and menu commands, and the Windows installer's
registry commands and scripts. The calls into the cryptography crates
(`sha2`, `hmac`, `hkdf`, `x25519-dalek`, `base64`, `rand`, `rcgen`) sit
behind small trusted functions in `src/crypto.rs`, each stating what the
crate documents.

`app/` is the program around it: the window (`eframe`), the Tokio tasks and
TLS connections, the keychain, the config file, autostart and the installer
runner.

`tests/` runs the library on concrete inputs.
