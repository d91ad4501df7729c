# mnp_core

Major Network Protocol (MNP), laboratory stage: a verified core library and a
thin QUIC peer around it.

- `src/` (verified with Verus)
  - `frame` — the 20-byte-header wire frame and its eleven types (HELLO to
    GOODBYE, the identity, access and DATA frames); encode / decode with
    exact contracts and both round-trip laws.
  - `session` — the session state machine; refused events change nothing,
    and no sequence of events changes lab auto-accept.
  - `identity` — announce / challenge / proof codecs, the signed transcript,
    software Ed25519 keys and proof verification (fail closed: an OpenPGP
    principal signature is only pending until GnuPG accepts it).
  - `crypto` — the trusted boundary to `ed25519-dalek` and `rand`.
  - `access` — service ids, the lab policy (echo only) and access payloads.
  - `observer` — the snapshot codec and the readers of `/etc/hostname` and
    `/proc/net/if_inet6` text.
  - `nitrokey` — reading `gpg` output for the hardware human key, and the
    software device half of that identity.
  - `lab` — the HELLO exchange decisions and the IPv6-only rule.
  - `text` — `lines` / `trim` / `split_whitespace` over UTF-8 bytes.
- `app/` — the `mnp server|client` binary: Tokio, Quinn, rustls, rcgen,
  socket2, GnuPG processes and host files.
- `tests/` — unit and scenario tests of the library.
