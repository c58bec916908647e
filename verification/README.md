# Ayachi door access, verified core

The logic of a network-controlled door lock for the ESP32-S3, written in Verus
and proved against its contracts.

- `src/` is the verified library:
  - `door.rs`: the lock's state machine (stay unlocked, open once, lock, the
    end of the open-once window) and what each event does to the relay and
    the timer.
  - `auth.rs`: HTTP Basic authentication against PBKDF2-HMAC-SHA256 password
    hashes.
  - `image.rs`: the inspection of an application image in a partition
    (header, application descriptor, segments, SHA-256 digest, project name),
    as a machine that asks for flash reads.
  - `system.rs`: the partitions and what is known of them, the upload into the
    next slot as a machine that asks for erases, body reads and writes, and the
    activation countdown.
  - `flash.rs`: how an upload's erase is split into blocks and sectors.
  - `http.rs`: what the endpoints answer and the redirects around an
    activation.
  - `network.rs`: the supervisor that keeps the Wi-Fi link up, and the address
    mDNS announces.
  - `text.rs`, `error.rs`, `digest.rs`: the compact text forms, the error
    names, and SHA-256.
- `tests/` runs the library on concrete values.
- `app/` is the firmware around it: the board, the flash, Wi-Fi, mDNS and the
  HTTP server, which carry out what the library's machines ask for.
