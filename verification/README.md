# zumble

The verified core of a Mumble voice server for FiveM.

- `src/` is the library, checked by Verus:
  - `error.rs`: disconnect reasons with their texts, decrypt errors;
  - `clean.rs`: the verdict on each client and the plan of a cleaning pass;
  - `handler/voice_packet.rs`: where a voice packet goes and who hears it;
  - `server/udp.rs`: classification of datagrams, the answer to server-list pings, and
    when a decrypt failure resets a client's crypt state;
  - `server/constants.rs`: server limits.
- `app/` holds the asynchronous tasks (UDP socket loop, cleaning loop, relaying), the
  error types with their messages and the Prometheus metrics; the server state is given
  by the embedding program through the traits of `app/host.rs`.
- `tests/` exercises the library on concrete values.
