# Masteroids

A multiplayer Asteroids game for egui. One player hosts; the others connect
over UDP, press ready, and the game starts once at least two players are
connected and all of them are ready. While the host's pressure setting is on,
it keeps summoning asteroids for everyone.

## Layout

- `src/` — the rules of the game, verified with Verus:
  - `protocol`: the datagram format, with proofs that decoding gives back
    what encoding wrote;
  - `scheduler`: named timers on a nanosecond clock; each fires when its
    wait has elapsed, once or every wait;
  - `host`: the host's session (connections, readiness, liveness checks,
    scores, targets, attacks, summoned asteroids), as a function from one
    frame's timers and messages to the next state and the messages to send;
  - `player`: the client's session, and what it does with each message;
  - `game`: health, the immunity window after a hit, collected rocks;
  - `pressure`, `dice`: the single-player summoning timer and random sizes;
  - `address`, `screens`, `seqs`: addresses, screen navigation, and a search
    over sequences used by the proofs.
- `app/` — the program: the egui screens, the floating-point physics of
  ships, bullets and asteroids, and the UDP socket.
- `tests/` — tests of the library on concrete values.
