# Bit to Byte

A terminal messenger for a club, with a small UDP relay server. People register with
the relay, see each other in a People list, and exchange messages that are resent
until the other app returns a receipt.

## Layout

- `src/` is the library, verified with Verus:
  - `state.rs`: people, conversations, drafts, the outbox; `tabs.rs`: the three screens.
  - `presence.rs`: hello and goodbye packets keep the people list up to date.
  - `network.rs`: the client side of the relay protocol (registration, chat, receipts,
    resends, duplicate suppression). It takes the datagrams that arrived and returns
    the packets to send.
  - `relay.rs`: the relay server's registrations and forwarding.
  - `discovery.rs`: presence over a local multicast group.
  - `input.rs`: keyboard and paste handling.
  - `screen.rs`: every text a frame shows, where the notice cards go and how far the
    composer scrolls, decided from the application data.
  - `fizzbuzz.rs`: the counting exercise.
  - `text.rs`, `search.rs`: character and sequence helpers the others share.
- `app/` is the program around it: sockets, the terminal, drawing with Ratatui, and the
  command line (`--name NAME`, `--fizzbuzz`, `--relay [ADDRESS]` for the server).
- `tests/` exercises the library.

Time is counted in milliseconds as `u64` values that the program reads from a
monotonic clock.
