# dh-p2p

A tunnel from local TCP ports to a Dahua camera behind a NAT. The camera is found by its serial
number through the Easy4IP cloud; the streams then run inside PTCP, a small TCP-like protocol over
UDP, either straight to the camera or through a relay.

The protocol and every decision around it are a library that is verified with Verus. It does no
input or output: it says what to do next, and is told what came of it. `app/` opens the sockets,
runs the tasks and performs what the library asks for.

## Layout

`src/transport/` - how the tunnel is set up and what goes through it:

- `ptcp` reads and writes packets and keeps the counters of a session; `ptcp_laws` states what
  holds of both directions.
- `request`, `response`, `xml` are the messages to the cloud and their answers; `xml_laws` states
  that a written body is read back.
- `direct` holds the datagrams that open the direct path.
- `handshake` is the whole handshake as a state machine; `retry` says how often and how long a relay
  server is asked, `release` how a relay session is given back. `handshake_laws` states what holds
  of every run.

`src/` - the tunnel once it stands:

- `buffer` puts late packets back in order (`seq_order` compares wrapping sequence numbers,
  `sorted_keys` walks an ordered map); `buffer_laws` states what it keeps.
- `channel` is the bounded queue of one client, `realms` the table of all connections;
  `realm_laws` states that no client can hold up another.
- `tunnel` turns events into packets and packets into frames, `clients` and `accept` look after the
  local connections, `run` and `supervisor` after one run and the restarts between runs.
- `config`, `options`, `health`, `metrics`, `probe`, `fdlog`, `shutdown` are settings and reports.
- `text`, `bytes`, `fields`, `time`, `error`, `random` are what the rest is built from.

`tests/` runs the library on concrete values.

## What is trusted

The functions marked `external_body` and the items `assume_specification`: the XML reader, SHA-1,
base64, lossy UTF-8 decoding, random numbers, the clocks and `String::push`. The doc comment above
each says what is believed of it.
