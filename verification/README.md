# srt

The verified core of an SRT sender, listener and stream router, written in Verus.

- `src/buffer` is the sender's buffer: `SendBuffer` queues the packets of messages, hands
  them out once and in order, retransmits those that the receiver reports lost, lets go of
  those that are acknowledged, and drops messages that come too late. `buffer::model` says
  what a buffer holds and what each operation does to that, `buffer::laws` what holds over
  several operations, `buffer::messages` what holds of message numbers, and
  `buffer::runs` what holds over any run of operations.
- `src/encapsulate.rs`, `src/loss_list.rs`, `src/packet.rs`, `src/numbers.rs` and
  `src/time.rs` are what the buffer is made of: cutting messages into packets, compressed
  loss lists, packets, wrapping sequence and message numbers, and timestamps.
- `src/router` is the stream router: who publishes, which sources there are, who listens to
  them, what is to be done about each request, and what is forgotten when.
  `router::laws` and `router::runs` state what holds over several events.
- `src/access.rs` and `src/source_id.rs` read the source that a peer asks for from the
  stream identifier of its request.
- `src/listener` keeps the connections of a listener, decides what is to be done for each
  action of the protocol, and which input answers it.
- `src/table.rs` is the map that the router and the listener keep what they know in.

`app` is the asynchronous side: tasks, channels, clocks and signals. It performs what the
library decides. The SRT transport is reached through the traits in `app/transport.rs` and
`app/listener.rs`.

Payloads are `bytes::Bytes`, of which `src/packet.rs` states what the library uses, and
source names are put together by `itertools::join`, which `src/source_id.rs` wraps.
