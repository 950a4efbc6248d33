# tap-tunnel

TCP and UDP sockets inside a network namespace, without special privileges.
A proxy joins the namespace and opens a TAP interface there; the client runs a
userspace TCP/IP stack and exchanges Ethernet frames with the proxy.

- `src/` is the verified library: addresses and their texts, the messages
  between client and proxy, the socket stack on top of `smoltcp`, and the
  decisions of the relays, the handshake and the command line.
- `app/` is the program around it: the proxy, and the client's asynchronous
  sockets and tunnel. It opens descriptors, awaits and prints, and asks the
  library what to do.
- `tests/` runs the library, with two stacks connected back to back where
  packets have to travel.

What is believed without proof is stated at the functions that call `smoltcp`,
`tokio`, `ipnet` and `std`: `src/stack/net.rs`, `src/stack/channels.rs`,
`src/stack/handlers.rs`, `src/ether.rs`, `src/ip_text.rs`, `src/tap.rs` and
`src/text.rs`.

On the stream between client and proxy every message follows its length, four
bytes in little-endian order.
