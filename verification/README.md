# tcp_stack

A userspace TCP/IPv4 stack that runs over a TUN interface, written in Verus.

- `src/wire.rs`: network byte order and the Internet checksum.
- `src/ipv4.rs`: reading an IPv4 header (`IPV4Header::build`) and writing one
  (`IPV4Header::build_raw_header`), with the proof that what is written reads
  back and passes the checksum test.
- `src/tcp_header.rs`: the same for TCP headers and the MSS, SACK-permitted,
  timestamp and window scale options.
- `src/tcp.rs`: the connection state machine (LISTEN, SYN-RECEIVED,
  ESTABLISHED, CLOSE-WAIT, LAST-ACK, CLOSED), the sequence and acknowledgment
  checks with wraparound, and the frames sent in reply.
- `src/tcp_laws.rs`: properties of the state machine over all segments: the
  handshake, data acknowledgment, teardown, the state diagram, and that every
  reply reads back as a segment to the sender.
- `src/demux.rs`: the table of connections keyed by both ends' address and port,
  and the handling of whole frames from the TUN device.
- `app/main.rs`: the loop that reads frames from `tun0` and writes the replies.

Set up the interface as root:

```bash
sudo ip tuntap add dev tun0 mode tun
sudo ip addr add 192.168.0.2/24 dev tun0
sudo ip link set tun0 up
```
