# quac

Tile-based UDP packet I/O for QUIC, with its logic verified by Verus.

- `src/` is the library: packet buffers and their pools, the OS, io_uring and AF_XDP packet
  sockets, routing by longest prefix, network tiles, and the decisions of the benchmark programs.
  System calls and shared memory are left to the caller: functions take what the kernel said and
  return what to do next.
- `tests/` run the library on concrete values.
- `app/` performs the system calls: the sockets, the I/O threads of tiles, the QUIC load clients
  and echo servers, and UDP benchmarks.

Contracts are stated over sequences of bytes, frames and packets. Functions named `law_...` state
what holds of several operations together: that no frame or receive slot is lost, that a ring reads
back what was written, that packets stay in order, that the same client reaches the same tile.

A buffer is given up by handing it to its pool or ring. Functions that cannot keep a buffer, such
as a push to a full queue, hand it back for that.

What is taken on trust is marked `external_body` or `assume_specification`: calls into
`crossbeam-queue`, `bytes`, `smallvec`, `io-uring`, `aya`, `fastrand` and a few functions of the
standard library.
