# rheo

A verified core of a small capability-based operating system and of the library that its
programs are built on.

- `src/kernel` holds the rules of the kernel: capabilities and their objects, frames and
  address spaces, grants and reservations, cells and their contexts, the numbers of the
  calls and the trap path, placement of cells on processors, records, traces and the services.
- `src/user` holds the library of a cell: memory, channels, files, the network, display,
  programs and their environment, random numbers, and work in blocks.
- `src/libc` holds a small C library over the same calls.
- `src/programs` holds what the trial programs compute and decide.
- `src/bytes.rs` and `src/text.rs` hold what they all share.
- `tests` runs the library; `app` holds what reaches the hardware and the loops that carry
  out what the library decides.

Every function of `src` but one is proved against its contract. The one is `decode_lossy` in
`src/user/proc.rs`, which calls `String::from_utf8_lossy`: its contract is trusted. What a
call into the hardware or the kernel comes to enters as an argument or as an event, so that
the contracts hold whatever the answer is; so does what the executors of the tile programs
report.
