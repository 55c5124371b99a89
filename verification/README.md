# uffd_handoff

The decisions of a userfaultfd handoff, verified with Verus.

A virtual machine monitor registers its guest memory with a `userfaultfd` descriptor and hands the
descriptor to another process, which from then on services the page faults of the guest. Over the
same socket that process later asks for pages to be evicted.

- `src/` is the library. It decides what to try, what to fall back to, what to report and what to
  write. Its functions that run whole handoffs and conversations take functions that make the
  system calls, and their contracts tell exactly which calls are made, in which order. From that it
  proves that the last registration of every region is the one that is reported, that each request
  is answered once, after its pages were dropped, and that no other pages are.
- `app/` has the functions that make the system calls, and the socket, the thread and the
  serialization.
- `tests/` runs the library against peers and platforms that are held in memory.

What is not proved but taken from outside: that the error numbers and the flag `O_CLOEXEC` that
`libc` gives are those of one of its tables for Linux, and that the error which
`std::io::Error::new` makes of a message is determined by that message. Errors of `std::io` and
`serde_json` are carried along unread.
