# redox_drivers

Verified logic of two Redox OS drivers.

- `src/hda`: the Intel High Definition Audio driver's stream format word,
  the bit arithmetic of its stream descriptor and buffer descriptor
  registers, the steps of allocating a stream buffer, and its error type.
- `src/ahci`: the `disk:` scheme of the AHCI driver: path trimming and
  parsing, the root listing, and the handle table with open, dup, read,
  write, seek, fstat, fpath and close.
- `src/sys.rs`: the system call constants the scheme decides by, read from
  the `redox_syscall` crate.
- `app/`: the memory-mapped register blocks, the system calls that allocate
  stream buffers, and the `syscall::Scheme` implementation that locks the
  handle table and sends transfers to the disks.
