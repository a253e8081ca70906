# rusty_router

A small router for Linux, with its logic verified by Verus.

- `src/` is the verified library: the Internet checksum, IPv4 and OSPFv2
  packet parsing and building, the router's configuration and status model,
  a registry of shared items, and the interface manager, which keeps the
  status of the machine's links and interfaces from route netlink reports and
  periodic scans.
- `app/` is the program around it: it talks to the kernel over route netlink
  and raw sockets, hands what it reads to the library as plain values, prints
  the status, and sends the hello packets that the library builds.
- `tests/` runs the library on concrete inputs.
