# cfab

The per-host runtime of a resilient converged network fabric for small clusters: members,
physical wires, segments and traffic classes are declared once, and everything that a member
needs is generated from the declaration by pure functions.

`src/` is a Verus library. Each function states what it returns and is proved to return it.

- `model`, `decl`: the declaration, the typed fabric that it becomes, and what is refused of it.
- `derive`: what one member gets of the fabric.
- `emit`: the forward policy, the marking, the ceilings, the shaping trees, the routing engine's
  configuration tree, and the DHCP and bridge texts of the workloads.
- `engine`: the engine's requests, its state document, and commits to its providers.
- `prober`: which wire of a bond still reaches the other side, and where the bond belongs.
- `supervisor`: the children, the components document, the exporter and the announcers.
- `netlink`, `sock_frame`, `cli`: the kernel's answers, the sockets' frame, the commands' texts.
- `text`, `textmap`, `json`, `ipv4`, `time`, `error`: what the rest is written in.

`tests/` runs the library. `app/` is the program around it: files, sockets, processes and the
command line.
