# BalanSir daemon

The control plane of BalanSir, a gateway that keeps what the kernel enforces at
what its operator wants. The daemon holds the intent; a privileged executor, which
it commands over a socket, carries it out.

## Layout

- `src/` is the library: the rules and decisions of the daemon, each function with
  a contract that Verus proves.
  - `reconciliation/`, `model`, `control`, `startup`, `server`, `cli`: what is
    wanted, what is in force, and how one is brought to the other.
  - `policy/`: matchers and the rules of a policy file.
  - `driver/`, `amneziawg`, `hysteria`, `b4`, `secrets`: drivers and their
    lifecycle.
  - `dns`, `dns_filter`, `dns_plane`: forwarding, filtering and observing DNS.
  - `b4_engine/`, `b4_manager`, `b4_discovery`, `b4_dpi`: adapting how a flow is
    delivered.
  - `network_config`, `gateway`, `qos`, `mptcp_manager`, `subsystems`,
    `path_decision`, `health`, `capability`, `interface_probe`, `l2_probe`: the host
    and its network.
  - `text`, `text_map`, `order`, `seqs`, `net`, `json`: what the rest is built on.
- `tests/` runs the library.
- `app/` is the program around it: sockets, files, processes and loops.

Where the library calls an outside crate, or a function of the standard library
that has no contract of its own, the call stands in a small wrapper whose doc
comment says what is taken on trust.
