# netd

A network manager in which the decisions are verified. `src/` is a Verus
library: every function in it has a contract, and what holds of the library as
a whole is stated in public proof functions. `app/` is the program around it:
sockets, netlink, the registry and the clock.

| Module | What it decides |
| --- | --- |
| `dhcp4` | DHCPv4 messages, leases and the client's state machine |
| `dhcp6` | stateless DHCPv6: other configuration, asked for and refreshed |
| `ndp` | router advertisements and what they come to: addresses, routes, names |
| `libnetd` | the control protocol: requests, replies, frames |
| `netd::config`, `netd::profile`, `netd::policy` | what the registry says, profiles with inheritance, and the rules that join interfaces to them |
| `netd::matching`, `netd::intent`, `netd::interface`, `netd::daemon` | which profile claims a link, what the link should be, and the daemon's passes |
| `netd::reconcile` | the difference between what is wanted and what the kernel has |
| `netd::netlink`, `netd::attributes`, `netd::model`, `netd::dhcp`, `netd::ipv6` | messages to and from the kernel and the wire |
| `netd::report`, `netd::inventory`, `netd::control`, `netd::networks` | what is told to others, and who may ask |
| `net` | the operator command: arguments and what is printed |

Verified code calls out to `netlink-packet-core`, `netlink-packet-route` and
`sha1`, each behind a small function whose contract says what is relied on. The
control protocol's MessagePack bytes and the rule engine are handled in `app/`,
which hands the library plain values.
