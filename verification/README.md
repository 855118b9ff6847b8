# slipmesh-routeros

Converges a MikroTik RouterOS device into a mesh's desired state: WireGuard tunnels and OSPF/iBGP
routing, computed from a node's patch file and applied over the RouterOS API.

```sh
slipmesh-routeros --node=router1 --patches-dir=./patches [--check] [--diff]
```

- `--node` and `--patches-dir` name the patch file, `<patches-dir>/<node>.yaml`.
- `--check` computes the plan and sends nothing.
- `--diff` prints the plan, with or without `--check`.

The patch file holds three `ExtensionServiceConfig` documents: `awg`, `router` and `mikrotik`. The
last one holds the credentials of the device's API.

## Layout

`src/` is the library, verified with Verus. It decides everything; it performs no I/O.

| Modules | What they hold |
| --- | --- |
| `text`, `number`, `addr`, `cidr`, `sorted`, `quote` | texts, numerals, addresses and networks |
| `error`, `sanitize`, `keys` | errors, the check of endpoints, clamped WireGuard keys |
| `documents`, `patch`, `credentials`, `cli` | what a run is given |
| `config` | what the device should look like |
| `rows`, `row`, `mikrotik` | the rows of the tables, and how they are read |
| `plan`, `diff` | what to do to a table, and that doing it converges |
| `request`, `apply` | the requests that carry out a plan, and what is answered |
| `report`, `converge`, `output` | the order of a run, and what it reports |
| `device`, `settle`, `second_run`, `whole_run` | what a device makes of the requests: a second run finds nothing to do, but for link-local addresses |
| `allocation` | finalizers of mesh links, and nodes that claim the same identity |

A second run over the tables that a first one left behind sends nothing and reports nothing, with
one exception: a link-local IPv6 address is never read as this tool's own, so a link-local address
that should be on an interface is added by every run. What an update leaves out it does not settle:
the `area-id` of an OSPF area, the routing table of a BGP instance, whether one of these or an OSPF
instance is disabled, and what a peer or an interface template has that it should not have.

`app/` is the program around it: arguments, the patch file's YAML, the TLS connection, the cluster's
API. `tests/` runs the library.
