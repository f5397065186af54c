# guardrail

Portable sandbox policies, and the compilers that turn them into confinement.

A policy says which paths a child process may read, write or execute, how far it may
reach the network and other processes, what resources it may use, and which environment
it sees. Filesystem rules are ordered: for each right, the last rule that covers a path
decides, and nothing is allowed by default.

The library in `src/` is verified with Verus:

- `builder`, `config`, `policy`, `path`, `command`, `error`: the portable policy and the
  command that runs under it.
- `linux`: ordered rules become Landlock grants and mount masks (`rules`, `masks`,
  `durability`, `plan`, `fs`, `access`); `enforcement` proves that both together enforce
  the rules exactly. `ns` and `setup` lay out what the child does between `fork` and
  `exec`; `ruleset` and `seccomp` select the network, IPC and system-call layers.
- `macos`: ordered rules become a Seatbelt profile (`aliases`, `sbpl`, `profile`,
  `agreement`, `nul`), which a launcher applies (`seatbelt`, `descriptors`, `backend`).
- `process`: who may wait for a child or signal it, and when.
- `diagnostics`: what a failed run suggests.
- `bindings`: the options of the Node-API bindings and the streams that they serve.

`app/` makes the system calls: it resolves and pins paths, builds rulesets, runs the
child's steps and owns processes and pipes.
