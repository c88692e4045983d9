# crucible

A testing toolkit for Soroban smart contracts, with its core written in Verus
and proved against its contracts.

- `src/` is the verified library: ledger clock and calendar arithmetic, XLM
  amount parsing, protocol versions, revert assertions, authorization-tree
  comparison, call-graph reconstruction and its JSON and text renderings,
  checkpoint stacks, cost reports, event-topic matching, gas profiles and their
  speedscope export, a property-testing runner with generators and shrinkers,
  reentrancy locks and a WebAssembly memory monitor, a mock pairing-based
  proof system, deterministic mock keypairs, and the sample treasury,
  governance, proxy and verifier contracts, each as its storage and the calls
  that change it (the host's authorization checks and token transfers stay with
  the caller).
- `app/` is ordinary Rust around it: the mock environment over the Soroban test
  host, panic capture, snapshot files, environment variables, and what uses
  floating point: the flame graph's layout and float XLM amounts.
- `tests/` exercises the library through its public interface.
