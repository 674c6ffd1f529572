# vivanta

The verified core of the Vivanta kernel: the logic of boot-time platform
discovery, physical and virtual memory management, the scheduler and
process model, signals, identity and the system-call layer, written in
Verus with its behaviour stated in `requires`/`ensures` contracts and
proved.

## Layout

- `src/` — the library, every item verified.
  - `boot/` — boot hand-over types, memory discovery, the hardware
    description, the flattened-device-tree scanners, UART register
    arithmetic and console selection.
  - `pmm.rs`, `memory/` — the bitmap frame allocator, memory objects and
    capabilities, the placement policy, the resource manager and its
    frame-allocator backend, and the kernel heap's free-list decisions.
  - `vmm/` — the address-space shadow (map, protect, unmap, demand fill),
    the copy-on-write frame registry, the page-table frame registry, the
    address-space registry, fault resolution, hardware audits and the
    laws of the shadow.
  - `scheduler/` — threads, the run queue, tasks, the process table and the
    scheduling decisions (yield, sleep, exit, ticks).
  - `syscall/` — argument validation and effects of the system calls.
  - `elf.rs`, `exec.rs` — ELF64 load planning and segment copying.
  - `identity/`, `state/` — boot, runtime and persistent identities, and the
    system state.
  - `usercopy.rs`, `signal.rs`, `verify.rs`, `error.rs`.
- `tests/` — tests run against the compiled library.
- `app/` — the hardware edge: console globals and UART drivers, platform
  adapters, the heap's global-allocator front end, user-memory access,
  the ELF loading loop, fault and system-call entry, table reclamation,
  audits and memory bring-up. Decisions are delegated to the library.
