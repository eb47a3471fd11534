# kernelkit

Kernel optimization primitives whose logic is verified with Verus.

- `src/` is the verified library: binary header and section decoding
  (`binformat`), CPU feature and sysfs cache value interpretation
  (`cpu_features`), `/proc/meminfo` accounting (`memory`), NUMA node counting,
  validation, node masks and allocation (`numa`), affinity masks and IRQ
  affinity parsing (`affinity`), anonymous memory blocks (`mmap`), vectors of
  default values and the length of their huge-page mapping (`hugepages`),
  corpus rules (`corpus`), file fingerprints (`file_identity`), and the
  argument checks of `readahead`, `mlock`, `prefetch` and `perf`. Contracts
  state each result exactly, except where the system or the allocator
  decides; the laws (header and section round trips, rejection of newer
  versions, the IRQ cores as the set bits in ascending order, cache values as
  a number times a unit, meminfo read label by label, the whole-corpus budget,
  actionable error texts) are proof functions.
- `app/` is the operating-system side: system calls, files, libnuma through
  `libloading`, the `MAP_HUGETLB` backing of huge-page vectors, processor
  prefetch intrinsics, and the error type with `std::error::Error`. It
  gathers what the machine reports and hands it to the library.
- `tests/` runs the library on concrete inputs.
