# page_backed

Memory that is backed by pages: anonymous memory, files and device ranges, each
held in a *page container*. The library decides what happens to the pages of a
container; every decision is a function with a contract, and Verus proves the
contracts.

A container knows

- the **slot** of each page (`slot`): whether the page is absent, being fetched,
  resident, dirty, being written back or in error, and as which version;
- the **page cache** (`page_cache`) and the **published root** (`resident`,
  `residency`), which readers follow without waiting;
- the **requests** to a file's backing store and who owns their data
  (`page_submission`, `lease`, `completion`, `service`);
- the **transfers** to a block device and the routes of their completions
  (`block_runtime`);
- the **ranges** that direct transfers hold (`range`, `direct`, `direct_io`).

On these stand the operations: access to a page (`materialize`, `fetch`,
`page_access`, `planned_fetch`, `access_run`), writeback and fsync (`writeback`, `fsync`, `fsync_submission`,
`fsync_run`), size changes (`lifecycle`), reads, writes and copies of byte ranges
(`transfer`), sharing of frames (`share`), reclaim (`reclaim`), and the registry
of open files (`identity`).

The library makes no outside call. Where the page allocator, the filesystem, a
planner or a device has to answer, the answer is an argument, and what is left to
do outside (a wait source to notify, a service to kick, a filesystem call to
make) is a result. So a contract holds whatever the outside answers.

`tests/` runs the library on concrete values. `app/` drives containers against a
filesystem and a machine.

Laws that relate several operations are public proof functions whose names begin
with `law_`, next to the operations they speak of or, where they speak of whole
runs, in modules of their own (`access_laws`, `transfer_laws`, `range_history`).
