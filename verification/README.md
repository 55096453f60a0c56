# sword

An eBPF observability tool for a Java HTTP service and the load generator it
is exercised with.

`src/` is the verified library (Verus):

- `common` — the records the probes and user space exchange, the request-id
  scanner, capture lengths and request phase timings;
- `tcp`, `sched`, `syscalls` — the kernel probes' decisions as state machines
  over their maps, with the laws they keep (a closed socket leaves no request
  state, a request is timed from its own read, slow requests are reported with
  their head first, a run-queue latency is measured from the first wakeup);
- `loader`, `targets` — what the loader attaches, which processes and threads
  the scheduler filter targets, and how the filter maps are kept current;
- `metrics` — labels, task-state names, per-CPU totals and the OpenMetrics page;
- `phone`, `mouse` — the load generator's records and per-round decisions;
- `text`, `bpf_map` — decimal/hex rendering, integer parsing and bounded maps.

`app/` is the program around it: argument handling, the eBPF loading and map
I/O (aya), the Prometheus exporter (prometheus-client, axum), the cache
(moka), HTTP load (reqwest) and file walking (walkdir).
