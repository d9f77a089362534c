# Alelyon Compute Kit

A Vulkan compute runtime whose decisions are verified with Verus.

`src/` is the library. It computes on plain values: which device is opened and
with what, which requests are refused and why, what a batch records and when it
is flushed, who owns which driver object, and what bytes a kernel is pushed.
Verus proves every contract but those of the items that call into `ash`: the
texts of result codes and memory flags (`error`), the reading of SPIR-V words
(`kernel`) and the parts of a version number (`device`). These are believed, and
each says above it what it claims.

`app/` performs the driver's calls. A driver command that cannot fail is an
`Order`, which a context queues and `take_orders` hands out; one that can fail
is a `Call`, and the operation that asked for it is resumed with the `Reply`.

## The library

| modules | what they decide |
|---|---|
| `arith`, `words`, `text`, `float_bits` | rounded divisions, little-endian words, number texts, binary32 and bf16 as bits |
| `error`, `driver`, `faults` | failures, the driver's calls and replies, substituted replies |
| `ledger`, `pool`, `timing`, `raw_buffer`, `one_shot`, `kernel` | object accounting, the free list, timestamps, single buffers, single submissions, pipelines and descriptor arenas |
| `batch`, `context` | recorded batches, flushes, transfers, retirement |
| `device` | the choice of a device and how it is opened |
| `matmul_ops`, `packed2_ops`, `pointwise_ops`, `reduce_ops`, `loss_ops`, `embedding_ops`, `attention_ops` | plans of the operator families |
| `ffi` | handles, records, identities and operator entries |

Proof functions named `law_` state what holds across functions.

A context is poisoned when a failed wait leaves its device in an unknown state,
or when work that was already accepted can no longer run: it refuses every
later call, and leaves allocated, and counts, what the device may still use.
