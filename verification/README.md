# minivm

Verified core of a type-1 hypervisor for Hexagon DSPs, written in Verus.

`src/` is the library, verified by Verus. Its functions carry
`requires`/`ensures` contracts; the atomic bitmask operations have none,
since the value of a shared word is not tracked. The context traits of
address translation and TLB-miss handling name what each query of the
system returns by a `spec` function, which their implementations must
follow:

| Module  | Contents |
|---------|----------|
| `types` | register and descriptor layouts (translations, ASID entries, linear descriptors, offset configurations), constants |
| `intc`  | per-CPU and shared virtual interrupt controllers, interrupt-operation dispatch, delivery decisions |
| `sched` | ready list (priority rings over the thread table), run list, low-priority and wait masks, `dosched`, `resched`, yield |
| `thread`| thread creation checks, state queries, stop decisions, futex wait queues |
| `timer` | timeout tree (an index-linked binary search tree) and guest timer operations |
| `mem`   | ASID table, software TLB, TLB-miss handling, offset and linear address translation, the kernel heap allocator |
| `event`, `trap` | vector table and trap decoding |
| `power`, `init`, `arch` | vector-unit power sequence, boot layout and configuration, TLB entry and MODECTL words |
| `sync`  | atomic bitmask operations |

The public `law_*` and `lemma_*_setters` proof functions state properties
that span several operations (for instance that the ready list is FIFO
within a priority, that a set timeout fires at the first interrupt at or
after its tick, or that an allocation never overlaps a live block).

`app/` holds what Verus does not see: Hexagon inline assembly for
registers, caches, interrupts and the TLB, the big kernel lock, the random
replacement way of the software TLB, and the boot flags as a `bitflags`
type.

`tests/` runs the library on concrete values.
