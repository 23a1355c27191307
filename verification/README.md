# hermit

The scheduling core of a unikernel for 64-bit Arm, verified with Verus: tasks
and their queues, the exception slots that tasks are dispatched from,
continuations, the supervisor that restarts tasks, interrupts and exceptions,
the executor's bookkeeping, booting, and the system calls on tasks.

- `src/` is the library. Everything in it is verified but for the items below,
  whose contracts are believed. State that belongs to the kernel or to a core is
  passed in and handed back; what the hardware is to do comes back as a value.
  - `scheduler/state.rs` says what a core's scheduler is in and how it changes.
    `scheduler/laws.rs` states what holds across operations.
  - `memory.rs` holds the words of stacks and register frames.
  - `arch/aarch64/kernel/` holds the slots, stacks, continuations, entry code
    and interrupts; `device_tree.rs` what is read from the device tree.
- `tests/` runs the library.
- `app/` is the kernel around it: it holds the state, does what the library
  decides, and has the assembly. What a machine provides is the trait
  `Platform`.

## What is believed

These items of `src/` call outside code. Verus believes what they say of it.

- `addr.rs`: `try_virt_addr` (memory_addresses)
- `pages.rs`: `align_up` (align_address); `page_layout`, `page_layout_aligned`,
  `page_range` (free_list)
- `handle_map.rs`: `HandleMap` and its methods, with `entries` as the name for
  what it holds (hashbrown, ahash)
- `device_tree.rs`: `has_node`, `count_cpus`, `regions`, `first_compatible`,
  `property`, `has_device`, `compatible_property`, with names for what they
  return (fdt)
- `executor.rs`: the type `Waker`, its `clone`, `will_wake`, `wake_task` (std)
- `interrupts/ids.rs`: `sgi_id`, `ppi_id`, `spi_id` (arm_gic)
- `interrupts/syndrome.rs`: `read_class`, `read_syndrome`, `read_class_as_enum`
  (aarch64_cpu)
