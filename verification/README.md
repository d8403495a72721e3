# bazos

The verified core of a small x86_64 hobby kernel.

`src/` is the library, checked by Verus: the buddy and slab allocators, the
on-disk file system (header, bitmaps, inodes, directories, the driver that
creates and opens files), paths, the ELF loader's parsing and load plan,
the layout of a new thread's stack, the thread table the scheduler picks
from, the VGA text terminal, system call numbers, fault error codes, the
task state segment and PCI configuration offsets.

`app/` is the kernel around it: booting, page tables, interrupts, the
virtio block device, the heap allocator, processes, the scheduler and the
asynchronous executor. It calls the library for every decision the library
makes and does the hardware work itself.

`tests/` runs the library on concrete inputs, with an in-memory disk
standing in for the block device.
