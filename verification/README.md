# tea_partition_generator

Automatic partition planning for the TeaLinux installer: it finds the free
areas of a disk, tells whether another system already lives on it, plans
a single boot or a dual boot layout, predicts the numbers new partitions
will get, and lists the commands that mount a plan.

The library under `src/` is written in Verus. Every decision is a function
from what was read off the machine (the output of `parted`, `sfdisk`,
`os-prober`, `lsblk`, the size of the memory) to a plan, and each function
states its result in its contract.

- `text`: characters, splitting, decimal numbers.
- `parted_parser`: the machine-readable output of `parted -m`.
- `disk_helper`: device names, sector and size arithmetic.
- `blueprint`, `exception`, `config`: the plan, its errors, its limits.
- `single_boot_blockdev`, `dual_boot_blockdev`: the two kinds of plan.
- `generator`: free areas, other systems, the listing shown to the user.
- `os`: `os-prober` output, swap sizes, alignment, the GRUB setting,
  partition-number prediction, the EFI system partition.
- `mounting`: the commands that mount a plan.

`app/` runs the commands, reads and writes the files and converts JSON;
it hands the library plain values and acts on what comes back.
