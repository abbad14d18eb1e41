# sysmon

The verified core of a Windows tray system monitor (processes, CPU, memory,
disks, GPUs).

- `src/` is the library, checked by Verus:
  - `luid`: reading adapter LUIDs out of GPU performance-counter instance
    names, and the proof that a counter name built from an adapter's LUID
    halves reads back as that adapter's LUID.
  - `wmi_gpu`, `pdh`, `aggregate`: folding counter rows into per-LUID tables
    (WMI utilization summed and capped at 100; memory, from WMI or the
    performance counters, as the last reading).
  - `dxgi`, `usage`: adapters from DXGI descriptions, and choosing per GPU
    between NVML and counter readings; the integer parts of the system summary.
  - `processes`: the process list, the executable-icon cache, and byte sizes
    for people (an exact integer account of the 64-bit float arithmetic).
  - `icon`: BGRA to RGBA, and bitmaps as PNG data URLs.
- `app/` is the desktop shell: the tray application, the sampling threads and
  the Windows, NVML, WMI and sysinfo calls, which hand the library plain values.
- `tests/` runs the library on concrete values.
