# asus-tuf-cpu

Tweaks ASUS TUF: a system monitor and control panel for ASUS TUF laptops
(CPU, memory, drives, GPUs, fans, network, batteries, services, processes,
keyboard and mouse lighting, SSH hosts, speed test, system logs).

- `src/` is the library, verified with Verus: every parser of what the kernel
  and the system tools print, the device lists and their order, how a rescan
  keeps the live state of surviving devices, the sampler's schedule, the
  temperature-alert cooldown, which pages the window shows, which button of
  each mode group is lit, and the row texts that are not computed in
  floating point. Each public function states its result in its contract;
  the laws that relate several functions are the public `lemma_*` proof
  functions.
- `app/` is the GTK4/libadwaita program around it: reading files, running
  commands, the sampler thread, building and drawing the widgets, and the
  values and texts that are computed in floating point (usage percentages,
  rates, sizes and clocks).
- `tests/` runs the library on concrete inputs.
