# t2_fancontrol

The verified core of a fan controller for T2 Macs running Linux.

`src/` is a Verus library:

- `config`: presets, their built-in fan curves, curve normalization and the
  application configuration, with the laws of normalization (sorted, stable,
  within limits, idempotent).
- `config_file`: the stored `key=value` text of the configuration, reading and
  writing it, and the proof that reading back what was written gives the
  configuration (with its curve normalized).
- `sysfs`: fans and temperature sensors as the kernel exposes them: attribute
  paths, what a reading means, what is written back, and ordering fans by name.
- `service`: the systemctl steps that turn autostart on and off, decided one
  step at a time from the outcomes of the steps already run.
- `text`: trimming, splitting and unsigned decimal numbers on characters.

`app/` holds the I/O around it: files, sysfs, globs and systemctl, and the
error type with its messages.
