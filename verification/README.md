# neohtop

The monitoring core of a desktop process monitor, verified with Verus.

`src/` is the library. Each function there carries a contract; Verus
proves all of them except two small trusted wrappers whose contracts it
takes on trust: `push_char` (std's `String::push`) and `sha256_digest`
(the `sha2` crate's SHA-256, whose result is named `sha256_of`). The
modules:

- `text` — whitespace, trimming, line splitting, unsigned number parsing and
  decimal and hexadecimal rendering, over vectors of characters.
- `pci` — model names from the PCI id database (`pci.ids`).
- `gpu` — GPU discovery and readings: DRM cards in sysfs and `nvidia-smi`
  output.
- `fdinfo` and `gpu_process` — per-process GPU engine time from DRM `fdinfo`
  and usage as the growth between two samples.
- `ports` — the searchable local ports of each process.
- `virustotal` — SHA-256 fingerprints of executables and the meaning of a
  VirusTotal file lookup.

`app/` holds what touches the system: reading files under `/sys`, `/proc`
and `/usr/share`, running `nvidia-smi`, listing sockets, HTTP requests, the
thread pool that walks `/proc`, and the conversions to floating point shown
to the user.

`tests/` exercise the library on concrete inputs.
