# DevScout Cleaner

DevScout Cleaner removes a program directory on Windows together with the
registry keys that refer to it: uninstall entries, `App Paths` entries and
any key under `Software` (four levels deep) whose name or values point into
the directory or name the program. Keys are shown as *certain* or
*suspicious*, backed up with `reg.exe export` before they are deleted, and
processes that keep files open are ended (system processes excepted).

## Layout

- `src/` — the library, verified with Verus:
  - `text.rs` — character sequences: case, trimming, searching, replacing,
    joining, decimal numbers, the order of strings.
  - `paths.rs` — path normalisation, `%NAME%` expansion, whether a registry
    value refers to the target, file names, process names.
  - `utf16.rs` — wide strings for the Windows API and registry string values.
  - `registry.rs` — hives and views, candidates, program signals, the
    judgement of one key, enumeration steps.
  - `candidates.rs` — one entry per key, and the order of the list.
  - `walk.rs` — the depth-limited walks over registry keys and directories.
  - `scan.rs` — scan generations, progress reports, sizes and texts.
  - `cleanup.rs` — backups, locking processes, the course of a cleanup.
  - `ui.rs` — protected directories, scan locations, window commands.
- `tests/` — tests of the library.
- `app/` — the Windows application: window, registry, file and process I/O.
