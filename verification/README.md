# winux_kate

The decision core of Winux-Kate, a Windows desktop shell that embeds other
applications' windows into its pages (terminal dashboard, IDE instances,
messengers, a desktop page, and user-defined application pages), verified
with Verus.

## Layout

- `src/` — the verified library.
  - `state.rs`: the shell state and its well-formedness.
  - `paging.rs`, `hotkey.rs`: page navigation and the keyboard hook's decisions.
  - `keyed.rs`, `seqs.rs`: keyed lists (slots, windows, paths, instances) and filtering.
  - `managed.rs`, `ide.rs`, `custom.rs`: slot reports, embedded windows, IDE
    instances, custom pages and their instances.
  - `layout.rs`: the layout and watchdog plans (which window is shown, moved,
    parked, hidden or brought to the front).
  - `discovery.rs`: finding windows by process, process trees, adoptable windows.
  - `apps.rs`, `shell.rs`, `system.rs`, `config.rs`, `pty.rs`, `shortcuts.rs`,
    `entries.rs`: application lookup, shell registry data, system status
    parsing, saved pages, terminal sessions, desktop shortcuts and icons,
    directory listings.
  - `text.rs`, `utf16.rs`: the string and UTF-16 helpers the above need.
- `tests/` — tests of the library.
- `app/` — the Windows program around it (Tauri commands, Win32 calls,
  registry, processes, ConPTY terminals); Windows only.
