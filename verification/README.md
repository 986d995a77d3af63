# consolevault

The verified core of ConsoleVault, a desktop launcher for your own console ROM
collection (SNES, N64, PS1, PS2, PS3). It never downloads ROMs or BIOS files —
only emulator software and cosmetic box art.

- `src/` — the library, verified with Verus:
  - `registry` — the per-system emulator table and lookups;
  - `scan` — classification of the entries found under the ROM folders
    (extensions, PS1/PS2 path hints, PS3 game folders, `.bin` tracks beside a
    `.cue`), title cleaning, de-duplication and the stable (system, title) sort,
    over the walks of all root folders;
  - `paths`, `text` — path and string arithmetic the rest relies on;
  - `detect` — how an emulator is invoked, from what the host found;
  - `install` — install plans and the install/uninstall scripts the host runs
    (pacman, Flathub, or an upstream source build; never the AUR);
  - `script` — the step functions the host follows while running a script: a
    script ends `Ok` only when every step succeeds, and stops at the first failure;
  - `launch` — the command that launches a ROM;
  - `metadata` — box-art cache names, libretro-thumbnails URLs, the step
    function the host follows through a cached or downloaded lookup, base64
    data URLs;
  - `config` — the persisted settings, one override per system;
  - `syscmd` — which AppImage-injected variables a started tool gets restored
    or removed.
- `app/` — the Tauri shell: commands for the UI, files, processes, the folder
  walk and HTTP, handing plain values to the library.
- `tests/` — tests of the library on concrete values.
