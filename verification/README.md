# lunar

The back-end logic of a Windows application launcher, verified with Verus.

- `src/` is the verified library: reading `DisplayIcon` registry values
  (`display_icon`, `env`), which uninstall keys count as applications and how the
  list is sorted and de-duplicated (`registry`, `order`), Windows path handling
  (`paths`), icon cache keys and file names (`cache_key`, `number`), the
  PowerShell scripts that extract icons (`powershell`), the built-in Windows
  tools and application listings (`apps`), and launch decisions and messages
  (`launch`). Character-level helpers are in `text`.
- `app/` is the Tauri back end: registry and file-system access, process
  spawning, and the commands the front end calls.
- `tests/` runs the library on concrete values.
