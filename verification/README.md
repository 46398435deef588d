# langfix

The verified core of LangFix, a macOS menu-bar utility that fixes text typed
in the wrong keyboard layout (US QWERTY or Russian) when a global shortcut is
pressed.

- `src/` is the library, verified with Verus:
  - `layout` converts text between the two layouts, choosing the direction
    from the letters the text holds; text typed on one layout's keys (digits,
    spaces and other characters on neither layout allowed) comes back
    unchanged when converted twice, provided it holds a letter that the
    conversion turns into a Russian letter, or no key character at all;
  - `text` holds the string helpers (white space, trimming, splitting,
    joining);
  - `shortcut` normalises a shortcut for storage, labels it for display,
    and decides the retries and rollbacks of registering it;
  - `settings` holds the settings, the settings payload, and the steps of a
    settings change with its rollback on failure;
  - `fix` holds the steps of fixing the selected text;
  - `update` holds the answers about application updates.
- `app/` is the Tauri application: commands, tray, clipboard, keyboard and
  files. It performs the outside steps that the library's flows ask for.
- `tests/` runs the library on concrete values.
