# ArchBrew

A Homebrew-style package manager for Arch. The decisions that it makes are a library that is
verified with Verus; the program around it talks to libalpm, the AUR and the terminal.

- `src/` is the library. Every function states what it returns, over sequences of characters and
  other mathematical values. What alternates with the outside world is written so that replies and
  events are arguments: the result is what to ask, or to do, next.
- `app/` is the program: the command line, processes, files, JSON and the package databases.
- `tests/` run the library on concrete values.

Where to find what:

| module | subject |
|---|---|
| `command`, `request` | commands, and what is checked before anything else |
| `conf`, `database` | pacman's configuration and the package databases |
| `install`, `local`, `script`, `transaction` | changing the installed packages |
| `aur`, `resolve`, `dialogue` | AUR packages and the order in which they are built |
| `units`, `snapshot`, `makepkg` | getting sources and building them in a sandbox |
| `report`, `clean` | commands that show something, and the cache |
| `prompt`, `suggest`, `style` | talking to the user |
| `text`, `number`, `order`, `paths`, `process` | what the others rest on |
