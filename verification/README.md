# zypi

A desktop viewer for the patches that `zypper` reports on openSUSE and SLE.

- `src/` is the verified library: the patch records (`patch`), the order of the
  patch list (`order`), the browser's state and what its view reads
  (`browser`), the `zypper` command line, exit handling and error messages
  (`zypper`), and the text operations they rest on (`text`).
- `app/` runs `zypper`, reads its XML with serde and quick-xml into the
  library's records, and draws the window with eframe.
