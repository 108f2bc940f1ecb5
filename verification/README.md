# shot2path

A Windows tray utility: Ctrl+PrintScreen takes a screenshot (a region through the Snipping
Tool, or all monitors), saves it as a timestamped PNG under `Pictures\shot2path`, and puts the
file's path on the clipboard. A left click on the tray icon copies the path of the latest
screenshot again.

Layout:

- `src/` — the verified library (Verus):
  - `timestamp` — screenshot file names, and the proof that they sort in the order the
    screenshots were taken;
  - `names` — picking the newest screenshots out of a folder listing;
  - `dib` — decoding the clipboard's device-independent bitmaps into RGBA;
  - `png` — PNG and ICO encoding of clipboard bitmaps, screen captures and the desktop icon
    (through the `image` crate);
  - `text` — NUL-terminated UTF-16 for the Windows API and the clipboard, and the tray tooltip;
  - `icon` — the orange disc drawn for the tray and desktop icons;
  - `tray` — the tray menu and its recent-screenshots submenu, what the window does with each message, capture polling and the
    start-at-login decisions.
- `app/` — the Windows program around it: window, tray icon, hotkey, clipboard, GDI capture,
  registry and desktop shortcut.
- `tests/` — tests of the library.
