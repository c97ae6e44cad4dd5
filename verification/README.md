# sysmon_panel

A system monitor for a 128x64 SSD1306 OLED panel with four buttons.

- `src/` is the library, verified with Verus:
  - `text.rs`: lines, whitespace fields, trimming, search, replacement,
    padding and truncation over character sequences, each specified by a
    spec function;
  - `number.rs`: decimal formatting and parsing with the acceptance rules
    of `str::parse`, and their round trips;
  - `layout.rs`: where each character and icon of a page is drawn;
  - `pages/`: the `Page` trait, the usage page (CPU, memory, disk, fan) and
    the network page (addresses, SSID, signal), computed from the text that
    the system reports;
  - `panel.rs`: the panel's decisions each round (buttons, page navigation,
    screen timeout, colour inversion) and the laws they keep.
- `app/main.rs` runs the panel: it reads the buttons, files and commands,
  draws on the display, and hands plain values to the library.
- `tests/` checks the library on concrete values.
