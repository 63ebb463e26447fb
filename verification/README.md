# floral_notepad

The note library behind 花笺, a local Markdown notepad, with its
behaviour stated and proved.

- `src/` — the library. Text rules (`notetext`, `strings`, `chars`),
  the note index and what each store request does to it (`model`,
  `index`, `ops`, `store`, `listing`), search and sidebar order
  (`search`, `order`), short labels (`labels`, `clock`), paths
  (`paths`), the editor window's state and decisions (`editor`,
  `hotkey`), and the properties that span operations (`laws`).
- `tests/` — tests of the library on concrete values.
- `app/` — the window (gpui), the files on disk, the index file's JSON
  form, the system dialogs and the global hot key.
