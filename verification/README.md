# docx2md_tui

A terminal program that converts DOCX documents to Markdown. It takes a file or a directory, shows
a plan, converts the documents for a preview, and writes the results once the preview is confirmed.

- `src/` is the library, verified with Verus: the conversion of documents, plans, previews, writes,
  the kept session and history, the texts on the screen, and what keys do. `src/laws/` states what
  holds of these as a whole.
- `app/` is the program around it: the terminal, the disk, the clipboard and the threads.
- `tests/` runs the library on concrete documents and states.

Paths are handled as text. What the operating system knows of a path (its parent, its last name,
what lies below a directory) comes from `app/` as plain values. Each document has a number, by
which `app/` finds the path of its file and that of its result again, as a path need not be text.
