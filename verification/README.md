# kanban

A kanban board of todo cards kept in columns (backlog, todo, in-progress,
done), with a recycle bin, a command line and a keyboard-driven terminal
interface.

The library under `src/` is verified with Verus:

- `db.rs`: the board's two tables (columns and todos), their constraints, and
  every operation on them: adding, reading, listing, moving, sorting, editing,
  archiving, restoring and deleting todos.
- `app.rs`: the terminal interface as a state machine: what each key does to
  the interface and to the board, and what it asks of the text editor.
- `calendar.rs`: dates, month arithmetic and the week shown by the due-date
  picker, with chrono behind small trusted wrappers.
- `text.rs`: word wrapping, trimming, line splitting and decimal text.
- `display.rs`, `screen.rs`, `layout.rs`, `paths.rs`: the texts that the
  screen and the command line show, popup placement, and where the database
  file lives.
- `laws.rs`: properties that relate several operations (round trips, the
  uniqueness of listings, what a deleted or added todo becomes, what every
  key keeps, how wrapping depends on the words and the width).

`app/` is the program around it: command-line parsing, the SQLite file, the
terminal loop and the drawing.
