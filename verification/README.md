# minit

A small to-do list that suggests what to work on, given how many minutes are
free right now, written in Verus.

- `src/` is the verified library: tasks and priorities (`task.rs`), the list
  and its operations, including the suggestion (`planner.rs`), and properties
  that span operations (`laws.rs`). The calls into `chrono` (`stamp.rs`),
  `uuid` (`ids.rs`) and `str::trim` (`text.rs`) are trusted wrappers with
  stated contracts.
- `app/` is the desktop window (eframe/egui), and the JSON files that keep
  the tasks and the preferences (free minutes, new-task defaults, filter)
  between sessions.
- `tests/` runs the library on concrete lists.
