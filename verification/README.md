# progit

A command-line engineering journal: log Codeforces and LeetCode problems,
notes and tasks, view days, see statistics, and back the database up to
plain-text files and restore it.

- `src/` is the verified library: the command-line decisions, what a log
  request becomes, edits that keep the fields not given, the backup text
  format and its reading back, the statistics and the streak, the restore
  dialogue, and the text of every table cell. Each public function states
  its result in `ensures`; the laws (backup then restore gives the rows
  back, a number's text reads back as the number, a restore needs a yes)
  are proof functions.
- `app/` is the program around it: argument parsing with clap, the SQLite
  store, files, prompts and coloured output.
- `tests/` runs the library on concrete values.
