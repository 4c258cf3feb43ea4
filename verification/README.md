# lissue

A local issue tracker that lives next to the code: tasks with a status, an
assignee, a parent task and linked files, kept in a SQLite table under
`.lissue/` and mirrored one JSON file per task under `.lissue/tasks/` so that
they can be shared through Git.

## Layout

- `src/` is the library, written in Verus with every function's contract
  proved:
  - `domain/`: tasks, statuses, settings, and the task table that hands out
    local ids (`TaskRepository`), with its laws (a saved task is found
    again, saving twice is saving once, ids are never handed out twice).
  - `usecase/`: the operations of the tracker (add, list, next, status,
    link, claim, attach, sync with last-write-wins, clear, move linked
    files, task context, ignore file), each with an exact contract.
  - `presentation/`: the text listing of the command line, and the state
    machine of the terminal interface (keys in, actions out, browsing,
    adding, searching and attaching files) with its layout.
  - `infrastructure/`: file names of the shared task files and settings,
    and reading a row of the task table back into a task.
  - `text.rs`, `path.rs`: the string and path helpers the above rest on.
- `tests/`: tests of the library on concrete values.
- `app/`: the program around the library: argument parsing, the SQLite and
  JSON storage, the terminal and the editor.
