# dotest

A terminal front end for `dotnet test`: a tree of the tests, runs of what is
checked in it, churning until something fails, and a summary of the failures.

- `src/` is the library. It holds everything that is decided or computed. Its
  functions are verified with Verus, except for the edges where it calls outside
  code:
  - Five functions have bodies that Verus does not read: `to_lowercase` and
    `text_of` call the standard library, `split_vertically` calls `ratatui`,
    `parse_cache` and `write_cache` call `serde_json`. Verus takes their
    contracts as given.
  - Five functions of the standard library have contracts that are taken as
    given: `String::push`, `String::pop`, `char::is_uppercase`,
    `char::is_numeric` and `char::is_alphanumeric`.

  Its modules are:
  - `text`, `numerals`, `order`, `seqs`, `unicode`: the vocabulary of the
    contracts, with the operations that meet it.
  - `domain`: the list of tests, the tree made from it, what is selected in the
    tree, what source files say about tests, filters and counts.
  - `ui`: a session of the interactive front end as a state machine. It takes
    keys, the mouse, the lines of a run and the ends of processes, and answers
    with an `Action` that is to be performed outside.
  - `commands`: the commands of the command line.
- `app/` is the program around it: the terminal, files, processes and threads.
- `tests/` runs the library on concrete values.

Contracts speak of views: a `Session` is viewed as a `SessionView`, and each of
its methods ensures that the new view is a spec function of the old one. Public
proof functions whose names begin with `law_` state what holds across several
operations.
