# cpphxbuilder

A terminal user interface that builds a C++ project, lists the diagnostics of
the compiler, and opens Helix (`hx`) at the place of the one that is selected.

`src/` is the logic as a library, written in Verus: every function states what
it does in its contract, and Verus proves it. Taken on trust are the contracts of
what is called from outside: `str::trim`, `str::trim_end` and `String::push` of
the standard library, in `text`; the three functions around the `regex` crate, in
`matcher`; and the one around the layout of `ratatui`, in `layout`.

| Module       | What it holds                                                        |
|--------------|----------------------------------------------------------------------|
| `text`       | white space, numerals, padding, line breaks                          |
| `diagnostic` | severities, colours, diagnostics, `file:line:col`                    |
| `ansi`       | escape sequences, and what is left of a text without them            |
| `grammar`    | the two forms of diagnostic lines, and that a line has one reading   |
| `matcher`    | the regular expressions, matched by the `regex` crate                |
| `lines`      | how a line makes up a diagnostic, and how compilers write one        |
| `parser`     | from a raw line to a diagnostic                                      |
| `runner`     | the state of a build, its output streams, its settings               |
| `streams`    | why the two output streams of a build do not get mixed up            |
| `layout`     | how the rows of the terminal are shared out among the panels         |
| `app`        | the state of the screen, and what each key does                      |
| `render`     | titles, rows and lines of the panels                                 |

The public proof functions whose names start with `law_` are what holds of the
library as a whole: coloured lines are read like plain ones, a line that a
compiler writes reads back as the diagnostic it was written for, a diagnostic
gets at most eight lines of context, output never moves the selection.

`app/` is the program around it: the build process, the terminal, the keyboard.

## Keys

| Key               | Action                                        |
|-------------------|-----------------------------------------------|
| `↑` / `k`         | Move the selection up                         |
| `↓` / `j`         | Move the selection down                       |
| `PgUp` / `PgDn`   | Scroll by a page                              |
| `Home`            | First diagnostic, or top of the log           |
| `End`             | Last diagnostic, or bottom of the log         |
| `Enter`           | Open the selected place in `hx`               |
| `r`               | Build again                                   |
| `Tab`             | Switch between diagnostics and log            |
| `f`               | Switch between all diagnostics and errors     |
| `q` / `Ctrl-c`    | Quit                                          |

## Settings

| Variable          | Default                    |
|-------------------|----------------------------|
| `CPPHX_BUILD_DIR` | `./build`                  |
| `CPPHX_BUILD_CMD` | `cmake --build . -- -j 64` |
| `CPPHX_LOG_PATH`  | `cpphxbuilder.log`         |
