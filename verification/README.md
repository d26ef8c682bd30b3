# saturn-cli

A calendar and task keeper for the command line, with its core written in
Verus and proved against its contracts.

Entries are written in a small language (`saturn entry tomorrow at 8pm
Dinner`, `saturn entry recur 1w 12/25 from 7am to 12pm Christmas`), kept in
a local database file or in a Google calendar, listed, searched (`saturn /
date today time 8pm`), edited, and announced when they are due.

## Layout

- `src/` — the verified library.
  - `time.rs`: dates, times of day, durations and date-times, with the
    calendar arithmetic; the local clock.
  - `text.rs`: the character-level reading the languages rest on.
  - `parse.rs`, `duration.rs`: dates, times and durations as the user writes
    them.
  - `entry.rs`: the entry language; `search.rs`: the search language and the
    filter it drives.
  - `record.rs`: records, recurrences, their edited forms and repetition
    rules.
  - `table.rs`: key-ordered and name-keyed tables.
  - `memory.rs`: the local database; `remote.rs`: the key maps of a remote
    calendar; `google.rs`: what Google calendar events become as records and
    back.
  - `config.rs`, `cli.rs`, `export.rs`, `loader.rs`, `commands.rs`: settings
    and the small pieces of the command line.
  - `input.rs`, `view.rs`: what the interactive interface reads from its
    input line and shows, and the lines the command line lists.
- `tests/` — tests of the library.
- `app/` — the `saturn` program: arguments, files, the Google service,
  notifications and printing, and `saturn ui`, the interactive interface
  (drawn with ratatui).

Each module states its laws (properties that relate several operations) as
public proof functions next to the operations they speak of.
