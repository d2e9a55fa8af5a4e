# daily_activity

Two small command-line tools and the verified library behind them.

* `daily_activity` prints the day's activity of a user: the Jira issues they
  own or commented on today, and their GitHub events of today.
* `file_organizer <directory>` lists the entries of a directory as tables,
  sorted by name, by size and by time of last modification.

`src/` is the library, verified with Verus:

* `text` – character-level text operations (comparison, trimming, padding).
* `config` – the settings read from environment variables.
* `str_ext` – capitalizing the first character of a text.
* `datetime` – calendar dates and instants, read and written with `chrono`.
* `json` – a JSON document as plain values and lookups along key paths.
* `github` – the event lines of the report and the choice of today's events.
* `jira` – queries, paging of search results, the day's issues without
  repeats, and their lines.
* `listing` – rows of the directory listing, stable sorts and table lines.

The two programs share one binary: its first argument, `daily_activity` or
`file_organizer`, picks the program, and the rest are that program's
arguments.

`app/` holds the programs: network requests, environment, file system,
printing, and the size column (written with floating point).
