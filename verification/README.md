# yummy_indexing

The verified core of a batch program that keeps three search indexes (stores,
auto-completion keywords, subway stations) in step with a MySQL database.

- `src/` is the library, proved with Verus: initial-consonant extraction of Hangul
  text, merging of joined store rows into one document per store, keyset pagination
  that never splits a store's rows between pages and needs at most one query more than
  the number of full pages, which cron schedules are due at an
  instant, the operator's menu choice, the choice of job and environment file, and the
  step machines of an indexing job and of publishing a new index under its alias.
- `app/` is the program around it: configuration files, the database queries
  (sea-orm), the search-engine requests (HTTP), the command-line loop and the scheduler's tick.
- `tests/` runs the library on concrete values.
