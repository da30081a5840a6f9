# rusty_golf

The logic of a golf-pool scoreboard, verified with Verus: bettors pick golfers for an
event, the statistics service reports each golfer's rounds and holes, and the scoreboard
ranks the bettors by the sum of their golfers' scores.

- `src/` is the verified library:
  - `text` — decimal numbers, trimming and ordering of texts;
  - `json` — the JSON documents that the scoreboard reads;
  - `score` — scores, statistics, hole results and the "time ago" text;
  - `espn` — reading the statistics service's answers, joining them to the golfer picks,
    splitting the picks over the parallel requests;
  - `aggregate` — grouping, per-golfer and per-bettor round sums, standings;
  - `admin` — the admin area: tokens, pages, submitted rows, missing database objects;
  - `db` — result rows, the setup check, the run of queries in one transaction;
  - `mvu` — the state machine of the score page and its request parameters;
  - `config` — the format of the events file, the command line's database arguments;
  - `cache` — the in-memory scoreboard and its freshness;
  - `prefill` — reading the events file that fills an empty database;
  - `clock` — instants and the time between them, as chrono counts them (leap seconds
    included).
- `tests/` runs the library on concrete values.
- `app/` is the web server around the library: command line, database, HTTP requests to
  the statistics service, HTML pages and JSON output.
