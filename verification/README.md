# stonkscollect

A collector of US-equity fundamentals: SEC EDGAR filings, vendor figures
(FMP, Yahoo, an HTML fallback), prices and headlines are fetched, reconciled
across sources (EDGAR wins), stored in SQLite and served over a REST API with
Graham-style screening.

## Layout

- `src/` — the verified library (Verus). Document readers for each source
  (over a small JSON model and raw text), grouping and canonical choice in
  reconciliation, per-period grouping for ratio and Graham computations,
  retry/back-off and rate-limit decisions, the login throttle, scheduling,
  configuration parsing, SQL text assembly for the store, and the collection
  tallies. Calls into `chrono`, `cron`, `rss`, `scraper`, `sha2`, `argon2`,
  `rand` and `std` hashing/case mapping stand behind small trusted wrappers
  whose contracts say what those crates document.
- `tests/` — ordinary Rust tests of the library.
- `app/` — the program around it: HTTP transport (`reqwest`), JSON decoding
  (`serde_json`), SQLite (`sqlx`), the API (`axum`), Parquet export, the CLI and
  the scheduling loop, and the floating-point arithmetic (ratios, Graham
  criteria, relative differences).

## Commands

```
stonkscollect serve               # REST API + tiered collection loop
stonkscollect bootstrap           # load SEC's ticker directory
stonkscollect collect [--ticker T] [--all]
stonkscollect export <dir>        # prices as Parquet, one file per ticker
stonkscollect seed-admin          # development login
```

Configuration comes from the environment: `DATABASE_URL`, `PORT`,
`USER_AGENT`, `FMP_API_KEY`, `FINNHUB_API_KEY`, `TICKERS`, `COLLECT_ALL`,
`REQUEST_DELAY_MS`, `RECONCILE_THRESHOLD`.
