# youfinance

The bank-data core of a personal finance application, verified with Verus.

It reads account statements (CSV exports with German column names, and
MT940 files), turns the transactions that a bank-data provider reports
into stored transactions, and decides, for each incoming transaction,
whether it is new, the same as a stored one, or in conflict with it.

## Layout

- `src/` — the verified library.
  - `text.rs`: strings as character sequences; trimming, splitting,
    searching, UTF-8 byte offsets.
  - `decimal.rs`, `float_notation.rs`: decimal and floating-point notation,
    amounts in minor units (cents), writing amounts back as decimals.
  - `model.rs`: the transaction records.
  - `banking/parsers/`: the CSV and MT940 readers.
  - `banking/providers/`: the provider kinds, the GoCardless records and
    request addresses, the local MT940 provider.
  - `banking/sync.rs`: deduplication, conflicts and the conversion of a
    provider's transactions.
  - `banking/utils.rs`: dates and optional texts.
- `tests/` — tests of the library.
- `app/` — the command-line program around it: the SQLite database, the
  HTTP client of the GoCardless API, the file system.

Each public function states in its contract what it returns; the laws that
relate several functions are public proof functions (`lemma_*`).
