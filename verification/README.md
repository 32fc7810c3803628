# iocguard

Validates, normalizes and classifies domain indicators (IOCs), and renders the
accepted / suspicious / rejected report.

- `src/` — the verified library (Verus):
  - `text.rs`: character-level primitives (trimming, UTF-8 byte length, splitting,
    substring search, decimal formatting, joining);
  - `domain.rs`: normalization, the validation rules, the suspicion rules, CSV line
    parsing, allowlist loading, and the record of one processed line;
  - `allowlist.rs`: the allowlist, a set of domains;
  - `error.rs`: error types and their messages;
  - `report.rs`: the contents of the CSV files and the summaries;
  - `cli.rs`: command-line argument parsing;
  - `lib.rs`: processing of a whole input file and the report counts.
- `app/` — the command-line program: reads the files, calls the library, writes the report.
- `tests/` — tests of the library.
