# codex-meter

A meter for the tokens that Codex uses. It reads the session logs below the Codex home, counts
every call once, prices the calls by versioned catalogues and keeps them in a store that grows
with the logs. Nothing leaves the machine, and the logs are only ever read.

- `src/` is the library. Its behaviour is stated in contracts and proved by Verus: what a line
  says, how a file is read and resumed, what a scan counts, what an import changes, which rule
  prices a call, how calls are grouped and written out.
- `src/outside.rs` holds the calls into other crates, with what is relied on of each.
- `tests/` run the library on concrete logs.
- `app/` is the command line around it: files, SQLite, amounts of money, reports.

Proof functions whose names begin with `law_` state what holds across the library, among them:

- a file read in two stretches tells the same as one read at once (`src/resume.rs`,
  `src/stages.rs`): its usage records wherever it is cut, its legacy events where its headers
  agree. In either case a line that was taken before its line feed came goes on with nothing but
  blanks and a line end;
- a store that imports keep up to date, while files come and grow, holds the calls and the totals
  that a scan of the files counts (`src/incremental.rs`): under the same conditions, where
  identities tell events apart, where a response id goes on standing for what it stood for first,
  and where legacy events follow their header or are of a session that nothing covers; so does a
  full import
  (`src/agreement.rs`, `src/totals.rs`), whatever the store held, where identities tell events
  apart, and a rebuild from the files that a store was made from changes nothing
  (`src/rebuild.rs`);
- importing the same files twice comes to the same as importing them once (`src/repeat.rs`), and
  a copy of a file, or a file that has moved to the archive, adds no call;
- the events of a session are never counted by both methods, in a scan (`src/scan_laws.rs`) and in
  a store that imports have written (`src/import_laws.rs`); in a store of other origin this
  leaves out the session with the empty name until the first full import;
- a call whose model no rule knows is never priced, and every token of a priced call is charged
  exactly once (`src/pricing.rs`);
- a watcher loses no change: each is imported before it stops (`src/watch.rs`).

Amounts are estimates, never an invoice.
