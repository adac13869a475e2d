# gtm_api

The logic of a service that collects time spent on git repositories
(commits, files and the spans of work recorded on them) and answers
timelines, activity profiles, per-directory timelines and group access
questions over it, written in Verus with its behaviour stated in contracts
and proved.

- `src/` is the verified library. `timeline/` cuts periods into calendar
  intervals in a time zone and sums recorded work into them; `group.rs`
  works out which groups a user reaches; `errors.rs` holds field
  validation and the HTTP answer of each error; `commit.rs`, `file.rs`,
  `repository.rs`, `sync.rs`, `user.rs`, `hosts.rs` and `git.rs` read and
  check what clients and code hosts send. Calendar readings (`chrono`,
  `chrono-tz`), regular expressions (`regex`), field-error maps
  (`validator`) and random keys (`rand`) are called through small trusted
  wrappers whose contracts name what they return.
- `app/` is the unverified rim: JSON shapes with serde, calls to code
  hosts and sync clients with `reqwest`, and the answers that give work in
  hours as floating-point numbers.
- `tests/` runs the library on concrete values.
