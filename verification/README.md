# download_manager_engine

The core of a segmented HTTP download manager, written in Verus and proved
against its contracts.

- `src/` is the verified library: range planning and chunk scheduling with
  byte conservation, partial-file coverage bookkeeping, strict parsing of
  ranged-response metadata (`Content-Range`, entity tags, dates,
  `Content-Disposition`), filename sanitizing, the persisted task record and
  its lifecycle, task-state loading and migration, checkpoint and event
  policy, request admission and retry timing, progress estimation, and
  integrity checking. Calls into `url`/`reqwest`, `httpdate`, `time`, `sha2`
  and `uuid` stand behind small trusted wrappers whose contracts name what
  those crates compute.
- `app/` is the unverified plumbing around it: HTTP exchanges, positioned
  file I/O, the on-disk task store and the async loops that carry out what
  the library decides.
- `tests/` exercises the library on concrete values.
