# FileSync Notes

Keeps notes and the copies of them that live in project folders in step, by
rules: one file and its copy, or one folder and its copy, in one direction or in
both. What a run replaces or removes is backed up first, in a `.back` folder
beside it, and backups are removed once they have outlived the time of keeping.

The decisions are a library that is verified with Verus; the application around
it carries them out.

## Layout

- `src/` is the library. Everything that goes on over several steps is a machine
  that is told what happened and says what to do next:
  - `sync_engine.rs` a run of a rule, `atomic_copy.rs` the copy of a file,
    `purging.rs` removing expired backups and empty folders, `cleanup.rs`
    removing the backups of a rule, `watching.rs` watching the files of rules,
    `saving.rs` putting a new store in the place of the old one;
  - `sync_laws.rs` and `copy_laws.rs` what runs and copies do to files as a
    whole: no file is lost without a backup, a one-way rule leaves its source
    alone, a second run finds nothing to do; `backup_laws.rs` what becomes of a
    backup, from the run that makes it to the cleanup that removes it;
  - `rules.rs` making rules and telling their health, `paths.rs`, `matcher.rs`
    and `listing.rs` which files they are about, `backups.rs` where backups go;
  - `store.rs`, `document.rs` and `json.rs` loading and saving the store,
    whatever the document holds;
  - `state.rs` the state of the running application; `outcome.rs`, `logs.rs`,
    `store_files.rs` and `shell.rs` what is reported, logged and shown.
- `tests/` runs the library, whole runs on a disk that is held in memory.
- `app/` is the desktop application: files, watchers, timers, window and tray.

What is taken on trust are the contracts of the functions that call an outside
crate or the standard library; each of them says what it claims, and of which
function.
