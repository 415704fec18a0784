# notcron

systemd timers, services and mounts without the crontab.

notcron builds systemd units -- timer and service pairs, standalone services,
mounts and automounts -- from a full-screen form or from the command line. It
edits and removes only units that carry its own marker, keeps whatever a user
wrote into them by hand, and moves what it removes into a trash from which it
can be restored.

## Layout

- `src/` is the library: everything that decides or computes, verified with
  Verus. It does no I/O; it takes what was read and says what is to be written,
  run or shown.
  - `unit/`: the model of a unit, the files it is written as (`generate`), the
    reading of such files (`parse`), what reading gives back of what was
    written (`roundtrip`), name and path escaping, and mount options.
  - `cron`: cron expressions as `OnCalendar=` specs.
  - `systemd`, `trash`, `linger`, `export`, `complete`, `validate`,
    `templates`, `fieldhelp`, `cli`: commands and what their output means, the
    record of a removal, lingering, exports, completion, advice, templates,
    the help document, and the verbs of the command line.
  - `ui/`: the screens as state machines. A screen takes a key, changes, and
    says what it asks of its surroundings; its `lines` are what is painted.
  - `text`, `parts`, `number`, `order`, `paths`, `strmap`, `civil`: what the
    rest is built from.
- `tests/` runs the library on concrete values.
- `app/` is the program: argument parsing, commands, files, the terminal.

The help texts of the form are read at run time from
`/usr/share/notcron/field-help.md`, or from the file that `NOTCRON_FIELD_HELP`
names.
