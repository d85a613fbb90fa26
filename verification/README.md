# task_limiter

Puts the background processes of chosen Android applications to sleep (`SIGSTOP`) and wakes
them (`SIGCONT`) when they come to the foreground, following a TOML configuration.

- `src/` is the verified library (Verus): reading `dumpsys activity lru`, `dumpsys window
  visible-apps` and `pm list packages` output (`lru_info`, `misc`, `control::android_utils`,
  over the character-level functions of `text`), the configuration (`config`, `toml_doc`),
  which applications each group controls (`control::info`), what a round does
  (`control::plan_round`), and the groups of sleeping processes (`nap_group`).
- `app/` is the program around it: commands, files, signals, threads, locks and timers.
- `tests/` runs the library on concrete inputs.
