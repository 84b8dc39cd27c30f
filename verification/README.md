# bmersive

A curated, session-oriented directory bookmark tool with tmux layouts,
written as a Verus-verified library (`src/`) and a thin command-line
program around it (`app/`).

- `src/text.rs`: decimal numbers, whitespace trimming, name order.
- `src/paths.rs`: splitting, lexical normalization and final components of
  Unix paths.
- `src/locations.rs`: where the state files live.
- `src/state.rs`: the saved sessions, kept sorted by name.
- `src/commands.rs`: what each bookmark and session command does.
- `src/tmux.rs`: tmux actions, command lines and run steps.
- `src/shell.rs`: the shell function printed by `init`.
- `src/laws.rs`: properties that span several calls.
- `app/main.rs`: argument parsing (clap), JSON state files (serde), the
  environment, prompts and running tmux.
