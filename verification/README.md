# Luciole

Luciole is a local-first companion for macOS: dictation transcribed by a
bundled whisper.cpp, text correction, translation and rephrasing by a local
Gemma model served by Ollama, an acronym glossary injected into the model's
prompt, and meeting notes written as Markdown under `~/.luciole/`.

## Layout

- `src/` — the library, verified with Verus. It holds the application's
  logic: the data directory layout and path checks, the model file and
  language chosen for whisper, how whisper's text and JSON output become a
  transcript, the glossary edits and prompt fragment, the prompts of each
  text action, the settings and the onboarding flag, the meeting recorder's
  state machine, the notes listing and its order, the selection overlay's
  placement and the selection's signature, the mono conversion of
  microphone samples and the menu bar routing. What stays outside is input
  and output, platform calls, and the floating-point audio levels and clock
  timestamps. Each public function states its result in its contract, and
  the `law_*` proof functions state what holds across calls.
- `tests/` — tests of the library on concrete values.
- `app/` — the shell around the library: files on disk, the whisper.cpp
  process, the Ollama HTTP exchange, and on macOS the platform APIs, the menu
  bar, the global shortcuts and the Tauri window.
