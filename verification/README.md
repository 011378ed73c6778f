# aiss

InfoLit is a "who is lying" discussion game for primary-school pupils: a few
model-driven characters discuss a topic, one or two of them secretly use a
deception tactic, and the player asks questions and then accuses the liars.
The verdict is green (all liars found, with a concrete reason), yellow (right
but vague, or only some found) or red (an honest character accused, or no liar
found).

## Layout

- `src/` — the game logic, verified with Verus:
  - `fragments`, `fragment_laws` — cutting a model reply into short chat
    bubbles, and what holds of every result;
  - `selector` — assembling a line-up, choosing the liars and their tactics;
  - `session`, `game_laws` — the transcript, the prompts an actor gets, the
    scoring of accusations, and the laws that tie them together;
  - `turn_director` — who speaks next (algorithmic or through a moderator);
  - `play` — the decisions of the terminal and web front ends;
  - `gateway` — chat message types and the pure parts of talking to Ollama;
  - `importer` — checking and rendering imported content rows;
  - `debug_log` — the texts of the per-session Markdown log;
  - `chance` — the random draws, through `rand`;
  - `actor`, `deception`, `shared`, `pacing`, `prompts`, `text` — data types,
    prompt texts and character-level helpers.
- `tests/` — tests of the library.
- `app/` — the program: `aiss play` (terminal game), `aiss web` (HTTP server
  with server-sent events) and `aiss import` (YAML/CSV content import), with
  the HTTP client for Ollama, file access and serialisation.
