# lfm_pc_agent

A local "AI PC" agent: a small language model, served by llama.cpp, drives a Mac in a
perceive → reason → act loop. The model only ever picks a numbered UI element, a key
combo or an app; the agent resolves that to a real click through the accessibility tree.

The decisions of the agent are a library verified with Verus; the command line and the
I/O around it are ordinary Rust.

## Layout

| path | role |
|------|------|
| `src/text.rs` | character-level helpers (trimming, splitting, escaping, decimal numbers) with their specifications |
| `src/reason.rs` | the `Action` record, framing the model's JSON object out of its reply, the response-format ladder, endpoints |
| `src/perceive.rs` | the System Events scripts, reading the accessibility walk into numbered elements, element labels, base64 |
| `src/act.rs` | element lookup by id, key-combo scripts, typing and accessibility-press scripts, planning a step and wording its outcome |
| `src/agent.rs` | the system prompt, the per-turn user text, how a decision and an executed step move the loop on, the step cap, `~/` expansion |
| `src/bench.rs` | scoring a prediction against a fixture's expected answers, tallying a scorecard |
| `src/marks.rs` | drawing numbered boxes onto a screenshot (Set-of-Marks) |
| `app/` | `main`, argument handling, `osascript`/`screencapture`/`cliclick` calls, HTTP to the model server, JSON decoding, floating-point geometry |
| `tests/` | tests of the library |

Every public function of `src/` states its result in `ensures` over `Seq<char>` views
and spec functions. Facts that relate several functions are proof functions, among them:

- `reason::lemma_extracted_is_balanced_piece` — the extracted object occurs verbatim in the
  reply and is balanced, braces inside string literals not counting;
- `reason::lemma_extract_json_idempotent` — extracting again from an extracted object gives it back;
- `act::lemma_blank_combo_refused` — a key combo of only '+' and whitespace is refused;
- `act::lemma_numbered_ids_resolve` — every id 1..N of a numbered view is found by the lookup;
- `bench::lemma_safe_iff_found` — the benchmark's safety rule agrees with the lookup;
- `text::lemma_escape_round_trip` — escaping for an AppleScript literal loses nothing;
- `perceive::lemma_base64_length`, `reason::lemma_endpoint_ignores_trailing_slash`.

The calls into std routines (`char::is_whitespace`, `str::to_lowercase`, `Debug` for
`str`, `String::push`, `Path::join`), into `base64` and into `image` are trusted items
whose contracts are documented next to them.
