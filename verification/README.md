# ai_step_gen_suite

The rules behind an assistant that writes Pump It Up step charts with a
generative model, verified with Verus.

## Layout

- `src/` — the library, verified by Verus; every public function carries a
  contract that states its result.
  - `text` — character-sequence helpers, decimal and UTF-8 text, case mapping.
  - `biomechanics` — reading note data, the biomechanical checks of a chart
    (row contents, triple taps, jumps, double steps), and the structure of a
    generated section.
  - `commands` — the song-folder and chart rules: metadata and folder names,
    preview ranges and mismatches, chart tags, song creation plans and file
    collisions, audio checks, asset status, fingerprints, folder status.
  - `gemini` — response parts and their text, audio MIME types, and the
    choice between inline audio and an upload.
  - `generation_context` — pattern families, the reading of BPM
    reconciliation notes, the privacy audit of prompts, and the targeting
    of pattern families for a section.
  - `corpus` — the corpus factory's integer features: note blocks, tag
    exclusions, row, window and stream counts, hashes and mirror-invariant
    signatures; the factory's command line.
  - `profiles` — the profile aggregator's rules: level ranges and bands,
    sample confidence, input headers, output audits, generation guidance,
    the aggregator's command line, grouping records by level and the level
    range of a pattern family.
  - `guardrail` — guardrail calibrations: validation, the choice among
    candidate files, section counts, and the findings of a check.
  - `multi_section` — the multi-section preview queue: request and plan
    checks, the per-section steps, and the session status.
  - `credentials` — sealing the API key under a passphrase and opening it.
- `tests/` — tests of the library on concrete values.
- `app/` — the desktop side: files, processes and command lines, JSON,
  HTTP, and the floating-point statistics and thresholds.

## What is not here

The SSC document reader and writer, the settings store and the section
continuity planner are not part of this repository. Without them, `app/`
has no driver for the commands that read or write SSC files (song creation,
folder import, chart listing, the append commands, the chart preview) or
for the corpus factory's run, and the profile aggregator's run is present
only in parts (reading feature records, level samples, family level ranges;
not the profile, archetype, calibration and manifest outputs). The
multi-section queue runs in `app/queue.rs` with the song plan and the section
generator supplied by the caller. The rules these drivers apply are in
`src/` (see the modules above).
