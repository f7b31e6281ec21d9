# ar_edit_core

The core of a transcript-based video editor, verified with Verus: projects
and their manifests, transcripts, scene indexes, markers and points of
interest, event-sourced edit documents with undo and redo, resolution of
word, scene and time ranges to source times, annotated-markdown export and
import, fuzzy text matching, search, subtitles, overlays, render planning and
demo-bundle derivations.

- `src/` is the verified library. Each module states its behaviour in
  `requires`/`ensures` over spec functions and views; laws that span several
  functions are public proof functions named `law_*`. Calls into outside
  crates (`regex`, `chrono`, `which`) go through a few trusted wrappers.
- `app/` is the unverified side: reading and writing the project's JSON files
  (serde copies of the library's types), running ffmpeg, ffprobe and the
  players, and the floating-point progress and probe arithmetic.
- `tests/` exercises the library on concrete values.
