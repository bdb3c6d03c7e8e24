# flowsight_agent

Verified core of the FlowSight desktop agent, written in Verus.

- `src/analysis.rs` — turns the local vision model's answer into a
  structured description and one of the known activity categories
  (explicit `CATEGORY:` field first, keyword inference otherwise).
- `src/text.rs` — the character-sequence model of the string operations it
  relies on (trimming, lines, words, UTF-8 byte offsets) with verified
  implementations.
- `src/unicode.rs` — the Unicode case mappings and character classes, taken
  from the standard library.
- `src/telemetry.rs` — the in-memory event ring with its time to live, cycle
  summaries, the capture cooldown and the change detection of the platform
  hooks.
- `src/paths.rs` — file locations, PDF export names and screenshot retention.
- `src/config.rs` — precedence of OAuth and Supabase settings.
- `src/crash_guard.rs` — which hardware faults are contained.
- `app/` — the host side: file system, environment, threads, the Windows
  WinEvent/UI Automation hooks and vectored exception handler, and the macOS
  Accessibility/active-window hooks, all delegating their decisions to the
  library.
