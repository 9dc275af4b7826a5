# tui

Verified text logic of a terminal client's `/change` command and of the
system prompt it gives a recursive language model.

- `src/text.rs`: Unicode white space, trimming, line splitting as
  `str::lines` does it, joining, decimal rendering; specifications and the
  lemmas about them.
- `src/changelog.rs`: finding the newest release section of a changelog
  (`extract_latest_changelog_section`), shortening it for display
  (`inline_changelog_section`), and the laws about the section.
- `src/command.rs`: the `/change` command over an explicit changelog text and
  the interface texts of the user's language.
- `src/prompt.rs`: the RLM root-call system prompt.
- `tests/`: scenario tests.
