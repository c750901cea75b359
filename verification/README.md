# code_stats

A source-code statistics tool. The library under `src/` holds the logic, verified
with Verus: how a file's text splits into lines and each line into blank, comment
or code; which paths the scan skips; the per-extension breakdown, its shares and
bars; the project overview; numbers with thousands separators; and the order and
branches of the project tree. `app/` is the command-line program around it: it
parses arguments, walks the directory, reads files and prints in colour.

Modules: `text` (characters, white space, trimming), `paths` (file names,
extensions, ignored components), `analysis` (lines and line kinds), `language`
(languages, tags, name styles), `numbers` (decimal numerals), `report` (breakdown
and overview), `scan` (walk decisions), `tree` (tree listing).
