# move_hover

Answers the hover requests of a language server for Move: given a project and the position of a
cursor, it finds what stands there and what to show for it. The library in `src/` is verified with
Verus; `app/` connects it to the compiler and to the client.

- `text`, `search`, `source`: texts, lines, columns and byte spans
- `model`: what the compiler knows of a project, as plain values
- `handler`: the cursor, and what was found under it so far
- `docs`, `items`: documentation comments, and imported items as they are shown
- `uses`, `declarations`, `exprs`: hovering over the parts of a module
- `visit`, `request`: hovering over a file, and answering a request
- `laws`, `positions`: what holds of all of this as a whole
