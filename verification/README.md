# md2web

Converts the lines of a Markdown text into the lines of an HTML page: headings with
anchors, paragraphs with emphasis, links and images, line breaks, block quotes, code
fences, ordered and unordered lists, pipe tables and horizontal rules.

- `src/` is the library, verified with Verus. Each conversion step is stated as a spec
  function over `Seq<char>` lines, and each executable function is proved to return exactly
  what its spec function gives. Inputs on which the conversion would fail are left out by
  `requires` clauses that name those spec functions. Laws of the conversion stand beside
  the functions they are about, as `law_*` proof functions.
  - `chars`: character classes, white space, trimming and helpers on lines.
  - `text`: heading lines and their anchors.
  - `lists`: ordered and unordered lists.
  - `table`: pipe tables.
  - `link`: inline links and images.
  - `paragraph`: paragraphs and their inline markup.
  - `document`: the whole page.
- `app/` holds the command line.
- `tests/` runs the library on concrete texts.
