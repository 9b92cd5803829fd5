# libyggterm

The rules behind yggterm's GUI surfaces, proved with Verus.

`src/` is the library, proved with Verus. Every public function in it carries
a contract:

- `text_surface`: the plain-text editing surface (byte-faithful splices, line
  math under the Emacs convention, the line/column round trip);
- `org`, `org_model`: the org-mode grammar as typed nodes with byte ranges,
  whose leaf ranges tile the source and whose headings nest by stars, plus
  the byte-exact TODO cycle and checkbox toggle;
- `org_laws`: what those edits promise of a parsed source (every parsed
  headline and checkbox can be edited in place; toggling twice and cycling the
  TODO keyword three times, re-parsing between, give back the bytes);
- `components`: the bounds an extended-markdown component tree must meet,
  and the sentence each refusal is answered with;
- `conversation`, `chat_input`, `command_palette`, `intellitype`, `otp`,
  `dpad`, `frosted_bar`, `pill_toolbar`, `scroll_rail`, `split_button`,
  `prose`: the tokens, style strings and decisions of the surface components
  (which key does what, where a selection lands, what a history records, how a
  pasted code fills its cells);
- `plot`: where a plotted series breaks: a missing value draws a gap, and
  each run of observed points is one line;
- `utf8`, `unicode`, `text`, `script`: the string facts the rest stands on.

The public `lemma_*` proof functions state the library's laws.

`app/` is the Dioxus side: the components that render those rules, the serde
copies of the component types and the JSON decoding, the per-process
intellitype store, and the floating-point layout (plot scenes, prose scales,
rail marks). `tests/` runs the library on concrete values.
