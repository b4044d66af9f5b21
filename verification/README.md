# olav

A compile-time XML template engine in the style of maud, written in Verus.

```text
xml! {
    ?xml version="1.0" encoding="UTF-8"
    catalog {
        book(id="1", author=author) { title { "War and Peace" } }
        @for genre in &genres { tag { @genre } }
    }
}
```

## Layout

- `src/` — the verified library.
  - `escape`, `unescape`: escaping of text and attribute values, and what an
    XML reader reads back of it.
  - `markup`, `pre_escaped`, `render`: the `Markup` buffer and the `Render`
    trait for spliced values.
  - `token`, `ast`, `grammar`, `parse`: the template language, parsed from
    token trees held as plain values; `grammar` states what parsing gives,
    `parse` computes it.
  - `codegen`: the statements generated for a template, and the capacity
    they reserve.
  - `run`: what the generated statements write, given the values of the Rust
    expressions they reach.
  - `semantics`: what a template writes, stated over the template, and the
    proof that the generated statements write exactly that.
  - `output`: what a template writes is well-formed XML content (for
    templates with XML names and without DOCTYPE, whose `@cdata` sections
    hold literal text only and whose processing instructions hold literal
    text and splices only, rendered with escaped splice values).
  - `xml`, `wellformed`, `capacity`: more properties of the whole pipeline —
    static templates render to their markup; accepted templates keep
    attribute names distinct, comments free of `--` and of a final `-`, and
    literal text (alone or side by side with other literals) free of `]]>`
    in `@cdata` and of `?>` in processing instructions; the reserved capacity
    never exceeds what the code writes.
- `app/` — the `xml!` front end (a function on `proc_macro2` token streams;
  a `#[proc_macro]` crate would call it): conversion between `proc_macro2` token
  streams and the library's tokens, emission of the generated code with
  `quote`, compile errors with `syn`, and `DisplayValue`.
- `tests/` — tests of the library.
