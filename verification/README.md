# swc_minify_lits

Minifies CSS and HTML template literals, with the decisions and the text
handling verified by Verus.

- `src/` is the verified library. `tpl_processor.rs` models a template
  literal (its quasis and expressions); `utils/text.rs` holds searching,
  splitting, joining and decimal numbers over characters; `utils/tpl.rs` and
  `utils/quasi.rs` join quasis with placeholders and split rewritten text at
  them again; `stylesheet.rs` keeps each `lightningcss` style sheet with the
  text it came from; `css.rs` and `html.rs` drive `lightningcss` and
  `minify-html`;
  `lib.rs` decides which processor applies to a template; `laws.rs` proves
  that placeholders are found again where they were put, and that split
  text is rebuilt from its quasis and numbers.
- `app/` is the SWC plugin around it: option parsing, the AST walk, and error
  reporting.
- `tests/` runs the library on concrete templates.

## Dependencies

`parcel_selectors` is named only to hold it at `0.26.4`: `lightningcss`
`1.0.0-alpha.51` depends on it, and does not compile against `0.26.6`, which
adds a variant to `SelectorParseErrorKind` that it does not match.
`lightningcss` stays at `1.0.0-alpha.51` because later releases need a
`serde` that `swc_core 0.90` does not build with. Neither `src/` nor `app/`
calls `parcel_selectors` itself.
