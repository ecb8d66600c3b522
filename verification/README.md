# aviutl_text

Parsing of AviUtl text-object strings, verified with Verus.

A text object's string holds plain text, escape sequences (`\n`, `\\`) and control
sequences such as `<#ff0000>`, `<s32,Arial,B>`, `<w0.5>` or `</>base<!>ruby</>`. The
library cuts such a string into elements, reads each control sequence into a typed
element, and writes elements back as text.

- `src/text.rs`: escapes, and mapping a character index to a byte index.
- `src/scan.rs`, `src/tags.rs`: the grammar of control sequences, as functions on
  characters with exact contracts.
- `src/decimal.rs`: numbers, kept exactly as their canonical decimal spelling.
- `src/element.rs`, `src/construct.rs`, `src/reading.rs`: what each sequence stands for,
  building the elements, and which recognised sequences cannot be read.
- `src/control.rs`: the parser (`parse_control`, `parse_text`, `Element::from_text`).
- `src/display.rs`: writing elements back as text.
- `src/laws.rs`, `src/roundtrip.rs`: properties of the whole, among them that every
  element reads back from the text it is written as.

`app/` offers the same elements with `f64` numbers and the standard `Display` and
`FromStr` traits.
