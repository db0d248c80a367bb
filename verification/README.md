# text_components

Minecraft text components: a recursive rich text type with formatting, click and hover
interactions, and a reader for MiniMessage markup that builds such components. The code
is written in Verus: every function states what it returns, and Verus proves it of every
function but the few that call other code and are trusted, not proved. Those are
`find_byte` and `find_either` (`memchr`), `to_lower` (`str::to_lowercase`), `push_char`
(`String::push`), `parse_uuid` (`uuid`), and the `ArgList` functions `args_new`,
`args_push`, `args_len`, `args_remove_first` and `args_get` (`smallvec`); each says in
its doc comment what is claimed of the call.

## Layout

- `src/component.rs` — the types, and their mathematical models (views), in which text
  is a sequence of characters and children are sequences of models.
- `src/lib.rs`, `src/content.rs`, `src/format.rs`, `src/interactivity.rs` — constructors,
  and the `Modifier` trait, which styles a component by value or in place.
- `src/duplicate.rs` — deep copies of components.
- `src/minimessage/` — the markup reader:
  - `bytes.rs`, `escape.rs`, `args.rs`, `values.rs`, `alpha.rs`: searching the UTF-8
    bytes, escapes in text, tag arguments, and the values arguments are read as (colors,
    numbers, clicks, shadows, UUIDs, and the alphas of shadows);
  - `tree.rs`: the tree that reading grows, and how it becomes a component;
  - `markup.rs`: what a markup means, as specification;
  - `parser.rs`: the reader, proved to give what `markup.rs` says.
- `src/laws.rs` — properties across calls and for all inputs, proved.
- `tests/` — tests run against the compiled library.
- `app/` — serde and databake copies of the types, with conversions.

Shadow alphas are read as `f32` values and multiplied in `f32`; `alpha.rs` models both
roundings exactly in integers. `RawTextComponent::try_minimessage` reports markup that
cannot be read, and `RawTextComponent::minimessage` asks for markup that can.
