//! What a markup means: the tree that reading it grows, step by step, and the component
//! built from that tree. Tags whose arguments are markup themselves read those arguments
//! with one level of nesting less; `None` stands for a markup that cannot be read within
//! the nesting allowed, or on which reading would cut a character or write text after
//! every tag was closed.
use vstd::prelude::*;
use vstd::utf8::encode_utf8;

use crate::ascii::{COLON, GREATER, LESS, SLASH};
use crate::component::{
    bare_model, empty_interactions, plain_model, ComponentModel, ContentModel, CustomDataModel,
    FormatModel, HoverEventModel, InteractivityModel, NbtSourceModel, ObjectModel, ObjectPlayerModel,
    Payload, ResolvableModel, TranslatedMessageModel,
};
use crate::content::{entity_separator_model, nbt_separator_model};
use crate::format::empty_format;
use crate::minimessage::args::{joined, split_args_from};
use crate::minimessage::bytes::{first_of, lowercase, text};
use crate::minimessage::escape::unescape;
use crate::minimessage::tree::{
    add_child, build, close_tag, current_parent, initial_tree, push_format, push_tag, reset_stack,
    TreeModel,
};
use crate::minimessage::values::{click_of, color_of, head_id, i32_value, shadow_format, uuid_value};

verus! {

/// The format that a decoration tag sets: `b`, `i`, `em`, `u`, `st`, `obf` and their long
/// names turn a decoration on; with a leading `!` they turn it off.
#[verifier::opaque]
pub open spec fn decoration(lower: Seq<char>) -> Option<FormatModel> {
    let e = empty_format();
    if lower == "b"@ || lower == "bold"@ {
        Some(FormatModel { bold: Some(true), ..e })
    } else if lower == "!b"@ || lower == "!bold"@ {
        Some(FormatModel { bold: Some(false), ..e })
    } else if lower == "i"@ || lower == "em"@ || lower == "italic"@ {
        Some(FormatModel { italic: Some(true), ..e })
    } else if lower == "!i"@ || lower == "!em"@ || lower == "!italic"@ {
        Some(FormatModel { italic: Some(false), ..e })
    } else if lower == "u"@ || lower == "underlined"@ {
        Some(FormatModel { underlined: Some(true), ..e })
    } else if lower == "!u"@ || lower == "!underlined"@ {
        Some(FormatModel { underlined: Some(false), ..e })
    } else if lower == "st"@ || lower == "strikethrough"@ {
        Some(FormatModel { strikethrough: Some(true), ..e })
    } else if lower == "!st"@ || lower == "!strikethrough"@ {
        Some(FormatModel { strikethrough: Some(false), ..e })
    } else if lower == "obf"@ || lower == "obfuscated"@ {
        Some(FormatModel { obfuscated: Some(true), ..e })
    } else if lower == "!obf"@ || lower == "!obfuscated"@ {
        Some(FormatModel { obfuscated: Some(false), ..e })
    } else {
        None
    }
}

/// The format of a `color` tag: its first argument read as a color, or nothing set.
pub open spec fn color_format(args: Seq<Seq<char>>) -> FormatModel {
    if args.len() > 0 && color_of(args[0]) is Some {
        FormatModel { color: color_of(args[0]), ..empty_format() }
    } else {
        empty_format()
    }
}

/// An empty text with the given interactions.
pub open spec fn interaction_node(i: InteractivityModel) -> ComponentModel {
    ComponentModel { interactions: i, ..plain_model(Seq::empty()) }
}

/// The player whose head a `head` tag shows: by id where the text is a UUID, by texture
/// where it holds `/` or `:`, by name otherwise.
pub open spec fn head_player(head: Seq<char>) -> ObjectPlayerModel {
    match uuid_value(head) {
        Some(v) => ObjectPlayerModel { name: None, id: Some(head_id(v)), texture: None },
        None => if encode_utf8(head).contains(SLASH) || encode_utf8(head).contains(COLON) {
            ObjectPlayerModel { name: None, id: None, texture: Some(head) }
        } else {
            ObjectPlayerModel { name: Some(head), id: None, texture: None }
        },
    }
}

/// A `head` tag: the head of the player its first argument names, with the hat layer
/// unless the second argument is `false`.
#[verifier::opaque]
pub open spec fn head_of(t: TreeModel, parent: usize, args: Seq<Seq<char>>) -> TreeModel {
    if args.len() == 0 {
        t
    } else {
        let hat = !(args.len() > 1 && args[1] == "false"@);
        add_child(
            t,
            parent,
            bare_model(ContentModel::Object(ObjectModel::Player { player: head_player(args[0]), hat })),
        ).0
    }
}

/// A `sprite` tag: one argument names the sprite; with more, the first names the atlas
/// and the second the sprite.
#[verifier::opaque]
pub open spec fn sprite_of(t: TreeModel, parent: usize, args: Seq<Seq<char>>) -> TreeModel {
    if args.len() == 0 {
        t
    } else {
        let (atlas, sprite) = if args.len() > 1 {
            (Some(args[0]), args[1])
        } else {
            (None, args[0])
        };
        add_child(t, parent, bare_model(ContentModel::Object(ObjectModel::Atlas { atlas, sprite }))).0
    }
}

/// The source of an Nbt tag by its type name.
pub open spec fn nbt_source(kind: Seq<char>, id: Seq<char>) -> Option<NbtSourceModel> {
    if kind == "entity"@ {
        Some(NbtSourceModel::Entity(id))
    } else if kind == "block"@ {
        Some(NbtSourceModel::Block(id))
    } else if kind == "storage"@ {
        Some(NbtSourceModel::Storage(id))
    } else {
        None
    }
}

/// The end of a tag name that starts at `i`: the first `>`, `:` or `/`, or the end.
pub open spec fn tag_name_end(bytes: Seq<u8>, i: int) -> int
    decreases bytes.len() - i,
{
    if i < 0 || i >= bytes.len() {
        bytes.len() as int
    } else if bytes[i] == GREATER || bytes[i] == COLON || bytes[i] == SLASH {
        i
    } else {
        tag_name_end(bytes, i + 1)
    }
}

/// The arguments of a tag whose name ends at `k`, and where they end.
pub open spec fn tag_args(bytes: Seq<u8>, k: int) -> Option<(Seq<Seq<char>>, int)> {
    if k < bytes.len() && bytes[k] == COLON {
        split_args_from(bytes, k + 1, Seq::empty())
    } else {
        Some((Seq::empty(), k))
    }
}

/// Whether a tag whose arguments end at `p` closes itself, and where it ends: after its
/// `>`, or after the next `>`, or at the end of the markup.
pub open spec fn tag_end(bytes: Seq<u8>, p: int) -> (bool, int) {
    let len = bytes.len() as int;
    let sc = p < len && bytes[p] == SLASH;
    let q = if sc {
        p + 1
    } else {
        p
    };
    let after = if q < len && bytes[q] == GREATER {
        q + 1
    } else {
        match first_of(bytes, q, len, GREATER, GREATER) {
            Some(g) => g + 1,
            None => len,
        }
    };
    (sc, after)
}

/// Where the text that starts at `i` ends: at the next `<`, or the end.
pub open spec fn text_end(bytes: Seq<u8>, i: int) -> int {
    match first_of(bytes, i, bytes.len() as int, LESS, LESS) {
        Some(k) => k,
        None => bytes.len() as int,
    }
}

/// The tree after the text between `i` and `j`: its escapes resolved, and, unless that
/// leaves it empty, added as plain text under the current parent.
#[verifier::opaque]
pub open spec fn add_text(t: TreeModel, bytes: Seq<u8>, i: int, j: int) -> Option<TreeModel> {
    if j <= i {
        Some(t)
    } else {
        match unescape(text(bytes, i, j)) {
            None => None,
            Some(s) => if s.len() == 0 {
                Some(t)
            } else if t.stack.len() == 0 {
                None
            } else {
                Some(add_child(t, current_parent(t), plain_model(s)).0)
            },
        }
    }
}

/// What one round of reading does.
pub enum Step {
    /// Reading cannot go on.
    Fail,
    /// The markup is read, into this tree.
    Stop(TreeModel),
    /// Reading goes on with this tree at this position.
    Go(TreeModel, int),
}

/// A closing tag whose `/` is at `a`: the open tag of the name up to the next `>` is
/// closed, and reading goes on after that `>`.
#[verifier::opaque]
pub open spec fn close_step(bytes: Seq<u8>, a: int, t: TreeModel) -> Step {
    let len = bytes.len() as int;
    let e = a + 1;
    let k = match first_of(bytes, e, len, GREATER, GREATER) {
        Some(k) => k,
        None => len,
    };
    Step::Go(
        close_tag(t, text(bytes, e, k)),
        if k < len {
            k + 1
        } else {
            k
        },
    )
}

/// An opening tag whose name starts at `a`: its name, its arguments, whether it closes
/// itself, and reading goes on after it.
#[verifier::opaque]
pub open spec fn open_step(
    bytes: Seq<u8>,
    a: int,
    t: TreeModel,
    inner: spec_fn(Seq<char>) -> Option<ComponentModel>,
) -> Step {
    let k = tag_name_end(bytes, a);
    match tag_args(bytes, k) {
        None => Step::Fail,
        Some((args, p)) => {
            let (sc, after) = tag_end(bytes, p);
            match open_tag(t, text(bytes, a, k), args, sc, inner) {
                None => Step::Fail,
                Some(t2) => Step::Go(t2, after),
            }
        },
    }
}

/// One round of reading from `i`: a text up to the next `<`, then the tag there.
pub open spec fn step(
    bytes: Seq<u8>,
    i: int,
    t: TreeModel,
    inner: spec_fn(Seq<char>) -> Option<ComponentModel>,
) -> Step {
    let len = bytes.len() as int;
    let j = text_end(bytes, i);
    match add_text(t, bytes, i, j) {
        None => Step::Fail,
        Some(t1) => if j + 1 >= len {
            Step::Stop(t1)
        } else if bytes[j + 1] == SLASH {
            close_step(bytes, j + 1, t1)
        } else {
            open_step(bytes, j + 1, t1, inner)
        },
    }
}

/// The tree that reading the markup from `i` on grows out of `t`.
pub open spec fn lex(
    bytes: Seq<u8>,
    i: int,
    t: TreeModel,
    inner: spec_fn(Seq<char>) -> Option<ComponentModel>,
) -> Option<TreeModel>
    decreases bytes.len() - i,
{
    if i < 0 || i >= bytes.len() {
        Some(t)
    } else {
        match step(bytes, i, t, inner) {
            Step::Fail => None,
            Step::Stop(t2) => Some(t2),
            Step::Go(t2, j) => if j <= i || j > bytes.len() {
                None
            } else {
                lex(bytes, j, t2, inner)
            },
        }
    }
}

/// The component that a markup is read into, with `f` levels of nesting allowed: an
/// empty root whose children are what the markup shows.
pub open spec fn parse_markup(s: Seq<char>, f: int) -> Option<ComponentModel>
    decreases f, 1int,
{
    match lex(encode_utf8(s), 0, initial_tree(), nested_parser(f)) {
        Some(t) => Some(build(t, 0)),
        None => None,
    }
}

/// How markup inside an argument is read when `f` levels of nesting are allowed: with
/// one level less, and not at all where none is left.
pub open spec fn nested_parser(f: int) -> spec_fn(Seq<char>) -> Option<ComponentModel>
    decreases f, 0int,
{
    |x: Seq<char>|
        if f <= 0 {
            None
        } else {
            parse_markup(x, f - 1)
        }
}

/// Each of the texts read as nested markup.
pub open spec fn parse_all(
    items: Seq<Seq<char>>,
    inner: spec_fn(Seq<char>) -> Option<ComponentModel>,
) -> Option<Seq<ComponentModel>>
    decreases items.len(),
{
    if items.len() == 0 {
        Some(Seq::empty())
    } else {
        match inner(items[0]) {
            None => None,
            Some(c) => match parse_all(items.drop_first(), inner) {
                None => None,
                Some(rest) => Some(seq![c] + rest),
            },
        }
    }
}

/// The hover event of a `hover` tag: `show_text` with a markup, `show_item` with an id,
/// a count and components, `show_entity` with a type, a UUID and a name markup. The inner
/// `None` is a tag without a readable event; the outer one a markup that cannot be read.
#[verifier::opaque]
pub open spec fn hover_of(
    args: Seq<Seq<char>>,
    inner: spec_fn(Seq<char>) -> Option<ComponentModel>,
) -> Option<Option<HoverEventModel>> {
    if args.len() == 0 {
        Some(None)
    } else if args[0] == "show_text"@ {
        if args.len() < 2 {
            Some(None)
        } else {
            match inner(args[1]) {
                None => None,
                Some(c) => Some(Some(HoverEventModel::ShowText { value: Box::new(c) })),
            }
        }
    } else if args[0] == "show_item"@ {
        if args.len() < 2 {
            Some(None)
        } else {
            Some(
                Some(
                    HoverEventModel::ShowItem {
                        id: args[1],
                        count: if args.len() > 2 {
                            i32_value(encode_utf8(args[2]))
                        } else {
                            None
                        },
                        components: if args.len() > 3 {
                            Some(args[3])
                        } else {
                            None
                        },
                    },
                ),
            )
        }
    } else if args[0] == "show_entity"@ {
        if args.len() < 3 {
            Some(None)
        } else {
            match uuid_value(args[2]) {
                None => Some(None),
                Some(u) => if args.len() > 3 {
                    match inner(args[3]) {
                        None => None,
                        Some(n) => Some(
                            Some(
                                HoverEventModel::ShowEntity {
                                    name: Some(Box::new(n)),
                                    id: args[1],
                                    uuid: u,
                                },
                            ),
                        ),
                    }
                } else {
                    Some(Some(HoverEventModel::ShowEntity { name: None, id: args[1], uuid: u }))
                },
            }
        }
    } else {
        Some(None)
    }
}

/// A translation tag: a key, a fallback where the tag has one, and the rest of the
/// arguments read as markup.
#[verifier::opaque]
pub open spec fn translate_of(
    t: TreeModel,
    parent: usize,
    args: Seq<Seq<char>>,
    has_fallback: bool,
    inner: spec_fn(Seq<char>) -> Option<ComponentModel>,
) -> Option<TreeModel> {
    if args.len() == 0 {
        Some(t)
    } else {
        let key = args[0];
        let after_key = args.drop_first();
        let fallback = if has_fallback && after_key.len() > 0 {
            Some(after_key[0])
        } else {
            None
        };
        let rest = if has_fallback && after_key.len() > 0 {
            after_key.drop_first()
        } else {
            after_key
        };
        match parse_all(rest, inner) {
            None => None,
            Some(cs) => Some(
                add_child(
                    t,
                    parent,
                    bare_model(
                        ContentModel::Translate(
                            TranslatedMessageModel {
                                key,
                                fallback,
                                args: if cs.len() == 0 {
                                    None
                                } else {
                                    Some(cs)
                                },
                            },
                        ),
                    ),
                ).0,
            ),
        }
    }
}

/// A selector tag: the selector, and a separator markup or a gray ", ".
#[verifier::opaque]
pub open spec fn selector_of(
    t: TreeModel,
    parent: usize,
    args: Seq<Seq<char>>,
    inner: spec_fn(Seq<char>) -> Option<ComponentModel>,
) -> Option<TreeModel> {
    if args.len() == 0 {
        Some(t)
    } else {
        let sep = if args.len() > 1 {
            inner(args[1])
        } else {
            Some(entity_separator_model())
        };
        match sep {
            None => None,
            Some(s) => Some(
                add_child(
                    t,
                    parent,
                    bare_model(
                        ContentModel::Resolvable(
                            ResolvableModel::Entity { selector: args[0], separator: Box::new(s) },
                        ),
                    ),
                ).0,
            ),
        }
    }
}

/// An Nbt tag: source type, id and path, then a separator markup or ", ", then
/// `interpret`. A source type other than `entity`, `block` and `storage` adds nothing.
#[verifier::opaque]
pub open spec fn nbt_of(
    t: TreeModel,
    parent: usize,
    args: Seq<Seq<char>>,
    inner: spec_fn(Seq<char>) -> Option<ComponentModel>,
) -> Option<TreeModel> {
    if args.len() < 3 {
        Some(t)
    } else {
        let sep = if args.len() > 3 {
            inner(args[3])
        } else {
            Some(nbt_separator_model())
        };
        match sep {
            None => None,
            Some(s) => {
                let interpret = args.len() > 4 && args[4] == "interpret"@;
                match nbt_source(args[0], args[1]) {
                    None => Some(t),
                    Some(source) => Some(
                        add_child(
                            t,
                            parent,
                            bare_model(
                                ContentModel::Resolvable(
                                    ResolvableModel::NBT {
                                        path: args[2],
                                        interpret: if interpret {
                                            Some(true)
                                        } else {
                                            None
                                        },
                                        separator: Box::new(s),
                                        source,
                                    },
                                ),
                            ),
                        ).0,
                    ),
                }
            },
        }
    }
}

/// Whether a tag name, in lower case, names one of the extension tags.
pub open spec fn is_extension(lower: Seq<char>) -> bool {
    lower == "rainbow"@ || lower == "gradient"@ || lower == "transition"@ || lower == "pride"@
}

/// Whether a tag name, in lower case, names a tag that the markup knows.
pub open spec fn known_tag(lower: Seq<char>) -> bool {
    ||| decoration(lower) is Some
    ||| lower == "reset"@ || lower == "shadow"@ || lower == "!shadow"@
    ||| lower == "color"@ || lower == "c"@ || lower == "colour"@
    ||| lower == "click"@ || lower == "hover"@ || lower == "insert"@ || lower == "font"@
    ||| lower == "key"@ || lower == "lang"@ || lower == "tr"@ || lower == "translate"@
    ||| lower == "lang_or"@ || lower == "tr_or"@ || lower == "translate_or"@
    ||| lower == "newline"@ || lower == "br"@ || lower == "selector"@ || lower == "sel"@
    ||| lower == "score"@ || lower == "nbt"@ || lower == "data"@ || lower == "sprite"@
    ||| lower == "head"@
    ||| is_extension(lower)
}

/// The tree after an opening tag with the given name and arguments. Names are compared
/// in lower case; a name that is no tag but reads as a color sets that color, and any
/// other name is ignored.
#[verifier::opaque]
pub open spec fn open_tag(
    t: TreeModel,
    name: Seq<char>,
    args: Seq<Seq<char>>,
    sc: bool,
    inner: spec_fn(Seq<char>) -> Option<ComponentModel>,
) -> Option<TreeModel> {
    let parent = current_parent(t);
    let lower = lowercase(name);
    let e = empty_format();
    if decoration(lower) is Some {
        Some(push_format(t, parent, decoration(lower).unwrap(), sc, name))
    } else if lower == "reset"@ {
        Some(reset_stack(t))
    } else if lower == "shadow"@ {
        match shadow_format(args) {
            Some(fm) => Some(push_format(t, parent, fm, sc, "shadow"@)),
            None => None,
        }
    } else if lower == "!shadow"@ {
        Some(push_format(t, parent, FormatModel { shadow_color: Some(0i32), ..e }, sc, "!shadow"@))
    } else if lower == "color"@ || lower == "c"@ || lower == "colour"@ {
        Some(push_format(t, parent, color_format(args), sc, name))
    } else if lower == "click"@ {
        if args.len() == 0 {
            Some(t)
        } else {
            let i = InteractivityModel {
                click: click_of(args[0], joined(args.drop_first())),
                ..empty_interactions()
            };
            Some(push_tag(t, parent, interaction_node(i), "click"@, sc))
        }
    } else if lower == "hover"@ {
        match hover_of(args, inner) {
            None => None,
            Some(h) => Some(
                push_tag(
                    t,
                    parent,
                    interaction_node(InteractivityModel { hover: h, ..empty_interactions() }),
                    "hover"@,
                    sc,
                ),
            ),
        }
    } else if lower == "insert"@ {
        if args.len() == 0 {
            Some(t)
        } else {
            let i = InteractivityModel { insertion: Some(args[0]), ..empty_interactions() };
            Some(push_tag(t, parent, interaction_node(i), "insert"@, sc))
        }
    } else if lower == "font"@ {
        Some(push_format(t, parent, FormatModel { font: Some(joined(args)), ..e }, sc, "font"@))
    } else if lower == "key"@ {
        Some(add_child(t, parent, bare_model(ContentModel::Keybind { keybind: joined(args) })).0)
    } else if lower == "lang"@ || lower == "tr"@ || lower == "translate"@ {
        translate_of(t, parent, args, false, inner)
    } else if lower == "lang_or"@ || lower == "tr_or"@ || lower == "translate_or"@ {
        translate_of(t, parent, args, true, inner)
    } else if lower == "newline"@ || lower == "br"@ {
        Some(add_child(t, parent, plain_model(seq!['\n'])).0)
    } else if lower == "selector"@ || lower == "sel"@ {
        selector_of(t, parent, args, inner)
    } else if lower == "score"@ {
        if args.len() < 2 {
            Some(t)
        } else {
            let r = ResolvableModel::Scoreboard { selector: args[0], objective: args[1] };
            Some(add_child(t, parent, bare_model(ContentModel::Resolvable(r))).0)
        }
    } else if lower == "nbt"@ || lower == "data"@ {
        nbt_of(t, parent, args, inner)
    } else if lower == "sprite"@ {
        Some(sprite_of(t, parent, args))
    } else if lower == "head"@ {
        Some(head_of(t, parent, args))
    } else if is_extension(lower) {
        let data = CustomDataModel { id: lower, payload: Payload::Empty };
        Some(push_tag(t, parent, bare_model(ContentModel::Custom(data)), lower, sc))
    } else {
        match color_of(lower) {
            Some(c) => Some(push_format(t, parent, FormatModel { color: Some(c), ..e }, sc, name)),
            None => Some(t),
        }
    }
}

} // verus!
