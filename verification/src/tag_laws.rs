//! Laws of the tags of the markup: what each kind of tag does to the tree that reading
//! grows, for every tree, every spelling of the tag's name and every argument list; what
//! whole markups of a tag between texts are read into; how quoted arguments resolve their
//! escapes; and which color each color name, and which channels each shadow, gives.
use vstd::prelude::*;
use vstd::utf8::{encode_scalar, encode_utf8, is_continuation_byte};

use crate::ascii::{BACKSLASH, COLON, DOUBLE_QUOTE, GREATER, LESS, PLUS, SINGLE_QUOTE, SLASH};
use crate::component::{
    empty_interactions, plain_model, ClickEventModel, Color, ComponentModel, CustomDataModel,
    FormatModel, InteractivityModel, Payload,
};
use crate::format::{empty_format, hex_color, hex_digit_value, hex_pair_value, shadow_value};
use crate::laws::lemma_text_without;
use crate::minimessage::args::{joined, quoted, split_args_from};
use crate::minimessage::bytes::{boundary, first_of, lemma_first_of, lowercase, text};
use crate::minimessage::markup::{
    add_text, decoration, hover_of, known_tag, lex, nested_parser, open_step, open_tag, parse_markup,
    step, tag_args, tag_end, tag_name_end, text_end, Step,
};
use crate::minimessage::parser::{markup_component, NESTING_LIMIT};
use crate::minimessage::tree::{
    add_child, build, current_parent, initial_tree, push_format, push_tag, tree_wf, TreeModel,
};
use crate::minimessage::values::{alpha_arg, click_of, color_of, named_color, rgb_of, shadow_format};

verus! {

// ---------------------------------------------------------------------------------------
// Decorations
// ---------------------------------------------------------------------------------------
/// The tree after a tag that sets the given format: an empty text with that format, added
/// under the current parent and, unless the tag closes itself, opened.
pub open spec fn formatted(
    t: TreeModel,
    name: Seq<char>,
    sc: bool,
    f: FormatModel,
) -> Option<TreeModel> {
    Some(push_format(t, current_parent(t), f, sc, name))
}

/// Each decoration tag turns its decoration on and nothing else; the same name with a
/// leading `!` turns that decoration off and nothing else: `b`/`bold`, `i`/`em`/`italic`,
/// `u`/`underlined`, `st`/`strikethrough`, `obf`/`obfuscated`, in any case.
pub proof fn law_decoration_tags(
    t: TreeModel,
    name: Seq<char>,
    args: Seq<Seq<char>>,
    sc: bool,
    inner: spec_fn(Seq<char>) -> Option<ComponentModel>,
)
    ensures
        ({
            let lower = lowercase(name);
            let e = empty_format();
            let r = open_tag(t, name, args, sc, inner);
            &&& (lower == "b"@ || lower == "bold"@) ==> r == formatted(
                t,
                name,
                sc,
                FormatModel { bold: Some(true), ..e },
            )
            &&& (lower == "!b"@ || lower == "!bold"@) ==> r == formatted(
                t,
                name,
                sc,
                FormatModel { bold: Some(false), ..e },
            )
            &&& (lower == "i"@ || lower == "em"@ || lower == "italic"@) ==> r == formatted(
                t,
                name,
                sc,
                FormatModel { italic: Some(true), ..e },
            )
            &&& (lower == "!i"@ || lower == "!em"@ || lower == "!italic"@) ==> r == formatted(
                t,
                name,
                sc,
                FormatModel { italic: Some(false), ..e },
            )
            &&& (lower == "u"@ || lower == "underlined"@) ==> r == formatted(
                t,
                name,
                sc,
                FormatModel { underlined: Some(true), ..e },
            )
            &&& (lower == "!u"@ || lower == "!underlined"@) ==> r == formatted(
                t,
                name,
                sc,
                FormatModel { underlined: Some(false), ..e },
            )
            &&& (lower == "st"@ || lower == "strikethrough"@) ==> r == formatted(
                t,
                name,
                sc,
                FormatModel { strikethrough: Some(true), ..e },
            )
            &&& (lower == "!st"@ || lower == "!strikethrough"@) ==> r == formatted(
                t,
                name,
                sc,
                FormatModel { strikethrough: Some(false), ..e },
            )
            &&& (lower == "obf"@ || lower == "obfuscated"@) ==> r == formatted(
                t,
                name,
                sc,
                FormatModel { obfuscated: Some(true), ..e },
            )
            &&& (lower == "!obf"@ || lower == "!obfuscated"@) ==> r == formatted(
                t,
                name,
                sc,
                FormatModel { obfuscated: Some(false), ..e },
            )
        }),
{
    let lower = lowercase(name);
    let e = empty_format();
    reveal(open_tag);
    if lower == "b"@ {
        lemma_decoration_b();
    }
    if lower == "!b"@ {
        lemma_decoration_not_b();
    }
    if lower == "bold"@ {
        lemma_decoration_bold();
    }
    if lower == "!bold"@ {
        lemma_decoration_not_bold();
    }
    if lower == "i"@ {
        lemma_decoration_i();
    }
    if lower == "em"@ {
        lemma_decoration_em();
    }
    if lower == "italic"@ {
        lemma_decoration_italic();
    }
    if lower == "!i"@ {
        lemma_decoration_not_i();
    }
    if lower == "!em"@ {
        lemma_decoration_not_em();
    }
    if lower == "!italic"@ {
        lemma_decoration_not_italic();
    }
    if lower == "u"@ {
        lemma_decoration_u();
    }
    if lower == "underlined"@ {
        lemma_decoration_underlined();
    }
    if lower == "!u"@ {
        lemma_decoration_not_u();
    }
    if lower == "!underlined"@ {
        lemma_decoration_not_underlined();
    }
    if lower == "st"@ {
        lemma_decoration_st();
    }
    if lower == "strikethrough"@ {
        lemma_decoration_strikethrough();
    }
    if lower == "!st"@ {
        lemma_decoration_not_st();
    }
    if lower == "!strikethrough"@ {
        lemma_decoration_not_strikethrough();
    }
    if lower == "obf"@ {
        lemma_decoration_obf();
    }
    if lower == "obfuscated"@ {
        lemma_decoration_obfuscated();
    }
    if lower == "!obf"@ {
        lemma_decoration_not_obf();
    }
    if lower == "!obfuscated"@ {
        lemma_decoration_not_obfuscated();
    }
}

/// The format that the decoration name `b` sets.
proof fn lemma_decoration_b()
    ensures
        decoration("b"@) == Some(FormatModel { bold: Some(true), ..empty_format() }),
{
    reveal(decoration);
    reveal_strlit("b");
}

/// The format that the decoration name `bold` sets.
proof fn lemma_decoration_bold()
    ensures
        decoration("bold"@) == Some(FormatModel { bold: Some(true), ..empty_format() }),
{
    reveal(decoration);
    reveal_strlit("bold");
    reveal_strlit("b");
    assert("bold"@.len() != "b"@.len());
}

/// The format that the decoration name `!b` sets.
proof fn lemma_decoration_not_b()
    ensures
        decoration("!b"@) == Some(FormatModel { bold: Some(false), ..empty_format() }),
{
    reveal(decoration);
    reveal_strlit("!b");
    reveal_strlit("b");
    assert("!b"@.len() != "b"@.len());
    reveal_strlit("bold");
    assert("!b"@.len() != "bold"@.len());
}

/// The format that the decoration name `!bold` sets.
proof fn lemma_decoration_not_bold()
    ensures
        decoration("!bold"@) == Some(FormatModel { bold: Some(false), ..empty_format() }),
{
    reveal(decoration);
    reveal_strlit("!bold");
    reveal_strlit("b");
    assert("!bold"@.len() != "b"@.len());
    reveal_strlit("bold");
    assert("!bold"@.len() != "bold"@.len());
    reveal_strlit("!b");
    assert("!bold"@.len() != "!b"@.len());
}

/// The format that the decoration name `i` sets.
proof fn lemma_decoration_i()
    ensures
        decoration("i"@) == Some(FormatModel { italic: Some(true), ..empty_format() }),
{
    reveal(decoration);
    reveal_strlit("i");
    reveal_strlit("b");
    assert("i"@[0] != "b"@[0]);
    reveal_strlit("bold");
    assert("i"@.len() != "bold"@.len());
    reveal_strlit("!b");
    assert("i"@.len() != "!b"@.len());
    reveal_strlit("!bold");
    assert("i"@.len() != "!bold"@.len());
}

/// The format that the decoration name `em` sets.
proof fn lemma_decoration_em()
    ensures
        decoration("em"@) == Some(FormatModel { italic: Some(true), ..empty_format() }),
{
    reveal(decoration);
    reveal_strlit("em");
    reveal_strlit("b");
    assert("em"@.len() != "b"@.len());
    reveal_strlit("bold");
    assert("em"@.len() != "bold"@.len());
    reveal_strlit("!b");
    assert("em"@[0] != "!b"@[0]);
    reveal_strlit("!bold");
    assert("em"@.len() != "!bold"@.len());
    reveal_strlit("i");
    assert("em"@.len() != "i"@.len());
}

/// The format that the decoration name `italic` sets.
proof fn lemma_decoration_italic()
    ensures
        decoration("italic"@) == Some(FormatModel { italic: Some(true), ..empty_format() }),
{
    reveal(decoration);
    reveal_strlit("italic");
    reveal_strlit("b");
    assert("italic"@.len() != "b"@.len());
    reveal_strlit("bold");
    assert("italic"@.len() != "bold"@.len());
    reveal_strlit("!b");
    assert("italic"@.len() != "!b"@.len());
    reveal_strlit("!bold");
    assert("italic"@.len() != "!bold"@.len());
    reveal_strlit("i");
    assert("italic"@.len() != "i"@.len());
    reveal_strlit("em");
    assert("italic"@.len() != "em"@.len());
}

/// The format that the decoration name `!i` sets.
proof fn lemma_decoration_not_i()
    ensures
        decoration("!i"@) == Some(FormatModel { italic: Some(false), ..empty_format() }),
{
    reveal(decoration);
    reveal_strlit("!i");
    reveal_strlit("b");
    assert("!i"@.len() != "b"@.len());
    reveal_strlit("bold");
    assert("!i"@.len() != "bold"@.len());
    reveal_strlit("!b");
    assert("!i"@[1] != "!b"@[1]);
    reveal_strlit("!bold");
    assert("!i"@.len() != "!bold"@.len());
    reveal_strlit("i");
    assert("!i"@.len() != "i"@.len());
    reveal_strlit("em");
    assert("!i"@[0] != "em"@[0]);
    reveal_strlit("italic");
    assert("!i"@.len() != "italic"@.len());
}

/// The format that the decoration name `!em` sets.
proof fn lemma_decoration_not_em()
    ensures
        decoration("!em"@) == Some(FormatModel { italic: Some(false), ..empty_format() }),
{
    reveal(decoration);
    reveal_strlit("!em");
    reveal_strlit("b");
    assert("!em"@.len() != "b"@.len());
    reveal_strlit("bold");
    assert("!em"@.len() != "bold"@.len());
    reveal_strlit("!b");
    assert("!em"@.len() != "!b"@.len());
    reveal_strlit("!bold");
    assert("!em"@.len() != "!bold"@.len());
    reveal_strlit("i");
    assert("!em"@.len() != "i"@.len());
    reveal_strlit("em");
    assert("!em"@.len() != "em"@.len());
    reveal_strlit("italic");
    assert("!em"@.len() != "italic"@.len());
    reveal_strlit("!i");
    assert("!em"@.len() != "!i"@.len());
}

/// The format that the decoration name `!italic` sets.
proof fn lemma_decoration_not_italic()
    ensures
        decoration("!italic"@) == Some(FormatModel { italic: Some(false), ..empty_format() }),
{
    reveal(decoration);
    reveal_strlit("!italic");
    reveal_strlit("b");
    assert("!italic"@.len() != "b"@.len());
    reveal_strlit("bold");
    assert("!italic"@.len() != "bold"@.len());
    reveal_strlit("!b");
    assert("!italic"@.len() != "!b"@.len());
    reveal_strlit("!bold");
    assert("!italic"@.len() != "!bold"@.len());
    reveal_strlit("i");
    assert("!italic"@.len() != "i"@.len());
    reveal_strlit("em");
    assert("!italic"@.len() != "em"@.len());
    reveal_strlit("italic");
    assert("!italic"@.len() != "italic"@.len());
    reveal_strlit("!i");
    assert("!italic"@.len() != "!i"@.len());
    reveal_strlit("!em");
    assert("!italic"@.len() != "!em"@.len());
}

/// The format that the decoration name `u` sets.
proof fn lemma_decoration_u()
    ensures
        decoration("u"@) == Some(FormatModel { underlined: Some(true), ..empty_format() }),
{
    reveal(decoration);
    reveal_strlit("u");
    reveal_strlit("b");
    assert("u"@[0] != "b"@[0]);
    reveal_strlit("bold");
    assert("u"@.len() != "bold"@.len());
    reveal_strlit("!b");
    assert("u"@.len() != "!b"@.len());
    reveal_strlit("!bold");
    assert("u"@.len() != "!bold"@.len());
    reveal_strlit("i");
    assert("u"@[0] != "i"@[0]);
    reveal_strlit("em");
    assert("u"@.len() != "em"@.len());
    reveal_strlit("italic");
    assert("u"@.len() != "italic"@.len());
    reveal_strlit("!i");
    assert("u"@.len() != "!i"@.len());
    reveal_strlit("!em");
    assert("u"@.len() != "!em"@.len());
    reveal_strlit("!italic");
    assert("u"@.len() != "!italic"@.len());
}

/// The format that the decoration name `underlined` sets.
proof fn lemma_decoration_underlined()
    ensures
        decoration("underlined"@) == Some(FormatModel { underlined: Some(true), ..empty_format() }),
{
    reveal(decoration);
    reveal_strlit("underlined");
    reveal_strlit("b");
    assert("underlined"@.len() != "b"@.len());
    reveal_strlit("bold");
    assert("underlined"@.len() != "bold"@.len());
    reveal_strlit("!b");
    assert("underlined"@.len() != "!b"@.len());
    reveal_strlit("!bold");
    assert("underlined"@.len() != "!bold"@.len());
    reveal_strlit("i");
    assert("underlined"@.len() != "i"@.len());
    reveal_strlit("em");
    assert("underlined"@.len() != "em"@.len());
    reveal_strlit("italic");
    assert("underlined"@.len() != "italic"@.len());
    reveal_strlit("!i");
    assert("underlined"@.len() != "!i"@.len());
    reveal_strlit("!em");
    assert("underlined"@.len() != "!em"@.len());
    reveal_strlit("!italic");
    assert("underlined"@.len() != "!italic"@.len());
    reveal_strlit("u");
    assert("underlined"@.len() != "u"@.len());
}

/// The format that the decoration name `!u` sets.
proof fn lemma_decoration_not_u()
    ensures
        decoration("!u"@) == Some(FormatModel { underlined: Some(false), ..empty_format() }),
{
    reveal(decoration);
    reveal_strlit("!u");
    reveal_strlit("b");
    assert("!u"@.len() != "b"@.len());
    reveal_strlit("bold");
    assert("!u"@.len() != "bold"@.len());
    reveal_strlit("!b");
    assert("!u"@[1] != "!b"@[1]);
    reveal_strlit("!bold");
    assert("!u"@.len() != "!bold"@.len());
    reveal_strlit("i");
    assert("!u"@.len() != "i"@.len());
    reveal_strlit("em");
    assert("!u"@[0] != "em"@[0]);
    reveal_strlit("italic");
    assert("!u"@.len() != "italic"@.len());
    reveal_strlit("!i");
    assert("!u"@[1] != "!i"@[1]);
    reveal_strlit("!em");
    assert("!u"@.len() != "!em"@.len());
    reveal_strlit("!italic");
    assert("!u"@.len() != "!italic"@.len());
    reveal_strlit("u");
    assert("!u"@.len() != "u"@.len());
    reveal_strlit("underlined");
    assert("!u"@.len() != "underlined"@.len());
}

/// The format that the decoration name `!underlined` sets.
proof fn lemma_decoration_not_underlined()
    ensures
        decoration("!underlined"@) == Some(FormatModel { underlined: Some(false), ..empty_format() }),
{
    reveal(decoration);
    reveal_strlit("!underlined");
    reveal_strlit("b");
    assert("!underlined"@.len() != "b"@.len());
    reveal_strlit("bold");
    assert("!underlined"@.len() != "bold"@.len());
    reveal_strlit("!b");
    assert("!underlined"@.len() != "!b"@.len());
    reveal_strlit("!bold");
    assert("!underlined"@.len() != "!bold"@.len());
    reveal_strlit("i");
    assert("!underlined"@.len() != "i"@.len());
    reveal_strlit("em");
    assert("!underlined"@.len() != "em"@.len());
    reveal_strlit("italic");
    assert("!underlined"@.len() != "italic"@.len());
    reveal_strlit("!i");
    assert("!underlined"@.len() != "!i"@.len());
    reveal_strlit("!em");
    assert("!underlined"@.len() != "!em"@.len());
    reveal_strlit("!italic");
    assert("!underlined"@.len() != "!italic"@.len());
    reveal_strlit("u");
    assert("!underlined"@.len() != "u"@.len());
    reveal_strlit("underlined");
    assert("!underlined"@.len() != "underlined"@.len());
    reveal_strlit("!u");
    assert("!underlined"@.len() != "!u"@.len());
}

/// The format that the decoration name `st` sets.
proof fn lemma_decoration_st()
    ensures
        decoration("st"@) == Some(FormatModel { strikethrough: Some(true), ..empty_format() }),
{
    reveal(decoration);
    reveal_strlit("st");
    reveal_strlit("b");
    assert("st"@.len() != "b"@.len());
    reveal_strlit("bold");
    assert("st"@.len() != "bold"@.len());
    reveal_strlit("!b");
    assert("st"@[0] != "!b"@[0]);
    reveal_strlit("!bold");
    assert("st"@.len() != "!bold"@.len());
    reveal_strlit("i");
    assert("st"@.len() != "i"@.len());
    reveal_strlit("em");
    assert("st"@[0] != "em"@[0]);
    reveal_strlit("italic");
    assert("st"@.len() != "italic"@.len());
    reveal_strlit("!i");
    assert("st"@[0] != "!i"@[0]);
    reveal_strlit("!em");
    assert("st"@.len() != "!em"@.len());
    reveal_strlit("!italic");
    assert("st"@.len() != "!italic"@.len());
    reveal_strlit("u");
    assert("st"@.len() != "u"@.len());
    reveal_strlit("underlined");
    assert("st"@.len() != "underlined"@.len());
    reveal_strlit("!u");
    assert("st"@[0] != "!u"@[0]);
    reveal_strlit("!underlined");
    assert("st"@.len() != "!underlined"@.len());
}

/// The format that the decoration name `strikethrough` sets.
proof fn lemma_decoration_strikethrough()
    ensures
        decoration("strikethrough"@) == Some(FormatModel { strikethrough: Some(true), ..empty_format() }),
{
    reveal(decoration);
    reveal_strlit("strikethrough");
    reveal_strlit("b");
    assert("strikethrough"@.len() != "b"@.len());
    reveal_strlit("bold");
    assert("strikethrough"@.len() != "bold"@.len());
    reveal_strlit("!b");
    assert("strikethrough"@.len() != "!b"@.len());
    reveal_strlit("!bold");
    assert("strikethrough"@.len() != "!bold"@.len());
    reveal_strlit("i");
    assert("strikethrough"@.len() != "i"@.len());
    reveal_strlit("em");
    assert("strikethrough"@.len() != "em"@.len());
    reveal_strlit("italic");
    assert("strikethrough"@.len() != "italic"@.len());
    reveal_strlit("!i");
    assert("strikethrough"@.len() != "!i"@.len());
    reveal_strlit("!em");
    assert("strikethrough"@.len() != "!em"@.len());
    reveal_strlit("!italic");
    assert("strikethrough"@.len() != "!italic"@.len());
    reveal_strlit("u");
    assert("strikethrough"@.len() != "u"@.len());
    reveal_strlit("underlined");
    assert("strikethrough"@.len() != "underlined"@.len());
    reveal_strlit("!u");
    assert("strikethrough"@.len() != "!u"@.len());
    reveal_strlit("!underlined");
    assert("strikethrough"@.len() != "!underlined"@.len());
    reveal_strlit("st");
    assert("strikethrough"@.len() != "st"@.len());
}

/// The format that the decoration name `!st` sets.
proof fn lemma_decoration_not_st()
    ensures
        decoration("!st"@) == Some(FormatModel { strikethrough: Some(false), ..empty_format() }),
{
    reveal(decoration);
    reveal_strlit("!st");
    reveal_strlit("b");
    assert("!st"@.len() != "b"@.len());
    reveal_strlit("bold");
    assert("!st"@.len() != "bold"@.len());
    reveal_strlit("!b");
    assert("!st"@.len() != "!b"@.len());
    reveal_strlit("!bold");
    assert("!st"@.len() != "!bold"@.len());
    reveal_strlit("i");
    assert("!st"@.len() != "i"@.len());
    reveal_strlit("em");
    assert("!st"@.len() != "em"@.len());
    reveal_strlit("italic");
    assert("!st"@.len() != "italic"@.len());
    reveal_strlit("!i");
    assert("!st"@.len() != "!i"@.len());
    reveal_strlit("!em");
    assert("!st"@[1] != "!em"@[1]);
    reveal_strlit("!italic");
    assert("!st"@.len() != "!italic"@.len());
    reveal_strlit("u");
    assert("!st"@.len() != "u"@.len());
    reveal_strlit("underlined");
    assert("!st"@.len() != "underlined"@.len());
    reveal_strlit("!u");
    assert("!st"@.len() != "!u"@.len());
    reveal_strlit("!underlined");
    assert("!st"@.len() != "!underlined"@.len());
    reveal_strlit("st");
    assert("!st"@.len() != "st"@.len());
    reveal_strlit("strikethrough");
    assert("!st"@.len() != "strikethrough"@.len());
}

/// The format that the decoration name `!strikethrough` sets.
proof fn lemma_decoration_not_strikethrough()
    ensures
        decoration("!strikethrough"@) == Some(FormatModel { strikethrough: Some(false), ..empty_format() }),
{
    reveal(decoration);
    reveal_strlit("!strikethrough");
    reveal_strlit("b");
    assert("!strikethrough"@.len() != "b"@.len());
    reveal_strlit("bold");
    assert("!strikethrough"@.len() != "bold"@.len());
    reveal_strlit("!b");
    assert("!strikethrough"@.len() != "!b"@.len());
    reveal_strlit("!bold");
    assert("!strikethrough"@.len() != "!bold"@.len());
    reveal_strlit("i");
    assert("!strikethrough"@.len() != "i"@.len());
    reveal_strlit("em");
    assert("!strikethrough"@.len() != "em"@.len());
    reveal_strlit("italic");
    assert("!strikethrough"@.len() != "italic"@.len());
    reveal_strlit("!i");
    assert("!strikethrough"@.len() != "!i"@.len());
    reveal_strlit("!em");
    assert("!strikethrough"@.len() != "!em"@.len());
    reveal_strlit("!italic");
    assert("!strikethrough"@.len() != "!italic"@.len());
    reveal_strlit("u");
    assert("!strikethrough"@.len() != "u"@.len());
    reveal_strlit("underlined");
    assert("!strikethrough"@.len() != "underlined"@.len());
    reveal_strlit("!u");
    assert("!strikethrough"@.len() != "!u"@.len());
    reveal_strlit("!underlined");
    assert("!strikethrough"@.len() != "!underlined"@.len());
    reveal_strlit("st");
    assert("!strikethrough"@.len() != "st"@.len());
    reveal_strlit("strikethrough");
    assert("!strikethrough"@.len() != "strikethrough"@.len());
    reveal_strlit("!st");
    assert("!strikethrough"@.len() != "!st"@.len());
}

/// The format that the decoration name `obf` sets.
proof fn lemma_decoration_obf()
    ensures
        decoration("obf"@) == Some(FormatModel { obfuscated: Some(true), ..empty_format() }),
{
    reveal(decoration);
    reveal_strlit("obf");
    reveal_strlit("b");
    assert("obf"@.len() != "b"@.len());
    reveal_strlit("bold");
    assert("obf"@.len() != "bold"@.len());
    reveal_strlit("!b");
    assert("obf"@.len() != "!b"@.len());
    reveal_strlit("!bold");
    assert("obf"@.len() != "!bold"@.len());
    reveal_strlit("i");
    assert("obf"@.len() != "i"@.len());
    reveal_strlit("em");
    assert("obf"@.len() != "em"@.len());
    reveal_strlit("italic");
    assert("obf"@.len() != "italic"@.len());
    reveal_strlit("!i");
    assert("obf"@.len() != "!i"@.len());
    reveal_strlit("!em");
    assert("obf"@[0] != "!em"@[0]);
    reveal_strlit("!italic");
    assert("obf"@.len() != "!italic"@.len());
    reveal_strlit("u");
    assert("obf"@.len() != "u"@.len());
    reveal_strlit("underlined");
    assert("obf"@.len() != "underlined"@.len());
    reveal_strlit("!u");
    assert("obf"@.len() != "!u"@.len());
    reveal_strlit("!underlined");
    assert("obf"@.len() != "!underlined"@.len());
    reveal_strlit("st");
    assert("obf"@.len() != "st"@.len());
    reveal_strlit("strikethrough");
    assert("obf"@.len() != "strikethrough"@.len());
    reveal_strlit("!st");
    assert("obf"@[0] != "!st"@[0]);
    reveal_strlit("!strikethrough");
    assert("obf"@.len() != "!strikethrough"@.len());
}

/// The format that the decoration name `obfuscated` sets.
proof fn lemma_decoration_obfuscated()
    ensures
        decoration("obfuscated"@) == Some(FormatModel { obfuscated: Some(true), ..empty_format() }),
{
    reveal(decoration);
    reveal_strlit("obfuscated");
    reveal_strlit("b");
    assert("obfuscated"@.len() != "b"@.len());
    reveal_strlit("bold");
    assert("obfuscated"@.len() != "bold"@.len());
    reveal_strlit("!b");
    assert("obfuscated"@.len() != "!b"@.len());
    reveal_strlit("!bold");
    assert("obfuscated"@.len() != "!bold"@.len());
    reveal_strlit("i");
    assert("obfuscated"@.len() != "i"@.len());
    reveal_strlit("em");
    assert("obfuscated"@.len() != "em"@.len());
    reveal_strlit("italic");
    assert("obfuscated"@.len() != "italic"@.len());
    reveal_strlit("!i");
    assert("obfuscated"@.len() != "!i"@.len());
    reveal_strlit("!em");
    assert("obfuscated"@.len() != "!em"@.len());
    reveal_strlit("!italic");
    assert("obfuscated"@.len() != "!italic"@.len());
    reveal_strlit("u");
    assert("obfuscated"@.len() != "u"@.len());
    reveal_strlit("underlined");
    assert("obfuscated"@[0] != "underlined"@[0]);
    reveal_strlit("!u");
    assert("obfuscated"@.len() != "!u"@.len());
    reveal_strlit("!underlined");
    assert("obfuscated"@.len() != "!underlined"@.len());
    reveal_strlit("st");
    assert("obfuscated"@.len() != "st"@.len());
    reveal_strlit("strikethrough");
    assert("obfuscated"@.len() != "strikethrough"@.len());
    reveal_strlit("!st");
    assert("obfuscated"@.len() != "!st"@.len());
    reveal_strlit("!strikethrough");
    assert("obfuscated"@.len() != "!strikethrough"@.len());
    reveal_strlit("obf");
    assert("obfuscated"@.len() != "obf"@.len());
}

/// The format that the decoration name `!obf` sets.
proof fn lemma_decoration_not_obf()
    ensures
        decoration("!obf"@) == Some(FormatModel { obfuscated: Some(false), ..empty_format() }),
{
    reveal(decoration);
    reveal_strlit("!obf");
    reveal_strlit("b");
    assert("!obf"@.len() != "b"@.len());
    reveal_strlit("bold");
    assert("!obf"@[0] != "bold"@[0]);
    reveal_strlit("!b");
    assert("!obf"@.len() != "!b"@.len());
    reveal_strlit("!bold");
    assert("!obf"@.len() != "!bold"@.len());
    reveal_strlit("i");
    assert("!obf"@.len() != "i"@.len());
    reveal_strlit("em");
    assert("!obf"@.len() != "em"@.len());
    reveal_strlit("italic");
    assert("!obf"@.len() != "italic"@.len());
    reveal_strlit("!i");
    assert("!obf"@.len() != "!i"@.len());
    reveal_strlit("!em");
    assert("!obf"@.len() != "!em"@.len());
    reveal_strlit("!italic");
    assert("!obf"@.len() != "!italic"@.len());
    reveal_strlit("u");
    assert("!obf"@.len() != "u"@.len());
    reveal_strlit("underlined");
    assert("!obf"@.len() != "underlined"@.len());
    reveal_strlit("!u");
    assert("!obf"@.len() != "!u"@.len());
    reveal_strlit("!underlined");
    assert("!obf"@.len() != "!underlined"@.len());
    reveal_strlit("st");
    assert("!obf"@.len() != "st"@.len());
    reveal_strlit("strikethrough");
    assert("!obf"@.len() != "strikethrough"@.len());
    reveal_strlit("!st");
    assert("!obf"@.len() != "!st"@.len());
    reveal_strlit("!strikethrough");
    assert("!obf"@.len() != "!strikethrough"@.len());
    reveal_strlit("obf");
    assert("!obf"@.len() != "obf"@.len());
    reveal_strlit("obfuscated");
    assert("!obf"@.len() != "obfuscated"@.len());
}

/// The format that the decoration name `!obfuscated` sets.
proof fn lemma_decoration_not_obfuscated()
    ensures
        decoration("!obfuscated"@) == Some(FormatModel { obfuscated: Some(false), ..empty_format() }),
{
    reveal(decoration);
    reveal_strlit("!obfuscated");
    reveal_strlit("b");
    assert("!obfuscated"@.len() != "b"@.len());
    reveal_strlit("bold");
    assert("!obfuscated"@.len() != "bold"@.len());
    reveal_strlit("!b");
    assert("!obfuscated"@.len() != "!b"@.len());
    reveal_strlit("!bold");
    assert("!obfuscated"@.len() != "!bold"@.len());
    reveal_strlit("i");
    assert("!obfuscated"@.len() != "i"@.len());
    reveal_strlit("em");
    assert("!obfuscated"@.len() != "em"@.len());
    reveal_strlit("italic");
    assert("!obfuscated"@.len() != "italic"@.len());
    reveal_strlit("!i");
    assert("!obfuscated"@.len() != "!i"@.len());
    reveal_strlit("!em");
    assert("!obfuscated"@.len() != "!em"@.len());
    reveal_strlit("!italic");
    assert("!obfuscated"@.len() != "!italic"@.len());
    reveal_strlit("u");
    assert("!obfuscated"@.len() != "u"@.len());
    reveal_strlit("underlined");
    assert("!obfuscated"@.len() != "underlined"@.len());
    reveal_strlit("!u");
    assert("!obfuscated"@.len() != "!u"@.len());
    reveal_strlit("!underlined");
    assert("!obfuscated"@[1] != "!underlined"@[1]);
    reveal_strlit("st");
    assert("!obfuscated"@.len() != "st"@.len());
    reveal_strlit("strikethrough");
    assert("!obfuscated"@.len() != "strikethrough"@.len());
    reveal_strlit("!st");
    assert("!obfuscated"@.len() != "!st"@.len());
    reveal_strlit("!strikethrough");
    assert("!obfuscated"@.len() != "!strikethrough"@.len());
    reveal_strlit("obf");
    assert("!obfuscated"@.len() != "obf"@.len());
    reveal_strlit("obfuscated");
    assert("!obfuscated"@.len() != "obfuscated"@.len());
    reveal_strlit("!obf");
    assert("!obfuscated"@.len() != "!obf"@.len());
}

// ---------------------------------------------------------------------------------------
// Colors
// ---------------------------------------------------------------------------------------
/// The name of a named chat color, in its first spelling.
pub open spec fn color_name(c: Color) -> Seq<char> {
    match c {
        Color::Black => "black"@,
        Color::DarkBlue => "dark_blue"@,
        Color::DarkGreen => "dark_green"@,
        Color::DarkAqua => "dark_aqua"@,
        Color::DarkRed => "dark_red"@,
        Color::DarkPurple => "dark_purple"@,
        Color::Gold => "gold"@,
        Color::Gray => "gray"@,
        Color::DarkGray => "dark_gray"@,
        Color::Blue => "blue"@,
        Color::Green => "green"@,
        Color::Aqua => "aqua"@,
        Color::Red => "red"@,
        Color::LightPurple => "light_purple"@,
        Color::Yellow => "yellow"@,
        Color::White => "white"@,
        Color::Rgb(_, _, _) => Seq::empty(),
    }
}

/// The color that the name `black` reads as.
proof fn lemma_color_black()
    ensures
        color_of("black"@) == Some(Color::Black),
{
    reveal_strlit("black");
    assert("black"@.len() != 7);
}

/// The color that the name `dark_blue` reads as.
proof fn lemma_color_dark_blue()
    ensures
        color_of("dark_blue"@) == Some(Color::DarkBlue),
{
    reveal_strlit("dark_blue");
    assert("dark_blue"@.len() != 7);
    reveal_strlit("black");
    assert("dark_blue"@.len() != "black"@.len());
}

/// The color that the name `dark_green` reads as.
proof fn lemma_color_dark_green()
    ensures
        color_of("dark_green"@) == Some(Color::DarkGreen),
{
    reveal_strlit("dark_green");
    assert("dark_green"@.len() != 7);
    reveal_strlit("black");
    assert("dark_green"@.len() != "black"@.len());
    reveal_strlit("dark_blue");
    assert("dark_green"@.len() != "dark_blue"@.len());
}

/// The color that the name `dark_aqua` reads as.
proof fn lemma_color_dark_aqua()
    ensures
        color_of("dark_aqua"@) == Some(Color::DarkAqua),
{
    reveal_strlit("dark_aqua");
    assert("dark_aqua"@.len() != 7);
    reveal_strlit("black");
    assert("dark_aqua"@.len() != "black"@.len());
    reveal_strlit("dark_blue");
    assert("dark_aqua"@[5] != "dark_blue"@[5]);
    reveal_strlit("dark_green");
    assert("dark_aqua"@.len() != "dark_green"@.len());
}

/// The color that the name `dark_red` reads as.
proof fn lemma_color_dark_red()
    ensures
        color_of("dark_red"@) == Some(Color::DarkRed),
{
    reveal_strlit("dark_red");
    assert("dark_red"@.len() != 7);
    reveal_strlit("black");
    assert("dark_red"@.len() != "black"@.len());
    reveal_strlit("dark_blue");
    assert("dark_red"@.len() != "dark_blue"@.len());
    reveal_strlit("dark_green");
    assert("dark_red"@.len() != "dark_green"@.len());
    reveal_strlit("dark_aqua");
    assert("dark_red"@.len() != "dark_aqua"@.len());
}

/// The color that the name `dark_purple` reads as.
proof fn lemma_color_dark_purple()
    ensures
        color_of("dark_purple"@) == Some(Color::DarkPurple),
{
    reveal_strlit("dark_purple");
    assert("dark_purple"@.len() != 7);
    reveal_strlit("black");
    assert("dark_purple"@.len() != "black"@.len());
    reveal_strlit("dark_blue");
    assert("dark_purple"@.len() != "dark_blue"@.len());
    reveal_strlit("dark_green");
    assert("dark_purple"@.len() != "dark_green"@.len());
    reveal_strlit("dark_aqua");
    assert("dark_purple"@.len() != "dark_aqua"@.len());
    reveal_strlit("dark_red");
    assert("dark_purple"@.len() != "dark_red"@.len());
}

/// The color that the name `gold` reads as.
proof fn lemma_color_gold()
    ensures
        color_of("gold"@) == Some(Color::Gold),
{
    reveal_strlit("gold");
    assert("gold"@.len() != 7);
    reveal_strlit("black");
    assert("gold"@.len() != "black"@.len());
    reveal_strlit("dark_blue");
    assert("gold"@.len() != "dark_blue"@.len());
    reveal_strlit("dark_green");
    assert("gold"@.len() != "dark_green"@.len());
    reveal_strlit("dark_aqua");
    assert("gold"@.len() != "dark_aqua"@.len());
    reveal_strlit("dark_red");
    assert("gold"@.len() != "dark_red"@.len());
    reveal_strlit("dark_purple");
    assert("gold"@.len() != "dark_purple"@.len());
}

/// The color that the name `gray` reads as.
proof fn lemma_color_gray()
    ensures
        color_of("gray"@) == Some(Color::Gray),
{
    reveal_strlit("gray");
    assert("gray"@.len() != 7);
    reveal_strlit("black");
    assert("gray"@.len() != "black"@.len());
    reveal_strlit("dark_blue");
    assert("gray"@.len() != "dark_blue"@.len());
    reveal_strlit("dark_green");
    assert("gray"@.len() != "dark_green"@.len());
    reveal_strlit("dark_aqua");
    assert("gray"@.len() != "dark_aqua"@.len());
    reveal_strlit("dark_red");
    assert("gray"@.len() != "dark_red"@.len());
    reveal_strlit("dark_purple");
    assert("gray"@.len() != "dark_purple"@.len());
    reveal_strlit("gold");
    assert("gray"@[1] != "gold"@[1]);
}

/// The color that the name `grey` reads as.
proof fn lemma_color_grey()
    ensures
        color_of("grey"@) == Some(Color::Gray),
{
    reveal_strlit("grey");
    assert("grey"@.len() != 7);
    reveal_strlit("black");
    assert("grey"@.len() != "black"@.len());
    reveal_strlit("dark_blue");
    assert("grey"@.len() != "dark_blue"@.len());
    reveal_strlit("dark_green");
    assert("grey"@.len() != "dark_green"@.len());
    reveal_strlit("dark_aqua");
    assert("grey"@.len() != "dark_aqua"@.len());
    reveal_strlit("dark_red");
    assert("grey"@.len() != "dark_red"@.len());
    reveal_strlit("dark_purple");
    assert("grey"@.len() != "dark_purple"@.len());
    reveal_strlit("gold");
    assert("grey"@[1] != "gold"@[1]);
    reveal_strlit("gray");
    assert("grey"@[2] != "gray"@[2]);
}

/// The color that the name `dark_gray` reads as.
proof fn lemma_color_dark_gray()
    ensures
        color_of("dark_gray"@) == Some(Color::DarkGray),
{
    reveal_strlit("dark_gray");
    assert("dark_gray"@.len() != 7);
    reveal_strlit("black");
    assert("dark_gray"@.len() != "black"@.len());
    reveal_strlit("dark_blue");
    assert("dark_gray"@[5] != "dark_blue"@[5]);
    reveal_strlit("dark_green");
    assert("dark_gray"@.len() != "dark_green"@.len());
    reveal_strlit("dark_aqua");
    assert("dark_gray"@[5] != "dark_aqua"@[5]);
    reveal_strlit("dark_red");
    assert("dark_gray"@.len() != "dark_red"@.len());
    reveal_strlit("dark_purple");
    assert("dark_gray"@.len() != "dark_purple"@.len());
    reveal_strlit("gold");
    assert("dark_gray"@.len() != "gold"@.len());
    reveal_strlit("gray");
    assert("dark_gray"@.len() != "gray"@.len());
    reveal_strlit("grey");
    assert("dark_gray"@.len() != "grey"@.len());
}

/// The color that the name `dark_grey` reads as.
proof fn lemma_color_dark_grey()
    ensures
        color_of("dark_grey"@) == Some(Color::DarkGray),
{
    reveal_strlit("dark_grey");
    assert("dark_grey"@.len() != 7);
    reveal_strlit("black");
    assert("dark_grey"@.len() != "black"@.len());
    reveal_strlit("dark_blue");
    assert("dark_grey"@[5] != "dark_blue"@[5]);
    reveal_strlit("dark_green");
    assert("dark_grey"@.len() != "dark_green"@.len());
    reveal_strlit("dark_aqua");
    assert("dark_grey"@[5] != "dark_aqua"@[5]);
    reveal_strlit("dark_red");
    assert("dark_grey"@.len() != "dark_red"@.len());
    reveal_strlit("dark_purple");
    assert("dark_grey"@.len() != "dark_purple"@.len());
    reveal_strlit("gold");
    assert("dark_grey"@.len() != "gold"@.len());
    reveal_strlit("gray");
    assert("dark_grey"@.len() != "gray"@.len());
    reveal_strlit("grey");
    assert("dark_grey"@.len() != "grey"@.len());
    reveal_strlit("dark_gray");
    assert("dark_grey"@[7] != "dark_gray"@[7]);
}

/// The color that the name `blue` reads as.
proof fn lemma_color_blue()
    ensures
        color_of("blue"@) == Some(Color::Blue),
{
    reveal_strlit("blue");
    assert("blue"@.len() != 7);
    reveal_strlit("black");
    assert("blue"@.len() != "black"@.len());
    reveal_strlit("dark_blue");
    assert("blue"@.len() != "dark_blue"@.len());
    reveal_strlit("dark_green");
    assert("blue"@.len() != "dark_green"@.len());
    reveal_strlit("dark_aqua");
    assert("blue"@.len() != "dark_aqua"@.len());
    reveal_strlit("dark_red");
    assert("blue"@.len() != "dark_red"@.len());
    reveal_strlit("dark_purple");
    assert("blue"@.len() != "dark_purple"@.len());
    reveal_strlit("gold");
    assert("blue"@[0] != "gold"@[0]);
    reveal_strlit("gray");
    assert("blue"@[0] != "gray"@[0]);
    reveal_strlit("grey");
    assert("blue"@[0] != "grey"@[0]);
    reveal_strlit("dark_gray");
    assert("blue"@.len() != "dark_gray"@.len());
    reveal_strlit("dark_grey");
    assert("blue"@.len() != "dark_grey"@.len());
}

/// The color that the name `green` reads as.
proof fn lemma_color_green()
    ensures
        color_of("green"@) == Some(Color::Green),
{
    reveal_strlit("green");
    assert("green"@.len() != 7);
    reveal_strlit("black");
    assert("green"@[0] != "black"@[0]);
    reveal_strlit("dark_blue");
    assert("green"@.len() != "dark_blue"@.len());
    reveal_strlit("dark_green");
    assert("green"@.len() != "dark_green"@.len());
    reveal_strlit("dark_aqua");
    assert("green"@.len() != "dark_aqua"@.len());
    reveal_strlit("dark_red");
    assert("green"@.len() != "dark_red"@.len());
    reveal_strlit("dark_purple");
    assert("green"@.len() != "dark_purple"@.len());
    reveal_strlit("gold");
    assert("green"@.len() != "gold"@.len());
    reveal_strlit("gray");
    assert("green"@.len() != "gray"@.len());
    reveal_strlit("grey");
    assert("green"@.len() != "grey"@.len());
    reveal_strlit("dark_gray");
    assert("green"@.len() != "dark_gray"@.len());
    reveal_strlit("dark_grey");
    assert("green"@.len() != "dark_grey"@.len());
    reveal_strlit("blue");
    assert("green"@.len() != "blue"@.len());
}

/// The color that the name `aqua` reads as.
proof fn lemma_color_aqua()
    ensures
        color_of("aqua"@) == Some(Color::Aqua),
{
    reveal_strlit("aqua");
    assert("aqua"@.len() != 7);
    reveal_strlit("black");
    assert("aqua"@.len() != "black"@.len());
    reveal_strlit("dark_blue");
    assert("aqua"@.len() != "dark_blue"@.len());
    reveal_strlit("dark_green");
    assert("aqua"@.len() != "dark_green"@.len());
    reveal_strlit("dark_aqua");
    assert("aqua"@.len() != "dark_aqua"@.len());
    reveal_strlit("dark_red");
    assert("aqua"@.len() != "dark_red"@.len());
    reveal_strlit("dark_purple");
    assert("aqua"@.len() != "dark_purple"@.len());
    reveal_strlit("gold");
    assert("aqua"@[0] != "gold"@[0]);
    reveal_strlit("gray");
    assert("aqua"@[0] != "gray"@[0]);
    reveal_strlit("grey");
    assert("aqua"@[0] != "grey"@[0]);
    reveal_strlit("dark_gray");
    assert("aqua"@.len() != "dark_gray"@.len());
    reveal_strlit("dark_grey");
    assert("aqua"@.len() != "dark_grey"@.len());
    reveal_strlit("blue");
    assert("aqua"@[0] != "blue"@[0]);
    reveal_strlit("green");
    assert("aqua"@.len() != "green"@.len());
}

/// The color that the name `red` reads as.
proof fn lemma_color_red()
    ensures
        color_of("red"@) == Some(Color::Red),
{
    reveal_strlit("red");
    assert("red"@.len() != 7);
    reveal_strlit("black");
    assert("red"@.len() != "black"@.len());
    reveal_strlit("dark_blue");
    assert("red"@.len() != "dark_blue"@.len());
    reveal_strlit("dark_green");
    assert("red"@.len() != "dark_green"@.len());
    reveal_strlit("dark_aqua");
    assert("red"@.len() != "dark_aqua"@.len());
    reveal_strlit("dark_red");
    assert("red"@.len() != "dark_red"@.len());
    reveal_strlit("dark_purple");
    assert("red"@.len() != "dark_purple"@.len());
    reveal_strlit("gold");
    assert("red"@.len() != "gold"@.len());
    reveal_strlit("gray");
    assert("red"@.len() != "gray"@.len());
    reveal_strlit("grey");
    assert("red"@.len() != "grey"@.len());
    reveal_strlit("dark_gray");
    assert("red"@.len() != "dark_gray"@.len());
    reveal_strlit("dark_grey");
    assert("red"@.len() != "dark_grey"@.len());
    reveal_strlit("blue");
    assert("red"@.len() != "blue"@.len());
    reveal_strlit("green");
    assert("red"@.len() != "green"@.len());
    reveal_strlit("aqua");
    assert("red"@.len() != "aqua"@.len());
}

/// The color that the name `light_purple` reads as.
proof fn lemma_color_light_purple()
    ensures
        color_of("light_purple"@) == Some(Color::LightPurple),
{
    reveal_strlit("light_purple");
    assert("light_purple"@.len() != 7);
    reveal_strlit("black");
    assert("light_purple"@.len() != "black"@.len());
    reveal_strlit("dark_blue");
    assert("light_purple"@.len() != "dark_blue"@.len());
    reveal_strlit("dark_green");
    assert("light_purple"@.len() != "dark_green"@.len());
    reveal_strlit("dark_aqua");
    assert("light_purple"@.len() != "dark_aqua"@.len());
    reveal_strlit("dark_red");
    assert("light_purple"@.len() != "dark_red"@.len());
    reveal_strlit("dark_purple");
    assert("light_purple"@.len() != "dark_purple"@.len());
    reveal_strlit("gold");
    assert("light_purple"@.len() != "gold"@.len());
    reveal_strlit("gray");
    assert("light_purple"@.len() != "gray"@.len());
    reveal_strlit("grey");
    assert("light_purple"@.len() != "grey"@.len());
    reveal_strlit("dark_gray");
    assert("light_purple"@.len() != "dark_gray"@.len());
    reveal_strlit("dark_grey");
    assert("light_purple"@.len() != "dark_grey"@.len());
    reveal_strlit("blue");
    assert("light_purple"@.len() != "blue"@.len());
    reveal_strlit("green");
    assert("light_purple"@.len() != "green"@.len());
    reveal_strlit("aqua");
    assert("light_purple"@.len() != "aqua"@.len());
    reveal_strlit("red");
    assert("light_purple"@.len() != "red"@.len());
}

/// The color that the name `yellow` reads as.
proof fn lemma_color_yellow()
    ensures
        color_of("yellow"@) == Some(Color::Yellow),
{
    reveal_strlit("yellow");
    assert("yellow"@.len() != 7);
    reveal_strlit("black");
    assert("yellow"@.len() != "black"@.len());
    reveal_strlit("dark_blue");
    assert("yellow"@.len() != "dark_blue"@.len());
    reveal_strlit("dark_green");
    assert("yellow"@.len() != "dark_green"@.len());
    reveal_strlit("dark_aqua");
    assert("yellow"@.len() != "dark_aqua"@.len());
    reveal_strlit("dark_red");
    assert("yellow"@.len() != "dark_red"@.len());
    reveal_strlit("dark_purple");
    assert("yellow"@.len() != "dark_purple"@.len());
    reveal_strlit("gold");
    assert("yellow"@.len() != "gold"@.len());
    reveal_strlit("gray");
    assert("yellow"@.len() != "gray"@.len());
    reveal_strlit("grey");
    assert("yellow"@.len() != "grey"@.len());
    reveal_strlit("dark_gray");
    assert("yellow"@.len() != "dark_gray"@.len());
    reveal_strlit("dark_grey");
    assert("yellow"@.len() != "dark_grey"@.len());
    reveal_strlit("blue");
    assert("yellow"@.len() != "blue"@.len());
    reveal_strlit("green");
    assert("yellow"@.len() != "green"@.len());
    reveal_strlit("aqua");
    assert("yellow"@.len() != "aqua"@.len());
    reveal_strlit("red");
    assert("yellow"@.len() != "red"@.len());
    reveal_strlit("light_purple");
    assert("yellow"@.len() != "light_purple"@.len());
}

/// The color that the name `white` reads as.
proof fn lemma_color_white()
    ensures
        color_of("white"@) == Some(Color::White),
{
    reveal_strlit("white");
    assert("white"@.len() != 7);
    reveal_strlit("black");
    assert("white"@[0] != "black"@[0]);
    reveal_strlit("dark_blue");
    assert("white"@.len() != "dark_blue"@.len());
    reveal_strlit("dark_green");
    assert("white"@.len() != "dark_green"@.len());
    reveal_strlit("dark_aqua");
    assert("white"@.len() != "dark_aqua"@.len());
    reveal_strlit("dark_red");
    assert("white"@.len() != "dark_red"@.len());
    reveal_strlit("dark_purple");
    assert("white"@.len() != "dark_purple"@.len());
    reveal_strlit("gold");
    assert("white"@.len() != "gold"@.len());
    reveal_strlit("gray");
    assert("white"@.len() != "gray"@.len());
    reveal_strlit("grey");
    assert("white"@.len() != "grey"@.len());
    reveal_strlit("dark_gray");
    assert("white"@.len() != "dark_gray"@.len());
    reveal_strlit("dark_grey");
    assert("white"@.len() != "dark_grey"@.len());
    reveal_strlit("blue");
    assert("white"@.len() != "blue"@.len());
    reveal_strlit("green");
    assert("white"@[0] != "green"@[0]);
    reveal_strlit("aqua");
    assert("white"@.len() != "aqua"@.len());
    reveal_strlit("red");
    assert("white"@.len() != "red"@.len());
    reveal_strlit("light_purple");
    assert("white"@.len() != "light_purple"@.len());
    reveal_strlit("yellow");
    assert("white"@.len() != "yellow"@.len());
}

/// Each of the sixteen chat colors is read from its name, gray and dark gray from either
/// spelling.
pub proof fn law_named_colors()
    ensures
        color_of("black"@) == Some(Color::Black),
        color_of("dark_blue"@) == Some(Color::DarkBlue),
        color_of("dark_green"@) == Some(Color::DarkGreen),
        color_of("dark_aqua"@) == Some(Color::DarkAqua),
        color_of("dark_red"@) == Some(Color::DarkRed),
        color_of("dark_purple"@) == Some(Color::DarkPurple),
        color_of("gold"@) == Some(Color::Gold),
        color_of("gray"@) == Some(Color::Gray),
        color_of("grey"@) == Some(Color::Gray),
        color_of("dark_gray"@) == Some(Color::DarkGray),
        color_of("dark_grey"@) == Some(Color::DarkGray),
        color_of("blue"@) == Some(Color::Blue),
        color_of("green"@) == Some(Color::Green),
        color_of("aqua"@) == Some(Color::Aqua),
        color_of("red"@) == Some(Color::Red),
        color_of("light_purple"@) == Some(Color::LightPurple),
        color_of("yellow"@) == Some(Color::Yellow),
        color_of("white"@) == Some(Color::White),
{
    lemma_color_black();
    lemma_color_dark_blue();
    lemma_color_dark_green();
    lemma_color_dark_aqua();
    lemma_color_dark_red();
    lemma_color_dark_purple();
    lemma_color_gold();
    lemma_color_gray();
    lemma_color_grey();
    lemma_color_dark_gray();
    lemma_color_dark_grey();
    lemma_color_blue();
    lemma_color_green();
    lemma_color_aqua();
    lemma_color_red();
    lemma_color_light_purple();
    lemma_color_yellow();
    lemma_color_white();
}

/// A named chat color is read only from its own name: distinct names give distinct
/// colors, but for the two spellings of gray and of dark gray.
pub proof fn law_named_color_only_from_its_name(s: Seq<char>, c: Color)
    requires
        color_of(s) == Some(c),
        !(c is Rgb),
    ensures
        s == color_name(c) || (c == Color::Gray && s == "grey"@) || (c == Color::DarkGray && s
            == "dark_grey"@),
{
}

/// A tag whose name, in lower case, is no tag of the markup but reads as a color sets
/// that color and nothing else.
pub proof fn law_color_name_tag(
    t: TreeModel,
    name: Seq<char>,
    args: Seq<Seq<char>>,
    sc: bool,
    inner: spec_fn(Seq<char>) -> Option<ComponentModel>,
    c: Color,
)
    requires
        !known_tag(lowercase(name)),
        color_of(lowercase(name)) == Some(c),
    ensures
        open_tag(t, name, args, sc, inner) == formatted(
            t,
            name,
            sc,
            FormatModel { color: Some(c), ..empty_format() },
        ),
{
    reveal(open_tag);
}

// ---------------------------------------------------------------------------------------
// Interactions
// ---------------------------------------------------------------------------------------
/// A child that has interactions, a format, or content other than text is never merged
/// into a sibling: it is added as a new node, the last child of its parent.
pub proof fn law_rich_child_kept(t: TreeModel, parent: usize, child: ComponentModel)
    requires
        child.interactions != empty_interactions() || child.format != empty_format()
            || !(child.content is Text),
    ensures
        add_child(t, parent, child) == (
            TreeModel {
                nodes: t.nodes.push(child),
                kids: t.kids.update(parent as int, t.kids[parent as int].push(t.nodes.len() as usize)).push(
                    Seq::empty(),
                ),
                stack: t.stack,
            },
            t.nodes.len() as usize,
        ),
{
    reveal(add_child);
}

/// A text with nothing set in its format and interactions, added after a sibling that is
/// such a text too, is appended to that sibling's text; nothing else changes.
pub proof fn law_plain_text_merged(t: TreeModel, parent: usize, s: Seq<char>)
    requires
        t.kids[parent as int].len() > 0,
        t.nodes[t.kids[parent as int].last() as int] == plain_model(
            crate::minimessage::tree::text_of(t.nodes[t.kids[parent as int].last() as int]),
        ),
    ensures
        ({
            let last = t.kids[parent as int].last();
            let prev = crate::minimessage::tree::text_of(t.nodes[last as int]);
            add_child(t, parent, plain_model(s)) == (
                TreeModel { nodes: t.nodes.update(last as int, plain_model(prev + s)), ..t },
                last,
            )
        }),
{
    reveal(add_child);
    let last = t.kids[parent as int].last();
    let prev = crate::minimessage::tree::text_of(t.nodes[last as int]);
    assert(plain_model(s).children =~= Seq::<ComponentModel>::empty());
}

/// An empty text that carries the given interactions.
pub open spec fn carrier(i: InteractivityModel) -> ComponentModel {
    ComponentModel { interactions: i, ..plain_model(Seq::empty()) }
}

/// The tree after an interaction tag: the interactions are carried by a new node, added
/// as the last child of the current parent, and opened unless the tag closes itself.
pub open spec fn carried(
    t: TreeModel,
    t2: TreeModel,
    i: InteractivityModel,
    tag: Seq<char>,
    sc: bool,
) -> bool {
    let parent = current_parent(t);
    let idx = t.nodes.len() as usize;
    &&& t2.nodes == t.nodes.push(carrier(i))
    &&& t2.kids == t.kids.update(parent as int, t.kids[parent as int].push(idx)).push(Seq::empty())
    &&& t2.stack == if sc {
        t.stack
    } else {
        t.stack.push((idx, tag))
    }
}

/// `click` is neither a decoration nor any tag that is looked for before it.
proof fn lemma_name_click()
    ensures
        decoration("click"@) is None,
        "click"@ != "reset"@,
        "click"@ != "shadow"@,
        "click"@ != "!shadow"@,
        "click"@ != "color"@,
        "click"@ != "c"@,
        "click"@ != "colour"@,
{
    reveal(decoration);
    reveal_strlit("click");
    reveal_strlit("b");
    assert("click"@.len() != "b"@.len());
    reveal_strlit("bold");
    assert("click"@.len() != "bold"@.len());
    reveal_strlit("!b");
    assert("click"@.len() != "!b"@.len());
    reveal_strlit("!bold");
    assert("click"@[0] != "!bold"@[0]);
    reveal_strlit("i");
    assert("click"@.len() != "i"@.len());
    reveal_strlit("em");
    assert("click"@.len() != "em"@.len());
    reveal_strlit("italic");
    assert("click"@.len() != "italic"@.len());
    reveal_strlit("!i");
    assert("click"@.len() != "!i"@.len());
    reveal_strlit("!em");
    assert("click"@.len() != "!em"@.len());
    reveal_strlit("!italic");
    assert("click"@.len() != "!italic"@.len());
    reveal_strlit("u");
    assert("click"@.len() != "u"@.len());
    reveal_strlit("underlined");
    assert("click"@.len() != "underlined"@.len());
    reveal_strlit("!u");
    assert("click"@.len() != "!u"@.len());
    reveal_strlit("!underlined");
    assert("click"@.len() != "!underlined"@.len());
    reveal_strlit("st");
    assert("click"@.len() != "st"@.len());
    reveal_strlit("strikethrough");
    assert("click"@.len() != "strikethrough"@.len());
    reveal_strlit("!st");
    assert("click"@.len() != "!st"@.len());
    reveal_strlit("!strikethrough");
    assert("click"@.len() != "!strikethrough"@.len());
    reveal_strlit("obf");
    assert("click"@.len() != "obf"@.len());
    reveal_strlit("obfuscated");
    assert("click"@.len() != "obfuscated"@.len());
    reveal_strlit("!obf");
    assert("click"@.len() != "!obf"@.len());
    reveal_strlit("!obfuscated");
    assert("click"@.len() != "!obfuscated"@.len());
    reveal_strlit("reset");
    assert("click"@[0] != "reset"@[0]);
    reveal_strlit("shadow");
    assert("click"@.len() != "shadow"@.len());
    reveal_strlit("!shadow");
    assert("click"@.len() != "!shadow"@.len());
    reveal_strlit("color");
    assert("click"@[1] != "color"@[1]);
    reveal_strlit("c");
    assert("click"@.len() != "c"@.len());
    reveal_strlit("colour");
    assert("click"@.len() != "colour"@.len());
}

/// `hover` is neither a decoration nor any tag that is looked for before it.
proof fn lemma_name_hover()
    ensures
        decoration("hover"@) is None,
        "hover"@ != "reset"@,
        "hover"@ != "shadow"@,
        "hover"@ != "!shadow"@,
        "hover"@ != "color"@,
        "hover"@ != "c"@,
        "hover"@ != "colour"@,
        "hover"@ != "click"@,
{
    reveal(decoration);
    reveal_strlit("hover");
    reveal_strlit("b");
    assert("hover"@.len() != "b"@.len());
    reveal_strlit("bold");
    assert("hover"@.len() != "bold"@.len());
    reveal_strlit("!b");
    assert("hover"@.len() != "!b"@.len());
    reveal_strlit("!bold");
    assert("hover"@[0] != "!bold"@[0]);
    reveal_strlit("i");
    assert("hover"@.len() != "i"@.len());
    reveal_strlit("em");
    assert("hover"@.len() != "em"@.len());
    reveal_strlit("italic");
    assert("hover"@.len() != "italic"@.len());
    reveal_strlit("!i");
    assert("hover"@.len() != "!i"@.len());
    reveal_strlit("!em");
    assert("hover"@.len() != "!em"@.len());
    reveal_strlit("!italic");
    assert("hover"@.len() != "!italic"@.len());
    reveal_strlit("u");
    assert("hover"@.len() != "u"@.len());
    reveal_strlit("underlined");
    assert("hover"@.len() != "underlined"@.len());
    reveal_strlit("!u");
    assert("hover"@.len() != "!u"@.len());
    reveal_strlit("!underlined");
    assert("hover"@.len() != "!underlined"@.len());
    reveal_strlit("st");
    assert("hover"@.len() != "st"@.len());
    reveal_strlit("strikethrough");
    assert("hover"@.len() != "strikethrough"@.len());
    reveal_strlit("!st");
    assert("hover"@.len() != "!st"@.len());
    reveal_strlit("!strikethrough");
    assert("hover"@.len() != "!strikethrough"@.len());
    reveal_strlit("obf");
    assert("hover"@.len() != "obf"@.len());
    reveal_strlit("obfuscated");
    assert("hover"@.len() != "obfuscated"@.len());
    reveal_strlit("!obf");
    assert("hover"@.len() != "!obf"@.len());
    reveal_strlit("!obfuscated");
    assert("hover"@.len() != "!obfuscated"@.len());
    reveal_strlit("reset");
    assert("hover"@[0] != "reset"@[0]);
    reveal_strlit("shadow");
    assert("hover"@.len() != "shadow"@.len());
    reveal_strlit("!shadow");
    assert("hover"@.len() != "!shadow"@.len());
    reveal_strlit("color");
    assert("hover"@[0] != "color"@[0]);
    reveal_strlit("c");
    assert("hover"@.len() != "c"@.len());
    reveal_strlit("colour");
    assert("hover"@.len() != "colour"@.len());
    reveal_strlit("click");
    assert("hover"@[0] != "click"@[0]);
}

/// `insert` is neither a decoration nor any tag that is looked for before it.
proof fn lemma_name_insert()
    ensures
        decoration("insert"@) is None,
        "insert"@ != "reset"@,
        "insert"@ != "shadow"@,
        "insert"@ != "!shadow"@,
        "insert"@ != "color"@,
        "insert"@ != "c"@,
        "insert"@ != "colour"@,
        "insert"@ != "click"@,
        "insert"@ != "hover"@,
{
    reveal(decoration);
    reveal_strlit("insert");
    reveal_strlit("b");
    assert("insert"@.len() != "b"@.len());
    reveal_strlit("bold");
    assert("insert"@.len() != "bold"@.len());
    reveal_strlit("!b");
    assert("insert"@.len() != "!b"@.len());
    reveal_strlit("!bold");
    assert("insert"@.len() != "!bold"@.len());
    reveal_strlit("i");
    assert("insert"@.len() != "i"@.len());
    reveal_strlit("em");
    assert("insert"@.len() != "em"@.len());
    reveal_strlit("italic");
    assert("insert"@[1] != "italic"@[1]);
    reveal_strlit("!i");
    assert("insert"@.len() != "!i"@.len());
    reveal_strlit("!em");
    assert("insert"@.len() != "!em"@.len());
    reveal_strlit("!italic");
    assert("insert"@.len() != "!italic"@.len());
    reveal_strlit("u");
    assert("insert"@.len() != "u"@.len());
    reveal_strlit("underlined");
    assert("insert"@.len() != "underlined"@.len());
    reveal_strlit("!u");
    assert("insert"@.len() != "!u"@.len());
    reveal_strlit("!underlined");
    assert("insert"@.len() != "!underlined"@.len());
    reveal_strlit("st");
    assert("insert"@.len() != "st"@.len());
    reveal_strlit("strikethrough");
    assert("insert"@.len() != "strikethrough"@.len());
    reveal_strlit("!st");
    assert("insert"@.len() != "!st"@.len());
    reveal_strlit("!strikethrough");
    assert("insert"@.len() != "!strikethrough"@.len());
    reveal_strlit("obf");
    assert("insert"@.len() != "obf"@.len());
    reveal_strlit("obfuscated");
    assert("insert"@.len() != "obfuscated"@.len());
    reveal_strlit("!obf");
    assert("insert"@.len() != "!obf"@.len());
    reveal_strlit("!obfuscated");
    assert("insert"@.len() != "!obfuscated"@.len());
    reveal_strlit("reset");
    assert("insert"@.len() != "reset"@.len());
    reveal_strlit("shadow");
    assert("insert"@[0] != "shadow"@[0]);
    reveal_strlit("!shadow");
    assert("insert"@.len() != "!shadow"@.len());
    reveal_strlit("color");
    assert("insert"@.len() != "color"@.len());
    reveal_strlit("c");
    assert("insert"@.len() != "c"@.len());
    reveal_strlit("colour");
    assert("insert"@[0] != "colour"@[0]);
    reveal_strlit("click");
    assert("insert"@.len() != "click"@.len());
    reveal_strlit("hover");
    assert("insert"@.len() != "hover"@.len());
}

/// Interaction tags never lose what they read: a `click` tag with an action that reads,
/// a `hover` tag with an event that reads and an `insert` tag with a text each add a new
/// node that carries exactly that click, hover or insertion, as the last child of the
/// current parent; that node is never merged into a text.
pub proof fn law_interaction_tags(
    t: TreeModel,
    name: Seq<char>,
    args: Seq<Seq<char>>,
    sc: bool,
    inner: spec_fn(Seq<char>) -> Option<ComponentModel>,
)
    requires
        tree_wf(t),
    ensures
        ({
            let lower = lowercase(name);
            let r = open_tag(t, name, args, sc, inner);
            let none = empty_interactions();
            &&& (lower == "click"@ && args.len() > 0 && click_of(args[0], joined(args.drop_first()))
                is Some) ==> r is Some && carried(
                t,
                r.unwrap(),
                InteractivityModel { click: click_of(args[0], joined(args.drop_first())), ..none },
                "click"@,
                sc,
            )
            &&& (lower == "hover"@ && hover_of(args, inner) is Some && hover_of(args, inner).unwrap()
                is Some) ==> r is Some && carried(
                t,
                r.unwrap(),
                InteractivityModel { hover: hover_of(args, inner).unwrap(), ..none },
                "hover"@,
                sc,
            )
            &&& (lower == "insert"@ && args.len() > 0) ==> r is Some && carried(
                t,
                r.unwrap(),
                InteractivityModel { insertion: Some(args[0]), ..none },
                "insert"@,
                sc,
            )
        }),
{
    reveal(open_tag);
    reveal(push_tag);
    reveal(add_child);
    let lower = lowercase(name);
    if lower == "click"@ {
        lemma_name_click();
    }
    if lower == "hover"@ {
        lemma_name_hover();
    }
    if lower == "insert"@ {
        lemma_name_insert();
    }
}

// ---------------------------------------------------------------------------------------
// Shadows
// ---------------------------------------------------------------------------------------
/// No name of a chat color starts with `#`.
proof fn lemma_color_names_unhashed(s: Seq<char>)
    requires
        named_color(s) is Some,
    ensures
        s.len() > 0 && s[0] != '#',
{
    reveal_strlit("black");
    assert("black"@[0] != '#');
    reveal_strlit("dark_blue");
    assert("dark_blue"@[0] != '#');
    reveal_strlit("dark_green");
    assert("dark_green"@[0] != '#');
    reveal_strlit("dark_aqua");
    assert("dark_aqua"@[0] != '#');
    reveal_strlit("dark_red");
    assert("dark_red"@[0] != '#');
    reveal_strlit("dark_purple");
    assert("dark_purple"@[0] != '#');
    reveal_strlit("gold");
    assert("gold"@[0] != '#');
    reveal_strlit("gray");
    assert("gray"@[0] != '#');
    reveal_strlit("grey");
    assert("grey"@[0] != '#');
    reveal_strlit("dark_gray");
    assert("dark_gray"@[0] != '#');
    reveal_strlit("dark_grey");
    assert("dark_grey"@[0] != '#');
    reveal_strlit("blue");
    assert("blue"@[0] != '#');
    reveal_strlit("green");
    assert("green"@[0] != '#');
    reveal_strlit("aqua");
    assert("aqua"@[0] != '#');
    reveal_strlit("red");
    assert("red"@[0] != '#');
    reveal_strlit("light_purple");
    assert("light_purple"@[0] != '#');
    reveal_strlit("yellow");
    assert("yellow"@[0] != '#');
    reveal_strlit("white");
    assert("white"@[0] != '#');
}

/// The bytes of a text of ASCII characters are those characters, and cut nowhere inside a
/// character.
proof fn lemma_ascii_bytes(d: Seq<char>)
    requires
        forall|i: int| 0 <= i < d.len() ==> '\0' <= #[trigger] d[i] <= '\u{7f}',
    ensures
        encode_utf8(d).len() == d.len(),
        forall|i: int| 0 <= i < d.len() ==> #[trigger] encode_utf8(d)[i] == d[i] as u8,
        forall|i: int| 0 <= i < d.len() ==> ((#[trigger] encode_utf8(d)[i]) as char) == d[i],
        forall|i: int| 0 <= i <= d.len() ==> #[trigger] boundary(encode_utf8(d), i),
{
    assert(vstd::utf8::is_ascii_chars(d));
    vstd::utf8::is_ascii_chars_encode_utf8(d);
    assert forall|i: int| 0 <= i < d.len() implies ((#[trigger] encode_utf8(d)[i]) as char) == d[i] by {
        vstd::utf8::char_u32_cast(d[i], d[i] as u32);
    }
}

/// The shadow of a `shadow` tag whose first argument reads as a color, written `#rrggbb`
/// or by name, has that color's red, green and blue channels, in that order, with the
/// alpha of the second argument (64 where there is none or it does not read).
pub proof fn law_shadow_takes_color_channels(args: Seq<Seq<char>>, c: Color)
    requires
        args.len() > 0,
        color_of(args[0]) == Some(c),
    ensures
        shadow_format(args) == Some(
            FormatModel {
                shadow_color: Some(
                    shadow_value(alpha_arg(args, 1), rgb_of(c).0, rgb_of(c).1, rgb_of(c).2),
                ),
                ..empty_format()
            },
        ),
{
    let x = args[0];
    match hex_color(x) {
        Some(h) => {
            let d = x.drop_first();
            assert forall|i: int| 0 <= i < d.len() implies '\0' <= #[trigger] d[i] <= '\u{7f}' by {
                assert(d[i] == x[i + 1]);
                assert(hex_digit_value(x[i + 1]) is Some) by {
                    if i == 0 || i == 1 {
                        assert(hex_pair_value(x[1], x[2]) is Some);
                    } else if i == 2 || i == 3 {
                        assert(hex_pair_value(x[3], x[4]) is Some);
                    } else {
                        assert(hex_pair_value(x[5], x[6]) is Some);
                    }
                }
            }
            lemma_ascii_bytes(d);
            let hex = encode_utf8(d);
            assert(hex[0] != PLUS && hex[2] != PLUS && hex[4] != PLUS) by {
                assert(hex[0] as char == x[1] && hex[2] as char == x[3] && hex[4] as char == x[5]);
                assert(hex_digit_value(x[1]) is Some && hex_digit_value(x[3]) is Some
                    && hex_digit_value(x[5]) is Some);
            }
            assert(hex[1] as char == x[2] && hex[3] as char == x[4] && hex[5] as char == x[6]);
        },
        None => {
            lemma_color_names_unhashed(x);
        },
    }
}

/// `shadow` is neither a decoration nor `reset`.
proof fn lemma_name_shadow()
    ensures
        decoration("shadow"@) is None,
        "shadow"@ != "reset"@,
{
    reveal(decoration);
    reveal_strlit("shadow");
    reveal_strlit("b");
    assert("shadow"@.len() != "b"@.len());
    reveal_strlit("bold");
    assert("shadow"@.len() != "bold"@.len());
    reveal_strlit("!b");
    assert("shadow"@.len() != "!b"@.len());
    reveal_strlit("!bold");
    assert("shadow"@.len() != "!bold"@.len());
    reveal_strlit("i");
    assert("shadow"@.len() != "i"@.len());
    reveal_strlit("em");
    assert("shadow"@.len() != "em"@.len());
    reveal_strlit("italic");
    assert("shadow"@[0] != "italic"@[0]);
    reveal_strlit("!i");
    assert("shadow"@.len() != "!i"@.len());
    reveal_strlit("!em");
    assert("shadow"@.len() != "!em"@.len());
    reveal_strlit("!italic");
    assert("shadow"@.len() != "!italic"@.len());
    reveal_strlit("u");
    assert("shadow"@.len() != "u"@.len());
    reveal_strlit("underlined");
    assert("shadow"@.len() != "underlined"@.len());
    reveal_strlit("!u");
    assert("shadow"@.len() != "!u"@.len());
    reveal_strlit("!underlined");
    assert("shadow"@.len() != "!underlined"@.len());
    reveal_strlit("st");
    assert("shadow"@.len() != "st"@.len());
    reveal_strlit("strikethrough");
    assert("shadow"@.len() != "strikethrough"@.len());
    reveal_strlit("!st");
    assert("shadow"@.len() != "!st"@.len());
    reveal_strlit("!strikethrough");
    assert("shadow"@.len() != "!strikethrough"@.len());
    reveal_strlit("obf");
    assert("shadow"@.len() != "obf"@.len());
    reveal_strlit("obfuscated");
    assert("shadow"@.len() != "obfuscated"@.len());
    reveal_strlit("!obf");
    assert("shadow"@.len() != "!obf"@.len());
    reveal_strlit("!obfuscated");
    assert("shadow"@.len() != "!obfuscated"@.len());
    reveal_strlit("reset");
    assert("shadow"@.len() != "reset"@.len());
}

/// A `shadow` tag sets the shadow its arguments give and nothing else.
pub proof fn law_shadow_tag(
    t: TreeModel,
    name: Seq<char>,
    args: Seq<Seq<char>>,
    sc: bool,
    inner: spec_fn(Seq<char>) -> Option<ComponentModel>,
    f: FormatModel,
)
    requires
        lowercase(name) == "shadow"@,
        shadow_format(args) == Some(f),
    ensures
        open_tag(t, name, args, sc, inner) == formatted(t, "shadow"@, sc, f),
{
    reveal(open_tag);
    lemma_name_shadow();
}

// ---------------------------------------------------------------------------------------
// Quoted arguments
// ---------------------------------------------------------------------------------------
/// The encoding of two texts one after the other is their encodings one after the other.
proof fn lemma_encode_concat(a: Seq<char>, b: Seq<char>)
    ensures
        encode_utf8(a + b) == encode_utf8(a) + encode_utf8(b),
    decreases a.len(),
{
    if a.len() > 0 {
        lemma_encode_concat(a.drop_first(), b);
        assert((a + b).drop_first() =~= a.drop_first() + b);
        assert((a + b)[0] == a[0]);
        assert(encode_scalar(a[0] as u32) + (encode_utf8(a.drop_first()) + encode_utf8(b))
            =~= (encode_scalar(a[0] as u32) + encode_utf8(a.drop_first())) + encode_utf8(b));
    } else {
        assert(a + b =~= b);
        assert(encode_utf8(a) + encode_utf8(b) =~= encode_utf8(b));
    }
}

/// The encoding of a text that is not empty starts a character.
proof fn lemma_encode_starts(s: Seq<char>)
    requires
        s.len() > 0,
    ensures
        encode_utf8(s).len() > 0,
        !is_continuation_byte(encode_utf8(s)[0]),
{
    vstd::utf8::encode_utf8_first_scalar(s);
}

/// The encoding of one ASCII character is its byte.
proof fn lemma_encode_ascii_char(c: char)
    requires
        '\0' <= c <= '\u{7f}',
    ensures
        encode_utf8(seq![c]) == seq![c as u8],
{
    lemma_ascii_bytes(seq![c]);
    assert(encode_utf8(seq![c]) =~= seq![c as u8]);
}

/// In an argument quoted with `q`, a backslash followed by `q` stands for `q` itself: the
/// markup `q x \q y q`, where `x` and `y` hold neither `q` nor a backslash, is read as the
/// one argument `x q y`, up to its end. This holds for both quote characters.
#[verifier::spinoff_prover]
#[verifier::rlimit(60)]
pub proof fn law_escaped_quote_in_quoted_arg(q: char, x: Seq<char>, y: Seq<char>)
    requires
        q == '"' || q == '\'',
        !x.contains(q),
        !x.contains('\\'),
        !y.contains(q),
        !y.contains('\\'),
    ensures
        ({
            let markup = seq![q] + x + seq!['\\', q] + y + seq![q];
            split_args_from(encode_utf8(markup), 0, Seq::empty()) == Some(
                (seq![x + seq![q] + y], encode_utf8(markup).len() as int),
            )
        }),
{
    let qb = q as u8;
    assert(qb == DOUBLE_QUOTE || qb == SINGLE_QUOTE);
    let xs = encode_utf8(x);
    let ys = encode_utf8(y);
    lemma_text_without(x, qb);
    lemma_text_without(x, BACKSLASH);
    lemma_text_without(y, qb);
    lemma_text_without(y, BACKSLASH);
    assert(qb as char == q && BACKSLASH as char == '\\');
    lemma_encode_ascii_char(q);
    lemma_encode_ascii_char('\\');
    let tail_y = y + seq![q];
    let tail_x = x + seq!['\\'] + seq![q] + tail_y;
    let markup = seq![q] + tail_x;
    assert(markup =~= seq![q] + x + seq!['\\', q] + y + seq![q]);
    lemma_encode_concat(y, seq![q]);
    lemma_encode_concat(x + seq!['\\'] + seq![q], tail_y);
    lemma_encode_concat(x + seq!['\\'], seq![q]);
    lemma_encode_concat(x, seq!['\\']);
    lemma_encode_concat(seq![q], tail_x);
    lemma_encode_starts(tail_x);
    lemma_encode_starts(tail_y);
    let n1 = xs.len() as int;
    let n2 = ys.len() as int;
    let b = encode_utf8(markup);
    let ty = encode_utf8(tail_y);
    assert(ty =~= ys + seq![qb]);
    assert(encode_utf8(tail_x) =~= xs + seq![BACKSLASH] + seq![qb] + ys + seq![qb]);
    assert(b =~= seq![qb] + xs + seq![BACKSLASH, qb] + ys + seq![qb]);
    let len = b.len() as int;
    assert(len == n1 + n2 + 4);
    // The content runs from 1; the first quote or backslash after it is the backslash.
    assert forall|j: int| 1 <= j < 1 + n1 implies b[j] != qb && b[j] != BACKSLASH by {
        assert(b[j] == xs[j - 1]);
        assert(xs.contains(xs[j - 1]));
    }
    lemma_first_of(b, 1, len, qb, BACKSLASH, Some(1 + n1));
    assert(b.subrange(1, 1 + n1) =~= xs);
    assert(boundary(b, 1)) by {
        assert(b[1] == encode_utf8(tail_x)[0]);
    }
    // After the escape, the first quote or backslash is the closing quote.
    let from = 3 + n1;
    assert forall|j: int| from <= j < from + n2 implies b[j] != qb && b[j] != BACKSLASH by {
        assert(b[j] == ys[j - from]);
        assert(ys.contains(ys[j - from]));
    }
    lemma_first_of(b, from, len, qb, BACKSLASH, Some(from + n2));
    assert(b.subrange(from, from + n2) =~= ys);
    assert(boundary(b, from)) by {
        assert(b[from] == ty[0]);
    }
    let gathered = x.push(q);
    assert(text(b, 1, 1 + n1) == x) by {
        vstd::utf8::encode_utf8_decode_utf8(x);
    }
    assert(text(b, from, from + n2) == y) by {
        vstd::utf8::encode_utf8_decode_utf8(y);
    }
    assert(quoted(b, qb, 1, from, gathered, true) == Some((gathered + y, len)));
    assert(quoted(b, qb, 1, 1, Seq::empty(), false) == Some((gathered + y, len))) by {
        assert(Seq::<char>::empty() + x =~= x);
        if qb == DOUBLE_QUOTE {
            assert(q == '"');
        } else {
            assert(q == '\'');
        }
    }
    assert(gathered + y =~= x + seq![q] + y);
    assert(Seq::<Seq<char>>::empty().push(gathered + y) =~= seq![x + seq![q] + y]);
}

// ---------------------------------------------------------------------------------------
// One tag, then text
// ---------------------------------------------------------------------------------------
/// The markup of one opening tag named `name`, followed by the text `s`.
pub open spec fn tag_then_text(name: Seq<char>, s: Seq<char>) -> Seq<char> {
    seq!['<'] + name + seq!['>'] + s
}

/// A tag name that ends where its `>` is: it holds no `>`, `:` or `/`.
pub open spec fn simple_name(name: Seq<char>) -> bool {
    !name.contains('>') && !name.contains(':') && !name.contains('/')
}

/// The component that one format tag over a text gives: an empty root, holding an empty
/// text with the format, which holds the text.
pub open spec fn formatted_text(f: FormatModel, s: Seq<char>) -> ComponentModel {
    ComponentModel {
        children: seq![
            ComponentModel {
                children: seq![plain_model(s)],
                ..crate::minimessage::tree::format_node(f)
            },
        ],
        ..plain_model(Seq::empty())
    }
}

/// The markup of one tag over a text is read as what the tag does to the first tree, with
/// the text then added under the node that is current after the tag.
#[verifier::spinoff_prover]
#[verifier::rlimit(60)]
proof fn lemma_tag_then_text(name: Seq<char>, s: Seq<char>, f: int, t2: TreeModel)
    requires
        simple_name(name),
        s.len() > 0,
        !s.contains('<'),
        !s.contains('\\'),
        open_tag(initial_tree(), name, Seq::empty(), false, nested_parser(f)) == Some(t2),
        t2.stack.len() > 0,
    ensures
        parse_markup(tag_then_text(name, s), f) == Some(
            build(add_child(t2, current_parent(t2), plain_model(s)).0, 0),
        ),
{
    let inner = nested_parser(f);
    let t0 = initial_tree();
    let nb = encode_utf8(name);
    let sb = encode_utf8(s);
    lemma_encode_ascii_char('<');
    lemma_encode_ascii_char('>');
    lemma_encode_concat(seq!['<'] + name + seq!['>'], s);
    lemma_encode_concat(seq!['<'] + name, seq!['>']);
    lemma_encode_concat(seq!['<'], name);
    let b = encode_utf8(tag_then_text(name, s));
    assert(b =~= seq![LESS] + nb + seq![GREATER] + sb);
    let n = nb.len() as int;
    let len = b.len() as int;
    let k = 1 + n;
    lemma_text_without(name, GREATER);
    lemma_text_without(name, COLON);
    lemma_text_without(name, SLASH);
    lemma_text_without(s, LESS);
    // The text before the tag is empty.
    lemma_first_of(b, 0, len, LESS, LESS, Some(0));
    assert(text_end(b, 0) == 0);
    reveal(add_text);
    assert(add_text(t0, b, 0, 0) == Some(t0));
    assert(b[1] != SLASH) by {
        if n > 0 {
            assert(b[1] == nb[0]);
            assert(nb.contains(nb[0]));
        }
    }
    // The tag's name runs up to its `>`, and it has no arguments.
    assert forall|j: int| 1 <= j < k implies b[j] != GREATER && b[j] != COLON && b[j] != SLASH by {
        assert(b[j] == nb[j - 1]);
        assert(nb.contains(nb[j - 1]));
    }
    lemma_tag_name_end_at(b, 1, k);
    assert(b.subrange(1, k) =~= nb);
    assert(text(b, 1, k) == name) by {
        vstd::utf8::encode_utf8_decode_utf8(name);
    }
    reveal(open_step);
    assert(tag_args(b, k) == Some((Seq::<Seq<char>>::empty(), k)));
    assert(tag_end(b, k) == (false, k + 1));
    assert(open_step(b, 1, t0, inner) == Step::Go(t2, k + 1));
    assert(step(b, 0, t0, inner) == Step::Go(t2, k + 1));
    // The text after the tag runs to the end.
    assert forall|j: int| k + 1 <= j < len implies b[j] != LESS && b[j] != LESS by {
        assert(b[j] == sb[j - k - 1]);
        assert(sb.contains(sb[j - k - 1]));
    }
    lemma_first_of(b, k + 1, len, LESS, LESS, None);
    assert(text_end(b, k + 1) == len);
    assert(b.subrange(k + 1, len) =~= sb);
    assert(text(b, k + 1, len) == s) by {
        vstd::utf8::encode_utf8_decode_utf8(s);
    }
    crate::laws::law_unescape_without_backslash(s);
    assert(sb.len() > 0) by {
        lemma_encode_starts(s);
    }
    let t3 = add_child(t2, current_parent(t2), plain_model(s)).0;
    assert(add_text(t2, b, k + 1, len) == Some(t3));
    assert(step(b, k + 1, t2, inner) == Step::Stop(t3));
    assert(lex(b, k + 1, t2, inner) == Some(t3));
    assert(lex(b, 0, t0, inner) == Some(t3));
}

/// The component of an empty root, a new node below it, and a text below that node.
proof fn lemma_build_format_text(name: Seq<char>, fm: FormatModel, s: Seq<char>)
    ensures
        ({
            let t2 = push_format(initial_tree(), 0, fm, false, name);
            &&& t2.stack.len() > 0
            &&& current_parent(t2) == 1
            &&& build(add_child(t2, 1, plain_model(s)).0, 0) == formatted_text(fm, s)
        }),
{
    reveal(push_format);
    reveal(push_tag);
    reveal(add_child);
    let t0 = initial_tree();
    let t2 = push_format(t0, 0, fm, false, name);
    let node = crate::minimessage::tree::format_node(fm);
    assert(t2.nodes =~= seq![plain_model(Seq::empty()), node]);
    assert(t2.kids =~= seq![seq![1usize], Seq::<usize>::empty()]);
    assert(t2.stack =~= seq![(0usize, Seq::<char>::empty()), (1usize, name)]);
    let t3 = add_child(t2, 1, plain_model(s)).0;
    assert(t3.nodes =~= seq![plain_model(Seq::empty()), node, plain_model(s)]);
    assert(t3.kids =~= seq![seq![1usize], seq![2usize], Seq::<usize>::empty()]);
    let leaf = build(t3, 2);
    assert(leaf.children =~= Seq::<ComponentModel>::empty());
    assert(leaf == plain_model(s));
    let mid = build(t3, 1);
    assert(mid.children =~= seq![plain_model(s)]);
    let top = build(t3, 0);
    assert(top.children =~= seq![mid]);
    assert(mid == ComponentModel { children: seq![plain_model(s)], ..node });
}

/// A markup of one decoration tag over a text, `<name>text`, is read into an empty root
/// holding an empty text with that decoration turned on, or off where the name has a
/// leading `!`, which holds the text. So `<!italic>x` turns italic off and `<italic>x` on.
pub proof fn law_decoration_markup(name: Seq<char>, s: Seq<char>)
    requires
        simple_name(name),
        s.len() > 0,
        !s.contains('<'),
        !s.contains('\\'),
    ensures
        ({
            let lower = lowercase(name);
            let e = empty_format();
            let r = markup_component(tag_then_text(name, s));
            &&& (lower == "b"@ || lower == "bold"@) ==> r == Some(
                formatted_text(FormatModel { bold: Some(true), ..e }, s),
            )
            &&& (lower == "!b"@ || lower == "!bold"@) ==> r == Some(
                formatted_text(FormatModel { bold: Some(false), ..e }, s),
            )
            &&& (lower == "i"@ || lower == "em"@ || lower == "italic"@) ==> r == Some(
                formatted_text(FormatModel { italic: Some(true), ..e }, s),
            )
            &&& (lower == "!i"@ || lower == "!em"@ || lower == "!italic"@) ==> r == Some(
                formatted_text(FormatModel { italic: Some(false), ..e }, s),
            )
            &&& (lower == "u"@ || lower == "underlined"@) ==> r == Some(
                formatted_text(FormatModel { underlined: Some(true), ..e }, s),
            )
            &&& (lower == "!u"@ || lower == "!underlined"@) ==> r == Some(
                formatted_text(FormatModel { underlined: Some(false), ..e }, s),
            )
            &&& (lower == "st"@ || lower == "strikethrough"@) ==> r == Some(
                formatted_text(FormatModel { strikethrough: Some(true), ..e }, s),
            )
            &&& (lower == "!st"@ || lower == "!strikethrough"@) ==> r == Some(
                formatted_text(FormatModel { strikethrough: Some(false), ..e }, s),
            )
            &&& (lower == "obf"@ || lower == "obfuscated"@) ==> r == Some(
                formatted_text(FormatModel { obfuscated: Some(true), ..e }, s),
            )
            &&& (lower == "!obf"@ || lower == "!obfuscated"@) ==> r == Some(
                formatted_text(FormatModel { obfuscated: Some(false), ..e }, s),
            )
        }),
{
    let f = NESTING_LIMIT as int;
    let inner = nested_parser(f);
    law_decoration_tags(initial_tree(), name, Seq::empty(), false, inner);
    let lower = lowercase(name);
    let e = empty_format();
    if lower == "b"@ || lower == "bold"@ {
        let fm = FormatModel { bold: Some(true), ..e };
        lemma_build_format_text(name, fm, s);
        lemma_tag_then_text(name, s, f, push_format(initial_tree(), 0, fm, false, name));
    }
    if lower == "!b"@ || lower == "!bold"@ {
        let fm = FormatModel { bold: Some(false), ..e };
        lemma_build_format_text(name, fm, s);
        lemma_tag_then_text(name, s, f, push_format(initial_tree(), 0, fm, false, name));
    }
    if lower == "i"@ || lower == "em"@ || lower == "italic"@ {
        let fm = FormatModel { italic: Some(true), ..e };
        lemma_build_format_text(name, fm, s);
        lemma_tag_then_text(name, s, f, push_format(initial_tree(), 0, fm, false, name));
    }
    if lower == "!i"@ || lower == "!em"@ || lower == "!italic"@ {
        let fm = FormatModel { italic: Some(false), ..e };
        lemma_build_format_text(name, fm, s);
        lemma_tag_then_text(name, s, f, push_format(initial_tree(), 0, fm, false, name));
    }
    if lower == "u"@ || lower == "underlined"@ {
        let fm = FormatModel { underlined: Some(true), ..e };
        lemma_build_format_text(name, fm, s);
        lemma_tag_then_text(name, s, f, push_format(initial_tree(), 0, fm, false, name));
    }
    if lower == "!u"@ || lower == "!underlined"@ {
        let fm = FormatModel { underlined: Some(false), ..e };
        lemma_build_format_text(name, fm, s);
        lemma_tag_then_text(name, s, f, push_format(initial_tree(), 0, fm, false, name));
    }
    if lower == "st"@ || lower == "strikethrough"@ {
        let fm = FormatModel { strikethrough: Some(true), ..e };
        lemma_build_format_text(name, fm, s);
        lemma_tag_then_text(name, s, f, push_format(initial_tree(), 0, fm, false, name));
    }
    if lower == "!st"@ || lower == "!strikethrough"@ {
        let fm = FormatModel { strikethrough: Some(false), ..e };
        lemma_build_format_text(name, fm, s);
        lemma_tag_then_text(name, s, f, push_format(initial_tree(), 0, fm, false, name));
    }
    if lower == "obf"@ || lower == "obfuscated"@ {
        let fm = FormatModel { obfuscated: Some(true), ..e };
        lemma_build_format_text(name, fm, s);
        lemma_tag_then_text(name, s, f, push_format(initial_tree(), 0, fm, false, name));
    }
    if lower == "!obf"@ || lower == "!obfuscated"@ {
        let fm = FormatModel { obfuscated: Some(false), ..e };
        lemma_build_format_text(name, fm, s);
        lemma_tag_then_text(name, s, f, push_format(initial_tree(), 0, fm, false, name));
    }
}

/// A markup of one color tag over a text, `<name>text`, where the name in lower case is
/// no tag but reads as a color, is read into an empty root holding an empty text with
/// that color, which holds the text. So `<gold>x` is gold.
pub proof fn law_color_markup(name: Seq<char>, s: Seq<char>, c: Color)
    requires
        simple_name(name),
        s.len() > 0,
        !s.contains('<'),
        !s.contains('\\'),
        !known_tag(lowercase(name)),
        color_of(lowercase(name)) == Some(c),
    ensures
        markup_component(tag_then_text(name, s)) == Some(
            formatted_text(FormatModel { color: Some(c), ..empty_format() }, s),
        ),
{
    let f = NESTING_LIMIT as int;
    let inner = nested_parser(f);
    let fm = FormatModel { color: Some(c), ..empty_format() };
    law_color_name_tag(initial_tree(), name, Seq::empty(), false, inner, c);
    lemma_build_format_text(name, fm, s);
    lemma_tag_then_text(name, s, f, push_format(initial_tree(), 0, fm, false, name));
}

// ---------------------------------------------------------------------------------------
// Text, then one tag with one argument, then text
// ---------------------------------------------------------------------------------------
/// The markup of the text `p`, an opening tag named `name` with the one argument `a`, and
/// the text `s`.
pub open spec fn text_tag_arg_text(p: Seq<char>, name: Seq<char>, a: Seq<char>, s: Seq<char>) -> Seq<
    char,
> {
    p + seq!['<'] + name + seq![':'] + a + seq!['>'] + s
}

/// An argument written bare: not empty, not starting with a quote, and holding no `:` or
/// `>`.
pub open spec fn bare_arg(a: Seq<char>) -> bool {
    &&& a.len() > 0
    &&& a[0] != '"' && a[0] != '\''
    &&& !a.contains(':') && !a.contains('>')
}

/// A text that markup shows as it is: not empty, with no `<` and no backslash.
pub open spec fn literal_text(s: Seq<char>) -> bool {
    s.len() > 0 && !s.contains('<') && !s.contains('\\')
}

/// The component of a text followed by a node that holds a second text: an empty root
/// holding the first text as plain text and then the node, which holds the second.
pub open spec fn text_then_node(p: Seq<char>, node: ComponentModel, s: Seq<char>) -> ComponentModel {
    ComponentModel {
        children: seq![plain_model(p), ComponentModel { children: seq![plain_model(s)], ..node }],
        ..plain_model(Seq::empty())
    }
}

/// The tree after the first text of a markup.
pub open spec fn after_text(p: Seq<char>) -> TreeModel {
    add_child(initial_tree(), 0, plain_model(p)).0
}

/// The markup of a text, one tag with one bare argument, and a text, is read as what the
/// tag does to the tree after the first text, with the second text then added under the
/// node that is current after the tag.
#[verifier::spinoff_prover]
#[verifier::rlimit(80)]
proof fn lemma_text_tag_arg_text(
    p: Seq<char>,
    name: Seq<char>,
    a: Seq<char>,
    s: Seq<char>,
    f: int,
    t2: TreeModel,
)
    requires
        literal_text(p),
        simple_name(name),
        bare_arg(a),
        literal_text(s),
        open_tag(after_text(p), name, seq![a], false, nested_parser(f)) == Some(t2),
        t2.stack.len() > 0,
    ensures
        parse_markup(text_tag_arg_text(p, name, a, s), f) == Some(
            build(add_child(t2, current_parent(t2), plain_model(s)).0, 0),
        ),
{
    let inner = nested_parser(f);
    let t0 = initial_tree();
    let t1 = after_text(p);
    let pb = encode_utf8(p);
    let nb = encode_utf8(name);
    let ab = encode_utf8(a);
    let sb = encode_utf8(s);
    lemma_encode_ascii_char('<');
    lemma_encode_ascii_char(':');
    lemma_encode_ascii_char('>');
    let m1 = p + seq!['<'];
    let m2 = m1 + name;
    let m3 = m2 + seq![':'];
    let m4 = m3 + a;
    let m5 = m4 + seq!['>'];
    lemma_encode_concat(p, seq!['<']);
    lemma_encode_concat(m1, name);
    lemma_encode_concat(m2, seq![':']);
    lemma_encode_concat(m3, a);
    lemma_encode_concat(m4, seq!['>']);
    lemma_encode_concat(m5, s);
    let b = encode_utf8(text_tag_arg_text(p, name, a, s));
    assert(b =~= pb + seq![LESS] + nb + seq![COLON] + ab + seq![GREATER] + sb);
    let np = pb.len() as int;
    let n = nb.len() as int;
    let na = ab.len() as int;
    let len = b.len() as int;
    let lt = np;
    let k = np + 1 + n;
    let g = k + 1 + na;
    lemma_text_without(p, LESS);
    lemma_text_without(name, GREATER);
    lemma_text_without(name, COLON);
    lemma_text_without(name, SLASH);
    lemma_text_without(a, COLON);
    lemma_text_without(a, GREATER);
    lemma_text_without(s, LESS);
    // The first text runs up to the tag.
    assert forall|j: int| 0 <= j < lt implies b[j] != LESS && b[j] != LESS by {
        assert(b[j] == pb[j]);
        assert(pb.contains(pb[j]));
    }
    lemma_first_of(b, 0, len, LESS, LESS, Some(lt));
    assert(b.subrange(0, lt) =~= pb);
    assert(text(b, 0, lt) == p) by {
        vstd::utf8::encode_utf8_decode_utf8(p);
    }
    crate::laws::law_unescape_without_backslash(p);
    reveal(add_text);
    assert(np > 0) by {
        lemma_encode_starts(p);
    }
    assert(add_text(t0, b, 0, lt) == Some(t1));
    assert(b[lt + 1] != SLASH) by {
        if n > 0 {
            assert(b[lt + 1] == nb[0]);
            assert(nb.contains(nb[0]));
        }
    }
    // The name runs up to the `:`.
    assert forall|j: int| lt + 1 <= j < k implies b[j] != GREATER && b[j] != COLON && b[j] != SLASH by {
        assert(b[j] == nb[j - lt - 1]);
        assert(nb.contains(nb[j - lt - 1]));
    }
    lemma_tag_name_end_at(b, lt + 1, k);
    assert(b.subrange(lt + 1, k) =~= nb);
    assert(text(b, lt + 1, k) == name) by {
        vstd::utf8::encode_utf8_decode_utf8(name);
    }
    // The argument runs up to the `>`.
    lemma_encode_starts(a);
    assert(b[k + 1] == ab[0]);
    assert(ab[0] != DOUBLE_QUOTE && ab[0] != SINGLE_QUOTE) by {
        lemma_encode_first_ascii_aware(a);
    }
    assert forall|j: int| k + 1 <= j < g implies b[j] != COLON && b[j] != GREATER by {
        assert(b[j] == ab[j - k - 1]);
        assert(ab.contains(ab[j - k - 1]));
    }
    lemma_first_of(b, k + 1, len, COLON, GREATER, Some(g));
    assert(b.subrange(k + 1, g) =~= ab);
    assert(text(b, k + 1, g) == a) by {
        vstd::utf8::encode_utf8_decode_utf8(a);
    }
    assert(split_args_from(b, k + 1, Seq::empty()) == Some((seq![a], g))) by {
        assert(Seq::<Seq<char>>::empty().push(a) =~= seq![a]);
    }
    reveal(open_step);
    assert(tag_args(b, k) == Some((seq![a], g)));
    assert(tag_end(b, g) == (false, g + 1));
    assert(open_step(b, lt + 1, t1, inner) == Step::Go(t2, g + 1));
    assert(step(b, 0, t0, inner) == Step::Go(t2, g + 1));
    // The last text runs to the end.
    assert forall|j: int| g + 1 <= j < len implies b[j] != LESS && b[j] != LESS by {
        assert(b[j] == sb[j - g - 1]);
        assert(sb.contains(sb[j - g - 1]));
    }
    lemma_first_of(b, g + 1, len, LESS, LESS, None);
    assert(b.subrange(g + 1, len) =~= sb);
    assert(text(b, g + 1, len) == s) by {
        vstd::utf8::encode_utf8_decode_utf8(s);
    }
    crate::laws::law_unescape_without_backslash(s);
    assert(sb.len() > 0) by {
        lemma_encode_starts(s);
    }
    let t3 = add_child(t2, current_parent(t2), plain_model(s)).0;
    assert(add_text(t2, b, g + 1, len) == Some(t3));
    assert(step(b, g + 1, t2, inner) == Step::Stop(t3));
    assert(lex(b, g + 1, t2, inner) == Some(t3));
    assert(lex(b, 0, t0, inner) == Some(t3));
}

/// A tag name ends at the first `>`, `:` or `/` from where it starts.
proof fn lemma_tag_name_end_at(b: Seq<u8>, i: int, k: int)
    requires
        0 <= i <= k < b.len(),
        b[k] == GREATER || b[k] == COLON || b[k] == SLASH,
        forall|j: int| i <= j < k ==> b[j] != GREATER && b[j] != COLON && b[j] != SLASH,
    ensures
        tag_name_end(b, i) == k,
    decreases k - i,
{
    if i < k {
        lemma_tag_name_end_at(b, i + 1, k);
    }
}

/// The first byte of a text's encoding is a quote exactly where its first character is.
proof fn lemma_encode_first_ascii_aware(a: Seq<char>)
    requires
        a.len() > 0,
        a[0] != '"' && a[0] != '\'',
    ensures
        encode_utf8(a)[0] != DOUBLE_QUOTE && encode_utf8(a)[0] != SINGLE_QUOTE,
{
    assert(a =~= seq![a[0]] + a.drop_first());
    lemma_encode_concat(seq![a[0]], a.drop_first());
    lemma_text_without(seq![a[0]], DOUBLE_QUOTE);
    lemma_text_without(seq![a[0]], SINGLE_QUOTE);
    lemma_encode_starts(seq![a[0]]);
    let e = encode_utf8(seq![a[0]]);
    assert(e.contains(e[0]));
    assert(encode_utf8(a)[0] == e[0]);
}

/// The tree after a first text and a tag that added `node` under the root and opened it.
proof fn lemma_build_text_then_node(p: Seq<char>, node: ComponentModel, tag: Seq<char>, s: Seq<char>)
    requires
        node.interactions != empty_interactions() || node.format != empty_format(),
        node.children == Seq::<ComponentModel>::empty(),
    ensures
        ({
            let t2 = push_tag(after_text(p), 0, node, tag, false);
            &&& t2.stack.len() > 0
            &&& current_parent(t2) == 2
            &&& tree_wf(after_text(p))
            &&& current_parent(after_text(p)) == 0
            &&& build(add_child(t2, 2, plain_model(s)).0, 0) == text_then_node(p, node, s)
        }),
{
    reveal(push_tag);
    reveal(add_child);
    let t0 = initial_tree();
    let t1 = after_text(p);
    assert(t1.nodes =~= seq![plain_model(Seq::empty()), plain_model(p)]);
    assert(t1.kids =~= seq![seq![1usize], Seq::<usize>::empty()]);
    law_rich_child_kept(t1, 0, node);
    let t2 = push_tag(t1, 0, node, tag, false);
    assert(t2.nodes =~= seq![plain_model(Seq::empty()), plain_model(p), node]);
    assert(t2.kids[0] =~= seq![1usize, 2usize]);
    assert(t2.kids =~= seq![seq![1usize, 2usize], Seq::<usize>::empty(), Seq::<usize>::empty()]);
    assert(t2.stack =~= seq![(0usize, Seq::<char>::empty()), (2usize, tag)]);
    let t3 = add_child(t2, 2, plain_model(s)).0;
    assert(t3.nodes =~= seq![plain_model(Seq::empty()), plain_model(p), node, plain_model(s)]);
    assert(t3.kids[2] =~= seq![3usize]);
    assert(t3.kids =~= seq![
        seq![1usize, 2usize],
        Seq::<usize>::empty(),
        seq![3usize],
        Seq::<usize>::empty(),
    ]);
    let leaf = build(t3, 3);
    assert(leaf.children =~= Seq::<ComponentModel>::empty());
    assert(leaf == plain_model(s));
    let first = build(t3, 1);
    assert(first.children =~= Seq::<ComponentModel>::empty());
    assert(first == plain_model(p));
    let mid = build(t3, 2);
    assert(mid.children =~= seq![plain_model(s)]);
    assert(mid == ComponentModel { children: seq![plain_model(s)], ..node });
    let top = build(t3, 0);
    assert(top.children =~= seq![first, mid]);
}

/// `Hello <insert:x>here`: a text, an `insert` tag with a bare argument, and a text are
/// read into the first text as a plain child and then an empty text that carries the
/// insertion, holding the second text; the insertion is never merged into the text before.
pub proof fn law_insert_markup(p: Seq<char>, name: Seq<char>, a: Seq<char>, s: Seq<char>)
    requires
        literal_text(p),
        simple_name(name),
        bare_arg(a),
        literal_text(s),
        lowercase(name) == "insert"@,
    ensures
        markup_component(text_tag_arg_text(p, name, a, s)) == Some(
            text_then_node(
                p,
                carrier(InteractivityModel { insertion: Some(a), ..empty_interactions() }),
                s,
            ),
        ),
{
    let f = NESTING_LIMIT as int;
    let inner = nested_parser(f);
    let i = InteractivityModel { insertion: Some(a), ..empty_interactions() };
    let node = carrier(i);
    lemma_build_text_then_node(p, node, "insert"@, s);
    law_interaction_tags(after_text(p), name, seq![a], false, inner);
    let t2 = push_tag(after_text(p), 0, node, "insert"@, false);
    let r = open_tag(after_text(p), name, seq![a], false, inner);
    assert(r == Some(t2)) by {
        reveal(push_tag);
        reveal(add_child);
        law_rich_child_kept(after_text(p), 0, node);
        assert(r.unwrap() =~= t2);
    }
    lemma_text_tag_arg_text(p, name, a, s, f, t2);
}

/// `Hello <shadow:color>here`: a text, a `shadow` tag whose argument reads as a color,
/// and a text are read into the first text as a plain child and then an empty text with a
/// shadow of that color's channels at alpha 64, holding the second text.
pub proof fn law_shadow_markup(p: Seq<char>, name: Seq<char>, a: Seq<char>, s: Seq<char>, c: Color)
    requires
        literal_text(p),
        simple_name(name),
        bare_arg(a),
        literal_text(s),
        lowercase(name) == "shadow"@,
        color_of(a) == Some(c),
    ensures
        markup_component(text_tag_arg_text(p, name, a, s)) == Some(
            text_then_node(
                p,
                crate::minimessage::tree::format_node(
                    FormatModel {
                        shadow_color: Some(shadow_value(64, rgb_of(c).0, rgb_of(c).1, rgb_of(c).2)),
                        ..empty_format()
                    },
                ),
                s,
            ),
        ),
{
    let f = NESTING_LIMIT as int;
    let inner = nested_parser(f);
    let args = seq![a];
    let fm = FormatModel {
        shadow_color: Some(shadow_value(64, rgb_of(c).0, rgb_of(c).1, rgb_of(c).2)),
        ..empty_format()
    };
    law_shadow_takes_color_channels(args, c);
    assert(alpha_arg(args, 1) == 64);
    law_shadow_tag(after_text(p), name, args, false, inner, fm);
    let node = crate::minimessage::tree::format_node(fm);
    lemma_build_text_then_node(p, node, "shadow"@, s);
    assert(current_parent(after_text(p)) == 0);
    reveal(push_format);
    lemma_text_tag_arg_text(p, name, a, s, f, push_tag(after_text(p), 0, node, "shadow"@, false));
}

// ---------------------------------------------------------------------------------------
// Click actions
// ---------------------------------------------------------------------------------------
/// The click that the action `open_url` gives.
proof fn lemma_click_open_url(v: Seq<char>)
    ensures
        click_of("open_url"@, v) == Some(ClickEventModel::OpenUrl { url: v }),
{
    reveal_strlit("open_url");
}

/// The click that the action `run_command` gives.
proof fn lemma_click_run_command(v: Seq<char>)
    ensures
        click_of("run_command"@, v) == Some(ClickEventModel::RunCommand { command: v }),
{
    reveal_strlit("run_command");
    reveal_strlit("open_url");
    assert("run_command"@.len() != "open_url"@.len());
}

/// The click that the action `suggest_command` gives.
proof fn lemma_click_suggest_command(v: Seq<char>)
    ensures
        click_of("suggest_command"@, v) == Some(ClickEventModel::SuggestCommand { command: v }),
{
    reveal_strlit("suggest_command");
    reveal_strlit("open_url");
    assert("suggest_command"@.len() != "open_url"@.len());
    reveal_strlit("run_command");
    assert("suggest_command"@.len() != "run_command"@.len());
}

/// The click that the action `copy_to_clipboard` gives.
proof fn lemma_click_copy_to_clipboard(v: Seq<char>)
    ensures
        click_of("copy_to_clipboard"@, v) == Some(ClickEventModel::CopyToClipboard { value: v }),
{
    reveal_strlit("copy_to_clipboard");
    reveal_strlit("open_url");
    assert("copy_to_clipboard"@.len() != "open_url"@.len());
    reveal_strlit("run_command");
    assert("copy_to_clipboard"@.len() != "run_command"@.len());
    reveal_strlit("suggest_command");
    assert("copy_to_clipboard"@.len() != "suggest_command"@.len());
    reveal_strlit("change_page");
    assert("copy_to_clipboard"@.len() != "change_page"@.len());
}

/// The click that the action `show_dialog` gives.
proof fn lemma_click_show_dialog(v: Seq<char>)
    ensures
        click_of("show_dialog"@, v) == Some(ClickEventModel::ShowDialog { dialog: v }),
{
    reveal_strlit("show_dialog");
    reveal_strlit("open_url");
    assert("show_dialog"@.len() != "open_url"@.len());
    reveal_strlit("run_command");
    assert("show_dialog"@[0] != "run_command"@[0]);
    reveal_strlit("suggest_command");
    assert("show_dialog"@.len() != "suggest_command"@.len());
    reveal_strlit("change_page");
    assert("show_dialog"@[0] != "change_page"@[0]);
    reveal_strlit("copy_to_clipboard");
    assert("show_dialog"@.len() != "copy_to_clipboard"@.len());
}

/// The click that the action `custom` gives.
proof fn lemma_click_custom(v: Seq<char>)
    ensures
        click_of("custom"@, v) == Some(ClickEventModel::Custom(CustomDataModel { id: v, payload: Payload::Empty })),
{
    reveal_strlit("custom");
    reveal_strlit("open_url");
    assert("custom"@.len() != "open_url"@.len());
    reveal_strlit("run_command");
    assert("custom"@.len() != "run_command"@.len());
    reveal_strlit("suggest_command");
    assert("custom"@.len() != "suggest_command"@.len());
    reveal_strlit("change_page");
    assert("custom"@.len() != "change_page"@.len());
    reveal_strlit("copy_to_clipboard");
    assert("custom"@.len() != "copy_to_clipboard"@.len());
    reveal_strlit("show_dialog");
    assert("custom"@.len() != "show_dialog"@.len());
}

/// Each click action but `change_page` carries the value it is given, unchanged, in the
/// event of that action's name.
pub proof fn law_click_actions(v: Seq<char>)
    ensures
        click_of("open_url"@, v) == Some(ClickEventModel::OpenUrl { url: v }),
        click_of("run_command"@, v) == Some(ClickEventModel::RunCommand { command: v }),
        click_of("suggest_command"@, v) == Some(ClickEventModel::SuggestCommand { command: v }),
        click_of("copy_to_clipboard"@, v) == Some(ClickEventModel::CopyToClipboard { value: v }),
        click_of("show_dialog"@, v) == Some(ClickEventModel::ShowDialog { dialog: v }),
        click_of("custom"@, v) == Some(ClickEventModel::Custom(CustomDataModel { id: v, payload: Payload::Empty })),
{
    lemma_click_open_url(v);
    lemma_click_run_command(v);
    lemma_click_suggest_command(v);
    lemma_click_copy_to_clipboard(v);
    lemma_click_show_dialog(v);
    lemma_click_custom(v);
}

// ---------------------------------------------------------------------------------------
// More quoted arguments
// ---------------------------------------------------------------------------------------
/// An argument in quotes `q`, with neither `q` nor a backslash inside, is read as its
/// content: `q x q` gives the one argument `x`.
#[verifier::spinoff_prover]
#[verifier::rlimit(60)]
pub proof fn law_plain_quoted_arg(q: char, x: Seq<char>)
    requires
        q == '"' || q == '\'',
        !x.contains(q),
        !x.contains('\\'),
    ensures
        ({
            let markup = seq![q] + x + seq![q];
            split_args_from(encode_utf8(markup), 0, Seq::empty()) == Some(
                (seq![x], encode_utf8(markup).len() as int),
            )
        }),
{
    let qb = q as u8;
    let xs = encode_utf8(x);
    lemma_text_without(x, qb);
    lemma_text_without(x, BACKSLASH);
    lemma_encode_ascii_char(q);
    let tail = x + seq![q];
    let markup = seq![q] + tail;
    assert(markup =~= seq![q] + x + seq![q]);
    lemma_encode_concat(x, seq![q]);
    lemma_encode_concat(seq![q], tail);
    lemma_encode_starts(tail);
    let n1 = xs.len() as int;
    let b = encode_utf8(markup);
    assert(encode_utf8(tail) =~= xs + seq![qb]);
    assert(b =~= seq![qb] + xs + seq![qb]);
    let len = b.len() as int;
    assert forall|j: int| 1 <= j < 1 + n1 implies b[j] != qb && b[j] != BACKSLASH by {
        assert(b[j] == xs[j - 1]);
        assert(xs.contains(xs[j - 1]));
    }
    lemma_first_of(b, 1, len, qb, BACKSLASH, Some(1 + n1));
    assert(b.subrange(1, 1 + n1) =~= xs);
    assert(boundary(b, 1)) by {
        assert(b[1] == encode_utf8(tail)[0]);
    }
    assert(text(b, 1, 1 + n1) == x) by {
        vstd::utf8::encode_utf8_decode_utf8(x);
    }
    assert(quoted(b, qb, 1, 1, Seq::empty(), false) == Some((x, len)));
    assert(Seq::<Seq<char>>::empty().push(x) =~= seq![x]);
}

/// In a quoted argument, two backslashes stand for one: `q x \\ y q`, where `x` and `y`
/// hold neither `q` nor a backslash, is read as the one argument `x \ y`.
#[verifier::spinoff_prover]
#[verifier::rlimit(60)]
pub proof fn law_escaped_backslash_in_quoted_arg(q: char, x: Seq<char>, y: Seq<char>)
    requires
        q == '"' || q == '\'',
        !x.contains(q),
        !x.contains('\\'),
        !y.contains(q),
        !y.contains('\\'),
    ensures
        ({
            let markup = seq![q] + x + seq!['\\', '\\'] + y + seq![q];
            split_args_from(encode_utf8(markup), 0, Seq::empty()) == Some(
                (seq![x + seq!['\\'] + y], encode_utf8(markup).len() as int),
            )
        }),
{
    let qb = q as u8;
    let xs = encode_utf8(x);
    let ys = encode_utf8(y);
    lemma_text_without(x, qb);
    lemma_text_without(x, BACKSLASH);
    lemma_text_without(y, qb);
    lemma_text_without(y, BACKSLASH);
    assert(BACKSLASH as char == '\\');
    lemma_encode_ascii_char(q);
    lemma_encode_ascii_char('\\');
    let tail_y = y + seq![q];
    let tail_x = x + seq!['\\'] + seq!['\\'] + tail_y;
    let markup = seq![q] + tail_x;
    assert(markup =~= seq![q] + x + seq!['\\', '\\'] + y + seq![q]);
    lemma_encode_concat(y, seq![q]);
    lemma_encode_concat(x + seq!['\\'] + seq!['\\'], tail_y);
    lemma_encode_concat(x + seq!['\\'], seq!['\\']);
    lemma_encode_concat(x, seq!['\\']);
    lemma_encode_concat(seq![q], tail_x);
    lemma_encode_starts(tail_x);
    lemma_encode_starts(tail_y);
    let n1 = xs.len() as int;
    let n2 = ys.len() as int;
    let b = encode_utf8(markup);
    let ty = encode_utf8(tail_y);
    assert(ty =~= ys + seq![qb]);
    assert(encode_utf8(tail_x) =~= xs + seq![BACKSLASH] + seq![BACKSLASH] + ys + seq![qb]);
    assert(b =~= seq![qb] + xs + seq![BACKSLASH, BACKSLASH] + ys + seq![qb]);
    let len = b.len() as int;
    assert forall|j: int| 1 <= j < 1 + n1 implies b[j] != qb && b[j] != BACKSLASH by {
        assert(b[j] == xs[j - 1]);
        assert(xs.contains(xs[j - 1]));
    }
    lemma_first_of(b, 1, len, qb, BACKSLASH, Some(1 + n1));
    assert(b.subrange(1, 1 + n1) =~= xs);
    assert(boundary(b, 1)) by {
        assert(b[1] == encode_utf8(tail_x)[0]);
    }
    let from = 3 + n1;
    assert forall|j: int| from <= j < from + n2 implies b[j] != qb && b[j] != BACKSLASH by {
        assert(b[j] == ys[j - from]);
        assert(ys.contains(ys[j - from]));
    }
    lemma_first_of(b, from, len, qb, BACKSLASH, Some(from + n2));
    assert(b.subrange(from, from + n2) =~= ys);
    assert(boundary(b, from)) by {
        assert(b[from] == ty[0]);
    }
    let gathered = x.push('\\');
    assert(text(b, 1, 1 + n1) == x) by {
        vstd::utf8::encode_utf8_decode_utf8(x);
    }
    assert(text(b, from, from + n2) == y) by {
        vstd::utf8::encode_utf8_decode_utf8(y);
    }
    assert(quoted(b, qb, 1, from, gathered, true) == Some((gathered + y, len)));
    assert(quoted(b, qb, 1, 1, Seq::empty(), false) == Some((gathered + y, len))) by {
        assert(Seq::<char>::empty() + x =~= x);
    }
    assert(gathered + y =~= x + seq!['\\'] + y);
    assert(Seq::<Seq<char>>::empty().push(gathered + y) =~= seq![x + seq!['\\'] + y]);
}

// ---------------------------------------------------------------------------------------
// Shadows with their alpha
// ---------------------------------------------------------------------------------------
/// The shadow of `#rrggbbaa`: the hex pairs, in order, are its red, green, blue and
/// alpha, whatever further arguments the tag has.
pub proof fn law_shadow_hex_with_alpha(args: Seq<Seq<char>>)
    requires
        args.len() > 0,
        args[0].len() == 9,
        args[0][0] == '#',
        forall|i: int| 1 <= i < 9 ==> hex_digit_value(#[trigger] args[0][i]) is Some,
    ensures
        ({
            let x = args[0];
            shadow_format(args) == Some(
                FormatModel {
                    shadow_color: Some(
                        shadow_value(
                            hex_pair_value(x[7], x[8]).unwrap(),
                            hex_pair_value(x[1], x[2]).unwrap(),
                            hex_pair_value(x[3], x[4]).unwrap(),
                            hex_pair_value(x[5], x[6]).unwrap(),
                        ),
                    ),
                    ..empty_format()
                },
            )
        }),
{
    let x = args[0];
    let d = x.drop_first();
    assert forall|i: int| 0 <= i < d.len() implies '\0' <= #[trigger] d[i] <= '\u{7f}' by {
        assert(d[i] == x[i + 1]);
        assert(hex_digit_value(x[i + 1]) is Some);
    }
    lemma_ascii_bytes(d);
    let hex = encode_utf8(d);
    assert(hex[0] != PLUS && hex[2] != PLUS && hex[4] != PLUS && hex[6] != PLUS) by {
        assert(hex[0] as char == x[1] && hex[2] as char == x[3] && hex[4] as char == x[5]
            && hex[6] as char == x[7]);
        assert(hex_digit_value(x[1]) is Some && hex_digit_value(x[3]) is Some && hex_digit_value(
            x[5],
        ) is Some && hex_digit_value(x[7]) is Some);
    }
    assert(hex[1] as char == x[2] && hex[3] as char == x[4] && hex[5] as char == x[6]
        && hex[7] as char == x[8]);
    assert(hex_digit_value(x[2]) is Some && hex_digit_value(x[4]) is Some && hex_digit_value(x[6])
        is Some && hex_digit_value(x[8]) is Some);
}

} // verus!
