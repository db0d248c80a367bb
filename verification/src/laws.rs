//! Laws of the library: what holds across calls and for every input.
use vstd::prelude::*;
use vstd::utf8::{encode_scalar, encode_utf8, has_width_1_encoding};

use crate::ascii::{BACKSLASH, LESS};
use crate::component::{plain_model, ComponentModel, FormatModel, RawTextComponent};
use crate::format::reset_format;
use crate::minimessage::bytes::{ascii_same, lemma_first_of, lowercase, text};
use crate::minimessage::escape::{unescape, unescape_from};
use crate::minimessage::markup::{
    add_text, hover_of, known_tag, lex, nbt_of, nested_parser, open_step, open_tag, parse_all,
    parse_markup, selector_of, step, text_end, translate_of, Step,
};
use crate::minimessage::parser::markup_component;
use crate::minimessage::tree::{
    add_child, build, close_tag, initial_tree, last_named, push_tag, reset_stack, TreeModel,
};
use crate::minimessage::values::color_of;
use crate::{models, with_child, with_children, with_format};

verus! {

broadcast use vstd::utf8::encode_utf8_valid_utf8, vstd::utf8::encode_utf8_decode_utf8;

/// No byte of the UTF-8 form of a character other than an ASCII character `c` is `c`.
proof fn lemma_scalar_without(x: u32, c: u8)
    requires
        c < 0x80,
        x != c as u32,
    ensures
        !encode_scalar(x).contains(c),
{
    let e = encode_scalar(x);
    if has_width_1_encoding(x) {
        assert((x & 0x7F) as u8 != c) by (bit_vector)
            requires
                x <= 0x7F,
                x != c as u32,
                c < 0x80,
        ;
        assert(e[0] != c);
    } else {
        assert forall|k: int| 0 <= k < e.len() implies e[k] >= 0x80 by {
            assert(0xC0u8 | ((x >> 6u32) & 0x1F) as u8 >= 0x80) by (bit_vector);
            assert(0xE0u8 | ((x >> 12u32) & 0x0F) as u8 >= 0x80) by (bit_vector);
            assert(0xF0u8 | ((x >> 18u32) & 0x7) as u8 >= 0x80) by (bit_vector);
            assert(0x80u8 | (x & 0x3F) as u8 >= 0x80) by (bit_vector);
            assert(0x80u8 | ((x >> 6u32) & 0x3F) as u8 >= 0x80) by (bit_vector);
            assert(0x80u8 | ((x >> 12u32) & 0x3F) as u8 >= 0x80) by (bit_vector);
        }
    }
}

/// A text without the ASCII character `c` has no byte `c` in its UTF-8 form.
pub(crate) proof fn lemma_text_without(s: Seq<char>, c: u8)
    requires
        c < 0x80,
        !s.contains(c as char),
    ensures
        !encode_utf8(s).contains(c),
    decreases s.len(),
{
    if s.len() > 0 {
        assert(s[0] != c as char);
        assert(!s.drop_first().contains(c as char)) by {
            if s.drop_first().contains(c as char) {
                let k = choose|k: int| 0 <= k < s.drop_first().len() && s.drop_first()[k] == c as char;
                assert(s[k + 1] == c as char);
            }
        }
        lemma_text_without(s.drop_first(), c);
        vstd::utf8::char_is_scalar(s[0]);
        assert((s[0] as u32) != c as u32) by {
            vstd::utf8::char_u32_cast(s[0], s[0] as u32);
        }
        lemma_scalar_without(s[0] as u32, c);
        let whole = encode_utf8(s);
        let head = encode_scalar(s[0] as u32);
        let tail = encode_utf8(s.drop_first());
        assert(whole == head + tail);
        if whole.contains(c) {
            let k = choose|k: int| 0 <= k < whole.len() && whole[k] == c;
            if k < head.len() {
                assert(head[k] == c);
            } else {
                assert(tail[k - head.len()] == c);
            }
        }
    }
}

/// A text without a backslash is its own text with escapes resolved.
pub proof fn law_unescape_without_backslash(s: Seq<char>)
    requires
        !s.contains('\\'),
    ensures
        unescape(s) == Some(s),
{
    let b = encode_utf8(s);
    lemma_text_without(s, BACKSLASH);
    lemma_first_of(b, 0, b.len() as int, BACKSLASH, BACKSLASH, None);
    if b.len() > 0 {
        vstd::utf8::is_char_boundary_start_end_of_seq(b);
        crate::minimessage::bytes::lemma_boundary(b, 0);
        assert(b.subrange(0, b.len() as int) =~= b);
    } else {
        assert(s.len() == 0) by {
            if s.len() > 0 {
                assert(encode_utf8(s).len() >= encode_scalar(s[0] as u32).len());
            }
        }
        assert(s =~= Seq::<char>::empty());
    }
}

/// The root that a markup without tags is read into: empty, holding the markup's text
/// as one plain child, or nothing where that text is empty.
pub open spec fn text_root(u: Seq<char>) -> ComponentModel {
    ComponentModel {
        children: if u.len() == 0 {
            Seq::empty()
        } else {
            seq![plain_model(u)]
        },
        ..plain_model(Seq::empty())
    }
}

/// A markup without `<` is read into an empty root that holds its text, with escapes
/// resolved, as one plain child; it cannot be read exactly where resolving the escapes
/// would cut a character.
pub proof fn law_markup_without_tags(s: Seq<char>, f: int)
    requires
        !s.contains('<'),
    ensures
        parse_markup(s, f) == (match unescape(s) {
            Some(u) => Some(text_root(u)),
            None => None,
        }),
{
    reveal(add_text);
    reveal(add_child);
    let b = encode_utf8(s);
    let inner = nested_parser(f);
    let t0 = initial_tree();
    lemma_text_without(s, LESS);
    lemma_first_of(b, 0, b.len() as int, LESS, LESS, None);
    assert(b.subrange(0, b.len() as int) =~= b);
    assert(text(b, 0, b.len() as int) == s);
    if b.len() == 0 {
        assert(s.len() == 0) by {
            if s.len() > 0 {
                assert(encode_utf8(s).len() >= encode_scalar(s[0] as u32).len());
            }
        }
        assert(s =~= Seq::<char>::empty());
        assert(unescape_from(b, 0) == Some(Seq::<char>::empty()));
        assert(lex(b, 0, t0, inner) == Some(t0));
        let r = build(t0, 0);
        assert(r.children =~= Seq::<ComponentModel>::empty());
        assert(r == text_root(Seq::empty()));
    } else {
        assert(text_end(b, 0) == b.len());
        match unescape(s) {
            None => {
                assert(add_text(t0, b, 0, b.len() as int) is None);
                assert(step(b, 0, t0, inner) == Step::Fail);
            },
            Some(u) => {
                if u.len() == 0 {
                    assert(add_text(t0, b, 0, b.len() as int) == Some(t0));
                    assert(step(b, 0, t0, inner) == Step::Stop(t0));
                    let r = build(t0, 0);
                    assert(r.children =~= Seq::<ComponentModel>::empty());
                    assert(r == text_root(u));
                } else {
                    let t1 = add_child(t0, 0, plain_model(u)).0;
                    assert(t1 == TreeModel {
                        nodes: seq![plain_model(Seq::empty()), plain_model(u)],
                        kids: seq![seq![1usize], Seq::empty()],
                        stack: t0.stack,
                    }) by {
                        assert(t1.nodes =~= seq![plain_model(Seq::empty()), plain_model(u)]);
                        assert(t1.kids =~= seq![seq![1usize], Seq::<usize>::empty()]);
                    }
                    assert(add_text(t0, b, 0, b.len() as int) == Some(t1));
                    assert(step(b, 0, t0, inner) == Step::Stop(t1));
                    let leaf = build(t1, 1);
                    assert(leaf.children =~= Seq::<ComponentModel>::empty());
                    assert(leaf == plain_model(u));
                    let r = build(t1, 0);
                    assert(r.children =~= seq![plain_model(u)]);
                    assert(r == text_root(u));
                }
            },
        }
    }
}

/// A markup with neither `<` nor a backslash is read into an empty root that holds the
/// markup itself as one plain child (nothing, for the empty markup).
pub proof fn law_plain_markup(s: Seq<char>)
    requires
        !s.contains('<'),
        !s.contains('\\'),
    ensures
        markup_component(s) == Some(text_root(s)),
{
    law_unescape_without_backslash(s);
    law_markup_without_tags(s, crate::minimessage::parser::NESTING_LIMIT as int);
}

// ---------------------------------------------------------------------------------------
// Building components
// ---------------------------------------------------------------------------------------
/// Adding children in two calls gives the same component as adding all of them, in
/// order, in one.
pub proof fn law_add_children_in_two(
    c: ComponentModel,
    first: Seq<RawTextComponent>,
    second: Seq<RawTextComponent>,
)
    ensures
        with_children(with_children(c, models(first)), models(second)) == with_children(
            c,
            models(first + second),
        ),
{
    assert(models(first + second) =~= models(first) + models(second));
    assert(c.children + models(first) + models(second) =~= c.children + (models(first) + models(
        second,
    )));
}

/// Adding one child is adding a list that holds only that child.
pub proof fn law_add_child_alone(c: ComponentModel, child: RawTextComponent)
    ensures
        with_child(c, child@) == with_children(c, models(seq![child])),
{
    assert(models(seq![child]) =~= seq![child@]);
    assert(c.children.push(child@) =~= c.children + seq![child@]);
}

/// Resetting the format discards every format set before: the color, font, decorations
/// and shadow that a reset leaves do not depend on them.
pub proof fn law_reset_discards_format(c: ComponentModel, earlier: FormatModel)
    ensures
        with_format(with_format(c, earlier), reset_format()) == with_format(c, reset_format()),
{
}

// ---------------------------------------------------------------------------------------
// Tags
// ---------------------------------------------------------------------------------------
/// An opening tag whose name, in lower case, is neither a known tag nor a color changes
/// nothing.
pub proof fn law_unknown_tag_ignored(
    t: TreeModel,
    name: Seq<char>,
    args: Seq<Seq<char>>,
    self_closing: bool,
    inner: spec_fn(Seq<char>) -> Option<ComponentModel>,
)
    requires
        !known_tag(lowercase(name)),
        color_of(lowercase(name)) is None,
    ensures
        open_tag(t, name, args, self_closing, inner) == Some(t),
{
    reveal(open_tag);
}

/// A tag that closes itself opens nothing: the open tags stay as they were; a tag that
/// does not close itself is opened on top of them, naming the node it added.
pub proof fn law_self_closing_opens_nothing(
    t: TreeModel,
    parent: usize,
    comp: ComponentModel,
    name: Seq<char>,
)
    ensures
        push_tag(t, parent, comp, name, true).stack == t.stack,
        push_tag(t, parent, comp, name, false).stack == t.stack.push(
            (add_child(t, parent, comp).1, name),
        ),
        push_tag(t, parent, comp, name, true).nodes == push_tag(t, parent, comp, name, false).nodes,
{
    reveal(push_tag);
    reveal(add_child);
}

/// A `reset` tag closes every open tag but the outermost, which is the root.
pub proof fn law_reset_keeps_root(t: TreeModel)
    requires
        t.stack.len() >= 1,
    ensures
        reset_stack(t).stack == seq![t.stack[0]],
        reset_stack(t).nodes == t.nodes,
        reset_stack(t).kids == t.kids,
{
    assert(reset_stack(t).stack =~= seq![t.stack[0]]);
}

/// No open tag among the first `n` has the name.
proof fn lemma_none_named(stack: Seq<(usize, Seq<char>)>, lower: Seq<u8>, n: int)
    requires
        n <= stack.len(),
        forall|k: int| 0 <= k < stack.len() ==> !ascii_same(encode_utf8(#[trigger] stack[k].1), lower),
    ensures
        last_named(stack, lower, n) is None,
    decreases n,
{
    if n > 0 {
        assert(!ascii_same(encode_utf8(stack[n - 1].1), lower));
        lemma_none_named(stack, lower, n - 1);
    }
}

/// A closing tag whose name, in lower case, is not the name of an open tag up to ASCII
/// case changes nothing.
pub proof fn law_close_unopened(t: TreeModel, name: Seq<char>)
    requires
        forall|k: int|
            0 <= k < t.stack.len() ==> !ascii_same(
                encode_utf8(#[trigger] t.stack[k].1),
                encode_utf8(lowercase(name)),
            ),
    ensures
        close_tag(t, name) == t,
{
    lemma_none_named(t.stack, encode_utf8(lowercase(name)), t.stack.len() as int);
}

// ---------------------------------------------------------------------------------------
// Nesting
// ---------------------------------------------------------------------------------------
/// A way of reading nested markup that gives what another gives wherever that one reads
/// the markup at all.
pub open spec fn extends(
    small: spec_fn(Seq<char>) -> Option<ComponentModel>,
    big: spec_fn(Seq<char>) -> Option<ComponentModel>,
) -> bool {
    forall|x: Seq<char>| (#[trigger] small(x)) is Some ==> big(x) == small(x)
}

proof fn lemma_parse_all_extends(
    items: Seq<Seq<char>>,
    small: spec_fn(Seq<char>) -> Option<ComponentModel>,
    big: spec_fn(Seq<char>) -> Option<ComponentModel>,
)
    requires
        extends(small, big),
        parse_all(items, small) is Some,
    ensures
        parse_all(items, big) == parse_all(items, small),
    decreases items.len(),
{
    if items.len() > 0 {
        assert(small(items[0]) is Some);
        lemma_parse_all_extends(items.drop_first(), small, big);
    }
}

proof fn lemma_open_tag_extends(
    t: TreeModel,
    name: Seq<char>,
    args: Seq<Seq<char>>,
    sc: bool,
    small: spec_fn(Seq<char>) -> Option<ComponentModel>,
    big: spec_fn(Seq<char>) -> Option<ComponentModel>,
)
    requires
        extends(small, big),
        open_tag(t, name, args, sc, small) is Some,
    ensures
        open_tag(t, name, args, sc, big) == open_tag(t, name, args, sc, small),
{
    reveal(open_tag);
    reveal(hover_of);
    reveal(translate_of);
    reveal(selector_of);
    reveal(nbt_of);
    if args.len() > 1 {
        if small(args[1]) is Some {
            assert(big(args[1]) == small(args[1]));
        }
    }
    if args.len() > 3 {
        if small(args[3]) is Some {
            assert(big(args[3]) == small(args[3]));
        }
    }
    if args.len() > 0 {
        let after_key = args.drop_first();
        if parse_all(after_key, small) is Some {
            lemma_parse_all_extends(after_key, small, big);
        }
        if after_key.len() > 0 && parse_all(after_key.drop_first(), small) is Some {
            lemma_parse_all_extends(after_key.drop_first(), small, big);
        }
    }
}

proof fn lemma_lex_extends(
    bytes: Seq<u8>,
    i: int,
    t: TreeModel,
    small: spec_fn(Seq<char>) -> Option<ComponentModel>,
    big: spec_fn(Seq<char>) -> Option<ComponentModel>,
)
    requires
        extends(small, big),
        lex(bytes, i, t, small) is Some,
    ensures
        lex(bytes, i, t, big) == lex(bytes, i, t, small),
    decreases bytes.len() - i,
{
    reveal(open_step);
    if 0 <= i < bytes.len() {
        let len = bytes.len() as int;
        let j = text_end(bytes, i);
        match add_text(t, bytes, i, j) {
            None => {},
            Some(t1) => {
                if j + 1 < len && bytes[j + 1] != crate::ascii::SLASH {
                    let a = j + 1;
                    let k = crate::minimessage::markup::tag_name_end(bytes, a);
                    match crate::minimessage::markup::tag_args(bytes, k) {
                        None => {},
                        Some((args, p)) => {
                            let (sc, after) = crate::minimessage::markup::tag_end(bytes, p);
                            let name = text(bytes, a, k);
                            if open_tag(t1, name, args, sc, small) is Some {
                                lemma_open_tag_extends(t1, name, args, sc, small, big);
                            }
                        },
                    }
                }
                match step(bytes, i, t, small) {
                    Step::Go(t2, next) => {
                        if i < next <= len {
                            lemma_lex_extends(bytes, next, t2, small, big);
                        }
                    },
                    _ => {},
                }
            },
        }
    }
}

/// Reading with one more level of nesting gives what reading gave, wherever it could read.
proof fn lemma_one_more_level(s: Seq<char>, f: int)
    requires
        parse_markup(s, f) is Some,
    ensures
        parse_markup(s, f + 1) == parse_markup(s, f),
    decreases f,
{
    let small = nested_parser(f);
    let big = nested_parser(f + 1);
    assert(extends(small, big)) by {
        assert forall|x: Seq<char>| (#[trigger] small(x)) is Some implies big(x) == small(x) by {
            if f > 0 {
                lemma_one_more_level(x, f - 1);
            }
        }
    }
    lemma_lex_extends(encode_utf8(s), 0, initial_tree(), small, big);
}

/// Allowing deeper nesting of markup in tag arguments never changes a component that could
/// already be read: the limit on nesting only refuses.
pub proof fn law_more_nesting_same_result(s: Seq<char>, f: int, g: int)
    requires
        f <= g,
        parse_markup(s, f) is Some,
    ensures
        parse_markup(s, g) == parse_markup(s, f),
    decreases g - f,
{
    if f < g {
        lemma_one_more_level(s, f);
        law_more_nesting_same_result(s, f + 1, g);
    }
}

} // verus!
