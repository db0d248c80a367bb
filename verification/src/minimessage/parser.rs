//! Reading MiniMessage markup into a text component, as `markup` says it is read.
use vstd::prelude::*;
use vstd::string::StringSliceAdditionalSpecFns;
use vstd::utf8::{encode_utf8, valid_utf8};

use crate::ascii::{COLON, GREATER, LESS, SLASH};
use crate::component::{
    empty_interactions, ComponentModel, Content, CustomData, Format, HoverEvent,
    HoverEventModel, Interactivity, InteractivityModel, NbtSource, ObjectPlayer, Payload,
    RawTextComponent,
};
use crate::content::bare_component;
use crate::minimessage::args::{
    arg_items, args_get, args_len, args_new, join_with_colon, joined, split_args, split_args_from,
    take_first_arg, ArgList,
};
use crate::minimessage::bytes::{
    boundary, first_of, lemma_boundary_after_ascii, lemma_first_of_found, same_text, search,
    substring, text, to_lower,
};
use crate::minimessage::escape::unescape_text;
use crate::minimessage::markup::{
    add_text, close_step, color_format, decoration, head_of, head_player, hover_of,
    interaction_node, lex, nbt_of, nbt_source, nested_parser, open_step, open_tag, parse_all,
    parse_markup, selector_of, sprite_of, tag_args, tag_end, tag_name_end, text_end, translate_of,
    Step,
};
use crate::minimessage::tree::{initial_tree, tree_wf, Parser};
use crate::minimessage::values::{
    head_id_of, parse_click, parse_color, parse_i32, parse_shadow, parse_uuid,
};
use crate::models;

verus! {

broadcast use vstd::utf8::encode_utf8_valid_utf8;

/// The format of a decoration tag; see `decoration`.
fn decoration_of(lower: &str) -> (r: Option<Format>)
    ensures
        match r {
            Some(f) => decoration(lower@) == Some(f@),
            None => decoration(lower@) is None,
        },
{
    reveal(decoration);
    let f = Format::new();
    if same_text(lower, "b") || same_text(lower, "bold") {
        Some(f.bold(true))
    } else if same_text(lower, "!b") || same_text(lower, "!bold") {
        Some(f.bold(false))
    } else if same_text(lower, "i") || same_text(lower, "em") || same_text(lower, "italic") {
        Some(f.italic(true))
    } else if same_text(lower, "!i") || same_text(lower, "!em") || same_text(lower, "!italic") {
        Some(f.italic(false))
    } else if same_text(lower, "u") || same_text(lower, "underlined") {
        Some(f.underlined(true))
    } else if same_text(lower, "!u") || same_text(lower, "!underlined") {
        Some(f.underlined(false))
    } else if same_text(lower, "st") || same_text(lower, "strikethrough") {
        Some(f.strikethrough(true))
    } else if same_text(lower, "!st") || same_text(lower, "!strikethrough") {
        Some(f.strikethrough(false))
    } else if same_text(lower, "obf") || same_text(lower, "obfuscated") {
        Some(f.obfuscated(true))
    } else if same_text(lower, "!obf") || same_text(lower, "!obfuscated") {
        Some(f.obfuscated(false))
    } else {
        None
    }
}

/// An empty text with the given interactions.
fn interaction_component(i: Interactivity) -> (r: RawTextComponent)
    ensures
        r@ == interaction_node(i@),
{
    let ghost im = i@;
    let mut c = RawTextComponent::new();
    c.interactions = i;
    proof {
        assert(c@.children =~= interaction_node(im).children);
    }
    c
}

/// A markup inside an argument, read with one level of nesting less.
pub fn parse_nested(s: &str, depth: usize) -> (r: Option<RawTextComponent>)
    ensures
        match r {
            Some(c) => (nested_parser(depth as int))(s@) == Some(c@),
            None => (nested_parser(depth as int))(s@) is None,
        },
    decreases depth, 0int,
{
    if depth == 0 {
        None
    } else {
        parse_within(s, depth - 1)
    }
}

/// Reads the hover event of a `hover` tag; see `hover_of`.
#[verifier::spinoff_prover]
#[verifier::rlimit(30)]
fn parse_hover(args: &ArgList, depth: usize) -> (r: Option<Option<HoverEvent>>)
    ensures
        ({
            let expected = hover_of(arg_items(*args), nested_parser(depth as int));
            match r {
                None => expected is None,
                Some(None) => expected == Some(None::<HoverEventModel>),
                Some(Some(h)) => expected == Some(Some(h@)),
            }
        }),
    decreases depth, 2int,
{
    reveal(hover_of);
    let ghost items = arg_items(*args);
    let n = args_len(args);
    if n == 0 {
        return Some(None);
    }
    let first = args_get(args, 0).as_str();
    if same_text(first, "show_text") {
        if n < 2 {
            return Some(None);
        }
        match parse_nested(args_get(args, 1).as_str(), depth) {
            None => None,
            Some(c) => Some(Some(HoverEvent::show_text(c))),
        }
    } else if same_text(first, "show_item") {
        if n < 2 {
            return Some(None);
        }
        let id = args_get(args, 1).clone();
        let count = if n > 2 {
            parse_i32(args_get(args, 2).as_str())
        } else {
            None
        };
        let components = if n > 3 {
            Some(args_get(args, 3).clone())
        } else {
            None
        };
        Some(Some(HoverEvent::show_item(id, count, components)))
    } else if same_text(first, "show_entity") {
        if n < 3 {
            return Some(None);
        }
        match parse_uuid(args_get(args, 2).as_str()) {
            None => Some(None),
            Some(uuid) => {
                let id = args_get(args, 1).clone();
                if n > 3 {
                    match parse_nested(args_get(args, 3).as_str(), depth) {
                        None => None,
                        Some(c) => {
                            let ghost cm = c@;
                            let h = HoverEvent::ShowEntity { name: Some(Box::new(c)), id, uuid };
                            proof {
                                assert(h@ == HoverEventModel::ShowEntity {
                                    name: Some(Box::new(cm)),
                                    id: items[1],
                                    uuid,
                                });
                            }
                            Some(Some(h))
                        },
                    }
                } else {
                    let h = HoverEvent::ShowEntity { name: None, id, uuid };
                    proof {
                        assert(h@ == HoverEventModel::ShowEntity { name: None, id: items[1], uuid });
                    }
                    Some(Some(h))
                }
            },
        }
    } else {
        Some(None)
    }
}

/// Reads each argument from `start` on as nested markup.
#[verifier::spinoff_prover]
#[verifier::rlimit(30)]
fn parse_rest(args: &ArgList, start: usize, depth: usize) -> (r: Option<Vec<RawTextComponent>>)
    requires
        start <= arg_items(*args).len(),
    ensures
        ({
            let expected = parse_all(arg_items(*args).skip(start as int), nested_parser(depth as int));
            match r {
                Some(v) => expected == Some(models(v@)),
                None => expected is None,
            }
        }),
    decreases depth, 1int,
{
    let ghost items = arg_items(*args);
    let ghost d = nested_parser(depth as int);
    let n = args_len(args);
    let mut parsed: Vec<RawTextComponent> = Vec::new();
    let mut i = start;
    while i < n
        invariant
            items == arg_items(*args),
            d == nested_parser(depth as int),
            n == items.len(),
            start <= i <= n,
            parse_all(items.skip(start as int), d) == (match parse_all(items.skip(i as int), d) {
                Some(rest) => Some(models(parsed@) + rest),
                None => None,
            }),
        decreases n - i,
    {
        let ghost before = parsed@;
        let ghost tail = items.skip(i as int);
        assert(tail.drop_first() =~= items.skip(i + 1));
        assert(tail[0] == items[i as int]);
        match parse_nested(args_get(args, i).as_str(), depth) {
            None => {
                return None;
            },
            Some(c) => {
                let ghost cm = c@;
                parsed.push(c);
                proof {
                    assert(models(parsed@) =~= models(before).push(cm));
                    match parse_all(items.skip(i + 1), d) {
                        Some(rest) => {
                            assert(models(before) + (seq![cm] + rest) =~= models(parsed@) + rest);
                        },
                        None => {},
                    }
                }
            },
        }
        i = i + 1;
    }
    proof {
        assert(items.skip(i as int) =~= Seq::<Seq<char>>::empty());
        assert(models(parsed@) + Seq::<ComponentModel>::empty() =~= models(parsed@));
    }
    Some(parsed)
}

/// A translation tag; see `translate_of`.
#[verifier::spinoff_prover]
#[verifier::rlimit(30)]
fn handle_translate(
    p: &mut Parser,
    args: ArgList,
    parent: usize,
    has_fallback: bool,
    depth: usize,
) -> (ok: bool)
    requires
        tree_wf(old(p)@),
        parent < old(p)@.nodes.len(),
    ensures
        tree_wf(final(p)@),
        ({
            let expected = translate_of(
                old(p)@,
                parent,
                arg_items(args),
                has_fallback,
                nested_parser(depth as int),
            );
            &&& ok == expected is Some
            &&& ok ==> Some(final(p)@) == expected
        }),
    decreases depth, 2int,
{
    reveal(translate_of);
    let ghost items = arg_items(args);
    let mut args = args;
    let key = take_first_arg(&mut args);
    let fallback = if has_fallback {
        take_first_arg(&mut args)
    } else {
        None
    };
    match key {
        None => true,
        Some(key) => {
            let ghost rest = arg_items(args);
            assert(rest.skip(0) =~= rest);
            match parse_rest(&args, 0, depth) {
                None => false,
                Some(parsed) => {
                    let ghost cs = models(parsed@);
                    let targs = if parsed.len() == 0 {
                        None
                    } else {
                        Some(parsed)
                    };
                    let msg = crate::component::TranslatedMessage { key, fallback, args: targs };
                    proof {
                        if msg.args is Some {
                            assert(msg@.args == Some(cs)) by {
                                assert(msg@.args.unwrap() =~= cs);
                            }
                        }
                    }
                    let comp = RawTextComponent::translated(msg);
                    p.add_child_node(parent, comp);
                    true
                },
            }
        },
    }
}

/// A selector tag; see `selector_of`.
fn handle_selector(p: &mut Parser, args: ArgList, parent: usize, depth: usize) -> (ok: bool)
    requires
        tree_wf(old(p)@),
        parent < old(p)@.nodes.len(),
    ensures
        tree_wf(final(p)@),
        ok == selector_of(old(p)@, parent, arg_items(args), nested_parser(depth as int)) is Some,
        ok ==> Some(final(p)@) == selector_of(old(p)@, parent, arg_items(args), nested_parser(depth as int)),
    decreases depth, 2int,
{
    reveal(selector_of);
    let mut args = args;
    match take_first_arg(&mut args) {
        None => true,
        Some(sel) => {
            let separator = match take_first_arg(&mut args) {
                Some(s) => match parse_nested(s.as_str(), depth) {
                    None => {
                        return false;
                    },
                    Some(c) => Some(c),
                },
                None => None,
            };
            let comp = RawTextComponent::entity(sel, separator);
            p.add_child_node(parent, comp);
            true
        },
    }
}

/// An Nbt tag; see `nbt_of`.
#[verifier::spinoff_prover]
#[verifier::rlimit(30)]
fn handle_nbt(p: &mut Parser, args: ArgList, parent: usize, depth: usize) -> (ok: bool)
    requires
        tree_wf(old(p)@),
        parent < old(p)@.nodes.len(),
    ensures
        tree_wf(final(p)@),
        ok == nbt_of(old(p)@, parent, arg_items(args), nested_parser(depth as int)) is Some,
        ok ==> Some(final(p)@) == nbt_of(old(p)@, parent, arg_items(args), nested_parser(depth as int)),
    decreases depth, 2int,
{
    reveal(nbt_of);
    let ghost items = arg_items(args);
    let mut args = args;
    if args_len(&args) < 3 {
        return true;
    }
    let first = take_first_arg(&mut args);
    let second = take_first_arg(&mut args);
    let third = take_first_arg(&mut args);
    let (kind, id, path) = match (first, second, third) {
        (Some(k), Some(i), Some(pa)) => (k, i, pa),
        _ => {
            return true;
        },
    };
    let separator = match take_first_arg(&mut args) {
        Some(s) => match parse_nested(s.as_str(), depth) {
            None => {
                return false;
            },
            Some(c) => Some(c),
        },
        None => None,
    };
    let interpret = args_len(&args) > 0 && same_text(args_get(&args, 0).as_str(), "interpret");
    let ghost kind_text = kind@;
    let ghost id_text = id@;
    let source = if same_text(kind.as_str(), "entity") {
        NbtSource::entity(id)
    } else if same_text(kind.as_str(), "block") {
        NbtSource::block(id)
    } else if same_text(kind.as_str(), "storage") {
        NbtSource::storage(id)
    } else {
        return true;
    };
    assert(nbt_source(kind_text, id_text) == Some(source@));
    let comp = RawTextComponent::nbt(path, source, interpret, separator);
    p.add_child_node(parent, comp);
    true
}

/// Whether a text holds `/` or `:`.
fn has_path_mark(s: &str) -> (r: bool)
    ensures
        r == (encode_utf8(s@).contains(SLASH) || encode_utf8(s@).contains(COLON)),
{
    let bytes = s.as_bytes();
    let found = search(bytes, 0, bytes.len(), SLASH, COLON);
    proof {
        lemma_first_of_found(bytes@, 0, bytes@.len() as int, SLASH, COLON);
        if found is Some {
            let k = found.unwrap() as int;
            if bytes@[k] == SLASH {
                assert(encode_utf8(s@).contains(SLASH));
            } else {
                assert(encode_utf8(s@).contains(COLON));
            }
        } else {
            assert(!encode_utf8(s@).contains(SLASH));
            assert(!encode_utf8(s@).contains(COLON));
        }
    }
    found.is_some()
}

/// A `head` tag; see `head_of`.
fn handle_head(p: &mut Parser, args: ArgList, parent: usize)
    requires
        tree_wf(old(p)@),
        parent < old(p)@.nodes.len(),
    ensures
        tree_wf(final(p)@),
        final(p)@ == head_of(old(p)@, parent, arg_items(args)),
{
    reveal(head_of);
    let ghost items = arg_items(args);
    let mut args = args;
    match take_first_arg(&mut args) {
        None => {},
        Some(head) => {
            let hat = !(args_len(&args) > 0 && same_text(args_get(&args, 0).as_str(), "false"));
            let ghost h = head@;
            let player = match parse_uuid(head.as_str()) {
                Some(v) => ObjectPlayer::id(head_id_of(v)),
                None => if has_path_mark(head.as_str()) {
                    ObjectPlayer::texture(head)
                } else {
                    ObjectPlayer::name(head)
                },
            };
            assert(player@ == head_player(h));
            let comp = RawTextComponent::player_head(player, hat);
            p.add_child_node(parent, comp);
        },
    }
}

/// A `sprite` tag; see `sprite_of`.
fn handle_sprite(p: &mut Parser, args: ArgList, parent: usize)
    requires
        tree_wf(old(p)@),
        parent < old(p)@.nodes.len(),
    ensures
        tree_wf(final(p)@),
        final(p)@ == sprite_of(old(p)@, parent, arg_items(args)),
{
    reveal(sprite_of);
    let mut args = args;
    let n = args_len(&args);
    if n == 0 {
        return;
    }
    let atlas = if n > 1 {
        take_first_arg(&mut args)
    } else {
        None
    };
    match take_first_arg(&mut args) {
        Some(sprite) => {
            let comp = RawTextComponent::atlas(sprite, atlas);
            p.add_child_node(parent, comp);
        },
        None => {},
    }
}

/// The tree after an opening tag; see `open_tag`.
#[verifier::spinoff_prover]
#[verifier::rlimit(30)]
fn process_open_tag(p: &mut Parser, name: &str, args: ArgList, sc: bool, depth: usize) -> (ok: bool)
    requires
        tree_wf(old(p)@),
    ensures
        tree_wf(final(p)@),
        ok == open_tag(old(p)@, name@, arg_items(args), sc, nested_parser(depth as int)) is Some,
        ok ==> Some(final(p)@) == open_tag(old(p)@, name@, arg_items(args), sc, nested_parser(depth as int)),
    decreases depth, 3int,
{
    let ghost t = p@;
    let ghost items = arg_items(args);
    proof {
        reveal(open_tag);
    }
    let parent = p.parent();
    proof {
        if t.stack.len() > 0 {
            assert(t.stack[t.stack.len() - 1].0 < t.nodes.len());
        }
    }
    let lower_text = to_lower(name);
    let lower = lower_text.as_str();
    let mut args = args;
    match decoration_of(lower) {
        Some(f) => {
            p.push_format_tag(parent, f, sc, name.to_owned());
            return true;
        },
        None => {},
    }
    if same_text(lower, "reset") {
        p.reset();
        return true;
    }
    if same_text(lower, "shadow") {
        match parse_shadow(&args) {
            None => {
                return false;
            },
            Some(f) => {
                p.push_format_tag(parent, f, sc, "shadow".to_owned());
                return true;
            },
        }
    }
    if same_text(lower, "!shadow") {
        let f = Format { shadow_color: Some(0), ..Format::new() };
        p.push_format_tag(parent, f, sc, "!shadow".to_owned());
        return true;
    }
    if same_text(lower, "color") || same_text(lower, "c") || same_text(lower, "colour") {
        let color = if args_len(&args) > 0 {
            parse_color(args_get(&args, 0).as_str())
        } else {
            None
        };
        let f = match color {
            Some(c) => Format::new().color(c),
            None => Format::new(),
        };
        assert(f@ == color_format(items));
        p.push_format_tag(parent, f, sc, name.to_owned());
        return true;
    }
    if same_text(lower, "click") {
        match take_first_arg(&mut args) {
            None => {
                return true;
            },
            Some(action) => {
                let value = join_with_colon(&args);
                let click = parse_click(action.as_str(), value);
                let i = Interactivity { insertion: None, click, hover: None };
                assert(i@ == InteractivityModel {
                    click: crate::minimessage::values::click_of(items[0], joined(items.drop_first())),
                    ..empty_interactions()
                });
                let comp = interaction_component(i);
                p.push_tag_to_stack(parent, comp, "click".to_owned(), sc);
                return true;
            },
        }
    }
    if same_text(lower, "hover") {
        match parse_hover(&args, depth) {
            None => {
                return false;
            },
            Some(hover) => {
                let i = Interactivity { insertion: None, click: None, hover };
                assert(i@ == InteractivityModel {
                    hover: hover_of(items, nested_parser(depth as int)).unwrap(),
                    ..empty_interactions()
                });
                let comp = interaction_component(i);
                p.push_tag_to_stack(parent, comp, "hover".to_owned(), sc);
                return true;
            },
        }
    }
    if same_text(lower, "insert") {
        match take_first_arg(&mut args) {
            None => {
                return true;
            },
            Some(text) => {
                let i = Interactivity { insertion: Some(text), click: None, hover: None };
                assert(i@ == InteractivityModel { insertion: Some(items[0]), ..empty_interactions() });
                let comp = interaction_component(i);
                p.push_tag_to_stack(parent, comp, "insert".to_owned(), sc);
                return true;
            },
        }
    }
    if same_text(lower, "font") {
        let f = Format::new().font(join_with_colon(&args));
        p.push_format_tag(parent, f, sc, "font".to_owned());
        return true;
    }
    if same_text(lower, "key") {
        let comp = bare_component(Content::Keybind { keybind: join_with_colon(&args) });
        p.add_child_node(parent, comp);
        return true;
    }
    if same_text(lower, "lang") || same_text(lower, "tr") || same_text(lower, "translate") {
        return handle_translate(p, args, parent, false, depth);
    }
    if same_text(lower, "lang_or") || same_text(lower, "tr_or") || same_text(lower, "translate_or") {
        return handle_translate(p, args, parent, true, depth);
    }
    if same_text(lower, "newline") || same_text(lower, "br") {
        let comp = RawTextComponent::const_plain("\n");
        proof {
            reveal_strlit("\n");
            assert("\n"@ =~= seq!['\n']);
            assert(comp@ == crate::component::plain_model(seq!['\n']));
        }
        p.add_child_node(parent, comp);
        return true;
    }
    if same_text(lower, "selector") || same_text(lower, "sel") {
        return handle_selector(p, args, parent, depth);
    }
    if same_text(lower, "score") {
        if args_len(&args) < 2 {
            return true;
        }
        match (take_first_arg(&mut args), take_first_arg(&mut args)) {
            (Some(selector), Some(objective)) => {
                let comp = RawTextComponent::scoreboard(selector, objective);
                p.add_child_node(parent, comp);
            },
            _ => {},
        }
        return true;
    }
    if same_text(lower, "nbt") || same_text(lower, "data") {
        return handle_nbt(p, args, parent, depth);
    }
    if same_text(lower, "sprite") {
        handle_sprite(p, args, parent);
        return true;
    }
    if same_text(lower, "head") {
        handle_head(p, args, parent);
        return true;
    }
    if same_text(lower, "rainbow") || same_text(lower, "gradient") || same_text(lower, "transition")
        || same_text(lower, "pride") {
        let id = lower.to_owned();
        let name = lower.to_owned();
        let comp = RawTextComponent::custom(CustomData { id, payload: Payload::Empty });
        p.push_tag_to_stack(parent, comp, name, sc);
        return true;
    }
    match parse_color(lower) {
        Some(c) => {
            p.push_format_tag(parent, Format::new().color(c), sc, name.to_owned());
        },
        None => {},
    }
    true
}

/// Where the arguments read from `pos` stop lies between `pos` and the end.
proof fn lemma_split_args_within(bytes: Seq<u8>, pos: int, args: Seq<Seq<char>>)
    requires
        0 <= pos <= bytes.len(),
    ensures
        split_args_from(bytes, pos, args) matches Some((_, p)) ==> pos <= p <= bytes.len(),
    decreases bytes.len() - pos,
{
    let len = bytes.len() as int;
    if pos < len {
        if bytes[pos] == crate::ascii::DOUBLE_QUOTE || bytes[pos] == crate::ascii::SINGLE_QUOTE {
            match crate::minimessage::args::quoted(bytes, bytes[pos], pos + 1, pos + 1, Seq::empty(), false) {
                None => {},
                Some((arg, after)) => {
                    if after > pos && after < len && bytes[after] == COLON {
                        lemma_split_args_within(bytes, after + 1, args.push(arg));
                    }
                },
            }
        } else {
            lemma_first_of_found(bytes, pos, len, COLON, GREATER);
            match first_of(bytes, pos, len, COLON, GREATER) {
                Some(idx) => {
                    if idx >= pos && idx < len && bytes[idx] != GREATER {
                        lemma_split_args_within(bytes, idx + 1, args.push(text(bytes, pos, idx)));
                    }
                },
                None => {},
            }
        }
    }
}

/// Where a tag name that starts at `start` ends.
fn find_tag_name_end(bytes: &[u8], start: usize) -> (r: usize)
    requires
        start <= bytes@.len(),
    ensures
        r == tag_name_end(bytes@, start as int),
        start <= r <= bytes@.len(),
        r < bytes@.len() ==> (bytes@[r as int] == GREATER || bytes@[r as int] == COLON || bytes@[r as int]
            == SLASH),
{
    let mut i = start;
    while i < bytes.len()
        invariant
            start <= i <= bytes@.len(),
            tag_name_end(bytes@, start as int) == tag_name_end(bytes@, i as int),
        decreases bytes@.len() - i,
    {
        let c = bytes[i];
        if c == GREATER || c == COLON || c == SLASH {
            return i;
        }
        i = i + 1;
    }
    i
}

/// Adds the text from `i` up to the next `<`, with its escapes resolved; gives where it
/// ends, or `None` where it cannot be added.
#[verifier::spinoff_prover]
#[verifier::rlimit(30)]
fn read_text(parser: &mut Parser, input: &str, i: usize) -> (r: Option<usize>)
    requires
        tree_wf(old(parser)@),
        i <= input.spec_bytes().len(),
        boundary(input.spec_bytes(), i as int),
    ensures
        tree_wf(final(parser)@),
        match r {
            Some(j) => j == text_end(input.spec_bytes(), i as int) && add_text(
                old(parser)@,
                input.spec_bytes(),
                i as int,
                j as int,
            ) == Some(final(parser)@),
            None => add_text(
                old(parser)@,
                input.spec_bytes(),
                i as int,
                text_end(input.spec_bytes(), i as int),
            ) is None,
        },
        r matches Some(j) ==> i <= j <= input.spec_bytes().len() && (j < input.spec_bytes().len()
            ==> input.spec_bytes()[j as int] == LESS),
{
    reveal(add_text);
    let bytes = input.as_bytes();
    let ghost b = bytes@;
    let ghost t0 = parser@;
    let len = bytes.len();
    proof {
        lemma_first_of_found(b, i as int, len as int, LESS, LESS);
    }
    let j = match search(bytes, i, len, LESS, LESS) {
        Some(k) => k,
        None => len,
    };
    if j > i {
        let piece = substring(input, i, j);
        match unescape_text(piece.as_str()) {
            None => {
                return None;
            },
            Some(txt) => {
                if !txt.as_str().is_empty() {
                    if !parser.has_open_tag() {
                        return None;
                    }
                    let parent = parser.parent();
                    proof {
                        assert(t0.stack[t0.stack.len() - 1].0 < t0.nodes.len());
                    }
                    parser.add_child_node(parent, RawTextComponent::plain(txt));
                }
            },
        }
    }
    Some(j)
}

/// A closing tag whose `/` is at `a`; gives where reading goes on.
fn read_close(parser: &mut Parser, input: &str, a: usize) -> (next: usize)
    requires
        tree_wf(old(parser)@),
        a < input.spec_bytes().len(),
        input.spec_bytes()[a as int] == SLASH,
    ensures
        tree_wf(final(parser)@),
        close_step(input.spec_bytes(), a as int, old(parser)@) == Step::Go(final(parser)@, next as int),
        a < next <= input.spec_bytes().len(),
        boundary(input.spec_bytes(), next as int),
{
    reveal(close_step);
    let bytes = input.as_bytes();
    let ghost b = bytes@;
    let len = bytes.len();
    let e = a + 1;
    proof {
        lemma_boundary_after_ascii(b, a as int);
        lemma_first_of_found(b, e as int, len as int, GREATER, GREATER);
    }
    let k = match search(bytes, e, len, GREATER, GREATER) {
        Some(k) => k,
        None => len,
    };
    let name = substring(input, e, k);
    parser.close_tag(name.as_str());
    if k < len {
        proof {
            lemma_boundary_after_ascii(b, k as int);
        }
        k + 1
    } else {
        k
    }
}

/// An opening tag whose name starts at `a`; gives where reading goes on, or `None`
/// where reading cannot go on.
#[verifier::spinoff_prover]
#[verifier::rlimit(30)]
fn read_open(parser: &mut Parser, input: &str, a: usize, depth: usize) -> (r: Option<usize>)
    requires
        tree_wf(old(parser)@),
        a < input.spec_bytes().len(),
        boundary(input.spec_bytes(), a as int),
    ensures
        tree_wf(final(parser)@),
        match r {
            Some(next) => open_step(input.spec_bytes(), a as int, old(parser)@, nested_parser(depth as int))
                == Step::Go(final(parser)@, next as int) && a < next <= input.spec_bytes().len()
                && boundary(input.spec_bytes(), next as int),
            None => open_step(input.spec_bytes(), a as int, old(parser)@, nested_parser(depth as int))
                == Step::Fail,
        },
    decreases depth, 4int,
{
    reveal(open_step);
    let bytes = input.as_bytes();
    let ghost b = bytes@;
    let ghost t1 = parser@;
    let len = bytes.len();
    let k = find_tag_name_end(bytes, a);
    let name = substring(input, a, k);
    let (args, p) = if k < len && bytes[k] == COLON {
        proof {
            lemma_boundary_after_ascii(b, k as int);
        }
        match split_args(input, k + 1) {
            None => {
                return None;
            },
            Some(found) => found,
        }
    } else {
        (args_new(), k)
    };
    proof {
        if k < len && bytes@[k as int] == COLON {
            lemma_split_args_within(b, k + 1, Seq::empty());
        }
    }
    assert(tag_args(b, k as int) == Some((arg_items(args), p as int)));
    let sc = p < len && bytes[p] == SLASH;
    let q = if sc {
        p + 1
    } else {
        p
    };
    let after = if q < len && bytes[q] == GREATER {
        proof {
            lemma_boundary_after_ascii(b, q as int);
        }
        q + 1
    } else {
        proof {
            lemma_first_of_found(b, q as int, len as int, GREATER, GREATER);
        }
        match search(bytes, q, len, GREATER, GREATER) {
            Some(g) => {
                proof {
                    lemma_boundary_after_ascii(b, g as int);
                }
                g + 1
            },
            None => len,
        }
    };
    assert(tag_end(b, p as int) == (sc, after as int));
    if process_open_tag(parser, name.as_str(), args, sc, depth) {
        Some(after)
    } else {
        None
    }
}

/// Reads a markup into a component, with `depth` levels of nested markup in arguments
/// allowed; `None` where the markup needs more nesting, where reading it would cut a
/// character, or where it writes text after every tag was closed.
#[verifier::spinoff_prover]
#[verifier::rlimit(30)]
pub fn parse_within(input: &str, depth: usize) -> (r: Option<RawTextComponent>)
    ensures
        match r {
            Some(c) => parse_markup(input@, depth as int) == Some(c@),
            None => parse_markup(input@, depth as int) is None,
        },
    decreases depth, 6int,
{
    let bytes = input.as_bytes();
    let ghost b = bytes@;
    let ghost d = nested_parser(depth as int);
    let len = bytes.len();
    let mut parser = Parser::new();
    let mut i: usize = 0;
    proof {
        assert(b == encode_utf8(input@));
    }
    loop
        invariant
            b == bytes@,
            d == nested_parser(depth as int),
            b == input.spec_bytes(),
            b == encode_utf8(input@),
            valid_utf8(b),
            len == b.len(),
            i <= len,
            boundary(b, i as int),
            tree_wf(parser@),
            lex(b, 0, initial_tree(), d) == lex(b, i as int, parser@, d),
        decreases len - i,
    {
        if i >= len {
            return Some(parser.finish());
        }
        let ghost t0 = parser@;
        let j = match read_text(&mut parser, input, i) {
            None => {
                return None;
            },
            Some(j) => j,
        };
        if j >= len || j + 1 >= len {
            return Some(parser.finish());
        }
        let a = j + 1;
        proof {
            lemma_boundary_after_ascii(b, j as int);
        }
        if bytes[a] == SLASH {
            i = read_close(&mut parser, input, a);
        } else {
            match read_open(&mut parser, input, a, depth) {
                None => {
                    return None;
                },
                Some(next) => {
                    i = next;
                },
            }
        }
    }
}

/// How many levels of markup inside tag arguments are read: as many as a markup has bytes
/// at most, since each level takes at least one, so no markup is refused for its depth.
pub const NESTING_LIMIT: usize = usize::MAX;

/// The component that a markup is read into, where it can be read.
pub open spec fn markup_component(s: Seq<char>) -> Option<ComponentModel> {
    parse_markup(s, NESTING_LIMIT as int)
}

impl Parser {
    /// Reads a markup into a component: an empty root whose children are what the markup
    /// shows.
    pub fn parse(input: &str) -> (r: RawTextComponent)
        requires
            markup_component(input@) is Some,
        ensures
            markup_component(input@) == Some(r@),
    {
        match parse_within(input, NESTING_LIMIT) {
            Some(c) => c,
            None => RawTextComponent::new(),
        }
    }
}

/// Reads a markup into a component: an empty root whose children are what the markup
/// shows.
pub fn parse(input: &str) -> (r: RawTextComponent)
    requires
        markup_component(input@) is Some,
    ensures
        markup_component(input@) == Some(r@),
{
    Parser::parse(input)
}

} // verus!
