use text_components::minimessage::{parse, parse_within};
use text_components::{Color, Content, Format, Modifier, RawTextComponent, TextComponent};

fn text(s: &str) -> Content {
    Content::Text { text: s.to_string() }
}

#[test]
fn plain_markup_is_one_plain_child() {
    let root = parse("Hello world, 1 + 1 = 2 & more");
    assert_eq!(root.content, text(""));
    assert_eq!(root.children.len(), 1);
    let child = &root.children[0];
    assert_eq!(child.content, text("Hello world, 1 + 1 = 2 & more"));
    assert_eq!(child.format, Format::new());
    assert!(child.children.is_empty());
}

#[test]
fn plain_markup_keeps_other_scripts() {
    let root = parse("héllo wörld ✓");
    assert_eq!(root.children.len(), 1);
    assert_eq!(root.children[0].content, text("héllo wörld ✓"));
}

#[test]
fn empty_markup_is_empty_root() {
    let root = parse("");
    assert_eq!(root.content, text(""));
    assert!(root.children.is_empty());
}

#[test]
fn markup_without_tags_resolves_escapes() {
    let root = parse(r"x\\y");
    assert_eq!(root.children[0].content, text(r"x\y"));

    let root = parse(r"\q and end\");
    assert_eq!(root.children[0].content, text(r"\q and end\"));
}

#[test]
fn add_children_in_two_calls() {
    let one_call = RawTextComponent::const_plain("p").add_children(vec![
        RawTextComponent::const_plain("a"),
        RawTextComponent::const_plain("b"),
        RawTextComponent::const_plain("c"),
    ]);
    let two_calls = RawTextComponent::const_plain("p")
        .add_children(vec![RawTextComponent::const_plain("a")])
        .add_children(vec![RawTextComponent::const_plain("b"), RawTextComponent::const_plain("c")]);
    assert_eq!(one_call, two_calls);
}

#[test]
fn add_child_is_add_children_of_one() {
    let a = RawTextComponent::const_plain("p").add_child(RawTextComponent::const_plain("c"));
    let b = RawTextComponent::const_plain("p").add_children(vec![RawTextComponent::const_plain("c")]);
    assert_eq!(a, b);
}

#[test]
fn reset_discards_earlier_format() {
    let styled = TextComponent::plain("x".to_string())
        .color(Color::Red)
        .bold(true)
        .font("minecraft:uniform".to_string())
        .shadow_color(1, 2, 3, 4)
        .reset();
    let plain = TextComponent::plain("x".to_string()).reset();
    assert_eq!(styled, plain);
    assert_eq!(styled.format.shadow_color, None);
}

#[test]
fn unknown_tag_changes_nothing() {
    let with_tag = parse("a<nosuchtag:x:y>b");
    let without = parse("ab");
    assert_eq!(with_tag, without);
}

#[test]
fn closing_unopened_tag_changes_nothing() {
    let with_close = parse("<red>a</blue>b");
    let without = parse("<red>ab");
    assert_eq!(with_close, without);
}

#[test]
fn nesting_limit_refuses_only() {
    let markup = "<hover:show_text:'<red>inner'>outer";
    assert!(parse_within(markup, 0).is_none());
    let one = parse_within(markup, 1).unwrap();
    let many = parse_within(markup, 10).unwrap();
    assert_eq!(one, many);
}
