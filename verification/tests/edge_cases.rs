use text_components::minimessage::{parse, parse_within, NESTING_LIMIT};
use text_components::minimessage::args::{arg_texts, split_args};
use text_components::{
    ClickEvent, Color, Content, Format, HoverEvent, Modifier, Object, RawTextComponent,
};

fn text(s: &str) -> Content {
    Content::Text { text: s.to_string() }
}

fn first_child(comp: &RawTextComponent) -> &RawTextComponent {
    comp.children.first().expect("expected at least one child")
}

#[test]
fn tag_names_ignore_case() {
    let root = parse("<RED>x</Red>y");
    assert_eq!(root.children.len(), 2);
    assert_eq!(root.children[0].format.color, Some(Color::Red));
    assert_eq!(root.children[0].children[0].content, text("x"));
    assert_eq!(root.children[1].content, text("y"));
}

#[test]
fn backslash_before_non_ascii_is_refused() {
    assert!(RawTextComponent::try_minimessage("a\\é").is_none());
    assert!(parse_within("a\\é", NESTING_LIMIT).is_none());
}

#[test]
fn text_after_every_tag_closed_is_refused() {
    assert!(RawTextComponent::try_minimessage("</>x").is_none());
    let closed_only = RawTextComponent::try_minimessage("</>").unwrap();
    assert!(closed_only.children.is_empty());
}

#[test]
fn try_minimessage_agrees_with_minimessage() {
    let markup = "<bold>a<italic>b</bold>c";
    let tried = RawTextComponent::try_minimessage(markup).unwrap();
    let direct = RawTextComponent::minimessage(markup);
    assert_eq!(tried, direct);
    assert_eq!(direct.children.len(), 2);
    assert_eq!(direct.children[1].content, text("c"));
}

#[test]
fn unreadable_page_gives_no_click() {
    let root = parse("<click:change_page:abc>x");
    let child = first_child(&root);
    assert!(child.interactions.click.is_none());
    assert_eq!(child.children[0].content, text("x"));
}

#[test]
fn negative_page_number() {
    let root = parse("<click:change_page:-12>x");
    assert_eq!(first_child(&root).interactions.click, Some(ClickEvent::ChangePage { page: -12 }));
}

#[test]
fn click_value_keeps_colons() {
    let root = parse("<click:open_url:https://a.b:8080/c>x");
    assert_eq!(
        first_child(&root).interactions.click,
        Some(ClickEvent::OpenUrl { url: "https://a.b:8080/c".to_string() })
    );
}

#[test]
fn unknown_click_action() {
    let root = parse("<click:jump:x>y");
    assert!(first_child(&root).interactions.click.is_none());
}

#[test]
fn shadow_alpha_rounding() {
    let root = parse("<shadow:white:0.25>x");
    assert_eq!(first_child(&root).format.shadow_color, Some(Format::parse_shadow_color(64, 255, 255, 255)));
    let root = parse("<shadow:white:1.5>x");
    assert_eq!(first_child(&root).format.shadow_color, Some(Format::parse_shadow_color(255, 255, 255, 255)));
    let root = parse("<shadow:white:-0.2>x");
    assert_eq!(first_child(&root).format.shadow_color, Some(Format::parse_shadow_color(0, 255, 255, 255)));
    let root = parse("<shadow:white:abc>x");
    assert_eq!(first_child(&root).format.shadow_color, Some(Format::parse_shadow_color(64, 255, 255, 255)));
}

#[test]
fn shadow_unreadable_color() {
    let root = parse("<shadow:#zz0000>x");
    assert_eq!(first_child(&root).format.shadow_color, None);
    let root = parse("<shadow:#ab>x");
    assert_eq!(first_child(&root).format.shadow_color, None);
    let root = parse("<shadow:nocolor>x");
    assert_eq!(first_child(&root).format.shadow_color, None);
}

#[test]
fn shadow_packs_argb() {
    assert_eq!(Format::parse_shadow_color(0x80, 0xff, 0, 0), 0x80ff0000u32 as i32);
    assert_eq!(Format::parse_shadow_color(0, 0, 0, 0), 0);
}

#[test]
fn color_tag_without_color() {
    let root = parse("<color:nope>x");
    let child = first_child(&root);
    assert_eq!(child.format, Format::new());
    assert_eq!(child.children[0].content, text("x"));
}

#[test]
fn empty_format_tag_merges_into_text() {
    let root = parse("a<color:nope>b");
    assert_eq!(root.children.len(), 1);
    assert_eq!(root.children[0].content, text("a"));
    assert_eq!(root.children[0].children.len(), 1);
    assert_eq!(root.children[0].children[0].content, text("b"));
}

#[test]
fn head_by_uuid_words() {
    let root = parse("<head:1f085b2d-9548-4159-a8c7-f3ccdf0c2054>");
    match &first_child(&root).content {
        Content::Object(Object::Player { player, hat }) => {
            assert!(*hat);
            assert_eq!(
                player.id,
                Some([0x1f085b2d, 0x95484159u32 as i32, 0xa8c7f3ccu32 as i32, 0xdf0c2054u32 as i32])
            );
            assert!(player.name.is_none());
        }
        _ => panic!("expected player head"),
    }
}

#[test]
fn head_by_texture() {
    let root = parse("<head:'minecraft:textures/x'>");
    match &first_child(&root).content {
        Content::Object(Object::Player { player, .. }) => {
            assert_eq!(player.texture, Some("minecraft:textures/x".to_string()));
        }
        _ => panic!("expected player head"),
    }
    let root = parse("<head:minecraft:textures/x>");
    match &first_child(&root).content {
        Content::Object(Object::Player { player, hat }) => {
            assert_eq!(player.name, Some("minecraft".to_string()));
            assert!(*hat);
        }
        _ => panic!("expected player head"),
    }
}

#[test]
fn escaped_less_than_still_opens_a_tag() {
    let root = parse(r"a\<b>c");
    assert_eq!(root.children.len(), 2);
    assert_eq!(root.children[0].content, text(r"a\"));
    assert_eq!(root.children[1].format.bold, Some(true));
    assert_eq!(root.children[1].children[0].content, text("c"));
}

#[test]
fn hover_show_entity_bad_uuid() {
    let root = parse("<hover:show_entity:cow:not-a-uuid>x");
    assert!(first_child(&root).interactions.hover.is_none());
}

#[test]
fn hover_show_item_without_count() {
    let root = parse("<hover:show_item:stone>x");
    assert_eq!(
        first_child(&root).interactions.hover,
        Some(HoverEvent::ShowItem { id: "stone".to_string(), count: None, components: None })
    );
}

#[test]
fn quoted_argument_without_closing_quote() {
    let root = parse("<insert:'abc>x");
    assert_eq!(first_child(&root).interactions.insertion, Some("abc>x".to_string()));
}

#[test]
fn double_quoted_argument() {
    let root = parse("<insert:\"a:b\">x");
    assert_eq!(first_child(&root).interactions.insertion, Some("a:b".to_string()));
}

#[test]
fn reset_tag_closes_all() {
    let root = parse("<red><bold>a<reset>b");
    assert_eq!(root.children.len(), 2);
    assert_eq!(root.children[1].content, text("b"));
}

#[test]
fn nbt_unknown_source_adds_nothing() {
    let root = parse("a<nbt:nowhere:x:y>b");
    assert_eq!(root.children.len(), 1);
    assert_eq!(root.children[0].content, text("ab"));
}

#[test]
fn translate_with_fallback_and_args() {
    let root = parse("<tr_or:k:fb:one:two>");
    match &first_child(&root).content {
        Content::Translate(msg) => {
            assert_eq!(msg.key, "k");
            assert_eq!(msg.fallback, Some("fb".to_string()));
            let args = msg.args.as_ref().unwrap();
            assert_eq!(args.len(), 2);
            assert_eq!(args[0].children[0].content, text("one"));
        }
        _ => panic!("expected translation"),
    }
}

#[test]
fn default_is_new() {
    assert_eq!(RawTextComponent::default(), RawTextComponent::new());
}

#[test]
fn duplicate_is_equal() {
    let c = parse("<hover:show_text:'<red>x'><lang:k:'<b>y'>z");
    assert_eq!(c.duplicate(), c);
}

#[test]
fn in_place_styling_matches_by_value() {
    let mut c = RawTextComponent::const_plain("x");
    (&mut c)
        .bold(true)
        .color_hex("#102030")
        .add_child(RawTextComponent::const_plain("y"))
        .insertion("ins".to_string());
    let by_value = RawTextComponent::const_plain("x")
        .bold(true)
        .color_hex("#102030")
        .add_child(RawTextComponent::const_plain("y"))
        .insertion("ins".to_string());
    assert_eq!(c, by_value);
    assert_eq!(c.format.color, Some(Color::Rgb(0x10, 0x20, 0x30)));
    (&mut c).reset();
    assert_eq!(c.format.bold, Some(false));
    assert_eq!(c.format.color, Some(Color::White));
}

#[test]
fn styling_a_str() {
    let a = "hi".bold(true);
    let b = RawTextComponent::const_plain("hi").bold(true);
    assert_eq!(a, b);
    let s = "hi".to_string().italic(false);
    assert_eq!(s.format.italic, Some(false));
}

#[test]
fn shadow_alpha_with_exponent() {
    let shadow = |alpha: &str| {
        let root = parse(&format!("<shadow:white:{}>x", alpha));
        first_child(&root).format.shadow_color
    };
    let with = |a: u8| Some(Format::parse_shadow_color(a, 255, 255, 255));
    assert_eq!(shadow("5e-1"), with(128));
    assert_eq!(shadow("2.5E-1"), with(64));
    assert_eq!(shadow("0.0019e2"), with(48));
    assert_eq!(shadow("12e-3"), with(3));
    assert_eq!(shadow("1e0"), with(255));
    assert_eq!(shadow(".5"), with(128));
    assert_eq!(shadow("5."), with(255));
    assert_eq!(shadow("1e-99999999999999999999999999999"), with(0));
    assert_eq!(shadow("1e99999999999999999999999999999"), with(255));
    assert_eq!(shadow("1e"), with(64));
    assert_eq!(shadow("e1"), with(64));
}

#[test]
fn shadow_alpha_infinity_and_nan() {
    let shadow = |alpha: &str| {
        let root = parse(&format!("<shadow:white:{}>x", alpha));
        first_child(&root).format.shadow_color
    };
    let with = |a: u8| Some(Format::parse_shadow_color(a, 255, 255, 255));
    assert_eq!(shadow("inf"), with(255));
    assert_eq!(shadow("Infinity"), with(255));
    assert_eq!(shadow("-inf"), with(0));
    assert_eq!(shadow("NaN"), with(0));
    assert_eq!(shadow("-nan"), with(0));
    assert_eq!(shadow("infinit"), with(64));
}

#[test]
fn shadow_alpha_rounds_as_f32() {
    let shadow = |alpha: &str| {
        let root = parse(&format!("<shadow:red:{}>x", alpha));
        first_child(&root).format.shadow_color
    };
    let with = |a: u8| Some(Format::parse_shadow_color(a, 255, 85, 85));
    assert_eq!(shadow("0.9980392"), with(255));
    assert_eq!(shadow("0.8333333"), with(213));
    assert_eq!(shadow("0.9705882"), with(248));
    assert_eq!(shadow("0.3"), with(77));
    assert_eq!(shadow("0.0019608"), with(1));
    assert_eq!(shadow("0.00098"), with(0));
    assert_eq!(shadow("0.99999999"), with(255));
    assert_eq!(shadow("9980392e-7"), with(255));
    assert_eq!(shadow("0.000009980392e5"), with(255));
}

fn read_args(s: &str, start: usize) -> (Vec<String>, usize) {
    let (args, stop) = split_args(s, start).unwrap();
    (arg_texts(&args), stop)
}

#[test]
fn split_args_from_any_character() {
    assert_eq!(read_args(r"'It\'s a test'>", 0), (vec!["It's a test".to_string()], 14));
    assert_eq!(
        read_args("a::b:>", 0),
        (vec!["a".to_string(), "".to_string(), "b".to_string()], 5)
    );
    assert_eq!(
        read_args("'a:>b':c>", 0),
        (vec!["a:>b".to_string(), "c".to_string()], 8)
    );
    assert_eq!(read_args("é:x", 0), (vec!["é".to_string(), "x".to_string()], 4));
    assert_eq!(read_args("ab", 2), (vec![], 2));
}

#[test]
fn shadow_alpha_agrees_with_f32_arithmetic() {
    let mut seed: u64 = 0x2545_f491_4f6c_dd1d;
    for n in 0..20000u32 {
        seed = seed.wrapping_mul(6364136223846793005).wrapping_add(1442695040888963407);
        let digits = (seed >> 33) % 10_000_000;
        let alpha = match n % 4 {
            0 => format!("0.{:07}", digits),
            1 => format!("{}e-7", digits),
            2 => format!("0.00{:07}", digits),
            _ => format!("{}.{:03}", digits % 2, digits % 1000),
        };
        let expected = (alpha.parse::<f32>().unwrap() * 255.0).round() as u8;
        let root = parse(&format!("<shadow:white:{}>x", alpha));
        assert_eq!(
            first_child(&root).format.shadow_color,
            Some(Format::parse_shadow_color(expected, 255, 255, 255)),
            "alpha {}",
            alpha
        );
    }
}
