use text_components::{
    ClickEvent, Color, Content, HoverEvent, Modifier, Object, ObjectPlayer, RawTextComponent,
    Resolvable, TextComponent,
};

#[test]
fn test_new_empty_component() {
    let component = TextComponent::new();
    assert_eq!(component.content, Content::Text { text: String::new() });
    assert!(component.children.is_empty());
}

#[test]
fn test_plain_text() {
    let component = TextComponent::plain("Hello".to_string());
    assert_eq!(component.content, Content::Text { text: "Hello".to_string() });
}

#[test]
fn test_const_plain() {
    let component = TextComponent::const_plain("World");
    assert_eq!(component.content, Content::Text { text: "World".to_string() });
}

#[test]
fn test_player_head() {
    let component = TextComponent::player_head(ObjectPlayer::name("Jeb_".to_string()), true);
    assert!(matches!(component.content, Content::Object(Object::Player { .. })));
}

#[test]
fn test_scoreboard() {
    let component = TextComponent::scoreboard("@p".to_string(), "deaths".to_string());
    assert!(matches!(component.content, Content::Resolvable(Resolvable::Scoreboard { .. })));
}

#[test]
fn test_add_child_and_children() {
    let parent = TextComponent::plain("Parent".to_string())
        .add_child(RawTextComponent::const_plain("Child1"))
        .add_children(vec![
            RawTextComponent::const_plain("Child2"),
            RawTextComponent::const_plain("Child3"),
        ]);
    assert_eq!(parent.children.len(), 3);
    assert_eq!(parent.children[0].content, Content::Text { text: "Child1".to_string() });
}

#[test]
fn test_insertion() {
    let component = TextComponent::plain("text".to_string()).insertion("insert me".to_string());
    assert_eq!(component.interactions.insertion, Some("insert me".to_string()));
}

#[test]
fn test_click_event() {
    let event = ClickEvent::open_url("http://example.com".to_string());
    let component = TextComponent::plain("link".to_string()).click_event(event.clone());
    assert_eq!(component.interactions.click, Some(event));
}

#[test]
fn test_hover_event() {
    let hover = HoverEvent::show_text(RawTextComponent::const_plain("tooltip"));
    let component = TextComponent::plain("hover".to_string()).hover_event(hover.duplicate());
    assert_eq!(component.interactions.hover, Some(hover));
}

#[test]
fn test_color_and_hex() {
    let component = TextComponent::plain("colored".to_string()).color_hex("#00ff00");
    assert!(component.format.color.is_some());
}

#[test]
fn test_formatting_bold_italic_underline() {
    let component = TextComponent::plain("f".to_string())
        .bold(true)
        .italic(true)
        .underlined(true)
        .strikethrough(false);
    assert_eq!(component.format.bold, Some(true));
    assert_eq!(component.format.italic, Some(true));
    assert_eq!(component.format.underlined, Some(true));
    assert_eq!(component.format.strikethrough, Some(false));
}

#[test]
fn test_reset_formatting() {
    let component = TextComponent::plain("x".to_string())
        .color(Color::Blue)
        .bold(true)
        .italic(true)
        .reset();
    assert_eq!(component.format.color, Some(Color::White));
    assert_eq!(component.format.bold, Some(false));
    assert_eq!(component.format.italic, Some(false));
    assert_eq!(component.format.font, Some("minecraft:default".to_string()));
}

#[test]
fn from_text_is_plain() {
    let s = "Hello";
    let t = "World".to_string();
    assert_eq!(RawTextComponent::from(s), RawTextComponent::const_plain(s));
    assert_eq!(RawTextComponent::from(s), RawTextComponent::plain(s.to_string()));
    assert_eq!(RawTextComponent::from(t.clone()), RawTextComponent::plain(t.clone()));
    let c: RawTextComponent = t.clone().into();
    assert_eq!(c, RawTextComponent::const_plain("World"));
}
