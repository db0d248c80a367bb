//! Constructors of the things a component can show.
use vstd::prelude::*;

use crate::component::{
    bare_model, plain_model, Color, ComponentModel, Content, Format, Interactivity, ContentModel, NbtSource,
    NbtSourceModel, ObjectPlayer, ObjectPlayerModel, RawTextComponent, Resolvable,
};
use crate::format::empty_format;

verus! {

/// The text ", " that separates entities and Nbt values by default.
pub open spec fn comma_text() -> Seq<char> {
    seq![',', ' ']
}

/// The default separator of entities: a gray ", ".
pub open spec fn entity_separator_model() -> ComponentModel {
    ComponentModel {
        format: crate::component::FormatModel { color: Some(Color::Gray), ..empty_format() },
        ..plain_model(comma_text())
    }
}

/// The default separator of Nbt values: a plain ", ".
pub open spec fn nbt_separator_model() -> ComponentModel {
    plain_model(comma_text())
}

/// A component with the given text and nothing else.
pub fn text_component(text: String) -> (r: RawTextComponent)
    ensures
        r@ == plain_model(text@),
{
    let ghost t = text@;
    let r = RawTextComponent {
        content: Content::Text { text },
        children: Vec::new(),
        format: Format::new(),
        interactions: Interactivity::new(),
    };
    proof {
        assert(r@.children =~= Seq::<ComponentModel>::empty());
        assert(r.content.model() == ContentModel::Text { text: t });
    }
    r
}

/// A component with the given content, no children, and nothing set.
pub fn bare_component(content: Content) -> (r: RawTextComponent)
    ensures
        r@ == bare_model(content@),
{
    let r = RawTextComponent {
        content,
        children: Vec::new(),
        format: Format::new(),
        interactions: Interactivity::new(),
    };
    proof {
        assert(r@.children =~= Seq::<ComponentModel>::empty());
    }
    r
}

/// The text ", ".
pub fn comma() -> (r: String)
    ensures
        r@ == comma_text(),
{
    let r = ", ".to_owned();
    proof {
        reveal_strlit(", ");
        assert(r@ =~= comma_text());
    }
    r
}

impl Resolvable {
    /// The default separator of entities: a gray ", ".
    pub fn entity_separator() -> (r: Box<RawTextComponent>)
        ensures
            r@ == entity_separator_model(),
    {
        let c = text_component(comma());
        Box::new(RawTextComponent { format: c.format.color(Color::Gray), ..c })
    }

    /// The default separator of Nbt values: a plain ", ".
    pub fn nbt_separator() -> (r: Box<RawTextComponent>)
        ensures
            r@ == nbt_separator_model(),
    {
        Box::new(text_component(comma()))
    }
}

impl ObjectPlayer {
    /// A player given by name.
    pub fn name(name: String) -> (r: ObjectPlayer)
        ensures
            r@ == (ObjectPlayerModel { name: Some(name@), id: None, texture: None }),
    {
        ObjectPlayer { name: Some(name), id: None, texture: None }
    }

    /// A player given by the four 32-bit parts of its uuid, most significant first.
    pub fn id(id: [i32; 4]) -> (r: ObjectPlayer)
        ensures
            r@ == (ObjectPlayerModel { name: None, id: Some(id@), texture: None }),
    {
        ObjectPlayer { name: None, id: Some(id), texture: None }
    }

    /// A player given by the path of a skin texture.
    pub fn texture(texture: String) -> (r: ObjectPlayer)
        ensures
            r@ == (ObjectPlayerModel { name: None, id: None, texture: Some(texture@) }),
    {
        ObjectPlayer { name: None, id: None, texture: Some(texture) }
    }
}

impl NbtSource {
    /// Nbt read from an entity chosen by a selector.
    pub fn entity(selector: String) -> (r: NbtSource)
        ensures
            r@ == NbtSourceModel::Entity(selector@),
    {
        NbtSource::Entity(selector)
    }

    /// Nbt read from the block at the given coordinates.
    pub fn block(position: String) -> (r: NbtSource)
        ensures
            r@ == NbtSourceModel::Block(position@),
    {
        NbtSource::Block(position)
    }

    /// Nbt read from a command storage.
    pub fn storage(id: String) -> (r: NbtSource)
        ensures
            r@ == NbtSourceModel::Storage(id@),
    {
        NbtSource::Storage(id)
    }
}

} // verus!
