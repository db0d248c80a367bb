//! The data of a text component: what it shows, how it is formatted, and how it reacts
//! to the player. Each type has a mathematical model (its view), in which text is a
//! `Seq<char>` and children are sequences of models; contracts are stated over these.
use vstd::prelude::*;

verus! {

broadcast use vstd::std_specs::vec::axiom_vec_index_decreases;

/// A text color: one of the sixteen named chat colors, or an RGB value.
#[derive(Clone, Copy, Debug, PartialEq, Eq, Hash, Structural)]
pub enum Color {
    Black,
    DarkBlue,
    DarkGreen,
    DarkAqua,
    DarkRed,
    DarkPurple,
    Gold,
    Gray,
    DarkGray,
    Blue,
    Green,
    Aqua,
    Red,
    LightPurple,
    Yellow,
    White,
    Rgb(u8, u8, u8),
}

/// The payload carried by custom data.
#[derive(Clone, Copy, Debug, PartialEq, Eq, Hash, Structural)]
pub enum Payload {
    Empty,
}

/// The format of a component; every field left at `None` is inherited from the parent.
#[derive(Clone, Debug, PartialEq, Eq, Hash)]
pub struct Format {
    pub color: Option<Color>,
    pub font: Option<String>,
    pub bold: Option<bool>,
    pub italic: Option<bool>,
    pub underlined: Option<bool>,
    pub strikethrough: Option<bool>,
    pub obfuscated: Option<bool>,
    pub shadow_color: Option<i32>,
}

/// Data of an extension, identified by its id.
#[derive(Clone, Debug, PartialEq, Eq, Hash)]
pub struct CustomData {
    pub id: String,
    pub payload: Payload,
}

/// What happens when the player clicks a component.
#[derive(Clone, Debug, PartialEq, Eq, Hash)]
pub enum ClickEvent {
    OpenUrl { url: String },
    RunCommand { command: String },
    SuggestCommand { command: String },
    ChangePage { page: i32 },
    CopyToClipboard { value: String },
    ShowDialog { dialog: String },
    Custom(CustomData),
}

/// What is shown when the player hovers a component. The uuid of an entity is kept
/// as its 128-bit value.
#[derive(Debug, PartialEq, Eq, Hash)]
pub enum HoverEvent {
    ShowText { value: Box<RawTextComponent> },
    ShowItem { id: String, count: Option<i32>, components: Option<String> },
    ShowEntity { name: Option<Box<RawTextComponent>>, id: String, uuid: u128 },
}

/// The interactions of a component.
#[derive(Debug, PartialEq, Eq, Hash)]
pub struct Interactivity {
    pub insertion: Option<String>,
    pub click: Option<ClickEvent>,
    pub hover: Option<HoverEvent>,
}

/// A translation key with its optional fallback and arguments.
#[derive(Debug, PartialEq, Eq, Hash)]
pub struct TranslatedMessage {
    pub key: String,
    pub fallback: Option<String>,
    pub args: Option<Vec<RawTextComponent>>,
}

/// Where the data of an Nbt component is read from.
#[derive(Clone, Debug, PartialEq, Eq, Hash)]
pub enum NbtSource {
    Entity(String),
    Block(String),
    Storage(String),
}

/// The player whose head is displayed: by name, by id, or by texture.
#[derive(Clone, Debug, PartialEq, Eq, Hash)]
pub struct ObjectPlayer {
    pub name: Option<String>,
    pub id: Option<[i32; 4]>,
    pub texture: Option<String>,
}

/// An image shown inside the text.
#[derive(Clone, Debug, PartialEq, Eq, Hash)]
pub enum Object {
    Atlas { atlas: Option<String>, sprite: String },
    Player { player: ObjectPlayer, hat: bool },
}

/// Content that needs to be resolved before it is shown.
#[derive(Debug, PartialEq, Eq, Hash)]
pub enum Resolvable {
    Scoreboard { selector: String, objective: String },
    Entity { selector: String, separator: Box<RawTextComponent> },
    NBT {
        path: String,
        interpret: Option<bool>,
        separator: Box<RawTextComponent>,
        source: NbtSource,
    },
}

/// What a component shows.
#[derive(Debug, PartialEq, Eq, Hash)]
pub enum Content {
    Text { text: String },
    Translate(TranslatedMessage),
    Keybind { keybind: String },
    Object(Object),
    Resolvable(Resolvable),
    Custom(CustomData),
}

/// A recursive rich text format with interaction capabilities.
#[derive(Debug, PartialEq, Eq, Hash)]
pub struct RawTextComponent {
    pub content: Content,
    pub children: Vec<RawTextComponent>,
    pub format: Format,
    pub interactions: Interactivity,
}

/// The usual name of a component.
pub type TextComponent = RawTextComponent;

// ---------------------------------------------------------------------------------------
// Models
// ---------------------------------------------------------------------------------------
pub struct FormatModel {
    pub color: Option<Color>,
    pub font: Option<Seq<char>>,
    pub bold: Option<bool>,
    pub italic: Option<bool>,
    pub underlined: Option<bool>,
    pub strikethrough: Option<bool>,
    pub obfuscated: Option<bool>,
    pub shadow_color: Option<i32>,
}

pub struct CustomDataModel {
    pub id: Seq<char>,
    pub payload: Payload,
}

pub enum ClickEventModel {
    OpenUrl { url: Seq<char> },
    RunCommand { command: Seq<char> },
    SuggestCommand { command: Seq<char> },
    ChangePage { page: i32 },
    CopyToClipboard { value: Seq<char> },
    ShowDialog { dialog: Seq<char> },
    Custom(CustomDataModel),
}

pub enum HoverEventModel {
    ShowText { value: Box<ComponentModel> },
    ShowItem { id: Seq<char>, count: Option<i32>, components: Option<Seq<char>> },
    ShowEntity { name: Option<Box<ComponentModel>>, id: Seq<char>, uuid: u128 },
}

pub struct InteractivityModel {
    pub insertion: Option<Seq<char>>,
    pub click: Option<ClickEventModel>,
    pub hover: Option<HoverEventModel>,
}

pub struct TranslatedMessageModel {
    pub key: Seq<char>,
    pub fallback: Option<Seq<char>>,
    pub args: Option<Seq<ComponentModel>>,
}

pub enum NbtSourceModel {
    Entity(Seq<char>),
    Block(Seq<char>),
    Storage(Seq<char>),
}

pub struct ObjectPlayerModel {
    pub name: Option<Seq<char>>,
    pub id: Option<Seq<i32>>,
    pub texture: Option<Seq<char>>,
}

pub enum ObjectModel {
    Atlas { atlas: Option<Seq<char>>, sprite: Seq<char> },
    Player { player: ObjectPlayerModel, hat: bool },
}

pub enum ResolvableModel {
    Scoreboard { selector: Seq<char>, objective: Seq<char> },
    Entity { selector: Seq<char>, separator: Box<ComponentModel> },
    NBT {
        path: Seq<char>,
        interpret: Option<bool>,
        separator: Box<ComponentModel>,
        source: NbtSourceModel,
    },
}

pub enum ContentModel {
    Text { text: Seq<char> },
    Translate(TranslatedMessageModel),
    Keybind { keybind: Seq<char> },
    Object(ObjectModel),
    Resolvable(ResolvableModel),
    Custom(CustomDataModel),
}

pub struct ComponentModel {
    pub content: ContentModel,
    pub children: Seq<ComponentModel>,
    pub format: FormatModel,
    pub interactions: InteractivityModel,
}

/// Interactions in which nothing is set.
pub open spec fn empty_interactions() -> InteractivityModel {
    InteractivityModel { insertion: None, click: None, hover: None }
}

/// A component with the given content, no children, and nothing set in its format and
/// interactions.
pub open spec fn bare_model(content: ContentModel) -> ComponentModel {
    ComponentModel {
        content,
        children: Seq::empty(),
        format: crate::format::empty_format(),
        interactions: empty_interactions(),
    }
}

/// A component that shows the given text and nothing else.
pub open spec fn plain_model(text: Seq<char>) -> ComponentModel {
    bare_model(ContentModel::Text { text })
}

/// The text of an optional string.
pub open spec fn opt_text(o: &Option<String>) -> Option<Seq<char>> {
    match o {
        Some(s) => Some(s@),
        None => None,
    }
}

impl Format {
    pub open spec fn model(&self) -> FormatModel {
        FormatModel {
            color: self.color,
            font: opt_text(&self.font),
            bold: self.bold,
            italic: self.italic,
            underlined: self.underlined,
            strikethrough: self.strikethrough,
            obfuscated: self.obfuscated,
            shadow_color: self.shadow_color,
        }
    }
}

impl CustomData {
    pub open spec fn model(&self) -> CustomDataModel {
        CustomDataModel { id: self.id@, payload: self.payload }
    }
}

impl ClickEvent {
    pub open spec fn model(&self) -> ClickEventModel {
        match self {
            ClickEvent::OpenUrl { url } => ClickEventModel::OpenUrl { url: url@ },
            ClickEvent::RunCommand { command } => ClickEventModel::RunCommand { command: command@ },
            ClickEvent::SuggestCommand { command } => ClickEventModel::SuggestCommand {
                command: command@,
            },
            ClickEvent::ChangePage { page } => ClickEventModel::ChangePage { page: *page },
            ClickEvent::CopyToClipboard { value } => ClickEventModel::CopyToClipboard {
                value: value@,
            },
            ClickEvent::ShowDialog { dialog } => ClickEventModel::ShowDialog { dialog: dialog@ },
            ClickEvent::Custom(data) => ClickEventModel::Custom(data.model()),
        }
    }
}

impl NbtSource {
    pub open spec fn model(&self) -> NbtSourceModel {
        match self {
            NbtSource::Entity(s) => NbtSourceModel::Entity(s@),
            NbtSource::Block(s) => NbtSourceModel::Block(s@),
            NbtSource::Storage(s) => NbtSourceModel::Storage(s@),
        }
    }
}

impl ObjectPlayer {
    pub open spec fn model(&self) -> ObjectPlayerModel {
        ObjectPlayerModel {
            name: opt_text(&self.name),
            id: match self.id {
                Some(a) => Some(a@),
                None => None,
            },
            texture: opt_text(&self.texture),
        }
    }
}

impl Object {
    pub open spec fn model(&self) -> ObjectModel {
        match self {
            Object::Atlas { atlas, sprite } => ObjectModel::Atlas {
                atlas: opt_text(atlas),
                sprite: sprite@,
            },
            Object::Player { player, hat } => ObjectModel::Player {
                player: player.model(),
                hat: *hat,
            },
        }
    }
}

impl HoverEvent {
    pub open spec fn model(&self) -> HoverEventModel
        decreases self,
    {
        match self {
            HoverEvent::ShowText { value } => HoverEventModel::ShowText {
                value: Box::new(value.model()),
            },
            HoverEvent::ShowItem { id, count, components } => HoverEventModel::ShowItem {
                id: id@,
                count: *count,
                components: opt_text(components),
            },
            HoverEvent::ShowEntity { name, id, uuid } => HoverEventModel::ShowEntity {
                name: match name {
                    Some(n) => Some(Box::new(n.model())),
                    None => None,
                },
                id: id@,
                uuid: *uuid,
            },
        }
    }
}

impl Interactivity {
    pub open spec fn model(&self) -> InteractivityModel
        decreases self,
    {
        InteractivityModel {
            insertion: opt_text(&self.insertion),
            click: match &self.click {
                Some(c) => Some(c.model()),
                None => None,
            },
            hover: match &self.hover {
                Some(h) => Some(h.model()),
                None => None,
            },
        }
    }
}

impl TranslatedMessage {
    pub open spec fn model(&self) -> TranslatedMessageModel
        decreases self,
    {
        TranslatedMessageModel {
            key: self.key@,
            fallback: opt_text(&self.fallback),
            args: match &self.args {
                Some(v) => Some(
                    Seq::new(
                        v@.len(),
                        |i: int|
                            if 0 <= i < v@.len() {
                                v@[i].model()
                            } else {
                                arbitrary()
                            },
                    ),
                ),
                None => None,
            },
        }
    }
}

impl Resolvable {
    pub open spec fn model(&self) -> ResolvableModel
        decreases self,
    {
        match self {
            Resolvable::Scoreboard { selector, objective } => ResolvableModel::Scoreboard {
                selector: selector@,
                objective: objective@,
            },
            Resolvable::Entity { selector, separator } => ResolvableModel::Entity {
                selector: selector@,
                separator: Box::new(separator.model()),
            },
            Resolvable::NBT { path, interpret, separator, source } => ResolvableModel::NBT {
                path: path@,
                interpret: *interpret,
                separator: Box::new(separator.model()),
                source: source.model(),
            },
        }
    }
}

impl Content {
    pub open spec fn model(&self) -> ContentModel
        decreases self,
    {
        match self {
            Content::Text { text } => ContentModel::Text { text: text@ },
            Content::Translate(msg) => ContentModel::Translate(msg.model()),
            Content::Keybind { keybind } => ContentModel::Keybind { keybind: keybind@ },
            Content::Object(o) => ContentModel::Object(o.model()),
            Content::Resolvable(r) => ContentModel::Resolvable(r.model()),
            Content::Custom(d) => ContentModel::Custom(d.model()),
        }
    }
}

impl RawTextComponent {
    pub open spec fn model(&self) -> ComponentModel
        decreases self,
    {
        ComponentModel {
            content: self.content.model(),
            children: Seq::new(
                self.children@.len(),
                |i: int|
                    if 0 <= i < self.children@.len() {
                        self.children@[i].model()
                    } else {
                        arbitrary()
                    },
            ),
            format: self.format.model(),
            interactions: self.interactions.model(),
        }
    }
}

impl View for Format {
    type V = FormatModel;

    open spec fn view(&self) -> FormatModel {
        self.model()
    }
}

impl View for Interactivity {
    type V = InteractivityModel;

    open spec fn view(&self) -> InteractivityModel {
        self.model()
    }
}

impl View for Content {
    type V = ContentModel;

    open spec fn view(&self) -> ContentModel {
        self.model()
    }
}

impl View for RawTextComponent {
    type V = ComponentModel;

    open spec fn view(&self) -> ComponentModel {
        self.model()
    }
}

impl View for ClickEvent {
    type V = ClickEventModel;

    open spec fn view(&self) -> ClickEventModel {
        self.model()
    }
}

impl View for HoverEvent {
    type V = HoverEventModel;

    open spec fn view(&self) -> HoverEventModel {
        self.model()
    }
}

impl View for ObjectPlayer {
    type V = ObjectPlayerModel;

    open spec fn view(&self) -> ObjectPlayerModel {
        self.model()
    }
}

impl View for NbtSource {
    type V = NbtSourceModel;

    open spec fn view(&self) -> NbtSourceModel {
        self.model()
    }
}

impl View for TranslatedMessage {
    type V = TranslatedMessageModel;

    open spec fn view(&self) -> TranslatedMessageModel {
        self.model()
    }
}

impl View for CustomData {
    type V = CustomDataModel;

    open spec fn view(&self) -> CustomDataModel {
        self.model()
    }
}

} // verus!
