//! Rich text components with interaction capabilities, and a parser for the MiniMessage
//! markup that builds them.
use vstd::prelude::*;

pub mod ascii;
pub mod component;
pub mod content;
pub mod duplicate;
pub mod format;
pub mod interactivity;
pub mod laws;
pub mod tag_laws;
pub mod minimessage;

pub use component::{
    ClickEvent, Color, Content, CustomData, Format, HoverEvent, Interactivity, NbtSource, Object,
    ObjectPlayer, Payload, RawTextComponent, Resolvable, TextComponent, TranslatedMessage,
};

use component::{
    bare_model, plain_model, ComponentModel, ContentModel, FormatModel, InteractivityModel,
    ObjectModel, ResolvableModel,
};
use content::{bare_component, entity_separator_model, nbt_separator_model, text_component};
use format::{hex_color, reset_format, shadow_value};

verus! {

/// The model of the component that a list of components becomes as children.
pub open spec fn models(v: Seq<RawTextComponent>) -> Seq<ComponentModel> {
    Seq::new(v.len(), |i: int| v[i]@)
}

/// The model of a component with one more child at the end.
pub open spec fn with_child(c: ComponentModel, child: ComponentModel) -> ComponentModel {
    ComponentModel { children: c.children.push(child), ..c }
}

/// The model of a component with more children after the present ones.
pub open spec fn with_children(c: ComponentModel, more: Seq<ComponentModel>) -> ComponentModel {
    ComponentModel { children: c.children + more, ..c }
}

/// The model of a component with another format.
pub open spec fn with_format(c: ComponentModel, f: FormatModel) -> ComponentModel {
    ComponentModel { format: f, ..c }
}

/// The model of a component with other interactions.
pub open spec fn with_interactions(c: ComponentModel, i: InteractivityModel) -> ComponentModel {
    ComponentModel { interactions: i, ..c }
}

impl RawTextComponent {
    /// An empty component, useful as a parent.
    pub fn new() -> (r: RawTextComponent)
        ensures
            r@ == plain_model(Seq::empty()),
    {
        let r = text_component(String::new());
        proof {
            assert(r@ == plain_model(Seq::empty()));
        }
        r
    }

    /// A component that shows the given text.
    pub fn const_plain(text: &str) -> (r: RawTextComponent)
        ensures
            r@ == plain_model(text@),
    {
        text_component(text.to_owned())
    }

    /// A component that shows the given text.
    pub fn plain(text: String) -> (r: RawTextComponent)
        ensures
            r@ == plain_model(text@),
    {
        text_component(text)
    }

    /// A component that shows a translated message.
    pub fn translated(message: TranslatedMessage) -> (r: RawTextComponent)
        ensures
            r@ == bare_model(ContentModel::Translate(message@)),
    {
        let ghost m = message@;
        let r = bare_component(Content::Translate(message));
        proof {
            assert(r.content.model() == ContentModel::Translate(m));
        }
        r
    }

    /// A component that shows a sprite of a resource pack; without an atlas the game
    /// takes "minecraft:blocks".
    pub fn atlas(sprite: String, atlas: Option<String>) -> (r: RawTextComponent)
        ensures
            r@ == bare_model(
                ContentModel::Object(
                    ObjectModel::Atlas {
                        atlas: component::opt_text(&atlas),
                        sprite: sprite@,
                    },
                ),
            ),
    {
        let ghost a = component::opt_text(&atlas);
        let ghost s = sprite@;
        let r = bare_component(Content::Object(Object::Atlas { atlas, sprite }));
        proof {
            assert(r.content.model() == ContentModel::Object(ObjectModel::Atlas { atlas: a, sprite: s }));
        }
        r
    }

    /// A component that shows the head of a player, with or without the hat layer.
    pub fn player_head(player: ObjectPlayer, hat: bool) -> (r: RawTextComponent)
        ensures
            r@ == bare_model(ContentModel::Object(ObjectModel::Player { player: player@, hat })),
    {
        let ghost p = player@;
        let r = bare_component(Content::Object(Object::Player { player, hat }));
        proof {
            assert(r.content.model() == ContentModel::Object(ObjectModel::Player { player: p, hat }));
        }
        r
    }

    /// A component that shows the value of a scoreboard objective for one entity.
    pub fn scoreboard(selector: String, objective: String) -> (r: RawTextComponent)
        ensures
            r@ == bare_model(
                ContentModel::Resolvable(
                    ResolvableModel::Scoreboard { selector: selector@, objective: objective@ },
                ),
            ),
    {
        let ghost s = selector@;
        let ghost o = objective@;
        let r = bare_component(Content::Resolvable(Resolvable::Scoreboard { selector, objective }));
        proof {
            assert(r.content.model() == ContentModel::Resolvable(
                ResolvableModel::Scoreboard { selector: s, objective: o },
            ));
        }
        r
    }

    /// A component that shows the entities a selector chooses; without a separator they
    /// are separated by a gray ", ".
    pub fn entity(selector: String, separator: Option<RawTextComponent>) -> (r: RawTextComponent)
        ensures
            r@ == bare_model(
                ContentModel::Resolvable(
                    ResolvableModel::Entity {
                        selector: selector@,
                        separator: Box::new(
                            match separator {
                                Some(s) => s@,
                                None => entity_separator_model(),
                            },
                        ),
                    },
                ),
            ),
    {
        let ghost s = selector@;
        let sep = match separator {
            Some(s) => Box::new(s),
            None => Resolvable::entity_separator(),
        };
        let ghost sm = sep@;
        let r = bare_component(Content::Resolvable(Resolvable::Entity { selector, separator: sep }));
        proof {
            assert(r.content.model() == ContentModel::Resolvable(
                ResolvableModel::Entity { selector: s, separator: Box::new(sm) },
            ));
        }
        r
    }

    /// A component that shows Nbt data; without a separator the values are separated by
    /// ", ". The data is read as a component when `interpret` holds.
    pub fn nbt(path: String, source: NbtSource, interpret: bool, separator: Option<RawTextComponent>) -> (r: RawTextComponent)
        ensures
            r@ == bare_model(
                ContentModel::Resolvable(
                    ResolvableModel::NBT {
                        path: path@,
                        interpret: if interpret { Some(true) } else { None },
                        separator: Box::new(
                            match separator {
                                Some(s) => s@,
                                None => nbt_separator_model(),
                            },
                        ),
                        source: source@,
                    },
                ),
            ),
    {
        let ghost p = path@;
        let ghost src = source@;
        let sep = match separator {
            Some(s) => Box::new(s),
            None => Resolvable::nbt_separator(),
        };
        let ghost sm = sep@;
        let interpret = if interpret { Some(true) } else { None };
        let r = bare_component(
            Content::Resolvable(Resolvable::NBT { path, interpret, separator: sep, source }),
        );
        proof {
            assert(r.content.model() == ContentModel::Resolvable(
                ResolvableModel::NBT { path: p, interpret, separator: Box::new(sm), source: src },
            ));
        }
        r
    }

    /// Reads MiniMessage markup: an empty root whose children are what the markup shows.
    /// The markup must be one that can be read; see `try_minimessage`.
    pub fn minimessage(text: &str) -> (r: RawTextComponent)
        requires
            minimessage::markup_component(text@) is Some,
        ensures
            minimessage::markup_component(text@) == Some(r@),
    {
        minimessage::parse(text)
    }

    /// Reads MiniMessage markup where it can be read. It cannot be read where a
    /// backslash in text, an escape in a quoted argument or the hex text of a shadow
    /// would be cut inside a character that is not ASCII, and where text follows a
    /// closing tag that closed every tag, the root too (as `</>` does).
    pub fn try_minimessage(text: &str) -> (r: Option<RawTextComponent>)
        ensures
            match r {
                Some(c) => minimessage::markup_component(text@) == Some(c@),
                None => minimessage::markup_component(text@) is None,
            },
    {
        minimessage::parse_within(text, minimessage::NESTING_LIMIT)
    }

    /// A component that shows custom data.
    pub fn custom(content: CustomData) -> (r: RawTextComponent)
        ensures
            r@ == bare_model(ContentModel::Custom(content@)),
    {
        let ghost m = content@;
        let r = bare_component(Content::Custom(content));
        proof {
            assert(r.content.model() == ContentModel::Custom(m));
        }
        r
    }
}

impl Default for RawTextComponent {
    /// An empty component.
    fn default() -> (r: RawTextComponent)
        ensures
            r@ == plain_model(Seq::empty()),
    {
        RawTextComponent::new()
    }
}

impl<'a> From<&'a str> for RawTextComponent {
    /// A component that shows the given text, as `const_plain` gives it.
    fn from(text: &'a str) -> (r: RawTextComponent)
        ensures
            r@ == plain_model(text@),
    {
        RawTextComponent::const_plain(text)
    }
}

impl<'a> vstd::std_specs::convert::FromSpecImpl<&'a str> for RawTextComponent {
    /// Spec code cannot build the `String` that the component holds, so `from` is stated
    /// by its own `ensures`, over the model, rather than by this value.
    open spec fn obeys_from_spec() -> bool {
        false
    }

    open spec fn from_spec(text: &'a str) -> RawTextComponent {
        choose|c: RawTextComponent| c@ == plain_model(text@)
    }
}

impl From<String> for RawTextComponent {
    /// A component that shows the given text, as `plain` gives it.
    fn from(text: String) -> (r: RawTextComponent)
        ensures
            r@ == plain_model(text@),
    {
        RawTextComponent::plain(text)
    }
}

impl vstd::std_specs::convert::FromSpecImpl<String> for RawTextComponent {
    /// Spec code cannot build the `String` that the component holds, so `from` is stated
    /// by its own `ensures`, over the model, rather than by this value.
    open spec fn obeys_from_spec() -> bool {
        false
    }

    open spec fn from_spec(text: String) -> RawTextComponent {
        choose|c: RawTextComponent| c@ == plain_model(text@)
    }
}

/// Styling and interactions that any value which becomes a component can be given.
pub trait Modifier: Sized {
    /// What the methods give back: the styled component, or the reference to the
    /// component that was styled in place.
    type Output;

    /// Where a component taken out of this value goes back to.
    type Place;

    /// The model of the component that this value stands for.
    spec fn component_model(&self) -> ComponentModel;

    /// The model of the component that an output stands for.
    spec fn output_model(out: &Self::Output) -> ComponentModel;

    /// Takes the component that this value stands for out of it.
    fn take_component(self) -> (r: (RawTextComponent, Self::Place))
        ensures
            r.0@ == self.component_model(),
    ;

    /// Gives back a component through the place it was taken from.
    fn put_component(place: Self::Place, c: RawTextComponent) -> (r: Self::Output)
        ensures
            Self::output_model(&r) == c@,
    ;

    /// Adds a child at the end.
    fn add_child(self, child: RawTextComponent) -> (r: Self::Output)
        ensures
            Self::output_model(&r) == with_child(self.component_model(), child@),
    {
        let (mut c, place) = self.take_component();
        let ghost before = c@;
        let ghost cm = child@;
        c.children.push(child);
        proof {
            assert(c@.children =~= before.children.push(cm));
        }
        Self::put_component(place, c)
    }

    /// Adds the given components as children, in order, after the present ones.
    fn add_children(self, children: Vec<RawTextComponent>) -> (r: Self::Output)
        ensures
            Self::output_model(&r) == with_children(self.component_model(), models(children@)),
    {
        let (mut c, place) = self.take_component();
        let ghost before = c@;
        let ghost added = models(children@);
        let ghost all = children@;
        for child in it: children
            invariant
                it.seq() == all,
                c@ == with_children(before, models(all.subrange(0, it.index() as int))),
        {
            let ghost cm = child@;
            let ghost prev = c@;
            let ghost k = it.index();
            c.children.push(child);
            proof {
                assert(c@.children =~= prev.children.push(cm));
                assert(models(all.subrange(0, k + 1)) =~= models(all.subrange(0, k as int)).push(cm));
            }
        }
        proof {
            assert(all.subrange(0, all.len() as int) =~= all);
        }
        Self::put_component(place, c)
    }

    /// Sets the text that Shift+Click inserts into the chat.
    fn insertion(self, insertion: String) -> (r: Self::Output)
        ensures
            Self::output_model(&r) == with_interactions(
                self.component_model(),
                InteractivityModel { insertion: Some(insertion@), ..self.component_model().interactions },
            ),
    {
        let (mut c, place) = self.take_component();
        let ghost before = c.interactions@;
        let ghost v = insertion@;
        c.interactions = Interactivity { insertion: Some(insertion), ..c.interactions };
        proof {
            assert(c.interactions.model() == InteractivityModel { insertion: Some(v), ..before });
        }
        Self::put_component(place, c)
    }

    /// Sets what happens on a click.
    fn click_event(self, click: ClickEvent) -> (r: Self::Output)
        ensures
            Self::output_model(&r) == with_interactions(
                self.component_model(),
                InteractivityModel { click: Some(click@), ..self.component_model().interactions },
            ),
    {
        let (mut c, place) = self.take_component();
        let ghost before = c.interactions@;
        let ghost v = click@;
        c.interactions = Interactivity { click: Some(click), ..c.interactions };
        proof {
            assert(c.interactions.model() == InteractivityModel { click: Some(v), ..before });
        }
        Self::put_component(place, c)
    }

    /// Sets what is shown on hover.
    fn hover_event(self, hover: HoverEvent) -> (r: Self::Output)
        ensures
            Self::output_model(&r) == with_interactions(
                self.component_model(),
                InteractivityModel { hover: Some(hover@), ..self.component_model().interactions },
            ),
    {
        let (mut c, place) = self.take_component();
        let ghost before = c.interactions@;
        let ghost v = hover@;
        c.interactions = Interactivity { hover: Some(hover), ..c.interactions };
        proof {
            assert(c.interactions.model() == InteractivityModel { hover: Some(v), ..before });
        }
        Self::put_component(place, c)
    }

    /// Sets the color.
    fn color(self, color: Color) -> (r: Self::Output)
        ensures
            Self::output_model(&r) == with_format(
                self.component_model(),
                FormatModel { color: Some(color), ..self.component_model().format },
            ),
    {
        let (mut c, place) = self.take_component();
        c.format = c.format.color(color);
        Self::put_component(place, c)
    }

    /// Sets the color from a `#rrggbb` text; an unreadable text leaves the color as it is.
    fn color_hex(self, color: &str) -> (r: Self::Output)
        ensures
            Self::output_model(&r) == with_format(
                self.component_model(),
                match hex_color(color@) {
                    Some(h) => FormatModel { color: Some(h), ..self.component_model().format },
                    None => self.component_model().format,
                },
            ),
    {
        let (mut c, place) = self.take_component();
        c.format = c.format.color_hex(color);
        Self::put_component(place, c)
    }

    /// Sets the font.
    fn font(self, font: String) -> (r: Self::Output)
        ensures
            Self::output_model(&r) == with_format(
                self.component_model(),
                FormatModel { font: Some(font@), ..self.component_model().format },
            ),
    {
        let (mut c, place) = self.take_component();
        c.format = c.format.font(font);
        Self::put_component(place, c)
    }

    /// Makes the text bold, or not.
    fn bold(self, value: bool) -> (r: Self::Output)
        ensures
            Self::output_model(&r) == with_format(
                self.component_model(),
                FormatModel { bold: Some(value), ..self.component_model().format },
            ),
    {
        let (mut c, place) = self.take_component();
        c.format = c.format.bold(value);
        Self::put_component(place, c)
    }

    /// Makes the text italic, or not.
    fn italic(self, value: bool) -> (r: Self::Output)
        ensures
            Self::output_model(&r) == with_format(
                self.component_model(),
                FormatModel { italic: Some(value), ..self.component_model().format },
            ),
    {
        let (mut c, place) = self.take_component();
        c.format = c.format.italic(value);
        Self::put_component(place, c)
    }

    /// Makes the text underlined, or not.
    fn underlined(self, value: bool) -> (r: Self::Output)
        ensures
            Self::output_model(&r) == with_format(
                self.component_model(),
                FormatModel { underlined: Some(value), ..self.component_model().format },
            ),
    {
        let (mut c, place) = self.take_component();
        c.format = c.format.underlined(value);
        Self::put_component(place, c)
    }

    /// Makes the text struck through, or not.
    fn strikethrough(self, value: bool) -> (r: Self::Output)
        ensures
            Self::output_model(&r) == with_format(
                self.component_model(),
                FormatModel { strikethrough: Some(value), ..self.component_model().format },
            ),
    {
        let (mut c, place) = self.take_component();
        c.format = c.format.strikethrough(value);
        Self::put_component(place, c)
    }

    /// Makes the text obfuscated, or not.
    fn obfuscated(self, value: bool) -> (r: Self::Output)
        ensures
            Self::output_model(&r) == with_format(
                self.component_model(),
                FormatModel { obfuscated: Some(value), ..self.component_model().format },
            ),
    {
        let (mut c, place) = self.take_component();
        c.format = c.format.obfuscated(value);
        Self::put_component(place, c)
    }

    /// Sets the shadow color from its four channels.
    fn shadow_color(self, a: u8, r: u8, g: u8, b: u8) -> (res: Self::Output)
        ensures
            Self::output_model(&res) == with_format(
                self.component_model(),
                FormatModel {
                    shadow_color: Some(shadow_value(a, r, g, b)),
                    ..self.component_model().format
                },
            ),
    {
        let (mut c, place) = self.take_component();
        c.format = c.format.shadow_color(a, r, g, b);
        Self::put_component(place, c)
    }

    /// Sets every field of the format to its default.
    fn reset(self) -> (r: Self::Output)
        ensures
            Self::output_model(&r) == with_format(self.component_model(), reset_format()),
    {
        let (mut c, place) = self.take_component();
        c.format = c.format.reset();
        Self::put_component(place, c)
    }
}

impl Modifier for RawTextComponent {
    type Output = RawTextComponent;

    type Place = ();

    open spec fn component_model(&self) -> ComponentModel {
        self@
    }

    open spec fn output_model(out: &RawTextComponent) -> ComponentModel {
        out@
    }

    fn take_component(self) -> (r: (RawTextComponent, ())) {
        (self, ())
    }

    fn put_component(place: (), c: RawTextComponent) -> (r: RawTextComponent) {
        c
    }
}

impl<'a> Modifier for &'a str {
    type Output = RawTextComponent;

    type Place = ();

    open spec fn component_model(&self) -> ComponentModel {
        plain_model((*self)@)
    }

    open spec fn output_model(out: &RawTextComponent) -> ComponentModel {
        out@
    }

    fn take_component(self) -> (r: (RawTextComponent, ())) {
        (RawTextComponent::const_plain(self), ())
    }

    fn put_component(place: (), c: RawTextComponent) -> (r: RawTextComponent) {
        c
    }
}

impl Modifier for String {
    type Output = RawTextComponent;

    type Place = ();

    open spec fn component_model(&self) -> ComponentModel {
        plain_model(self@)
    }

    open spec fn output_model(out: &RawTextComponent) -> ComponentModel {
        out@
    }

    fn take_component(self) -> (r: (RawTextComponent, ())) {
        (RawTextComponent::plain(self), ())
    }

    fn put_component(place: (), c: RawTextComponent) -> (r: RawTextComponent) {
        c
    }
}

/// Styling in place: each method edits the component behind the reference and gives the
/// reference back.
impl<'a> Modifier for &'a mut RawTextComponent {
    type Output = &'a mut RawTextComponent;

    type Place = &'a mut RawTextComponent;

    open spec fn component_model(&self) -> ComponentModel {
        (**self)@
    }

    open spec fn output_model(out: &&'a mut RawTextComponent) -> ComponentModel {
        (**out)@
    }

    fn take_component(self) -> (r: (RawTextComponent, &'a mut RawTextComponent)) {
        let mut c = RawTextComponent::new();
        std::mem::swap(self, &mut c);
        (c, self)
    }

    fn put_component(place: &'a mut RawTextComponent, c: RawTextComponent) -> (r: &'a mut RawTextComponent) {
        *place = c;
        place
    }

    fn add_child(self, child: RawTextComponent) -> (r: &'a mut RawTextComponent)
        ensures
            *final(self) == *final(r),
    {
        let ghost before = (*self)@;
        let ghost cm = child@;
        self.children.push(child);
        proof {
            assert((*self)@.children =~= before.children.push(cm));
        }
        self
    }

    fn add_children(self, children: Vec<RawTextComponent>) -> (r: &'a mut RawTextComponent)
        ensures
            *final(self) == *final(r),
    {
        let ghost before = (*self)@;
        let ghost added = models(children@);
        let mut more = children;
        self.children.append(&mut more);
        proof {
            assert((*self)@.children =~= before.children + added);
        }
        self
    }

    fn insertion(self, insertion: String) -> (r: &'a mut RawTextComponent)
        ensures
            *final(self) == *final(r),
    {
        let ghost before = self.interactions@;
        let ghost v = insertion@;
        self.interactions.insertion = Some(insertion);
        proof {
            assert(self.interactions@ == InteractivityModel { insertion: Some(v), ..before });
        }
        self
    }

    fn click_event(self, click: ClickEvent) -> (r: &'a mut RawTextComponent)
        ensures
            *final(self) == *final(r),
    {
        let ghost before = self.interactions@;
        let ghost v = click@;
        self.interactions.click = Some(click);
        proof {
            assert(self.interactions@ == InteractivityModel { click: Some(v), ..before });
        }
        self
    }

    fn hover_event(self, hover: HoverEvent) -> (r: &'a mut RawTextComponent)
        ensures
            *final(self) == *final(r),
    {
        let ghost before = self.interactions@;
        let ghost v = hover@;
        self.interactions.hover = Some(hover);
        proof {
            assert(self.interactions@ == InteractivityModel { hover: Some(v), ..before });
        }
        self
    }

    fn color(self, color: Color) -> (r: &'a mut RawTextComponent)
        ensures
            *final(self) == *final(r),
    {
        let ghost before = self.format@;
        self.format.color = Some(color);
        proof {
            assert(self.format@ == FormatModel { color: Some(color), ..before });
        }
        self
    }

    fn color_hex(self, color: &str) -> (r: &'a mut RawTextComponent)
        ensures
            *final(self) == *final(r),
    {
        let ghost before = self.format@;
        match Color::from_hex(color) {
            Some(c) => {
                self.format.color = Some(c);
                proof {
                    assert(self.format@ == FormatModel { color: Some(c), ..before });
                }
            },
            None => {},
        }
        self
    }

    fn font(self, font: String) -> (r: &'a mut RawTextComponent)
        ensures
            *final(self) == *final(r),
    {
        let ghost before = self.format@;
        let ghost v = font@;
        self.format.font = Some(font);
        proof {
            assert(self.format@ == FormatModel { font: Some(v), ..before });
        }
        self
    }

    fn bold(self, value: bool) -> (r: &'a mut RawTextComponent)
        ensures
            *final(self) == *final(r),
    {
        let ghost before = self.format@;
        self.format.bold = Some(value);
        proof {
            assert(self.format@ == FormatModel { bold: Some(value), ..before });
        }
        self
    }

    fn italic(self, value: bool) -> (r: &'a mut RawTextComponent)
        ensures
            *final(self) == *final(r),
    {
        let ghost before = self.format@;
        self.format.italic = Some(value);
        proof {
            assert(self.format@ == FormatModel { italic: Some(value), ..before });
        }
        self
    }

    fn underlined(self, value: bool) -> (r: &'a mut RawTextComponent)
        ensures
            *final(self) == *final(r),
    {
        let ghost before = self.format@;
        self.format.underlined = Some(value);
        proof {
            assert(self.format@ == FormatModel { underlined: Some(value), ..before });
        }
        self
    }

    fn strikethrough(self, value: bool) -> (r: &'a mut RawTextComponent)
        ensures
            *final(self) == *final(r),
    {
        let ghost before = self.format@;
        self.format.strikethrough = Some(value);
        proof {
            assert(self.format@ == FormatModel { strikethrough: Some(value), ..before });
        }
        self
    }

    fn obfuscated(self, value: bool) -> (r: &'a mut RawTextComponent)
        ensures
            *final(self) == *final(r),
    {
        let ghost before = self.format@;
        self.format.obfuscated = Some(value);
        proof {
            assert(self.format@ == FormatModel { obfuscated: Some(value), ..before });
        }
        self
    }

    fn shadow_color(self, a: u8, r: u8, g: u8, b: u8) -> (res: &'a mut RawTextComponent)
        ensures
            *final(self) == *final(res),
    {
        let ghost before = self.format@;
        self.format.shadow_color = Some(Format::parse_shadow_color(a, r, g, b));
        proof {
            assert(self.format@ == FormatModel { shadow_color: Some(shadow_value(a, r, g, b)), ..before });
        }
        self
    }

    fn reset(self) -> (r: &'a mut RawTextComponent)
        ensures
            *final(self) == *final(r),
    {
        self.format = Format::new().reset();
        self
    }
}

} // verus!
