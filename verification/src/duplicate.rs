//! Deep copies of components and of everything they hold.
use vstd::prelude::*;

use crate::component::{
    opt_text, ClickEvent, Content, CustomData, Format, HoverEvent, Interactivity, NbtSource, Object,
    ObjectPlayer, RawTextComponent, Resolvable, TranslatedMessage,
};

verus! {

broadcast use vstd::std_specs::vec::axiom_vec_index_decreases;

/// A copy of an optional text.
pub fn dup_opt_text(o: &Option<String>) -> (r: Option<String>)
    ensures
        opt_text(&r) == opt_text(o),
{
    match o {
        Some(s) => Some(s.clone()),
        None => None,
    }
}

impl Format {
    /// A copy of the format.
    pub fn duplicate(&self) -> (r: Format)
        ensures
            r@ == self@,
    {
        Format {
            color: self.color,
            font: dup_opt_text(&self.font),
            bold: self.bold,
            italic: self.italic,
            underlined: self.underlined,
            strikethrough: self.strikethrough,
            obfuscated: self.obfuscated,
            shadow_color: self.shadow_color,
        }
    }
}

impl CustomData {
    /// A copy of the data.
    pub fn duplicate(&self) -> (r: CustomData)
        ensures
            r@ == self@,
    {
        CustomData { id: self.id.clone(), payload: self.payload }
    }
}

impl ClickEvent {
    /// A copy of the event.
    pub fn duplicate(&self) -> (r: ClickEvent)
        ensures
            r@ == self@,
    {
        match self {
            ClickEvent::OpenUrl { url } => ClickEvent::OpenUrl { url: url.clone() },
            ClickEvent::RunCommand { command } => ClickEvent::RunCommand { command: command.clone() },
            ClickEvent::SuggestCommand { command } => ClickEvent::SuggestCommand {
                command: command.clone(),
            },
            ClickEvent::ChangePage { page } => ClickEvent::ChangePage { page: *page },
            ClickEvent::CopyToClipboard { value } => ClickEvent::CopyToClipboard {
                value: value.clone(),
            },
            ClickEvent::ShowDialog { dialog } => ClickEvent::ShowDialog { dialog: dialog.clone() },
            ClickEvent::Custom(data) => ClickEvent::Custom(data.duplicate()),
        }
    }
}

impl NbtSource {
    /// A copy of the source.
    pub fn duplicate(&self) -> (r: NbtSource)
        ensures
            r@ == self@,
    {
        match self {
            NbtSource::Entity(s) => NbtSource::Entity(s.clone()),
            NbtSource::Block(s) => NbtSource::Block(s.clone()),
            NbtSource::Storage(s) => NbtSource::Storage(s.clone()),
        }
    }
}

impl ObjectPlayer {
    /// A copy of the player.
    pub fn duplicate(&self) -> (r: ObjectPlayer)
        ensures
            r@ == self@,
    {
        ObjectPlayer {
            name: dup_opt_text(&self.name),
            id: self.id,
            texture: dup_opt_text(&self.texture),
        }
    }
}

impl Object {
    /// A copy of the object.
    pub fn duplicate(&self) -> (r: Object)
        ensures
            r.model() == self.model(),
    {
        match self {
            Object::Atlas { atlas, sprite } => Object::Atlas {
                atlas: dup_opt_text(atlas),
                sprite: sprite.clone(),
            },
            Object::Player { player, hat } => Object::Player { player: player.duplicate(), hat: *hat },
        }
    }
}

impl HoverEvent {
    /// A copy of the event.
    pub fn duplicate(&self) -> (r: HoverEvent)
        ensures
            r@ == self@,
        decreases self,
    {
        let r = match self {
            HoverEvent::ShowText { value } => {
                let v = (**value).duplicate();
                HoverEvent::ShowText { value: Box::new(v) }
            },
            HoverEvent::ShowItem { id, count, components } => HoverEvent::ShowItem {
                id: id.clone(),
                count: *count,
                components: dup_opt_text(components),
            },
            HoverEvent::ShowEntity { name, id, uuid } => {
                let n = match name {
                    Some(b) => Some(Box::new((**b).duplicate())),
                    None => None,
                };
                HoverEvent::ShowEntity { name: n, id: id.clone(), uuid: *uuid }
            },
        };
        r
    }
}

impl Interactivity {
    /// A copy of the interactions.
    pub fn duplicate(&self) -> (r: Interactivity)
        ensures
            r@ == self@,
        decreases self,
    {
        let click = match &self.click {
            Some(c) => Some(c.duplicate()),
            None => None,
        };
        let hover = match &self.hover {
            Some(h) => Some(h.duplicate()),
            None => None,
        };
        let r = Interactivity { insertion: dup_opt_text(&self.insertion), click, hover };
        proof {
            assert(r.model() == self.model());
        }
        r
    }
}

/// Copies of a list of components.
pub fn dup_components(v: &Vec<RawTextComponent>) -> (r: Vec<RawTextComponent>)
    ensures
        r@.len() == v@.len(),
        forall|i: int| 0 <= i < v@.len() ==> #[trigger] r@[i]@ == v@[i]@,
    decreases v,
{
    let mut r: Vec<RawTextComponent> = Vec::new();
    let mut i: usize = 0;
    while i < v.len()
        invariant
            i <= v@.len(),
            r@.len() == i,
            forall|j: int| 0 <= j < i ==> #[trigger] r@[j]@ == v@[j]@,
        decreases v@.len() - i,
    {
        let c = v[i].duplicate();
        r.push(c);
        i = i + 1;
    }
    r
}

impl TranslatedMessage {
    /// A copy of the message.
    pub fn duplicate(&self) -> (r: TranslatedMessage)
        ensures
            r@ == self@,
        decreases self,
    {
        let args = match &self.args {
            Some(v) => Some(dup_components(v)),
            None => None,
        };
        let r = TranslatedMessage { key: self.key.clone(), fallback: dup_opt_text(&self.fallback), args };
        proof {
            match (&r.args, &self.args) {
                (Some(a), Some(b)) => {
                    assert forall|i: int| 0 <= i < b@.len() implies r.model().args->0[i]
                        == self.model().args->0[i] by {
                        assert(a@[i]@ == b@[i]@);
                    }
                    assert(r.model().args->0 =~= self.model().args->0);
                },
                _ => {},
            }
        }
        r
    }
}

impl Resolvable {
    /// A copy of the resolvable content.
    pub fn duplicate(&self) -> (r: Resolvable)
        ensures
            r.model() == self.model(),
        decreases self,
    {
        match self {
            Resolvable::Scoreboard { selector, objective } => Resolvable::Scoreboard {
                selector: selector.clone(),
                objective: objective.clone(),
            },
            Resolvable::Entity { selector, separator } => {
                let s = (**separator).duplicate();
                Resolvable::Entity { selector: selector.clone(), separator: Box::new(s) }
            },
            Resolvable::NBT { path, interpret, separator, source } => {
                let s = (**separator).duplicate();
                Resolvable::NBT {
                    path: path.clone(),
                    interpret: *interpret,
                    separator: Box::new(s),
                    source: source.duplicate(),
                }
            },
        }
    }
}

impl Content {
    /// A copy of the content.
    pub fn duplicate(&self) -> (r: Content)
        ensures
            r@ == self@,
        decreases self,
    {
        match self {
            Content::Text { text } => Content::Text { text: text.clone() },
            Content::Translate(m) => Content::Translate(m.duplicate()),
            Content::Keybind { keybind } => Content::Keybind { keybind: keybind.clone() },
            Content::Object(o) => Content::Object(o.duplicate()),
            Content::Resolvable(r) => Content::Resolvable(r.duplicate()),
            Content::Custom(d) => Content::Custom(d.duplicate()),
        }
    }
}

impl RawTextComponent {
    /// A copy of the component and of everything it holds.
    pub fn duplicate(&self) -> (r: RawTextComponent)
        ensures
            r@ == self@,
        decreases self,
    {
        let content = self.content.duplicate();
        let children = dup_components(&self.children);
        let format = self.format.duplicate();
        let interactions = self.interactions.duplicate();
        let r = RawTextComponent { content, children, format, interactions };
        proof {
            assert forall|i: int| 0 <= i < self.children@.len() implies r.model().children[i]
                == self.model().children[i] by {
                assert(r.children@[i]@ == self.children@[i]@);
            }
            assert(r.model().children =~= self.model().children);
        }
        r
    }
}

} // verus!
