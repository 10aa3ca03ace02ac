//! The effect plugins that a track can chain after its synth, and what a
//! plugin does with a key event.

use vstd::prelude::*;

use crate::input::{Event, Key};

verus! {

/// The kinds of plugin.
#[derive(Clone, Copy, Debug, PartialEq, Eq, Structural)]
pub enum Tag {
    Lpf,
    Delay,
}

/// Every kind of plugin, in the order the plugin selector lists them.
pub const LIST: [Tag; 2] = [Tag::Lpf, Tag::Delay];

/// The display name of a kind of plugin.
pub open spec fn spec_tag_name(tag: Tag) -> Seq<char> {
    match tag {
        Tag::Lpf => "lpf"@,
        Tag::Delay => "delay"@,
    }
}

impl Tag {
    /// The display name of this kind of plugin.
    pub fn name(self) -> (s: &'static str)
        ensures
            s@ == spec_tag_name(self),
    {
        match self {
            Tag::Lpf => "lpf",
            Tag::Delay => "delay",
        }
    }
}

/// What a screen asks of the one that holds it after an event.
#[derive(Clone, Copy, Debug, PartialEq, Eq, Structural)]
pub enum Action {
    Nothing,
    GoBack,
}

/// A plugin in a track's chain.
#[derive(Clone, Copy, Debug, PartialEq, Eq, Structural)]
pub enum Plugin {
    Lpf,
    Delay,
}

/// The plugin that a kind names.
pub open spec fn spec_plugin_of(tag: Tag) -> Plugin {
    match tag {
        Tag::Lpf => Plugin::Lpf,
        Tag::Delay => Plugin::Delay,
    }
}

impl Plugin {
    /// A plugin of the given kind.
    pub fn new(tag: Tag) -> (p: Self)
        ensures
            p == spec_plugin_of(tag),
            spec_plugin_of(p.spec_tag()) == p,
    {
        match tag {
            Tag::Lpf => Plugin::Lpf,
            Tag::Delay => Plugin::Delay,
        }
    }

    /// The kind of this plugin.
    pub open spec fn spec_tag(self) -> Tag {
        match self {
            Plugin::Lpf => Tag::Lpf,
            Plugin::Delay => Tag::Delay,
        }
    }

    /// The kind of this plugin.
    pub fn tag(&self) -> (t: Tag)
        ensures
            t == self.spec_tag(),
    {
        match self {
            Plugin::Lpf => Tag::Lpf,
            Plugin::Delay => Tag::Delay,
        }
    }

    /// Backspace leaves the plugin's screen; every other key stays on it.
    pub fn handle_event(&mut self, event: Event) -> (a: Action)
        ensures
            *final(self) == *old(self),
            a == (if event.key == Key::Backspace {
                Action::GoBack
            } else {
                Action::Nothing
            }),
    {
        match event.key {
            Key::Backspace => Action::GoBack,
            _ => Action::Nothing,
        }
    }
}

/// The kind of a plugin made from a kind is that kind.
pub proof fn lemma_tag_of_new(tag: Tag)
    ensures
        spec_plugin_of(tag).spec_tag() == tag,
{
}

} // verus!
