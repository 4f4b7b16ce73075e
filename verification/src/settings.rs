//! The window in which the user looks at what can be set.

use vstd::prelude::*;

verus! {

/// A part of what can be set.
#[derive(Debug, Clone, Copy, PartialEq, Eq, Structural)]
pub enum Section {
    Buffer,
    ScaleFactor,
}

impl Section {
    /// All parts, in the order in which they are shown.
    pub fn list() -> (sections: Vec<Section>)
        ensures
            sections@ == seq![Section::Buffer, Section::ScaleFactor],
    {
        let mut sections: Vec<Section> = Vec::new();
        sections.push(Section::Buffer);
        sections.push(Section::ScaleFactor);
        assert(sections@ =~= seq![Section::Buffer, Section::ScaleFactor]);
        sections
    }
}

/// What the user does in the window.
#[derive(Debug, Clone, Copy, PartialEq, Eq, Structural)]
pub enum Message {
    Open(Section),
}

/// What comes of it for the rest of the program: so far nothing, and nothing makes one.
#[derive(Debug, Clone, Copy)]
pub struct Event {
    unmade: (),
}

/// By what a window is known.
#[derive(Debug, Clone, Copy, PartialEq, Eq, Structural)]
pub struct WindowId(pub u64);

/// The window.
#[derive(Debug, Clone, Copy)]
pub struct Settings {
    pub window: WindowId,
}

impl Settings {
    /// Takes in what the user does.
    pub fn update(&mut self, message: Message) -> (event: Option<Event>)
        ensures
            *final(self) == *old(self),
            event is None,
    {
        match message {
            Message::Open(_) => None,
        }
    }
}

} // verus!
