//! The component logs that Hearthstone writes into one session directory.

use vstd::prelude::*;

use crate::text;

verus! {

/// One component log of a session.
#[derive(Clone, Copy, Debug, PartialEq, Eq, PartialOrd, Ord, Structural)]
pub enum LogComponent {
    LoadingScreen,
    Power,
    Zone,
    Arena,
    Asset,
}

/// The component logs that are tailed, in order.
pub const REQUIRED_COMPONENTS: [LogComponent; 5] = [
    LogComponent::LoadingScreen,
    LogComponent::Power,
    LogComponent::Zone,
    LogComponent::Arena,
    LogComponent::Asset,
];

/// The name of a component without its extension.
pub open spec fn stem(c: LogComponent) -> Seq<char> {
    match c {
        LogComponent::LoadingScreen => "LoadingScreen"@,
        LogComponent::Power => "Power"@,
        LogComponent::Zone => "Zone"@,
        LogComponent::Arena => "Arena"@,
        LogComponent::Asset => "Asset"@,
    }
}

/// The file name of a component log.
pub open spec fn filename_of(c: LogComponent) -> Seq<char> {
    match c {
        LogComponent::LoadingScreen => "LoadingScreen.log"@,
        LogComponent::Power => "Power.log"@,
        LogComponent::Zone => "Zone.log"@,
        LogComponent::Arena => "Arena.log"@,
        LogComponent::Asset => "Asset.log"@,
    }
}

/// A text without the given suffix, where it ends in it.
pub open spec fn without_suffix(s: Seq<char>, suffix: Seq<char>) -> Seq<char> {
    if text::occurs_at(s, suffix, s.len() - suffix.len()) {
        s.take(s.len() - suffix.len())
    } else {
        s
    }
}

/// The component with the given stem.
pub open spec fn component_of_stem(s: Seq<char>) -> Option<LogComponent> {
    if s == "LoadingScreen"@ {
        Some(LogComponent::LoadingScreen)
    } else if s == "Power"@ {
        Some(LogComponent::Power)
    } else if s == "Zone"@ {
        Some(LogComponent::Zone)
    } else if s == "Arena"@ {
        Some(LogComponent::Arena)
    } else if s == "Asset"@ {
        Some(LogComponent::Asset)
    } else {
        None
    }
}

impl LogComponent {
    /// The position of the component in `REQUIRED_COMPONENTS`.
    pub open spec fn rank(self) -> int {
        match self {
            LogComponent::LoadingScreen => 0,
            LogComponent::Power => 1,
            LogComponent::Zone => 2,
            LogComponent::Arena => 3,
            LogComponent::Asset => 4,
        }
    }

    /// The position of the component in `REQUIRED_COMPONENTS`.
    pub fn index(self) -> (r: usize)
        ensures
            r == self.rank(),
            REQUIRED_COMPONENTS@[r as int] == self,
    {
        match self {
            LogComponent::LoadingScreen => 0,
            LogComponent::Power => 1,
            LogComponent::Zone => 2,
            LogComponent::Arena => 3,
            LogComponent::Asset => 4,
        }
    }

    /// The file name of the component log.
    pub fn filename(self) -> (r: &'static str)
        ensures
            r@ == filename_of(self),
    {
        match self {
            LogComponent::LoadingScreen => "LoadingScreen.log",
            LogComponent::Power => "Power.log",
            LogComponent::Zone => "Zone.log",
            LogComponent::Arena => "Arena.log",
            LogComponent::Asset => "Asset.log",
        }
    }

    /// The component that a file name stands for, with or without the `.log` extension.
    pub fn from_filename(filename: &str) -> (r: Option<LogComponent>)
        ensures
            r == component_of_stem(without_suffix(filename@, ".log"@)),
    {
        let name = text::chars_of(filename);
        let suffix = text::chars_of(".log");
        let mut end: usize = name.len();
        if suffix.len() <= name.len() && text::chars_at(
            name.as_slice(),
            suffix.as_slice(),
            name.len() - suffix.len(),
        ) {
            end = name.len() - suffix.len();
        }
        let kept = vstd::slice::slice_subrange(name.as_slice(), 0, end);
        assert(kept@ =~= without_suffix(filename@, ".log"@));
        let stem = text::string_of(kept);
        if text::str_eq(stem.as_str(), "LoadingScreen") {
            Some(LogComponent::LoadingScreen)
        } else if text::str_eq(stem.as_str(), "Power") {
            Some(LogComponent::Power)
        } else if text::str_eq(stem.as_str(), "Zone") {
            Some(LogComponent::Zone)
        } else if text::str_eq(stem.as_str(), "Arena") {
            Some(LogComponent::Arena)
        } else if text::str_eq(stem.as_str(), "Asset") {
            Some(LogComponent::Asset)
        } else {
            None
        }
    }
}

/// The file name of a component names that component again.
pub proof fn filename_names_its_component(c: LogComponent)
    ensures
        component_of_stem(without_suffix(filename_of(c), ".log"@)) == Some(c),
{
    reveal_strlit(".log");
    reveal_strlit("LoadingScreen.log");
    reveal_strlit("Power.log");
    reveal_strlit("Zone.log");
    reveal_strlit("Arena.log");
    reveal_strlit("Asset.log");
    reveal_strlit("LoadingScreen");
    reveal_strlit("Power");
    reveal_strlit("Zone");
    reveal_strlit("Arena");
    reveal_strlit("Asset");
    let f = filename_of(c);
    let n = f.len() - 4;
    assert(f.subrange(n, n + 4) =~= ".log"@);
    assert(f.take(n) =~= stem(c));
    let s = stem(c);
    assert("LoadingScreen"@.len() == 13);
    assert("Power"@.len() == 5);
    assert("Zone"@.len() == 4);
    assert("Arena"@[1] == 'r');
    assert("Asset"@[1] == 's');
    assert("Power"@[0] == 'P');
}

/// Whether the parser can produce an event from a record of this component.
pub open spec fn emits_events(c: LogComponent) -> bool {
    c is LoadingScreen || c is Power || c is Arena
}

/// Whether the parser can produce an event from a record of this component. The other
/// components are tailed too, but their records never need to be kept.
pub fn component_can_emit_events(component: LogComponent) -> (r: bool)
    ensures
        r == emits_events(component),
{
    match component {
        LogComponent::LoadingScreen | LogComponent::Power | LogComponent::Arena => true,
        LogComponent::Zone | LogComponent::Asset => false,
    }
}

/// A value for each of some components.
pub struct ComponentMap<T> {
    slots: Vec<Option<T>>,
}

impl<T> ComponentMap<T> {
    /// One slot stands for each component.
    pub closed spec fn wf(&self) -> bool {
        self.slots.len() == 5
    }

    /// The values by component.
    pub closed spec fn entries(&self) -> Map<LogComponent, T> {
        Map::new(
            |c: LogComponent| self.slots@[c.rank()] is Some,
            |c: LogComponent| self.slots@[c.rank()]->0,
        )
    }

    /// A map without values.
    pub fn new() -> (r: Self)
        ensures
            r.wf(),
            r.entries() == Map::<LogComponent, T>::empty(),
    {
        let mut slots: Vec<Option<T>> = Vec::new();
        slots.push(None);
        slots.push(None);
        slots.push(None);
        slots.push(None);
        slots.push(None);
        let r = ComponentMap { slots };
        assert(r.entries() =~= Map::<LogComponent, T>::empty());
        r
    }

    /// The value of a component.
    pub fn get(&self, component: LogComponent) -> (r: Option<&T>)
        requires
            self.wf(),
        ensures
            match r {
                Some(v) => self.entries().contains_key(component) && *v
                    == self.entries()[component],
                None => !self.entries().contains_key(component),
            },
    {
        let i: usize = component.index();
        self.slots[i].as_ref()
    }

    /// Whether the component has a value.
    pub fn contains(&self, component: LogComponent) -> (r: bool)
        requires
            self.wf(),
        ensures
            r == self.entries().contains_key(component),
    {
        let i: usize = component.index();
        self.slots[i].is_some()
    }

    /// Sets the value of a component.
    pub fn insert(&mut self, component: LogComponent, value: T)
        requires
            old(self).wf(),
        ensures
            final(self).wf(),
            final(self).entries() == old(self).entries().insert(component, value),
    {
        let i: usize = component.index();
        self.slots.set(i, Some(value));
        assert(forall|c: LogComponent| #[trigger] c.rank() == component.rank() ==> c == component);
        assert(self.entries() =~= old(self).entries().insert(component, value));
    }

    /// Takes the value of a component out.
    pub fn remove(&mut self, component: LogComponent) -> (r: Option<T>)
        requires
            old(self).wf(),
        ensures
            final(self).wf(),
            final(self).entries() == old(self).entries().remove(component),
            match r {
                Some(v) => old(self).entries().contains_key(component) && v
                    == old(self).entries()[component],
                None => !old(self).entries().contains_key(component),
            },
    {
        let i: usize = component.index();
        let r = self.slots[i].take();
        assert(forall|c: LogComponent| #[trigger] c.rank() == component.rank() ==> c == component);
        assert(self.entries() =~= old(self).entries().remove(component));
        r
    }
}

} // verus!
