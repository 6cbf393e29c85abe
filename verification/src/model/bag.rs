//! The component bag of a node: at most one value of each kind.

use std::collections::HashMap;
use vstd::prelude::*;
use super::visual::{BoxData, DimensionConstraintData, SolvedDimensions, TextData};

verus! {

/// The kinds of data that a node can carry.
#[derive(Debug, Clone, Copy, PartialEq, Eq, Structural)]
pub enum ComponentKind {
    BoxStyle,
    Text,
    Constraint,
    Solved,
}

impl ComponentKind {
    /// The key under which a component of this kind is stored.
    pub open spec fn spec_tag(self) -> u8 {
        match self {
            ComponentKind::BoxStyle => 0,
            ComponentKind::Text => 1,
            ComponentKind::Constraint => 2,
            ComponentKind::Solved => 3,
        }
    }

    /// The key under which a component of this kind is stored.
    #[verifier::when_used_as_spec(spec_tag)]
    pub fn tag(self) -> (t: u8)
        ensures
            t == self.spec_tag(),
    {
        match self {
            ComponentKind::BoxStyle => 0,
            ComponentKind::Text => 1,
            ComponentKind::Constraint => 2,
            ComponentKind::Solved => 3,
        }
    }
}

/// One piece of data attached to a node, tagged with its kind.
#[derive(Debug)]
pub enum Component {
    BoxStyle(BoxData),
    Text(TextData),
    Constraint(DimensionConstraintData),
    Solved(SolvedDimensions),
}

impl Component {
    /// The kind of this component.
    pub open spec fn spec_kind(&self) -> ComponentKind {
        match self {
            Component::BoxStyle(_) => ComponentKind::BoxStyle,
            Component::Text(_) => ComponentKind::Text,
            Component::Constraint(_) => ComponentKind::Constraint,
            Component::Solved(_) => ComponentKind::Solved,
        }
    }

    /// The kind of this component.
    #[verifier::when_used_as_spec(spec_kind)]
    pub fn kind(&self) -> (k: ComponentKind)
        ensures
            k == self.spec_kind(),
    {
        match self {
            Component::BoxStyle(_) => ComponentKind::BoxStyle,
            Component::Text(_) => ComponentKind::Text,
            Component::Constraint(_) => ComponentKind::Constraint,
            Component::Solved(_) => ComponentKind::Solved,
        }
    }
}

/// A type of data that can be attached to a node. Each such type stands for
/// exactly one kind of component and converts to and from it without loss.
pub trait Data: Sized {
    /// The kind under which values of this type are stored.
    spec fn kind() -> ComponentKind;

    /// The component that holds `self`.
    spec fn wrap(self) -> Component;

    /// Wrapping yields a component of this type's kind, and only equal
    /// values wrap to equal components.
    proof fn wrap_is_faithful(a: Self, b: Self)
        ensures
            a.wrap().spec_kind() == Self::kind(),
            a.wrap() == b.wrap() ==> a == b,
    ;

    /// The kind under which values of this type are stored.
    fn kind_of() -> (k: ComponentKind)
        ensures
            k == Self::kind(),
    ;

    /// The component that holds `self`.
    fn into_component(self) -> (c: Component)
        ensures
            c == self.wrap(),
    ;

    /// The value inside `c`, if `c` is of this type's kind.
    fn from_component(c: Component) -> (r: Option<Self>)
        ensures
            r is Some <==> c.spec_kind() == Self::kind(),
            r is Some ==> r->0.wrap() == c,
    ;

    /// A reference to the value inside `c`, if `c` is of this type's kind.
    fn as_data(c: &Component) -> (r: Option<&Self>)
        ensures
            r is Some <==> c.spec_kind() == Self::kind(),
            r is Some ==> r->0.wrap() == *c,
    ;
}

impl Data for BoxData {
    open spec fn kind() -> ComponentKind {
        ComponentKind::BoxStyle
    }

    open spec fn wrap(self) -> Component {
        Component::BoxStyle(self)
    }

    proof fn wrap_is_faithful(a: Self, b: Self) {
    }

    fn kind_of() -> (k: ComponentKind) {
        ComponentKind::BoxStyle
    }

    fn into_component(self) -> (c: Component) {
        Component::BoxStyle(self)
    }

    fn from_component(c: Component) -> (r: Option<Self>) {
        match c {
            Component::BoxStyle(v) => Some(v),
            _ => None,
        }
    }

    fn as_data(c: &Component) -> (r: Option<&Self>) {
        match c {
            Component::BoxStyle(v) => Some(v),
            _ => None,
        }
    }
}

impl Data for TextData {
    open spec fn kind() -> ComponentKind {
        ComponentKind::Text
    }

    open spec fn wrap(self) -> Component {
        Component::Text(self)
    }

    proof fn wrap_is_faithful(a: Self, b: Self) {
    }

    fn kind_of() -> (k: ComponentKind) {
        ComponentKind::Text
    }

    fn into_component(self) -> (c: Component) {
        Component::Text(self)
    }

    fn from_component(c: Component) -> (r: Option<Self>) {
        match c {
            Component::Text(v) => Some(v),
            _ => None,
        }
    }

    fn as_data(c: &Component) -> (r: Option<&Self>) {
        match c {
            Component::Text(v) => Some(v),
            _ => None,
        }
    }
}

impl Data for DimensionConstraintData {
    open spec fn kind() -> ComponentKind {
        ComponentKind::Constraint
    }

    open spec fn wrap(self) -> Component {
        Component::Constraint(self)
    }

    proof fn wrap_is_faithful(a: Self, b: Self) {
    }

    fn kind_of() -> (k: ComponentKind) {
        ComponentKind::Constraint
    }

    fn into_component(self) -> (c: Component) {
        Component::Constraint(self)
    }

    fn from_component(c: Component) -> (r: Option<Self>) {
        match c {
            Component::Constraint(v) => Some(v),
            _ => None,
        }
    }

    fn as_data(c: &Component) -> (r: Option<&Self>) {
        match c {
            Component::Constraint(v) => Some(v),
            _ => None,
        }
    }
}

impl Data for SolvedDimensions {
    open spec fn kind() -> ComponentKind {
        ComponentKind::Solved
    }

    open spec fn wrap(self) -> Component {
        Component::Solved(self)
    }

    proof fn wrap_is_faithful(a: Self, b: Self) {
    }

    fn kind_of() -> (k: ComponentKind) {
        ComponentKind::Solved
    }

    fn into_component(self) -> (c: Component) {
        Component::Solved(self)
    }

    fn from_component(c: Component) -> (r: Option<Self>) {
        match c {
            Component::Solved(v) => Some(v),
            _ => None,
        }
    }

    fn as_data(c: &Component) -> (r: Option<&Self>) {
        match c {
            Component::Solved(v) => Some(v),
            _ => None,
        }
    }
}

/// What `data` holds for `kind`.
pub open spec fn stored(data: Map<ComponentKind, Component>, kind: ComponentKind) -> Option<
    Component,
> {
    if data.contains_key(kind) {
        Some(data[kind])
    } else {
        None
    }
}

/// The components of one node, keyed by kind.
pub struct NodeData {
    slots: HashMap<u8, Component>,
}

impl View for NodeData {
    type V = Map<ComponentKind, Component>;

    /// The component stored for each kind that has one.
    closed spec fn view(&self) -> Map<ComponentKind, Component> {
        Map::new(
            |k: ComponentKind| self.slots@.contains_key(k.spec_tag()),
            |k: ComponentKind| self.slots@[k.spec_tag()],
        )
    }
}

impl NodeData {
    /// Every stored component sits under the key of its own kind.
    pub closed spec fn wf(&self) -> bool {
        forall|t: u8| #[trigger]
            self.slots@.contains_key(t) ==> self.slots@[t].spec_kind().spec_tag() == t
    }

    /// In a well-formed bag, what is stored for a kind is of that kind.
    pub proof fn lemma_kinds_match(&self, k: ComponentKind)
        requires
            self.wf(),
            self@.contains_key(k),
        ensures
            self@[k].spec_kind() == k,
    {
    }

    /// Checks that every stored component sits under the key of its own
    /// kind.
    pub fn is_wf(&self) -> (b: bool)
        ensures
            b == self.wf(),
    {
        let mut n: u16 = 0;
        while n < 256
            invariant
                n <= 256,
                forall|t: u8|
                    t < n && #[trigger] self.slots@.contains_key(t) ==> self.slots@[t].spec_kind().spec_tag()
                        == t,
            decreases 256 - n,
        {
            let t = n as u8;
            match self.slots.get(&t) {
                Some(c) => {
                    if c.kind().tag() != t {
                        assert(self.slots@.contains_key(t));
                        return false;
                    }
                },
                None => {},
            }
            n = n + 1;
        }
        true
    }

    /// A bag without components.
    pub fn new() -> (bag: NodeData)
        ensures
            bag@ == Map::<ComponentKind, Component>::empty(),
            bag.wf(),
    {
        let bag = NodeData { slots: HashMap::new() };
        assert(bag@ =~= Map::<ComponentKind, Component>::empty());
        bag
    }

    /// Stores `c` under its kind and hands back what was stored there before.
    pub fn insert(&mut self, c: Component) -> (prev: Option<Component>)
        requires
            old(self).wf(),
        ensures
            final(self).wf(),
            final(self)@ == old(self)@.insert(c.spec_kind(), c),
            prev == stored(old(self)@, c.spec_kind()),
    {
        let t = c.kind().tag();
        let prev = self.slots.insert(t, c);
        assert(self@ =~= old(self)@.insert(c.spec_kind(), c));
        prev
    }

    /// The component stored for `kind`, if there is one.
    pub fn get(&self, kind: ComponentKind) -> (r: Option<&Component>)
        requires
            self.wf(),
        ensures
            r is Some <==> stored(self@, kind) is Some,
            r is Some ==> stored(self@, kind) == Some(*r->0) && r->0.spec_kind() == kind,
    {
        let t = kind.tag();
        self.slots.get(&t)
    }

    /// Takes out the component stored for `kind`, if there is one.
    pub fn remove(&mut self, kind: ComponentKind) -> (prev: Option<Component>)
        requires
            old(self).wf(),
        ensures
            final(self).wf(),
            final(self)@ == old(self)@.remove(kind),
            prev == stored(old(self)@, kind),
    {
        let t = kind.tag();
        let prev = self.slots.remove(&t);
        assert(self@ =~= old(self)@.remove(kind));
        prev
    }
}

} // verus!
