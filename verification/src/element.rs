//! Elements matched against selectors.
//!
//! An element carries a name (or pseudo-element kind), an optional id, a
//! class set, a pseudo-class set and an attribute map. It is built by the
//! caller for each compute call and never changed by the engine.

use vstd::prelude::*;

use crate::values::str_eq;

verus! {

/// A pseudo-class state an element may carry, such as `:hover`.
///
/// `Other` holds the written form of any further pseudo-class, colon
/// included.
#[derive(Clone, Debug, PartialEq, Eq)]
pub enum PseudoClass {
    Hover,
    Active,
    Focus,
    FocusVisible,
    FocusWithin,
    Enabled,
    Disabled,
    Checked,
    Link,
    Visited,
    Target,
    Other(String),
}

impl PseudoClass {
    /// The written form of this pseudo-class, `:` included.
    pub open spec fn css_view(self) -> Seq<char> {
        match self {
            PseudoClass::Hover => ":hover"@,
            PseudoClass::Active => ":active"@,
            PseudoClass::Focus => ":focus"@,
            PseudoClass::FocusVisible => ":focus-visible"@,
            PseudoClass::FocusWithin => ":focus-within"@,
            PseudoClass::Enabled => ":enabled"@,
            PseudoClass::Disabled => ":disabled"@,
            PseudoClass::Checked => ":checked"@,
            PseudoClass::Link => ":link"@,
            PseudoClass::Visited => ":visited"@,
            PseudoClass::Target => ":target"@,
            PseudoClass::Other(s) => s@,
        }
    }

    /// Whether this pseudo-class is written `s`.
    pub fn matches_css(&self, s: &str) -> (r: bool)
        ensures
            r == (self.css_view() == s@),
    {
        match self {
            PseudoClass::Hover => str_eq(":hover", s),
            PseudoClass::Active => str_eq(":active", s),
            PseudoClass::Focus => str_eq(":focus", s),
            PseudoClass::FocusVisible => str_eq(":focus-visible", s),
            PseudoClass::FocusWithin => str_eq(":focus-within", s),
            PseudoClass::Enabled => str_eq(":enabled", s),
            PseudoClass::Disabled => str_eq(":disabled", s),
            PseudoClass::Checked => str_eq(":checked", s),
            PseudoClass::Link => str_eq(":link", s),
            PseudoClass::Visited => str_eq(":visited", s),
            PseudoClass::Target => str_eq(":target", s),
            PseudoClass::Other(t) => str_eq(t.as_str(), s),
        }
    }
}

impl DeepView for PseudoClass {
    type V = Seq<char>;

    open spec fn deep_view(&self) -> Seq<char> {
        self.css_view()
    }
}

/// A pseudo-element kind, such as `::before`.
#[derive(Clone, Debug, PartialEq, Eq)]
pub enum PseudoElement {
    Before,
    After,
    FirstLine,
    FirstLetter,
    Marker,
    Selection,
    Other(String),
}

impl PseudoElement {
    /// The written form of this pseudo-element, `::` included.
    pub open spec fn css_view(self) -> Seq<char> {
        match self {
            PseudoElement::Before => "::before"@,
            PseudoElement::After => "::after"@,
            PseudoElement::FirstLine => "::first-line"@,
            PseudoElement::FirstLetter => "::first-letter"@,
            PseudoElement::Marker => "::marker"@,
            PseudoElement::Selection => "::selection"@,
            PseudoElement::Other(s) => s@,
        }
    }

    /// Whether this pseudo-element is written `s`.
    pub fn matches_css(&self, s: &str) -> (r: bool)
        ensures
            r == (self.css_view() == s@),
    {
        match self {
            PseudoElement::Before => str_eq("::before", s),
            PseudoElement::After => str_eq("::after", s),
            PseudoElement::FirstLine => str_eq("::first-line", s),
            PseudoElement::FirstLetter => str_eq("::first-letter", s),
            PseudoElement::Marker => str_eq("::marker", s),
            PseudoElement::Selection => str_eq("::selection", s),
            PseudoElement::Other(t) => str_eq(t.as_str(), s),
        }
    }
}

/// What an element is called: a pseudo-element, a named element, or nothing.
#[derive(Clone, Debug)]
pub enum ElementName {
    Pseudo(PseudoElement),
    Named(String),
    Unnamed,
}

/// The mathematical shape of an element name; pseudo-elements are carried
/// by their written form.
pub enum NameV {
    Pseudo(Seq<char>),
    Named(Seq<char>),
    Unnamed,
}

impl DeepView for ElementName {
    type V = NameV;

    open spec fn deep_view(&self) -> NameV {
        match self {
            ElementName::Pseudo(p) => NameV::Pseudo(p.css_view()),
            ElementName::Named(s) => NameV::Named(s@),
            ElementName::Unnamed => NameV::Unnamed,
        }
    }
}

/// The mathematical shape of an element.
pub struct ElementV {
    pub is_root: bool,
    pub name: NameV,
    pub id: Option<Seq<char>>,
    pub classes: Seq<Seq<char>>,
    pub pseudo_classes: Seq<Seq<char>>,
    pub attributes: Seq<(Seq<char>, Seq<char>)>,
}

/// Object that can be matched against a selector.
#[derive(Clone, Debug)]
pub struct Element {
    pub(crate) is_root: bool,
    pub(crate) name: ElementName,
    pub(crate) id: Option<String>,
    pub(crate) classes: Vec<String>,
    pub(crate) pseudo_classes: Vec<PseudoClass>,
    pub(crate) attributes: Vec<(String, String)>,
}

impl View for Element {
    type V = ElementV;

    closed spec fn view(&self) -> ElementV {
        ElementV {
            is_root: self.is_root,
            name: self.name.deep_view(),
            id: match self.id {
                Some(ref s) => Some(s@),
                None => None,
            },
            classes: self.classes.deep_view(),
            pseudo_classes: self.pseudo_classes.deep_view(),
            attributes: self.attributes.deep_view(),
        }
    }
}

impl ElementV {
    /// An element with nothing set.
    pub open spec fn empty() -> ElementV {
        ElementV {
            is_root: false,
            name: NameV::Unnamed,
            id: None,
            classes: Seq::empty(),
            pseudo_classes: Seq::empty(),
            attributes: Seq::empty(),
        }
    }
}

impl Element {
    /// Element with no name.
    pub fn unamed() -> (e: Element)
        ensures
            e@ == ElementV::empty(),
    {
        let e = Element {
            is_root: false,
            name: ElementName::Unnamed,
            id: None,
            classes: Vec::new(),
            pseudo_classes: Vec::new(),
            attributes: Vec::new(),
        };
        proof {
            assert(e@.classes =~= Seq::<Seq<char>>::empty());
            assert(e@.pseudo_classes =~= Seq::<Seq<char>>::empty());
            assert(e@.attributes =~= Seq::<(Seq<char>, Seq<char>)>::empty());
        }
        e
    }

    /// Pseudo element.
    pub fn pseudo(pseudo: PseudoElement) -> (e: Element)
        ensures
            e@ == (ElementV { name: NameV::Pseudo(pseudo.css_view()), ..ElementV::empty() }),
    {
        let mut e = Element::unamed();
        e.name = ElementName::Pseudo(pseudo);
        e
    }

    /// Named element. Matches against: `name {}`.
    pub fn named(name: &str) -> (e: Element)
        ensures
            e@ == (ElementV { name: NameV::Named(name@), ..ElementV::empty() }),
    {
        let mut e = Element::unamed();
        e.name = ElementName::Named(name.to_owned());
        e
    }

    /// `:root` element.
    pub fn root() -> (e: Element)
        ensures
            e@ == (ElementV { is_root: true, ..ElementV::empty() }),
    {
        let mut e = Element::unamed();
        e.is_root = true;
        e
    }

    /// `::before` pseudo element.
    pub fn before() -> (e: Element)
        ensures
            e@ == (ElementV {
                name: NameV::Pseudo(PseudoElement::Before.css_view()),
                ..ElementV::empty()
            }),
    {
        Element::pseudo(PseudoElement::Before)
    }

    /// `::after` pseudo element.
    pub fn after() -> (e: Element)
        ensures
            e@ == (ElementV {
                name: NameV::Pseudo(PseudoElement::After.css_view()),
                ..ElementV::empty()
            }),
    {
        Element::pseudo(PseudoElement::After)
    }

    /// Set element's id. Matches against `#name {}`.
    pub fn id(self, id: &str) -> (e: Element)
        ensures
            e@ == (ElementV { id: Some(id@), ..self@ }),
    {
        let mut e = self;
        e.id = Some(id.to_owned());
        e
    }

    /// Add attribute to element. A later value for the same name wins.
    pub fn attribute(self, name: &str, value: &str) -> (e: Element)
        ensures
            e@ == (ElementV { attributes: self@.attributes.push((name@, value@)), ..self@ }),
    {
        let ghost old_view = self@;
        let mut e = self;
        e.attributes.push((name.to_owned(), value.to_owned()));
        proof {
            assert(e@.attributes =~= old_view.attributes.push((name@, value@)));
        }
        e
    }

    /// Add class to element; adding a class twice keeps one copy.
    pub fn class(self, name: &str) -> (e: Element)
        ensures
            e@ == (ElementV {
                classes: if self@.classes.contains(name@) {
                    self@.classes
                } else {
                    self@.classes.push(name@)
                },
                ..self@
            }),
    {
        let ghost old_view = self@;
        let n: String = name.to_owned();
        let mut found = false;
        let mut i: usize = 0;
        let len = self.classes.len();
        while i < len
            invariant_except_break
                i <= len,
                len == self.classes.len(),
                n@ == name@,
                !found,
                forall|j: int| 0 <= j < i ==> self.classes.deep_view()[j] != name@,
            ensures
                len == self.classes.len(),
                n@ == name@,
                found == self@.classes.contains(name@),
            decreases len - i,
        {
            if self.classes[i] == n {
                proof {
                    assert(self.classes.deep_view()[i as int] == name@);
                }
                found = true;
                break;
            }
            proof {
                assert(self.classes.deep_view()[i as int] == self.classes[i as int]@);
            }
            i = i + 1;
        }
        let mut e = self;
        if !found {
            e.classes.push(n);
            proof {
                assert(e@.classes =~= old_view.classes.push(name@));
            }
        }
        e
    }

    /// Add pseudo class to element.
    pub fn pseudo_class(self, class: PseudoClass) -> (e: Element)
        ensures
            e@ == (ElementV {
                pseudo_classes: self@.pseudo_classes.push(class.css_view()),
                ..self@
            }),
    {
        let ghost old_view = self@;
        let ghost class_view = class.css_view();
        let mut e = self;
        e.pseudo_classes.push(class);
        proof {
            assert(e@.pseudo_classes =~= old_view.pseudo_classes.push(class_view));
        }
        e
    }
}

/// The value of the last attribute named `name`, if any: a later write to
/// the same attribute name wins.
pub open spec fn attr_lookup(attrs: Seq<(Seq<char>, Seq<char>)>, name: Seq<char>) -> Option<
    Seq<char>,
>
    decreases attrs.len(),
{
    if attrs.len() == 0 {
        None
    } else if attrs.last().0 == name {
        Some(attrs.last().1)
    } else {
        attr_lookup(attrs.drop_last(), name)
    }
}

impl Element {
    /// Whether the element is a named element called `name`.
    pub fn has_local_name(&self, name: &str) -> (r: bool)
        ensures
            r == (self@.name == NameV::Named(name@)),
    {
        match &self.name {
            ElementName::Named(n) => str_eq(n.as_str(), name),
            _ => false,
        }
    }

    /// Whether the element's id is exactly `id`.
    pub fn has_id(&self, id: &str) -> (r: bool)
        ensures
            r == (self@.id == Some(id@)),
    {
        match &self.id {
            Some(i) => str_eq(i.as_str(), id),
            None => false,
        }
    }

    /// Whether the element carries the class `name`.
    pub fn has_class(&self, name: &str) -> (r: bool)
        ensures
            r == self@.classes.contains(name@),
    {
        let len = self.classes.len();
        let mut i: usize = 0;
        while i < len
            invariant_except_break
                i <= len,
                len == self.classes.len(),
                forall|j: int| 0 <= j < i ==> self.classes.deep_view()[j] != name@,
            ensures
                len == self.classes.len(),
                (i < len && self.classes.deep_view()[i as int] == name@) || (i == len && forall|
                    j: int,
                |
                    0 <= j < len ==> self.classes.deep_view()[j] != name@),
            decreases len - i,
        {
            if str_eq(self.classes[i].as_str(), name) {
                proof {
                    assert(self.classes.deep_view()[i as int] == name@);
                }
                break;
            }
            proof {
                assert(self.classes.deep_view()[i as int] == self.classes[i as int]@);
            }
            i = i + 1;
        }
        i < len
    }

    /// Whether the element carries the attribute `name`, with any value.
    pub fn has_attribute(&self, name: &str) -> (r: bool)
        ensures
            r == (attr_lookup(self@.attributes, name@) is Some),
    {
        let len = self.attributes.len();
        let mut i: usize = len;
        proof {
            assert(self.attributes.deep_view().take(len as int) =~= self@.attributes);
        }
        while i > 0
            invariant_except_break
                i <= len,
                len == self.attributes.len(),
                attr_lookup(self@.attributes, name@) == attr_lookup(
                    self.attributes.deep_view().take(i as int),
                    name@,
                ),
            ensures
                i <= len,
                len == self.attributes.len(),
                i > 0 ==> (attr_lookup(self@.attributes, name@) matches Some(v) && v
                    == self.attributes.deep_view()[i - 1].1),
                i == 0 ==> attr_lookup(self@.attributes, name@) is None,
            decreases i,
        {
            proof {
                let pre = self.attributes.deep_view().take(i as int);
                assert(pre.last() == self.attributes.deep_view()[i - 1]);
                assert(self.attributes.deep_view()[i - 1] == (
                self.attributes[i - 1].0@,
                self.attributes[i - 1].1@,
                ));
                assert(pre.drop_last() =~= self.attributes.deep_view().take(i - 1));
            }
            if str_eq(self.attributes[i - 1].0.as_str(), name) {
                break;
            }
            i = i - 1;
            proof {
                if i == 0 {
                    assert(self.attributes.deep_view().take(0) =~= Seq::<(
                        Seq<char>,
                        Seq<char>,
                    )>::empty());
                }
            }
        }
        proof {
            if i == len && len > 0 {
                assert(self@.attributes =~= self.attributes.deep_view().take(len as int));
            }
        }
        i > 0
    }

    /// Whether the element carries the attribute `name` with exactly the
    /// value `value`.
    pub fn attribute_equals(&self, name: &str, value: &str) -> (r: bool)
        ensures
            r == (attr_lookup(self@.attributes, name@) == Some(value@)),
    {
        let len = self.attributes.len();
        let mut i: usize = len;
        proof {
            assert(self.attributes.deep_view().take(len as int) =~= self@.attributes);
        }
        while i > 0
            invariant_except_break
                i <= len,
                len == self.attributes.len(),
                attr_lookup(self@.attributes, name@) == attr_lookup(
                    self.attributes.deep_view().take(i as int),
                    name@,
                ),
            ensures
                i <= len,
                len == self.attributes.len(),
                i > 0 ==> (attr_lookup(self@.attributes, name@) matches Some(v) && v
                    == self.attributes.deep_view()[i - 1].1 && self.attributes.deep_view()[i
                    - 1].1 == self.attributes@[i - 1].1@),
                i == 0 ==> attr_lookup(self@.attributes, name@) is None,
            decreases i,
        {
            proof {
                let pre = self.attributes.deep_view().take(i as int);
                assert(pre.last() == self.attributes.deep_view()[i - 1]);
                assert(self.attributes.deep_view()[i - 1] == (
                self.attributes[i - 1].0@,
                self.attributes[i - 1].1@,
                ));
                assert(pre.drop_last() =~= self.attributes.deep_view().take(i - 1));
            }
            if str_eq(self.attributes[i - 1].0.as_str(), name) {
                break;
            }
            i = i - 1;
            proof {
                if i == 0 {
                    assert(self.attributes.deep_view().take(0) =~= Seq::<(
                        Seq<char>,
                        Seq<char>,
                    )>::empty());
                }
            }
        }
        proof {
            if i == len && len > 0 {
                assert(self@.attributes =~= self.attributes.deep_view().take(len as int));
            }
        }
        if i > 0 {
            str_eq(self.attributes[i - 1].1.as_str(), value)
        } else {
            false
        }
    }

    /// Whether the element carries the pseudo-class written `s`.
    pub fn has_pseudo_class_css(&self, s: &str) -> (r: bool)
        ensures
            r == self@.pseudo_classes.contains(s@),
    {
        let len = self.pseudo_classes.len();
        let mut i: usize = 0;
        while i < len
            invariant_except_break
                i <= len,
                len == self.pseudo_classes.len(),
                forall|j: int| 0 <= j < i ==> self.pseudo_classes.deep_view()[j] != s@,
            ensures
                len == self.pseudo_classes.len(),
                (i < len && self.pseudo_classes.deep_view()[i as int] == s@) || (i == len
                    && forall|j: int| 0 <= j < len ==> self.pseudo_classes.deep_view()[j] != s@),
            decreases len - i,
        {
            if self.pseudo_classes[i].matches_css(s) {
                proof {
                    assert(self.pseudo_classes.deep_view()[i as int] == s@);
                }
                break;
            }
            proof {
                assert(self.pseudo_classes.deep_view()[i as int] == self.pseudo_classes[
                i as int].css_view());
            }
            i = i + 1;
        }
        i < len
    }

    /// Whether the element is the pseudo-element written `s`.
    pub fn pseudo_element_is(&self, s: &str) -> (r: bool)
        ensures
            r == (self@.name == NameV::Pseudo(s@)),
    {
        match &self.name {
            ElementName::Pseudo(p) => p.matches_css(s),
            _ => false,
        }
    }

    /// Whether the element is the `:root` element.
    pub fn is_root(&self) -> (r: bool)
        ensures
            r == self@.is_root,
    {
        self.is_root
    }
}

} // verus!
