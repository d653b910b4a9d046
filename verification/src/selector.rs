//! Compiled selectors and their matching against elements.
//!
//! A selector is a conjunction of simple components, compiled from the
//! parsed stylesheet. Components this engine does not support (combinators,
//! unusual attribute operators, structural pseudo-classes) never match, so
//! selectors relying on them degrade to non-matches rather than erroring.

use vstd::prelude::*;

use crate::element::{attr_lookup, Element, ElementV, NameV};
use crate::values::{chars_eq_str, chars_of, copy_range, ident_run, ident_run_from, is_ident_char, lemma_ident_run, string_from_chars};

verus! {

/// One simple selector component; the whole selector matches an element
/// when every component does.
#[derive(Clone, Debug, PartialEq, Eq)]
pub enum SelectorPart {
    /// A type selector such as `hbox`.
    LocalName(String),
    /// An id selector such as `#foo`.
    Id(String),
    /// A class selector such as `.bar`.
    Class(String),
    /// The universal selector `*`; always matches.
    Universal,
    /// `[name]`: the attribute exists.
    AttrExists(String),
    /// `[name=value]`: the attribute has exactly this value.
    AttrEquals(String, String),
    /// An attribute selector with an unsupported operator; never matches.
    AttrOther(String),
    /// A pseudo-class by its written form, such as `:hover`.
    Pseudo(String),
    /// A pseudo-element by its written form, such as `::before`.
    PseudoElt(String),
    /// The `:root` pseudo-class.
    Root,
    /// Anything this engine does not support; never matches.
    Unsupported,
}

/// The mathematical shape of a component.
pub enum SelectorPartV {
    LocalName(Seq<char>),
    Id(Seq<char>),
    Class(Seq<char>),
    Universal,
    AttrExists(Seq<char>),
    AttrEquals(Seq<char>, Seq<char>),
    AttrOther(Seq<char>),
    Pseudo(Seq<char>),
    PseudoElt(Seq<char>),
    Root,
    Unsupported,
}

impl DeepView for SelectorPart {
    type V = SelectorPartV;

    open spec fn deep_view(&self) -> SelectorPartV {
        match self {
            SelectorPart::LocalName(s) => SelectorPartV::LocalName(s@),
            SelectorPart::Id(s) => SelectorPartV::Id(s@),
            SelectorPart::Class(s) => SelectorPartV::Class(s@),
            SelectorPart::Universal => SelectorPartV::Universal,
            SelectorPart::AttrExists(s) => SelectorPartV::AttrExists(s@),
            SelectorPart::AttrEquals(n, v) => SelectorPartV::AttrEquals(n@, v@),
            SelectorPart::AttrOther(s) => SelectorPartV::AttrOther(s@),
            SelectorPart::Pseudo(s) => SelectorPartV::Pseudo(s@),
            SelectorPart::PseudoElt(s) => SelectorPartV::PseudoElt(s@),
            SelectorPart::Root => SelectorPartV::Root,
            SelectorPart::Unsupported => SelectorPartV::Unsupported,
        }
    }
}

/// A compiled selector: a conjunction of simple components.
#[derive(Clone, Debug, PartialEq, Eq)]
pub struct CompiledSelector {
    pub components: Vec<SelectorPart>,
}

/// The mathematical shape of a selector.
pub struct SelectorV {
    pub components: Seq<SelectorPartV>,
}

impl DeepView for CompiledSelector {
    type V = SelectorV;

    open spec fn deep_view(&self) -> SelectorV {
        SelectorV { components: self.components.deep_view() }
    }
}

/// Whether one component holds of an element.
pub open spec fn component_matches(c: SelectorPartV, e: ElementV) -> bool {
    match c {
        SelectorPartV::LocalName(n) => e.name == NameV::Named(n),
        SelectorPartV::Id(i) => e.id == Some(i),
        SelectorPartV::Class(n) => e.classes.contains(n),
        SelectorPartV::Universal => true,
        SelectorPartV::AttrExists(n) => attr_lookup(e.attributes, n) is Some,
        SelectorPartV::AttrEquals(n, v) => attr_lookup(e.attributes, n) == Some(v),
        SelectorPartV::AttrOther(_) => false,
        SelectorPartV::Pseudo(s) => e.pseudo_classes.contains(s),
        SelectorPartV::PseudoElt(s) => e.name == NameV::Pseudo(s),
        SelectorPartV::Root => e.is_root,
        SelectorPartV::Unsupported => false,
    }
}

/// Whether a selector matches an element: every component holds.
pub open spec fn selector_matches(s: SelectorV, e: ElementV) -> bool {
    forall|i: int| 0 <= i < s.components.len() ==> component_matches(#[trigger] s.components[i], e)
}

impl SelectorPart {
    /// Whether this component holds of `e`; exactly [`component_matches`].
    pub fn matches_element(&self, e: &Element) -> (r: bool)
        ensures
            r == component_matches(self.deep_view(), e@),
    {
        match self {
            SelectorPart::LocalName(n) => e.has_local_name(n.as_str()),
            SelectorPart::Id(i) => e.has_id(i.as_str()),
            SelectorPart::Class(n) => e.has_class(n.as_str()),
            SelectorPart::Universal => true,
            SelectorPart::AttrExists(n) => e.has_attribute(n.as_str()),
            SelectorPart::AttrEquals(n, v) => e.attribute_equals(n.as_str(), v.as_str()),
            SelectorPart::AttrOther(_) => false,
            SelectorPart::Pseudo(s) => e.has_pseudo_class_css(s.as_str()),
            SelectorPart::PseudoElt(s) => e.pseudo_element_is(s.as_str()),
            SelectorPart::Root => e.is_root(),
            SelectorPart::Unsupported => false,
        }
    }
}

impl CompiledSelector {
    /// Whether this selector matches `e`; exactly [`selector_matches`].
    pub fn matches_element(&self, e: &Element) -> (r: bool)
        ensures
            r == selector_matches(self.deep_view(), e@),
    {
        let len = self.components.len();
        let mut i: usize = 0;
        while i < len
            invariant_except_break
                i <= len,
                len == self.components.len(),
                forall|j: int|
                    0 <= j < i ==> component_matches(
                        #[trigger] self.components.deep_view()[j],
                        e@,
                    ),
            ensures
                len == self.components.len(),
                (i == len && forall|j: int|
                    0 <= j < len ==> component_matches(
                        #[trigger] self.components.deep_view()[j],
                        e@,
                    )) || (i < len && !component_matches(
                    self.components.deep_view()[i as int],
                    e@,
                )),
            decreases len - i,
        {
            if !self.components[i].matches_element(e) {
                proof {
                    assert(self.components.deep_view()[i as int] == self.components[
                    i as int].deep_view());
                }
                break;
            }
            proof {
                assert(self.components.deep_view()[i as int] == self.components[
                i as int].deep_view());
            }
            i = i + 1;
        }
        proof {
            if i == len {
                assert forall|j: int| 0 <= j < self.deep_view().components.len() implies
                    component_matches(#[trigger] self.deep_view().components[j], e@) by {
                    assert(self.deep_view().components[j] == self.components.deep_view()[j]);
                }
            } else {
                assert(!component_matches(self.deep_view().components[i as int], e@));
            }
        }
        i == len
    }

    /// The selector's specificity; exactly [`spec_specificity`].
    pub fn specificity(&self) -> (r: u32)
        ensures
            r == spec_specificity(self.deep_view()),
    {
        let len = self.components.len();
        let mut ids: u64 = 0;
        let mut classes: u64 = 0;
        let mut types: u64 = 0;
        let mut i: usize = 0;
        proof {
            assert(self.components.deep_view().take(0) =~= Seq::<SelectorPartV>::empty());
        }
        while i < len
            invariant
                i <= len,
                len == self.components.len(),
                ids == id_count(self.components.deep_view().take(i as int)),
                classes == class_count(self.components.deep_view().take(i as int)),
                types == type_count(self.components.deep_view().take(i as int)),
                ids <= i && classes <= i && types <= i,
            decreases len - i,
        {
            proof {
                let pre = self.components.deep_view().take(i + 1);
                assert(pre.drop_last() =~= self.components.deep_view().take(i as int));
                assert(pre.last() == self.components.deep_view()[i as int]);
                assert(self.components.deep_view()[i as int] == self.components[
                i as int].deep_view());
            }
            match &self.components[i] {
                SelectorPart::Id(_) => ids = ids + 1,
                SelectorPart::Class(_) => classes = classes + 1,
                SelectorPart::AttrExists(_) => classes = classes + 1,
                SelectorPart::AttrEquals(_, _) => classes = classes + 1,
                SelectorPart::AttrOther(_) => classes = classes + 1,
                SelectorPart::Pseudo(_) => classes = classes + 1,
                SelectorPart::Root => classes = classes + 1,
                SelectorPart::LocalName(_) => types = types + 1,
                SelectorPart::PseudoElt(_) => types = types + 1,
                SelectorPart::Universal => (),
                SelectorPart::Unsupported => (),
            }
            i = i + 1;
        }
        proof {
            assert(self.components.deep_view().take(len as int) =~= self.components.deep_view());
        }
        let a: u32 = if ids > 1023 { 1023 } else { ids as u32 };
        let b: u32 = if classes > 1023 { 1023 } else { classes as u32 };
        let c: u32 = if types > 1023 { 1023 } else { types as u32 };
        a * 1048576 + b * 1024 + c
    }
}

/// How many id components a selector holds.
pub open spec fn id_count(s: Seq<SelectorPartV>) -> int
    decreases s.len(),
{
    if s.len() == 0 {
        0
    } else {
        id_count(s.drop_last()) + match s.last() {
            SelectorPartV::Id(_) => 1int,
            _ => 0int,
        }
    }
}

/// How many class-like components (classes, attributes, pseudo-classes,
/// `:root`) a selector holds.
pub open spec fn class_count(s: Seq<SelectorPartV>) -> int
    decreases s.len(),
{
    if s.len() == 0 {
        0
    } else {
        class_count(s.drop_last()) + match s.last() {
            SelectorPartV::Class(_) => 1int,
            SelectorPartV::AttrExists(_) => 1int,
            SelectorPartV::AttrEquals(_, _) => 1int,
            SelectorPartV::AttrOther(_) => 1int,
            SelectorPartV::Pseudo(_) => 1int,
            SelectorPartV::Root => 1int,
            _ => 0int,
        }
    }
}

/// How many type-like components (type names, pseudo-elements) a selector
/// holds.
pub open spec fn type_count(s: Seq<SelectorPartV>) -> int
    decreases s.len(),
{
    if s.len() == 0 {
        0
    } else {
        type_count(s.drop_last()) + match s.last() {
            SelectorPartV::LocalName(_) => 1int,
            SelectorPartV::PseudoElt(_) => 1int,
            _ => 0int,
        }
    }
}

/// Clamps a count to the ten bits that one specificity field holds.
pub open spec fn clamp10(n: int) -> int {
    if n > 1023 {
        1023
    } else {
        n
    }
}

/// The CSS specificity of a selector: id count, then class-like count, then
/// type-like count, packed most significant first.
pub open spec fn spec_specificity(s: SelectorV) -> u32 {
    (clamp10(id_count(s.components)) * 1048576 + clamp10(class_count(s.components)) * 1024
        + clamp10(type_count(s.components))) as u32
}


/// A non-empty run of identifier characters and nothing else.
pub open spec fn valid_ident(s: Seq<char>) -> bool {
    s.len() > 0 && (forall|i: int| 0 <= i < s.len() ==> is_ident_char(#[trigger] s[i]))
}

/// The attribute-selector forms: `[name]`, `[name=value]` and
/// `[name="value"]`; anything else never matches.
pub open spec fn classify_attr_spec(t: Seq<char>) -> SelectorPartV {
    if t.len() < 3 || t.last() != ']' {
        SelectorPartV::Unsupported
    } else {
        let inner = t.subrange(1, t.len() - 1);
        let n = ident_run(inner) as int;
        if n == 0 {
            SelectorPartV::Unsupported
        } else if n == inner.len() {
            SelectorPartV::AttrExists(inner)
        } else if inner[n] == '=' {
            let v = inner.skip(n + 1);
            if v.len() >= 2 && v[0] == '"' && v.last() == '"' && (forall|i: int|
                1 <= i < v.len() - 1 ==> #[trigger] v[i] != '"' && v[i] != '\\') {
                SelectorPartV::AttrEquals(inner.take(n), v.subrange(1, v.len() - 1))
            } else if v.len() >= 1 && v[0] != '"' && (forall|i: int|
                0 <= i < v.len() ==> #[trigger] v[i] != '"' && v[i] != '\\') {
                SelectorPartV::AttrEquals(inner.take(n), v)
            } else {
                SelectorPartV::Unsupported
            }
        } else {
            SelectorPartV::Unsupported
        }
    }
}

/// What one serialized selector component means. The written forms are
/// unambiguous: `.name` is a class, `#name` an id, `::name` a
/// pseudo-element (the single-colon spellings of the four CSS2 pseudo
/// elements are read as their double-colon forms), `:name` a pseudo-class
/// (`:root` tests the root flag),
/// `[...]` an attribute test, `*` and the empty pseudo-element separator
/// match everything, a bare identifier is a type selector, and any other
/// written form (combinators, namespaces, escapes) never matches.
pub open spec fn classify_spec(t: Seq<char>) -> SelectorPartV {
    if t.len() == 0 {
        SelectorPartV::Universal
    } else if t.len() == 1 && t[0] == '*' {
        SelectorPartV::Universal
    } else if t[0] == '.' {
        if valid_ident(t.skip(1)) {
            SelectorPartV::Class(t.skip(1))
        } else {
            SelectorPartV::Unsupported
        }
    } else if t[0] == '#' {
        if valid_ident(t.skip(1)) {
            SelectorPartV::Id(t.skip(1))
        } else {
            SelectorPartV::Unsupported
        }
    } else if t.len() >= 2 && t[0] == ':' && t[1] == ':' {
        SelectorPartV::PseudoElt(t)
    } else if t[0] == ':' {
        if t.len() == 5 && t[1] == 'r' && t[2] == 'o' && t[3] == 'o' && t[4] == 't' {
            SelectorPartV::Root
        } else if t.len() == 6 && t[1] == 'e' && t[2] == 'm' && t[3] == 'p' && t[4] == 't' && t[5]
            == 'y' {
            SelectorPartV::Universal
        } else if t == ":before"@ {
            SelectorPartV::PseudoElt("::before"@)
        } else if t == ":after"@ {
            SelectorPartV::PseudoElt("::after"@)
        } else if t == ":first-line"@ {
            SelectorPartV::PseudoElt("::first-line"@)
        } else if t == ":first-letter"@ {
            SelectorPartV::PseudoElt("::first-letter"@)
        } else {
            SelectorPartV::Pseudo(t)
        }
    } else if t[0] == '[' {
        classify_attr_spec(t)
    } else if valid_ident(t) {
        SelectorPartV::LocalName(t)
    } else {
        SelectorPartV::Unsupported
    }
}

/// Whether every character of `v` is an identifier character (and there is
/// at least one), starting at `from`.
fn ident_from(v: &Vec<char>, from: usize) -> (r: bool)
    requires
        from <= v.len(),
    ensures
        r == valid_ident(v@.skip(from as int)),
{
    let n = ident_run_from(v, from);
    proof {
        lemma_ident_run(v@.skip(from as int));
    }
    from < v.len() && from + n == v.len()
}

/// Classifies one serialized selector component; exactly [`classify_spec`].
pub fn classify_part(text: &str) -> (r: SelectorPart)
    ensures
        r.deep_view() == classify_spec(text@),
{
    let t = chars_of(text);
    let len = t.len();
    if len == 0 {
        return SelectorPart::Universal;
    }
    if len == 1 && t[0] == '*' {
        return SelectorPart::Universal;
    }
    if t[0] == '.' {
        if ident_from(&t, 1) {
            let name = copy_range(&t, 1, len);
            proof {
                assert(name@ =~= t@.skip(1));
            }
            return SelectorPart::Class(string_from_chars(&name));
        }
        return SelectorPart::Unsupported;
    }
    if t[0] == '#' {
        if ident_from(&t, 1) {
            let name = copy_range(&t, 1, len);
            proof {
                assert(name@ =~= t@.skip(1));
            }
            return SelectorPart::Id(string_from_chars(&name));
        }
        return SelectorPart::Unsupported;
    }
    if len >= 2 && t[0] == ':' && t[1] == ':' {
        return SelectorPart::PseudoElt(text.to_owned());
    }
    if t[0] == ':' {
        if len == 5 && t[1] == 'r' && t[2] == 'o' && t[3] == 'o' && t[4] == 't' {
            return SelectorPart::Root;
        }
        if len == 6 && t[1] == 'e' && t[2] == 'm' && t[3] == 'p' && t[4] == 't' && t[5] == 'y' {
            return SelectorPart::Universal;
        }
        if chars_eq_str(&t, ":before") {
            return SelectorPart::PseudoElt("::before".to_owned());
        }
        if chars_eq_str(&t, ":after") {
            return SelectorPart::PseudoElt("::after".to_owned());
        }
        if chars_eq_str(&t, ":first-line") {
            return SelectorPart::PseudoElt("::first-line".to_owned());
        }
        if chars_eq_str(&t, ":first-letter") {
            return SelectorPart::PseudoElt("::first-letter".to_owned());
        }
        return SelectorPart::Pseudo(text.to_owned());
    }
    if t[0] == '[' {
        return classify_attr(&t);
    }
    if ident_from(&t, 0) {
        proof {
            assert(t@.skip(0) =~= t@);
        }
        return SelectorPart::LocalName(text.to_owned());
    }
    SelectorPart::Unsupported
}

/// Classifies an attribute-selector text; exactly [`classify_attr_spec`].
fn classify_attr(t: &Vec<char>) -> (r: SelectorPart)
    requires
        t@.len() > 0,
        t@[0] == '[',
    ensures
        r.deep_view() == classify_attr_spec(t@),
{
    let len = t.len();
    if len < 3 || t[len - 1] != ']' {
        return SelectorPart::Unsupported;
    }
    let inner = copy_range(t, 1, len - 1);
    proof {
        assert(inner@ =~= t@.subrange(1, t@.len() - 1));
    }
    let ilen = inner.len();
    let n = ident_run_from(&inner, 0);
    proof {
        assert(inner@.skip(0) =~= inner@);
    }
    if n == 0 {
        return SelectorPart::Unsupported;
    }
    if n == ilen {
        return SelectorPart::AttrExists(string_from_chars(&inner));
    }
    if inner[n] != '=' {
        return SelectorPart::Unsupported;
    }
    let name = copy_range(&inner, 0, n);
    proof {
        assert(name@ =~= inner@.take(n as int));
    }
    let v = copy_range(&inner, n + 1, ilen);
    proof {
        assert(v@ =~= inner@.skip(n + 1));
    }
    let vlen = v.len();
    let mut clean = true;
    let mut qi: usize = if vlen >= 2 && v[0] == '"' {
        1
    } else {
        0
    };
    let quoted = qi == 1;
    let stop = if quoted {
        vlen - 1
    } else {
        vlen
    };
    let start = qi;
    while qi < stop
        invariant_except_break
            start <= qi <= stop <= vlen,
            vlen == v@.len(),
            clean,
            forall|i: int| start <= i < qi ==> #[trigger] v@[i] != '"' && v@[i] != '\\',
        ensures
            start <= qi <= stop <= vlen,
            vlen == v@.len(),
            clean ==> forall|i: int| start <= i < qi ==> #[trigger] v@[i] != '"' && v@[i] != '\\',
            clean ==> qi == stop,
            !clean ==> qi < stop && !(v@[qi as int] != '"' && v@[qi as int] != '\\'),
        decreases stop - qi,
    {
        let c = v[qi];
        if c == '"' || c == '\\' {
            clean = false;
            break;
        }
        qi = qi + 1;
    }
    if quoted {
        if clean && v[vlen - 1] == '"' {
            let val = copy_range(&v, 1, vlen - 1);
            proof {
                assert(val@ =~= v@.subrange(1, v@.len() - 1));
            }
            SelectorPart::AttrEquals(string_from_chars(&name), string_from_chars(&val))
        } else {
            SelectorPart::Unsupported
        }
    } else {
        if clean && vlen >= 1 && v[0] != '"' {
            SelectorPart::AttrEquals(string_from_chars(&name), string_from_chars(&v))
        } else {
            SelectorPart::Unsupported
        }
    }
}

} // verus!
