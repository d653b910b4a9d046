//! Id and class bundles for widget styling.
//!
//! Widget toolkits that require `Copy` style handles cannot carry a `Vec`,
//! so an element's id and classes are packed into a fixed array of string
//! slices, parsed from a `#id.class1.class2` shorthand.

use vstd::prelude::*;

use crate::element::{Element, ElementV, NameV};
use crate::values::{chars_of, is_alpha, is_word_char, word_run, word_run_from, lemma_word_run};

verus! {

broadcast use vstd::array::group_array_axioms;

/// Events a styling consumer receives from the re-parse loop.
#[derive(Clone, Debug)]
pub enum CssEvent {
    Error(String),
    Invalidated,
}

/// Id and classes matched against selectors.
/// Supports up to 16 classes.
#[derive(Clone, Copy, Debug)]
pub struct IdAndClasses {
    pub id: Option<&'static str>,
    // A `Copy` style handle cannot carry a `Vec`, so the classes live in a
    // fixed array of slots.
    pub classes: [Option<&'static str>; 16],
}

/// The id written in a `#id.class` shorthand: the first `#` followed by a
/// letter starts it, and it runs over letters, digits and underscores.
pub open spec fn id_of(s: Seq<char>) -> Option<Seq<char>>
    decreases s.len(),
{
    if s.len() < 2 {
        None
    } else if s[0] == '#' && is_alpha(s[1]) {
        Some(s.skip(1).take(word_run(s.skip(1)) as int))
    } else {
        id_of(s.drop_first())
    }
}

/// The classes written in a `#id.class` shorthand, in order: each `.`
/// followed by a letter starts one, scanning left to right without
/// overlap.
pub open spec fn classes_of(s: Seq<char>) -> Seq<Seq<char>>
    decreases s.len(),
{
    if s.len() < 2 {
        Seq::empty()
    } else if s[0] == '.' && is_alpha(s[1]) {
        proof {
            lemma_word_run(s.skip(1));
            assert(s.skip(1)[0] == s[1]);
            assert(word_run(s.skip(1)) >= 1);
        }
        let r = word_run(s.skip(1)) as int;
        seq![s.skip(1).take(r)] + classes_of(s.skip(1 + r))
    } else {
        classes_of(s.drop_first())
    }
}

/// The first unused class slot, if any.
pub open spec fn first_free(classes: Seq<Option<&'static str>>) -> Option<int> {
    if exists|i: int| 0 <= i < classes.len() && classes[i] is None {
        Some(choose|i: int| 0 <= i < classes.len() && classes[i] is None && (forall|j: int|
            0 <= j < i ==> classes[j] is Some))
    } else {
        None
    }
}

impl IdAndClasses {
    /// A bundle with no id and no classes.
    pub fn empty() -> (r: IdAndClasses)
        ensures
            r.id is None,
            forall|k: int| 0 <= k < 16 ==> r.classes@[k] is None,
    {
        IdAndClasses { id: None, classes: [None;16] }
    }

    /// Replaces the id on an owned copy of the bundle.
    pub fn set_id(self, id: &'static str) {
        let mut this = self;
        this.id = Some(id);
    }

    /// Stores the class in the first unused slot; with every slot taken
    /// the class is dropped.
    pub fn add_class(&mut self, class: &'static str)
        ensures
            (match first_free(old(self).classes@) {
                Some(i) => final(self).classes@ == old(self).classes@.update(i, Some(class)),
                None => final(self).classes@ == old(self).classes@,
            }),
            final(self).id == old(self).id,
    {
        let mut i: usize = 0;
        while i < 16
            invariant_except_break
                i <= 16,
                self == old(self),
                forall|j: int| 0 <= j < i ==> self.classes@[j] is Some,
            ensures
                i <= 16,
                self == old(self),
                forall|j: int| 0 <= j < i ==> self.classes@[j] is Some,
                i < 16 ==> self.classes@[i as int] is None,
            decreases 16 - i,
        {
            if self.classes[i].is_none() {
                break;
            }
            i = i + 1;
        }
        if i < 16 {
            proof {
                let cs = self.classes@;
                assert(cs.len() == 16);
                assert(first_free(cs) == Some(i as int)) by {
                    assert(0 <= i < cs.len() && cs[i as int] is None);
                    let w = choose|k: int|
                        0 <= k < cs.len() && cs[k] is None && (forall|j: int|
                            0 <= j < k ==> cs[j] is Some);
                    assert(0 <= (i as int) < cs.len() && cs[i as int] is None && (forall|j: int|
                        0 <= j < i as int ==> cs[j] is Some));
                    if w < i as int {
                        assert(cs[w] is Some);
                    } else if w > i as int {
                        assert(cs[i as int] is Some);
                    }
                }
            }
            self.classes[i] = Some(class);
        } else {
            proof {
                let cs = self.classes@;
                assert(cs.len() == 16);
                assert(first_free(cs) is None) by {
                    assert forall|k: int| 0 <= k < cs.len() implies !(cs[k] is None) by {
                        assert(cs[k] is Some);
                    }
                }
            }
        }
    }

    /// Parses a `#id.class1.class2` shorthand: the first `#name` becomes
    /// the id, each `.name` becomes a class, in order, up to the sixteen
    /// slots.
    pub fn parse(s: &'static str) -> (r: IdAndClasses)
        ensures
            (match id_of(s@) {
                Some(name) => r.id matches Some(x) && x@ == name,
                None => r.id is None,
            }),
            forall|k: int|
                0 <= k < 16 ==> ((k < classes_of(s@).len() && ((#[trigger] r.classes@[
                k]) matches Some(c) && c@ == classes_of(s@)[k])) || (k >= classes_of(s@).len()
                    && r.classes@[k] is None)),
    {
        let t = chars_of(s);
        let len = t.len();
        let mut id: Option<&'static str> = None;
        let mut i: usize = 0;
        proof {
            assert(t@.skip(0) =~= t@);
        }
        while i < len
            invariant_except_break
                i <= len,
                len == t@.len(),
                t@ == s@,
                id is None,
                id_of(s@) == id_of(s@.skip(i as int)),
            ensures
                len == t@.len(),
                t@ == s@,
                (match id_of(s@) {
                    Some(name) => id matches Some(x) && x@ == name,
                    None => id is None,
                }),
            decreases len - i,
        {
            proof {
                let rest = s@.skip(i as int);
                if rest.len() >= 2 {
                    assert(rest[0] == s@[i as int]);
                    assert(rest[1] == s@[i + 1]);
                }
            }
            let c = t[i];
            if c == '#' && i + 1 < len {
                let c2 = t[i + 1];
                if (c2 >= 'a' && c2 <= 'z') || (c2 >= 'A' && c2 <= 'Z') {
                    let run = word_run_from(&t, i + 1);
                    proof {
                        let rest = s@.skip(i as int);
                        assert(rest.skip(1) =~= s@.skip(i + 1));
                        assert(word_run(rest.skip(1)) == run);
                        assert(rest.skip(1).take(run as int) =~= s@.subrange(
                            i + 1,
                            i + 1 + run,
                        ));
                    }
                    id = Some(s.substring_char(i + 1, i + 1 + run));
                    break;
                }
            }
            proof {
                let rest = s@.skip(i as int);
                if rest.len() >= 2 {
                    assert(!(rest[0] == '#' && is_alpha(rest[1])));
                }
                assert(rest.drop_first() =~= s@.skip(i + 1));
                if rest.len() < 2 {
                    assert(s@.skip(i + 1).len() < 2);
                }
            }
            i = i + 1;
        }
        let mut classes: [Option<&'static str>; 16] = [None;16];
        let mut cnt: usize = 0;
        let mut j: usize = 0;
        let ghost mut found: int = 0;
        proof {
            assert(s@.skip(0) =~= s@);
            assert(classes_of(s@).take(0) =~= Seq::<Seq<char>>::empty());
            assert(classes_of(s@).take(found) + classes_of(s@.skip(0)) =~= classes_of(s@));
        }
        while j < len
            invariant
                j <= len,
                cnt <= 16,
                len == t@.len(),
                t@ == s@,
                0 <= found <= classes_of(s@).len(),
                classes_of(s@).take(found) + classes_of(s@.skip(j as int)) == classes_of(s@),
                found + classes_of(s@.skip(j as int)).len() == classes_of(s@).len(),
                cnt as int == (if found <= 16 {
                    found
                } else {
                    16int
                }),
                forall|k: int|
                    0 <= k < 16 ==> ((k < cnt && ((#[trigger] classes@[k]) matches Some(c) && c@
                        == classes_of(s@)[k])) || (k >= cnt && classes@[k] is None)),
            decreases len - j,
        {
            proof {
                let rest = s@.skip(j as int);
                if rest.len() >= 2 {
                    assert(rest[0] == s@[j as int]);
                    assert(rest[1] == s@[j + 1]);
                }
            }
            let c = t[j];
            let mut advanced = false;
            if c == '.' && j + 1 < len {
                let c2 = t[j + 1];
                if (c2 >= 'a' && c2 <= 'z') || (c2 >= 'A' && c2 <= 'Z') {
                    let run = word_run_from(&t, j + 1);
                    let ghost rest = s@.skip(j as int);
                    let ghost cls_seq = rest.skip(1).take(word_run(rest.skip(1)) as int);
                    proof {
                        assert(rest.skip(1) =~= s@.skip(j + 1));
                        assert(word_run(rest.skip(1)) == run);
                        assert(cls_seq =~= s@.subrange(j + 1, j + 1 + run));
                        assert(rest.skip(1).skip(run as int) =~= s@.skip(j + 1 + run));
                        assert(rest.skip(1 + run as int) =~= s@.skip(j + 1 + run));
                        assert(classes_of(rest) == seq![cls_seq] + classes_of(
                            s@.skip(j + 1 + run),
                        ));
                        assert(classes_of(s@)[found] == cls_seq);
                        assert(classes_of(s@).take(found + 1) =~= classes_of(s@).take(
                            found,
                        ).push(cls_seq));
                        assert(classes_of(s@).take(found + 1) + classes_of(s@.skip(j + 1 + run))
                            =~= classes_of(s@));
                    }
                    let class = s.substring_char(j + 1, j + 1 + run);
                    if cnt < 16 {
                        classes[cnt] = Some(class);
                        cnt = cnt + 1;
                    }
                    proof {
                        found = found + 1;
                    }
                    j = j + 1 + run;
                    advanced = true;
                }
            }
            if !advanced {
                proof {
                    let rest = s@.skip(j as int);
                    if rest.len() >= 2 {
                        assert(!(rest[0] == '.' && is_alpha(rest[1])));
                    }
                    assert(rest.drop_first() =~= s@.skip(j + 1));
                    if rest.len() < 2 {
                        assert(s@.skip(j + 1).len() < 2);
                        assert(classes_of(s@.skip(j + 1)) =~= Seq::<Seq<char>>::empty());
                    }
                    assert(classes_of(s@.skip(j as int)) == classes_of(s@.skip(j + 1)));
                }
                j = j + 1;
            }
        }
        proof {
            assert(s@.skip(len as int).len() == 0);
            assert(classes_of(s@.skip(len as int)) =~= Seq::<Seq<char>>::empty());
            assert(found == classes_of(s@).len());
        }
        IdAndClasses { id, classes }
    }
}


/// The class list that results from adding each filled slot in order;
/// adding a class twice keeps one copy.
pub open spec fn add_classes(cs: Seq<Seq<char>>, slots: Seq<Option<&'static str>>) -> Seq<
    Seq<char>,
>
    decreases slots.len(),
{
    if slots.len() == 0 {
        cs
    } else {
        let prev = add_classes(cs, slots.drop_last());
        match slots.last() {
            Some(c) => if prev.contains(c@) {
                prev
            } else {
                prev.push(c@)
            },
            None => prev,
        }
    }
}

impl Element {
    /// An element named `name` carrying the bundle's id and classes.
    pub fn def(name: &str, def: &IdAndClasses) -> (e: Element)
        ensures
            e@ == (ElementV {
                name: NameV::Named(name@),
                id: match def.id {
                    Some(i) => Some(i@),
                    None => None,
                },
                classes: add_classes(Seq::empty(), def.classes@),
                ..ElementV::empty()
            }),
    {
        let mut elt = Element::named(name);
        if let Some(id) = def.id {
            elt = elt.id(id);
        }
        let mut i: usize = 0;
        proof {
            assert(def.classes@.take(0) =~= Seq::<Option<&'static str>>::empty());
        }
        while i < 16
            invariant
                i <= 16,
                def.classes@.len() == 16,
                elt@ == (ElementV {
                    name: NameV::Named(name@),
                    id: match def.id {
                        Some(x) => Some(x@),
                        None => None,
                    },
                    classes: add_classes(Seq::empty(), def.classes@.take(i as int)),
                    ..ElementV::empty()
                }),
            decreases 16 - i,
        {
            proof {
                assert(def.classes@.take(i + 1).drop_last() =~= def.classes@.take(i as int));
                assert(def.classes@.take(i + 1).last() == def.classes@[i as int]);
            }
            if let Some(c) = def.classes[i] {
                elt = elt.class(c);
            }
            i = i + 1;
        }
        proof {
            assert(def.classes@.take(16) =~= def.classes@);
        }
        elt
    }
}

} // verus!
