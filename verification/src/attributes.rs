//! Attribute lists: name/value pairs kept in the order of their names, each
//! name at most once.

use vstd::prelude::*;
use vstd::string::*;
use crate::order::{
    comes_before, lemma_precedes_asymmetric, lemma_precedes_irreflexive, lemma_precedes_total,
    lemma_precedes_transitive, precedes,
};

verus! {

/// The mathematical model of an attribute list.
pub type Attributes = Seq<(Seq<char>, Seq<char>)>;

/// The model of a stored list: each string by its characters.
pub open spec fn attributes_view(stored: Seq<(String, String)>) -> Attributes {
    stored.map_values(|pair: (String, String)| (pair.0@, pair.1@))
}

/// Each name comes strictly before the next one.
pub open spec fn ordered(attrs: Attributes) -> bool
    decreases attrs.len(),
{
    attrs.len() <= 1 || (precedes(attrs[0].0, attrs[1].0) && ordered(attrs.drop_first()))
}

/// The value that the list gives to `name`, if any.
pub open spec fn value_of(attrs: Attributes, name: Seq<char>) -> Option<Seq<char>>
    decreases attrs.len(),
{
    if attrs.len() == 0 {
        None
    } else if attrs[0].0 == name {
        Some(attrs[0].1)
    } else {
        value_of(attrs.drop_first(), name)
    }
}

/// The list after `name` is set to `value`: the pair replaces the one of that
/// name, or else stands before the first name that does not precede it.
pub open spec fn with_attribute(attrs: Attributes, name: Seq<char>, value: Seq<char>) -> Attributes
    decreases attrs.len(),
{
    if attrs.len() == 0 {
        seq![(name, value)]
    } else if precedes(attrs[0].0, name) {
        seq![attrs[0]] + with_attribute(attrs.drop_first(), name, value)
    } else if attrs[0].0 == name {
        seq![(name, value)] + attrs.drop_first()
    } else {
        seq![(name, value)] + attrs
    }
}

/// Setting an attribute keeps the list in order.
pub proof fn lemma_with_attribute_ordered(attrs: Attributes, name: Seq<char>, value: Seq<char>)
    requires
        ordered(attrs),
    ensures
        ordered(with_attribute(attrs, name, value)),
    decreases attrs.len(),
{
    let new = with_attribute(attrs, name, value);
    if attrs.len() == 0 {
    } else if precedes(attrs[0].0, name) {
        let rest = attrs.drop_first();
        let tail = with_attribute(rest, name, value);
        lemma_with_attribute_ordered(rest, name, value);
        assert(new.drop_first() =~= tail);
        assert(new[0] == attrs[0]);
        if rest.len() > 0 {
            assert(rest[0] == attrs[1]);
        }
        assert(tail[0].0 == name || (rest.len() > 0 && tail[0].0 == rest[0].0));
    } else if attrs[0].0 == name {
        assert(new.drop_first() =~= attrs.drop_first());
        if attrs.len() > 1 {
            assert(new[1] == attrs[1]);
        }
    } else {
        lemma_precedes_total(attrs[0].0, name);
        assert(new.drop_first() =~= attrs);
    }
}

/// After an attribute is set, the list gives its name the new value.
pub proof fn lemma_with_attribute_sets(attrs: Attributes, name: Seq<char>, value: Seq<char>)
    ensures
        value_of(with_attribute(attrs, name, value), name) == Some(value),
    decreases attrs.len(),
{
    let new = with_attribute(attrs, name, value);
    if attrs.len() > 0 && precedes(attrs[0].0, name) {
        lemma_precedes_irreflexive(name);
        lemma_with_attribute_sets(attrs.drop_first(), name, value);
        assert(new.drop_first() =~= with_attribute(attrs.drop_first(), name, value));
    }
}

/// Setting an attribute leaves the value of every other name as it was.
pub proof fn lemma_with_attribute_keeps(
    attrs: Attributes,
    name: Seq<char>,
    value: Seq<char>,
    other: Seq<char>,
)
    requires
        other != name,
    ensures
        value_of(with_attribute(attrs, name, value), other) == value_of(attrs, other),
    decreases attrs.len(),
{
    let new = with_attribute(attrs, name, value);
    if attrs.len() == 0 {
        assert(new.drop_first() =~= attrs);
    } else if precedes(attrs[0].0, name) {
        lemma_with_attribute_keeps(attrs.drop_first(), name, value, other);
        assert(new.drop_first() =~= with_attribute(attrs.drop_first(), name, value));
    } else if attrs[0].0 == name {
        assert(new.drop_first() =~= attrs.drop_first());
    } else {
        assert(new.drop_first() =~= attrs);
    }
}

/// In an ordered list every name comes before all later ones, so no name
/// occurs twice.
pub proof fn lemma_ordered_names_unique(attrs: Attributes, i: int, j: int)
    requires
        ordered(attrs),
        0 <= i < j < attrs.len(),
    ensures
        precedes(attrs[i].0, attrs[j].0),
        attrs[i].0 != attrs[j].0,
    decreases attrs.len(),
{
    let rest = attrs.drop_first();
    if i > 0 {
        lemma_ordered_names_unique(rest, i - 1, j - 1);
    } else if j > 1 {
        lemma_ordered_names_unique(rest, 0, j - 1);
        lemma_precedes_transitive(attrs[0].0, attrs[1].0, attrs[j].0);
    }
    lemma_precedes_irreflexive(attrs[i].0);
}

/// Setting an attribute in a list that is given by its first pair and the
/// rest.
proof fn lemma_with_attribute_cons(
    head: (Seq<char>, Seq<char>),
    tail: Attributes,
    name: Seq<char>,
    value: Seq<char>,
)
    ensures
        with_attribute(seq![head] + tail, name, value) == if precedes(head.0, name) {
            seq![head] + with_attribute(tail, name, value)
        } else if head.0 == name {
            seq![(name, value)] + tail
        } else {
            seq![(name, value)] + (seq![head] + tail)
        },
{
    let attrs = seq![head] + tail;
    assert(attrs[0] == head);
    assert(attrs.drop_first() =~= tail);
}

/// One case of [`lemma_with_attribute_commutes`]: the first name of the list
/// precedes `a`, or it precedes neither `a` nor `b` and `a` precedes `b`.
proof fn lemma_with_attribute_commutes_step(
    attrs: Attributes,
    a: Seq<char>,
    x: Seq<char>,
    b: Seq<char>,
    y: Seq<char>,
)
    requires
        a != b,
        attrs.len() > 0,
        precedes(attrs[0].0, a) || (!precedes(attrs[0].0, b) && precedes(a, b)),
        with_attribute(with_attribute(attrs.drop_first(), a, x), b, y) == with_attribute(
            with_attribute(attrs.drop_first(), b, y),
            a,
            x,
        ),
    ensures
        with_attribute(with_attribute(attrs, a, x), b, y) == with_attribute(
            with_attribute(attrs, b, y),
            a,
            x,
        ),
{
    let head = attrs[0];
    let tail = attrs.drop_first();
    assert(attrs =~= seq![head] + tail);
    if precedes(head.0, a) {
        lemma_with_attribute_cons(head, with_attribute(tail, a, x), b, y);
        if precedes(head.0, b) {
            lemma_with_attribute_cons(head, with_attribute(tail, b, y), a, x);
        } else {
            if head.0 != b {
                lemma_precedes_total(head.0, b);
                lemma_precedes_transitive(b, head.0, a);
                lemma_with_attribute_cons((b, y), attrs, a, x);
            } else {
                lemma_with_attribute_cons((b, y), tail, a, x);
            }
        }
    } else {
        lemma_precedes_asymmetric(a, b);
        let kept = if head.0 == b {
            tail
        } else {
            attrs
        };
        lemma_with_attribute_cons((a, x), attrs, b, y);
        lemma_with_attribute_cons((b, y), kept, a, x);
    }
}

/// Attributes of different names can be set in either order: the list comes
/// out the same.
pub proof fn lemma_with_attribute_commutes(
    attrs: Attributes,
    a: Seq<char>,
    x: Seq<char>,
    b: Seq<char>,
    y: Seq<char>,
)
    requires
        a != b,
    ensures
        with_attribute(with_attribute(attrs, a, x), b, y) == with_attribute(
            with_attribute(attrs, b, y),
            a,
            x,
        ),
    decreases attrs.len(),
{
    lemma_precedes_total(a, b);
    if attrs.len() == 0 {
        let none = Seq::<(Seq<char>, Seq<char>)>::empty();
        assert(seq![(a, x)] =~= seq![(a, x)] + none);
        assert(seq![(b, y)] =~= seq![(b, y)] + none);
        lemma_with_attribute_cons((a, x), none, b, y);
        lemma_with_attribute_cons((b, y), none, a, x);
        if precedes(a, b) {
            lemma_precedes_asymmetric(a, b);
        } else {
            lemma_precedes_asymmetric(b, a);
        }
    } else {
        lemma_with_attribute_commutes(attrs.drop_first(), a, x, b, y);
        if precedes(attrs[0].0, a) || (!precedes(attrs[0].0, b) && precedes(a, b)) {
            lemma_with_attribute_commutes_step(attrs, a, x, b, y);
        } else {
            lemma_with_attribute_commutes_step(attrs, b, y, a, x);
        }
    }
}

/// Setting an attribute twice is setting it to the later value.
pub proof fn lemma_with_attribute_overwrites(
    attrs: Attributes,
    name: Seq<char>,
    earlier: Seq<char>,
    later: Seq<char>,
)
    ensures
        with_attribute(with_attribute(attrs, name, earlier), name, later) == with_attribute(
            attrs,
            name,
            later,
        ),
    decreases attrs.len(),
{
    lemma_precedes_irreflexive(name);
    if attrs.len() == 0 {
        let none = Seq::<(Seq<char>, Seq<char>)>::empty();
        assert(seq![(name, earlier)] =~= seq![(name, earlier)] + none);
        assert(seq![(name, later)] =~= seq![(name, later)] + none);
        lemma_with_attribute_cons((name, earlier), none, name, later);
    } else if precedes(attrs[0].0, name) {
        lemma_with_attribute_overwrites(attrs.drop_first(), name, earlier, later);
        lemma_with_attribute_cons(
            attrs[0],
            with_attribute(attrs.drop_first(), name, earlier),
            name,
            later,
        );
    } else if attrs[0].0 == name {
        lemma_with_attribute_cons((name, earlier), attrs.drop_first(), name, later);
    } else {
        lemma_with_attribute_cons((name, earlier), attrs, name, later);
    }
}

/// Where a search stopped at `at`, with every earlier name before `name` and
/// the name there not before it, setting the attribute changes that one place.
proof fn lemma_with_attribute_at(attrs: Attributes, name: Seq<char>, value: Seq<char>, at: int)
    requires
        0 <= at <= attrs.len(),
        forall|i: int| 0 <= i < at ==> precedes(#[trigger] attrs[i].0, name),
        at < attrs.len() ==> !precedes(attrs[at].0, name),
    ensures
        with_attribute(attrs, name, value) == if at < attrs.len() && attrs[at].0 == name {
            attrs.update(at, (name, value))
        } else {
            attrs.insert(at, (name, value))
        },
    decreases at,
{
    let new = with_attribute(attrs, name, value);
    if at == 0 {
        if attrs.len() == 0 {
            assert(new =~= attrs.insert(0, (name, value)));
        } else if attrs[0].0 == name {
            assert(new =~= attrs.update(0, (name, value)));
        } else {
            assert(new =~= attrs.insert(0, (name, value)));
        }
    } else {
        let rest = attrs.drop_first();
        assert(precedes(attrs[0].0, name));
        assert forall|i: int| 0 <= i < at - 1 implies precedes(#[trigger] rest[i].0, name) by {
            assert(rest[i] == attrs[i + 1]);
        }
        lemma_with_attribute_at(rest, name, value, at - 1);
        if at < attrs.len() && attrs[at].0 == name {
            assert(new =~= attrs.update(at, (name, value)));
        } else {
            assert(new =~= attrs.insert(at, (name, value)));
        }
    }
}

/// Sets one attribute in a stored list.
pub fn set_attribute(stored: &mut Vec<(String, String)>, name: &str, value: &str)
    ensures
        attributes_view(final(stored)@) == with_attribute(
            attributes_view(old(stored)@),
            name@,
            value@,
        ),
{
    let ghost before = attributes_view(stored@);
    let mut at: usize = 0;
    let mut searching: bool = true;
    while searching && at < stored.len()
        invariant
            stored@ == old(stored)@,
            before == attributes_view(stored@),
            at <= stored.len(),
            forall|i: int| 0 <= i < at ==> precedes(#[trigger] before[i].0, name@),
            !searching ==> at < stored.len() && !precedes(before[at as int].0, name@),
        decreases stored.len() - at + (if searching { 1int } else { 0int }),
    {
        if comes_before(stored[at].0.as_str(), name) {
            at += 1;
        } else {
            searching = false;
        }
    }
    let key: String = String::from_str(name);
    let replace: bool = at < stored.len() && stored[at].0 == key;
    let entry: (String, String) = (key, String::from_str(value));
    proof {
        lemma_with_attribute_at(before, name@, value@, at as int);
    }
    if replace {
        stored.set(at, entry);
        assert(attributes_view(stored@) =~= before.update(at as int, (name@, value@)));
    } else {
        stored.insert(at, entry);
        assert(attributes_view(stored@) =~= before.insert(at as int, (name@, value@)));
    }
}

/// Looks an attribute up in a stored list.
pub fn attribute_value(stored: &Vec<(String, String)>, name: &str) -> (res: Option<String>)
    ensures
        match res {
            Some(value) => value_of(attributes_view(stored@), name@) == Some(value@),
            None => value_of(attributes_view(stored@), name@) is None,
        },
{
    let ghost all = attributes_view(stored@);
    let key: String = String::from_str(name);
    let mut i: usize = 0;
    proof {
        assert(all.skip(0) =~= all);
    }
    while i < stored.len()
        invariant
            i <= stored.len(),
            key@ == name@,
            all == attributes_view(stored@),
            value_of(all, name@) == value_of(all.skip(i as int), name@),
        decreases stored.len() - i,
    {
        proof {
            assert(all.skip(i as int).drop_first() =~= all.skip(i as int + 1));
            assert(all.skip(i as int)[0] == all[i as int]);
        }
        if stored[i].0 == key {
            return Some(stored[i].1.clone());
        }
        i += 1;
    }
    None
}

} // verus!
