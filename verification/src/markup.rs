//! The text of the HTML fragment, and how its attributes are read back.

use vstd::prelude::*;
use vstd::string::*;
use crate::attributes::{attributes_view, with_attribute, Attributes};

verus! {

/// One attribute as it stands in a tag: a space, the name, and the value in
/// double quotes.
pub open spec fn attribute_text(name: Seq<char>, value: Seq<char>) -> Seq<char> {
    " "@ + name + "=\""@ + value + "\""@
}

/// The attributes of a tag, one after the other in the list's order.
pub open spec fn attributes_text(attrs: Attributes) -> Seq<char>
    decreases attrs.len(),
{
    if attrs.len() == 0 {
        Seq::empty()
    } else {
        attribute_text(attrs[0].0, attrs[0].1) + attributes_text(attrs.drop_first())
    }
}

/// The data URI that carries a base64-encoded PNG image.
pub open spec fn data_uri(encoded: Seq<char>) -> Seq<char> {
    "data:image/png;base64,\n"@ + encoded
}

/// All attributes of the `<img>` tag: `src` first, then the configured ones.
pub open spec fn image_attributes(encoded: Seq<char>, attrs: Attributes) -> Attributes {
    seq![("src"@, data_uri(encoded))] + attrs
}

/// The self-closed `<img>` element.
pub open spec fn image_text(encoded: Seq<char>, attrs: Attributes) -> Seq<char> {
    "<img"@ + attributes_text(image_attributes(encoded, attrs)) + "/>"@
}

/// `inner` between the opening and closing tag of `tag`, or `inner` alone
/// where `tag` is empty.
pub open spec fn wrapped_text(tag: Seq<char>, attrs: Attributes, inner: Seq<char>) -> Seq<char> {
    if tag.len() == 0 {
        inner
    } else {
        "<"@ + tag + attributes_text(attrs) + ">"@ + inner + "</"@ + tag + ">"@
    }
}

/// Appends the attributes of a tag to `out`.
pub fn push_attributes(out: &mut String, attrs: &Vec<(String, String)>)
    ensures
        final(out)@ == old(out)@ + attributes_text(attributes_view(attrs@)),
{
    let ghost all = attributes_view(attrs@);
    let mut i: usize = 0;
    proof {
        assert(all.skip(0) =~= all);
    }
    while i < attrs.len()
        invariant
            i <= attrs.len(),
            all == attributes_view(attrs@),
            out@ + attributes_text(all.skip(i as int)) == old(out)@ + attributes_text(all),
        decreases attrs.len() - i,
    {
        let ghost start = out@;
        let ghost name = all[i as int].0;
        let ghost value = all[i as int].1;
        out.append(" ");
        out.append(attrs[i].0.as_str());
        out.append("=\"");
        out.append(attrs[i].1.as_str());
        out.append("\"");
        proof {
            let here = all.skip(i as int);
            assert(here.drop_first() =~= all.skip(i as int + 1));
            assert(here[0] == all[i as int]);
            assert(out@ =~= start + attribute_text(name, value));
            assert(out@ + attributes_text(all.skip(i as int + 1)) =~= start + attributes_text(
                here,
            ));
        }
        i += 1;
    }
    proof {
        assert(all.skip(i as int) =~= Seq::empty());
        assert(out@ + Seq::<char>::empty() =~= out@);
    }
}

/// Builds the `<img>` element around the encoded image.
pub fn image_element(encoded: &str, attrs: &Vec<(String, String)>) -> (res: String)
    ensures
        res@ == image_text(encoded@, attributes_view(attrs@)),
{
    let mut out: String = String::from_str("<img");
    out.append(" ");
    out.append("src");
    out.append("=\"");
    out.append("data:image/png;base64,\n");
    out.append(encoded);
    out.append("\"");
    let ghost src = out@;
    push_attributes(&mut out, attrs);
    out.append("/>");
    proof {
        let configured = attributes_view(attrs@);
        let all = image_attributes(encoded@, configured);
        assert(all.drop_first() =~= configured);
        assert(src =~= "<img"@ + attribute_text("src"@, data_uri(encoded@)));
        assert(out@ =~= image_text(encoded@, configured));
    }
    out
}

/// Puts `inner` between the tags of the wrapper, if there is one.
pub fn wrap_element(tag: &str, attrs: &Vec<(String, String)>, inner: String) -> (res: String)
    ensures
        res@ == wrapped_text(tag@, attributes_view(attrs@), inner@),
{
    if tag.unicode_len() == 0 {
        return inner;
    }
    let mut out: String = String::from_str("<");
    out.append(tag);
    push_attributes(&mut out, attrs);
    out.append(">");
    out.append(inner.as_str());
    out.append("</");
    out.append(tag);
    out.append(">");
    out
}

/// Where `c` first stands in `text`; the length of `text` where it does not.
pub open spec fn position_of(text: Seq<char>, c: char) -> nat
    decreases text.len(),
{
    if text.len() == 0 || text[0] == c {
        0
    } else {
        1 + position_of(text.drop_first(), c)
    }
}

/// The attributes that a reader finds at the start of `text`: as long as a
/// space comes next, a name up to `=` and a value between double quotes.
pub open spec fn read_attributes(text: Seq<char>) -> Attributes
    decreases text.len(),
{
    if text.len() == 0 || text[0] != ' ' {
        Seq::empty()
    } else {
        let rest = text.drop_first();
        let name_end = position_of(rest, '=') as int;
        if name_end + 1 >= rest.len() || rest[name_end + 1] != '"' {
            Seq::empty()
        } else {
            let quoted = rest.skip(name_end + 2);
            let value_end = position_of(quoted, '"') as int;
            if value_end >= quoted.len() {
                Seq::empty()
            } else {
                seq![(rest.take(name_end), quoted.take(value_end))] + read_attributes(
                    quoted.skip(value_end + 1),
                )
            }
        }
    }
}

/// A list that can be read back: no name holds `=`, no value a double quote.
pub open spec fn readable(attrs: Attributes) -> bool {
    forall|i: int|
        0 <= i < attrs.len() ==> !(#[trigger] attrs[i]).0.contains('=') && !attrs[i].1.contains('"')
}

/// Setting an attribute whose name holds no `=` and whose value holds no
/// double quote keeps a list readable.
pub proof fn lemma_with_attribute_readable(attrs: Attributes, name: Seq<char>, value: Seq<char>)
    requires
        readable(attrs),
        !name.contains('='),
        !value.contains('"'),
    ensures
        readable(with_attribute(attrs, name, value)),
    decreases attrs.len(),
{
    let new = with_attribute(attrs, name, value);
    if attrs.len() > 0 {
        let rest = attrs.drop_first();
        assert(readable(rest)) by {
            assert forall|i: int| 0 <= i < rest.len() implies !(#[trigger] rest[i]).0.contains('=')
                && !rest[i].1.contains('"') by {
                assert(rest[i] == attrs[i + 1]);
            }
        }
        lemma_with_attribute_readable(rest, name, value);
        let tail = new.drop_first();
        assert(readable(tail)) by {
            if crate::order::precedes(attrs[0].0, name) {
                assert(tail =~= with_attribute(rest, name, value));
            } else if attrs[0].0 == name {
                assert(tail =~= rest);
            } else {
                assert(tail =~= attrs);
            }
        }
        assert(new[0] == attrs[0] || new[0] == (name, value));
        assert forall|i: int| 0 <= i < new.len() implies !(#[trigger] new[i]).0.contains('=')
            && !new[i].1.contains('"') by {
            if i > 0 {
                assert(new[i] == tail[i - 1]);
            }
        }
    }
}

/// `c` is first found right after a text that does not hold it.
pub proof fn lemma_position_after(before: Seq<char>, c: char, after: Seq<char>)
    requires
        !before.contains(c),
    ensures
        position_of(before + seq![c] + after, c) == before.len(),
    decreases before.len(),
{
    let text = before + seq![c] + after;
    if before.len() == 0 {
        assert(text[0] == c);
    } else {
        assert(before[0] != c);
        assert(text[0] == before[0]);
        let shorter = before.drop_first();
        assert forall|i: int| 0 <= i < shorter.len() implies shorter[i] != c by {
            assert(shorter[i] == before[i + 1]);
        }
        lemma_position_after(shorter, c, after);
        assert(text.drop_first() =~= shorter + seq![c] + after);
    }
}

/// What stands after a prefix, and the prefix itself.
proof fn lemma_split(head: Seq<char>, tail: Seq<char>)
    ensures
        (head + tail).skip(head.len() as int) == tail,
        (head + tail).take(head.len() as int) == head,
{
    assert((head + tail).skip(head.len() as int) =~= tail);
    assert((head + tail).take(head.len() as int) =~= head);
}

/// Joining is associative.
proof fn lemma_join(a: Seq<char>, b: Seq<char>, c: Seq<char>)
    ensures
        (a + b) + c == a + (b + c),
{
    assert((a + b) + c =~= a + (b + c));
}

/// The text of one attribute, piece by piece.
proof fn lemma_attribute_shape(name: Seq<char>, value: Seq<char>, following: Seq<char>)
    ensures
        attribute_text(name, value) + following == seq![' '] + (name + seq!['='] + (seq!['"'] + (
            value + seq!['"'] + following))),
{
    reveal_strlit(" ");
    reveal_strlit("=\"");
    reveal_strlit("\"");
    assert(" "@ =~= seq![' ']);
    assert("=\""@ =~= seq!['='] + seq!['"']);
    assert("\""@ =~= seq!['"']);
    assert(seq![' '] + name + (seq!['='] + seq!['"']) + value + seq!['"'] + following =~= seq![' ']
        + (name + seq!['='] + (seq!['"'] + (value + seq!['"'] + following))));
}

/// Reading one attribute and what follows it.
proof fn lemma_read_one(name: Seq<char>, value: Seq<char>, following: Seq<char>)
    requires
        !name.contains('='),
        !value.contains('"'),
    ensures
        read_attributes(attribute_text(name, value) + following) == seq![(name, value)]
            + read_attributes(following),
{
    let text = attribute_text(name, value) + following;
    let quoted = value + seq!['"'] + following;
    let opened = seq!['"'] + quoted;
    let rest = name + seq!['='] + opened;
    lemma_attribute_shape(name, value, following);
    assert(text == seq![' '] + rest);
    assert(text[0] == ' ');
    assert(text.drop_first() =~= rest);
    lemma_position_after(name, '=', opened);
    lemma_split(name + seq!['='], opened);
    assert(rest[name.len() as int + 1] == opened[0]);
    assert(rest.skip(name.len() as int + 2) =~= quoted);
    assert(rest.take(name.len() as int) =~= name);
    lemma_position_after(value, '"', following);
    lemma_split(value + seq!['"'], following);
    assert(quoted.take(value.len() as int) =~= value);
    assert(quoted.skip(value.len() as int + 1) == following);
}

/// Reading the text of a readable attribute list gives the list back,
/// whatever follows, unless a space follows.
pub proof fn lemma_read_attributes(attrs: Attributes, tail: Seq<char>)
    requires
        readable(attrs),
        tail.len() == 0 || tail[0] != ' ',
    ensures
        read_attributes(attributes_text(attrs) + tail) == attrs,
    decreases attrs.len(),
{
    let text = attributes_text(attrs) + tail;
    if attrs.len() == 0 {
        assert(text =~= tail);
    } else {
        let name = attrs[0].0;
        let value = attrs[0].1;
        let others = attrs.drop_first();
        let following = attributes_text(others) + tail;
        assert(readable(others)) by {
            assert forall|i: int| 0 <= i < others.len() implies !(#[trigger] others[i]).0.contains(
                '=',
            ) && !others[i].1.contains('"') by {
                assert(others[i] == attrs[i + 1]);
            }
        }
        lemma_read_attributes(others, tail);
        lemma_read_one(name, value, following);
        lemma_join(attribute_text(name, value), attributes_text(others), tail);
        assert(attrs =~= seq![(name, value)] + others);
    }
}

/// The data URI holds no double quote where the encoded text holds none.
proof fn lemma_data_uri_unquoted(encoded: Seq<char>)
    requires
        !encoded.contains('"'),
    ensures
        !data_uri(encoded).contains('"'),
{
    reveal_strlit("data:image/png;base64,\n");
    let uri = data_uri(encoded);
    assert forall|i: int| 0 <= i < uri.len() implies uri[i] != '"' by {
        if i >= 23 {
            assert(uri[i] == encoded[i - 23]);
        }
    }
}

/// With `src` in front, a readable list stays readable.
proof fn lemma_image_attributes_readable(encoded: Seq<char>, attrs: Attributes)
    requires
        readable(attrs),
        !encoded.contains('"'),
    ensures
        readable(image_attributes(encoded, attrs)),
{
    let all = image_attributes(encoded, attrs);
    lemma_data_uri_unquoted(encoded);
    assert(!"src"@.contains('=')) by {
        reveal_strlit("src");
    }
    assert forall|i: int| 0 <= i < all.len() implies !(#[trigger] all[i]).0.contains('=')
        && !all[i].1.contains('"') by {
        if i > 0 {
            assert(all[i] == attrs[i - 1]);
        }
    }
}

/// Reading the attributes of an `<img>` element, which start after its tag
/// name, gives `src` with the data URI and then the configured attributes,
/// whatever follows the element.
pub proof fn lemma_image_round_trip(encoded: Seq<char>, attrs: Attributes, tail: Seq<char>)
    requires
        readable(attrs),
        !encoded.contains('"'),
    ensures
        read_attributes((image_text(encoded, attrs) + tail).skip(4)) == image_attributes(
            encoded,
            attrs,
        ),
{
    let all = image_attributes(encoded, attrs);
    lemma_image_attributes_readable(encoded, attrs);
    let after = "/>"@ + tail;
    assert(after[0] != ' ') by {
        reveal_strlit("/>");
    }
    lemma_read_attributes(all, after);
    assert("<img"@.len() == 4) by {
        reveal_strlit("<img");
    }
    lemma_split("<img"@, attributes_text(all) + after);
    lemma_join("<img"@ + attributes_text(all), "/>"@, tail);
    lemma_join("<img"@, attributes_text(all), after);
}

/// Reading the attributes of the wrapper's opening tag, which start after its
/// tag name, gives the configured wrapper attributes.
pub proof fn lemma_wrapper_round_trip(tag: Seq<char>, attrs: Attributes, inner: Seq<char>)
    requires
        readable(attrs),
        tag.len() > 0,
    ensures
        read_attributes(wrapped_text(tag, attrs, inner).skip(1 + tag.len() as int)) == attrs,
{
    let after = ">"@ + inner + "</"@ + tag + ">"@;
    assert("<"@.len() == 1 && after[0] != ' ') by {
        reveal_strlit("<");
        reveal_strlit(">");
    }
    lemma_read_attributes(attrs, after);
    lemma_split("<"@ + tag, attributes_text(attrs) + after);
    let opening = "<"@ + tag + attributes_text(attrs);
    lemma_join(opening, ">"@, inner);
    lemma_join(opening, ">"@ + inner, "</"@);
    lemma_join(opening, ">"@ + inner + "</"@, tag);
    lemma_join(opening, ">"@ + inner + "</"@ + tag, ">"@);
    lemma_join("<"@ + tag, attributes_text(attrs), after);
}

/// After the wrapper's opening tag stand the wrapped text and the closing
/// tag.
pub proof fn lemma_wrapped_inner(tag: Seq<char>, attrs: Attributes, inner: Seq<char>)
    requires
        tag.len() > 0,
    ensures
        wrapped_text(tag, attrs, inner).skip(
            (tag.len() + attributes_text(attrs).len() + 2) as int,
        ) == inner
            + ("</"@ + tag + ">"@),
        wrapped_text(tag, attrs, inner).len() >= tag.len() + attributes_text(attrs).len() + 2
            + inner.len(),
{
    let opening = "<"@ + tag + attributes_text(attrs) + ">"@;
    assert(opening.len() == tag.len() + attributes_text(attrs).len() + 2) by {
        reveal_strlit("<");
        reveal_strlit(">");
    }
    lemma_join(opening + inner, "</"@, tag);
    lemma_join(opening + inner, "</"@ + tag, ">"@);
    lemma_join(opening, inner, "</"@ + tag + ">"@);
    lemma_split(opening, inner + ("</"@ + tag + ">"@));
}

/// Reading the attributes of an `<img>` element inside a wrapper: the element
/// starts after the wrapper's opening tag.
pub proof fn lemma_wrapped_image_round_trip(
    tag: Seq<char>,
    wrapper_attrs: Attributes,
    encoded: Seq<char>,
    attrs: Attributes,
)
    requires
        tag.len() > 0,
        readable(attrs),
        !encoded.contains('"'),
    ensures
        read_attributes(
            wrapped_text(tag, wrapper_attrs, image_text(encoded, attrs)).skip(
                (tag.len() + attributes_text(wrapper_attrs).len() + 2) as int + 4,
            ),
        ) == image_attributes(encoded, attrs),
{
    let image = image_text(encoded, attrs);
    let closing = "</"@ + tag + ">"@;
    let text = wrapped_text(tag, wrapper_attrs, image);
    let start = (tag.len() + attributes_text(wrapper_attrs).len() + 2) as int;
    lemma_wrapped_inner(tag, wrapper_attrs, image);
    lemma_image_round_trip(encoded, attrs, closing);
    assert(image.len() >= 4) by {
        reveal_strlit("<img");
    }
    lemma_skip_twice(text, start, 4);
}

/// Skipping twice is skipping once.
proof fn lemma_skip_twice(text: Seq<char>, first: int, second: int)
    requires
        0 <= first,
        0 <= second,
        first + second <= text.len(),
    ensures
        text.skip(first).skip(second) == text.skip(first + second),
{
    assert(text.skip(first).skip(second) =~= text.skip(first + second));
}

} // verus!
