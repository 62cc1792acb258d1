//! Reading the attributes of a tag back from the text of a fragment.

use vstd::prelude::*;
use vstd::string::*;
use crate::attributes::attributes_view;
use crate::markup::{position_of, read_attributes};

verus! {

/// The characters of a text, one by one.
pub fn characters(text: &str) -> (res: Vec<char>)
    ensures
        res@ == text@,
{
    let mut out: Vec<char> = Vec::new();
    for c in it: text.chars()
        invariant
            it.seq() == text@,
            out@.len() == it.index(),
            forall|j: int| 0 <= j < out@.len() ==> out@[j] == it.seq()[j],
    {
        out.push(c);
    }
    assert(out@ =~= text@);
    out
}

/// Where `c` first stands at or after `from`; the length where it does not.
fn find(chars: &Vec<char>, from: usize, c: char) -> (res: usize)
    requires
        from <= chars.len(),
    ensures
        from <= res <= chars.len(),
        res == from + position_of(chars@.skip(from as int), c),
{
    let mut i: usize = from;
    while i < chars.len() && chars[i] != c
        invariant
            from <= i <= chars.len(),
            position_of(chars@.skip(from as int), c) == (i - from) + position_of(
                chars@.skip(i as int),
                c,
            ),
        decreases chars.len() - i,
    {
        proof {
            assert(chars@.skip(i as int).drop_first() =~= chars@.skip(i as int + 1));
        }
        i += 1;
    }
    i
}

/// One step of reading, in the positions of the whole text: an attribute
/// that starts at `pos` with its name up to `name_end` and its value from
/// there to `value_end`.
proof fn lemma_read_step(chars: Seq<char>, pos: int, name_end: int, value_end: int)
    requires
        0 <= pos < name_end,
        name_end + 2 <= value_end < chars.len(),
        chars[pos] == ' ',
        name_end == pos + 1 + position_of(chars.skip(pos + 1), '='),
        chars[name_end + 1] == '"',
        value_end == name_end + 2 + position_of(chars.skip(name_end + 2), '"'),
    ensures
        read_attributes(chars.skip(pos)) == seq![
            (chars.subrange(pos + 1, name_end), chars.subrange(name_end + 2, value_end)),
        ] + read_attributes(chars.skip(value_end + 1)),
{
    let text = chars.skip(pos);
    let rest = text.drop_first();
    assert(rest =~= chars.skip(pos + 1));
    let name_len = position_of(rest, '=') as int;
    assert(rest[name_len + 1] == chars[name_end + 1]);
    let quoted = rest.skip(name_len + 2);
    assert(quoted =~= chars.skip(name_end + 2));
    let value_len = position_of(quoted, '"') as int;
    assert(rest.take(name_len) =~= chars.subrange(pos + 1, name_end));
    assert(quoted.take(value_len) =~= chars.subrange(name_end + 2, value_end));
    assert(quoted.skip(value_len + 1) =~= chars.skip(value_end + 1));
}

/// Reading stops where no attribute starts at `pos`.
proof fn lemma_read_stop(chars: Seq<char>, pos: int, name_end: int, value_end: int)
    requires
        0 <= pos <= chars.len(),
        pos < chars.len() && chars[pos] == ' ' ==> {
            &&& name_end == pos + 1 + position_of(chars.skip(pos + 1), '=')
            &&& name_end + 1 >= chars.len() || chars[name_end + 1] != '"' || {
                &&& value_end == name_end + 2 + position_of(chars.skip(name_end + 2), '"')
                &&& value_end >= chars.len()
            }
        },
    ensures
        read_attributes(chars.skip(pos)) == Seq::<(Seq<char>, Seq<char>)>::empty(),
{
    let text = chars.skip(pos);
    if pos < chars.len() && chars[pos] == ' ' {
        let rest = text.drop_first();
        assert(rest =~= chars.skip(pos + 1));
        let name_len = position_of(rest, '=') as int;
        if name_end + 1 < chars.len() {
            assert(rest[name_len + 1] == chars[name_end + 1]);
            if chars[name_end + 1] == '"' {
                let quoted = rest.skip(name_len + 2);
                assert(quoted =~= chars.skip(name_end + 2));
            }
        }
    }
}

/// Reads the attributes that stand in `text` from the position `start` on,
/// counted in characters: as long as a space comes next, a name up to `=` and
/// a value between double quotes. Past the end of the text there are none.
pub fn parse_attributes(text: &str, start: usize) -> (res: Vec<(String, String)>)
    ensures
        start <= text@.len() ==> attributes_view(res@) == read_attributes(
            text@.skip(start as int),
        ),
        start > text@.len() ==> res@.len() == 0,
{
    let chars: Vec<char> = characters(text);
    let len: usize = chars.len();
    let mut out: Vec<(String, String)> = Vec::new();
    if start > len {
        return out;
    }
    let mut pos: usize = start;
    let mut reading: bool = true;
    assert(attributes_view(out@) =~= Seq::empty());
    while reading
        invariant
            chars@ == text@,
            len == chars.len(),
            pos <= len,
            reading ==> attributes_view(out@) + read_attributes(chars@.skip(pos as int))
                == read_attributes(chars@.skip(start as int)),
            !reading ==> attributes_view(out@) == read_attributes(chars@.skip(start as int)),
        decreases len - pos + (if reading { 1int } else { 0int }),
    {
        let ghost before = attributes_view(out@);
        let mut name_end: usize = 0;
        let mut value_end: usize = 0;
        let mut found: bool = false;
        if pos < len && chars[pos] == ' ' {
            name_end = find(&chars, pos + 1, '=');
            if name_end < len && name_end + 1 < len && chars[name_end + 1] == '"' {
                value_end = find(&chars, name_end + 2, '"');
                found = value_end < len;
            }
        }
        if found {
            let name: String = String::from_str(text.substring_char(pos + 1, name_end));
            let value: String = String::from_str(text.substring_char(name_end + 2, value_end));
            proof {
                lemma_read_step(chars@, pos as int, name_end as int, value_end as int);
            }
            out.push((name, value));
            assert(attributes_view(out@) =~= before + seq![(name@, value@)]);
            assert((before + seq![(name@, value@)]) + read_attributes(
                chars@.skip(value_end as int + 1),
            ) =~= before + (seq![(name@, value@)] + read_attributes(
                chars@.skip(value_end as int + 1),
            )));
            pos = value_end + 1;
        } else {
            proof {
                lemma_read_stop(chars@, pos as int, name_end as int, value_end as int);
                assert(before + Seq::<(Seq<char>, Seq<char>)>::empty() =~= before);
            }
            reading = false;
        }
    }
    out
}

} // verus!
