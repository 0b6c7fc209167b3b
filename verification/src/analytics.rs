//! The properties text attached to analytics events: a flat JSON object of
//! string values, written without a JSON library.

use vstd::prelude::*;
use crate::saved::{join_fields, record_text};

verus! {

/// One property: `"key":"value"`.
pub open spec fn property_item(key: Seq<char>, value: Seq<char>) -> Seq<char> {
    "\""@ + key + "\":\""@ + value + "\""@
}

pub open spec fn property_views(props: Seq<(&str, &str)>) -> Seq<(Seq<char>, Seq<char>)> {
    props.map_values(|p: (&str, &str)| (p.0@, p.1@))
}

pub open spec fn property_items(props: Seq<(Seq<char>, Seq<char>)>) -> Seq<Seq<char>> {
    props.map_values(|p: (Seq<char>, Seq<char>)| property_item(p.0, p.1))
}

/// The properties text of an event: each `"key":"value"` in order,
/// separated by commas, in braces. Keys and values are written as given.
pub fn properties_json(props: &[(&str, &str)]) -> (j: String)
    ensures
        j@ == record_text(property_items(property_views(props@))),
{
    let ghost fs = property_items(property_views(props@));
    proof {
        reveal_strlit("{");
        reveal_strlit("}");
    }
    let mut j = String::from_str("{");
    let mut i: usize = 0;
    assert(fs.take(0) =~= Seq::<Seq<char>>::empty());
    while i < props.len()
        invariant
            fs == property_items(property_views(props@)),
            fs.len() == props@.len(),
            i <= props@.len(),
            j@ == seq!['{'] + join_fields(fs.take(i as int)),
        decreases props@.len() - i,
    {
        let (key, value) = props[i];
        let ghost before = j@;
        if i > 0 {
            j.append(",");
        }
        j.append("\"");
        j.append(key);
        j.append("\":\"");
        j.append(value);
        j.append("\"");
        proof {
            reveal_strlit(",");
            crate::saved::lemma_record_step(fs, i as int);
            assert(fs[i as int] == property_item(key@, value@));
            if i == 0 {
                assert(j@ =~= seq!['{'] + fs[0]);
            } else {
                assert(j@ =~= before + seq![','] + fs[i as int]);
            }
        }
        i = i + 1;
    }
    j.append("}");
    assert(fs.take(i as int) =~= fs);
    j
}

/// The properties sent with every event: the game version first, then the
/// event's own.
pub fn with_version<'a>(version: &'a str, extra: &[(&'a str, &'a str)]) -> (all: Vec<
    (&'a str, &'a str),
>)
    ensures
        all@ == seq![("game_version", version)] + extra@,
{
    let mut all: Vec<(&'a str, &'a str)> = Vec::new();
    all.push(("game_version", version));
    let mut i: usize = 0;
    while i < extra.len()
        invariant
            i <= extra@.len(),
            all@ == seq![("game_version", version)] + extra@.subrange(0, i as int),
        decreases extra@.len() - i,
    {
        all.push(extra[i]);
        i = i + 1;
        assert(all@ =~= seq![("game_version", version)] + extra@.subrange(0, i as int));
    }
    assert(extra@.subrange(0, i as int) =~= extra@);
    all
}

} // verus!
