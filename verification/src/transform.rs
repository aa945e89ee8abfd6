//! The post's content type forced by `-f`, and the alternatives that the
//! transformations of `-t` add to the parts of a mail.
//!
//! Each part of the post stands first in a group of alternatives; a
//! transformation `FROM:TO:HOW` runs `HOW` on each part of a group whose type
//! is `FROM` (parameters aside) and adds its output to that group as a part
//! of the type `TO`.  Running `HOW` is left to the caller.

use vstd::prelude::*;
use crate::model::{MimeType, pairs_view};
use crate::ops::{MailPart, make_part, media_subtype, media_subtype_text, part_of};

verus! {

/// The parts of the post, each with the type `forced` if one is given.
pub open spec fn forced_parts(
    parts: Seq<(Seq<char>, Seq<char>, Seq<char>, Seq<(Seq<char>, Seq<char>)>)>,
    forced: Option<MimeType>,
) -> Seq<(Seq<char>, Seq<char>, Seq<char>, Seq<(Seq<char>, Seq<char>)>)> {
    match forced {
        None => parts,
        Some(m) => parts.map_values(
            |p: (Seq<char>, Seq<char>, Seq<char>, Seq<(Seq<char>, Seq<char>)>)| part_of(p.0, m),
        ),
    }
}

/// Forcing a type keeps every part in its place with its body, and gives
/// each the forced type, subtype and parameters; with no type to force, the
/// parts stay as they are.
pub proof fn forced_parts_law(
    parts: Seq<(Seq<char>, Seq<char>, Seq<char>, Seq<(Seq<char>, Seq<char>)>)>,
    forced: Option<MimeType>,
)
    ensures
        forced_parts(parts, forced).len() == parts.len(),
        forall|i: int| 0 <= i < parts.len() ==> (#[trigger] forced_parts(parts, forced)[i]).0 == parts[i].0,
        forced matches Some(m) ==> forall|i: int| 0 <= i < parts.len() ==> {
            &&& (#[trigger] forced_parts(parts, forced)[i]).1 == m.type_@
            &&& forced_parts(parts, forced)[i].2 == media_subtype(m)
            &&& forced_parts(parts, forced)[i].3 == pairs_view(m.params@)
        },
        forced is None ==> forced_parts(parts, forced) == parts,
{
}

/// The parts of the post with their content type forced to `forced`, if one
/// is given; their bodies stay as they are.
pub fn force_content_type(parts: Vec<MailPart>, forced: Option<&MimeType>) -> (r: Vec<MailPart>)
    ensures
        r@.len() == parts@.len(),
        forall|i: int| 0 <= i < parts@.len() ==> (#[trigger] r@[i]).body@ == parts@[i].body@,
        forced matches Some(m) ==> forall|i: int| 0 <= i < r@.len() ==> (#[trigger] r@[i]).type_@ == m.type_@
            && r@[i].subtype@ == media_subtype(*m) && pairs_view(r@[i].params@) == pairs_view(m.params@),
        forced is None ==> r@ == parts@,
        r@.map_values(|p: MailPart| p@) == forced_parts(
            parts@.map_values(|p: MailPart| p@),
            match forced {
                Some(m) => Some(*m),
                None => None,
            },
        ),
{
    match forced {
        None => parts,
        Some(m) => {
            let mut r: Vec<MailPart> = Vec::new();
            let mut i: usize = 0;
            while i < parts.len()
                invariant
                    i <= parts@.len(),
                    r@.len() == i,
                    forall|j: int| 0 <= j < i ==> (#[trigger] r@[j])@ == part_of(parts@[j].body@, *m),
                decreases parts@.len() - i,
            {
                r.push(make_part(parts[i].body.clone(), m));
                i = i + 1;
            }
            proof {
                assert(r@.map_values(|p: MailPart| p@) =~= forced_parts(
                    parts@.map_values(|p: MailPart| p@),
                    Some(*m),
                ));
            }
            r
        },
    }
}

/// Each part alone in a group of alternatives.
pub fn single_alternatives(parts: Vec<MailPart>) -> (groups: Vec<Vec<MailPart>>)
    ensures
        groups@.len() == parts@.len(),
        forall|i: int| 0 <= i < groups@.len() ==> (#[trigger] groups@[i])@.len() == 1 && groups@[i]@[0]@ == parts@[i]@,
{
    let mut parts = parts;
    let ghost given = parts@;
    let mut groups: Vec<Vec<MailPart>> = Vec::new();
    let mut k: usize = parts.len();
    // taken from the back, so that each part is moved into its group
    while k > 0
        invariant
            k <= given.len(),
            parts@ == given.take(k as int),
            groups@.len() == given.len() - k,
            forall|i: int| 0 <= i < groups@.len() ==> (#[trigger] groups@[i])@.len() == 1 && groups@[i]@[0]@
                == given[given.len() - 1 - i]@,
        decreases k,
    {
        let p = parts.pop().unwrap();
        proof {
            assert(given.take(k - 1) =~= given.take(k as int).drop_last());
        }
        let mut group: Vec<MailPart> = Vec::new();
        group.push(p);
        groups.push(group);
        k = k - 1;
    }
    let mut ordered: Vec<Vec<MailPart>> = Vec::new();
    let n = groups.len();
    while groups.len() > 0
        invariant
            n == given.len(),
            groups@.len() + ordered@.len() == n,
            forall|i: int| 0 <= i < groups@.len() ==> (#[trigger] groups@[i])@.len() == 1 && groups@[i]@[0]@
                == given[n - 1 - i]@,
            forall|i: int| 0 <= i < ordered@.len() ==> (#[trigger] ordered@[i])@.len() == 1 && ordered@[i]@[0]@
                == given[i]@,
        decreases groups@.len(),
    {
        let g = groups.pop().unwrap();
        ordered.push(g);
    }
    ordered
}

/// The part has the type and subtype of `from`; parameters are not compared.
pub open spec fn part_matches(
    p: (Seq<char>, Seq<char>, Seq<char>, Seq<(Seq<char>, Seq<char>)>),
    from: MimeType,
) -> bool {
    p.1 == from.type_@ && p.2 == media_subtype(from)
}

/// The positions, in increasing order, of the parts in `group` that match `from`.
pub open spec fn matching_positions(
    group: Seq<(Seq<char>, Seq<char>, Seq<char>, Seq<(Seq<char>, Seq<char>)>)>,
    from: MimeType,
) -> Seq<int>
    decreases group.len(),
{
    if group.len() == 0 {
        Seq::empty()
    } else if part_matches(group.last(), from) {
        matching_positions(group.drop_last(), from).push(group.len() - 1)
    } else {
        matching_positions(group.drop_last(), from)
    }
}

fn same_text(a: &String, b: &String) -> (r: bool)
    ensures
        r == (a@ == b@),
{
    *a == *b
}

fn subtype_matches(p: &MailPart, from: &MimeType) -> (r: bool)
    ensures
        r == (p.subtype@ == media_subtype(*from)),
{
    let wanted = media_subtype_text(from);
    same_text(&p.subtype, &wanted)
}

/// The positions of the parts in `group` that the transformation from `from`
/// applies to.
pub fn matching_parts(group: &Vec<MailPart>, from: &MimeType) -> (r: Vec<usize>)
    ensures
        r@.map_values(|i: usize| i as int) == matching_positions(group@.map_values(|p: MailPart| p@), *from),
{
    let ghost views = group@.map_values(|p: MailPart| p@);
    let mut r: Vec<usize> = Vec::new();
    let mut i: usize = 0;
    while i < group.len()
        invariant
            i <= group@.len(),
            views == group@.map_values(|p: MailPart| p@),
            r@.map_values(|k: usize| k as int) == matching_positions(views.take(i as int), *from),
        decreases group@.len() - i,
    {
        proof {
            assert(views.take(i + 1).drop_last() =~= views.take(i as int));
        }
        if same_text(&group[i].type_, &from.type_) && subtype_matches(&group[i], from) {
            let ghost before = r@;
            r.push(i);
            proof {
                assert(r@.map_values(|k: usize| k as int) =~= before.map_values(|k: usize| k as int).push(
                    i as int,
                ));
            }
        }
        i = i + 1;
    }
    proof {
        assert(views.take(group@.len() as int) =~= views);
    }
    r
}

/// Adds the output `body` of a transformation to `group` as a part of the
/// type `to`.
pub fn add_alternative(group: &mut Vec<MailPart>, body: String, to: &MimeType)
    ensures
        final(group)@.map_values(|p: MailPart| p@) == old(group)@.map_values(|p: MailPart| p@).push(
            part_of(body@, *to),
        ),
{
    let ghost before = group@;
    group.push(make_part(body, to));
    proof {
        assert(group@.map_values(|p: MailPart| p@) =~= before.map_values(|p: MailPart| p@).push(
            part_of(body@, *to),
        ));
    }
}

} // verus!
