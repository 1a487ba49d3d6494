//! Mediated device types, as a parent device offers them.

use vstd::prelude::*;
use crate::json::{JsonValue, JsonView, json_view, lemma_members_view, members_view};
use crate::text::{i32_text, lemma_text_less_order, signed_decimal, text_less, text_lt};

verus! {

/// A type of mediated device that a parent supports.
#[derive(Clone, Debug)]
pub struct MDevType {
    pub parent: String,
    pub typename: String,
    pub available_instances: i32,
    pub device_api: String,
    pub name: String,
    pub description: String,
}

/// A type as the contracts see it, text taken as sequences of characters.
pub struct MDevTypeView {
    pub parent: Seq<char>,
    pub typename: Seq<char>,
    pub available_instances: i32,
    pub device_api: Seq<char>,
    pub name: Seq<char>,
    pub description: Seq<char>,
}

impl View for MDevType {
    type V = MDevTypeView;

    open spec fn view(&self) -> MDevTypeView {
        MDevTypeView {
            parent: self.parent@,
            typename: self.typename@,
            available_instances: self.available_instances,
            device_api: self.device_api@,
            name: self.name@,
            description: self.description@,
        }
    }
}

/// The view of a type.
pub open spec fn type_view(t: MDevType) -> MDevTypeView {
    t@
}

/// The members describing a type: the number of available instances, the
/// description where there is one, the device API, and the name where there
/// is one (in the order in which they are displayed).
pub open spec fn type_members(t: MDevType) -> Seq<(Seq<char>, JsonView)> {
    seq![("available_instances"@, JsonView::Number(signed_decimal(t.available_instances as int)))]
        + (if t.description@.len() > 0 {
        seq![("description"@, JsonView::Str(t.description@))]
    } else {
        Seq::empty()
    }) + seq![("device_api"@, JsonView::Str(t.device_api@))] + (if t.name@.len() > 0 {
        seq![("name"@, JsonView::Str(t.name@))]
    } else {
        Seq::empty()
    })
}

/// A type as JSON: an object whose one member, named by the type, describes
/// it.
pub open spec fn type_json(t: MDevType) -> JsonView {
    JsonView::Object(seq![(t.typename@, JsonView::Object(type_members(t)))])
}

impl MDevType {
    /// A type with empty text and no available instances.
    pub fn new() -> (t: MDevType)
        ensures
            t.parent@ == Seq::<char>::empty(),
            t.typename@ == Seq::<char>::empty(),
            t.available_instances == 0,
            t.device_api@ == Seq::<char>::empty(),
            t.name@ == Seq::<char>::empty(),
            t.description@ == Seq::<char>::empty(),
    {
        MDevType {
            parent: String::new(),
            typename: String::new(),
            available_instances: 0,
            device_api: String::new(),
            name: String::new(),
            description: String::new(),
        }
    }

    pub fn to_json(&self) -> (j: JsonValue)
        ensures
            json_view(j) == type_json(*self),
    {
        let mut members: Vec<(String, JsonValue)> = Vec::new();
        members.push(
            (
                String::from_str("available_instances"),
                JsonValue::Number(i32_text(self.available_instances)),
            ),
        );
        if self.description.unicode_len() > 0 {
            members.push((String::from_str("description"), JsonValue::Str(self.description.clone())));
        }
        members.push((String::from_str("device_api"), JsonValue::Str(self.device_api.clone())));
        if self.name.unicode_len() > 0 {
            members.push((String::from_str("name"), JsonValue::Str(self.name.clone())));
        }
        proof {
            lemma_members_view(members@);
            assert(members_view(members@) =~= type_members(*self));
        }
        let mut outer: Vec<(String, JsonValue)> = Vec::new();
        outer.push((self.typename.clone(), JsonValue::Object(members)));
        proof {
            lemma_members_view(outer@);
            assert(members_view(outer@) =~= seq![
                (self.typename@, JsonView::Object(type_members(*self))),
            ]);
        }
        JsonValue::Object(outer)
    }
}

/// Types ordered by name, as `sort_by` on the type names orders them.
pub open spec fn by_typename(s: Seq<MDevType>) -> bool {
    forall|i: int, j: int| 0 <= i < j < s.len() ==> !text_less(#[trigger] s[j].typename@, #[trigger] s[i].typename@)
}

/// Where `t` goes among `s`: after every type whose name does not come
/// after its own (so after those of equal name), from position `i` on.
pub open spec fn insert_position(s: Seq<MDevTypeView>, t: MDevTypeView, i: int) -> int
    decreases s.len() - i,
{
    if i >= s.len() {
        s.len() as int
    } else if text_less(t.typename, s[i].typename) {
        i
    } else {
        insert_position(s, t, i + 1)
    }
}

/// The types of `s` ordered by name, those of equal name in the order in
/// which they come in `s` (a stable sort).
pub open spec fn sorted_by_typename(s: Seq<MDevTypeView>) -> Seq<MDevTypeView>
    decreases s.len(),
{
    if s.len() == 0 {
        Seq::empty()
    } else {
        let prev = sorted_by_typename(s.drop_last());
        prev.insert(insert_position(prev, s.last(), 0), s.last())
    }
}

/// The types of `v`, ordered by name (a stable sort).
pub fn sort_by_typename(v: Vec<MDevType>) -> (r: Vec<MDevType>)
    ensures
        r@.map_values(|t: MDevType| type_view(t)).to_multiset() == v@.map_values(
            |t: MDevType| type_view(t),
        ).to_multiset(),
        by_typename(r@),
        r@.map_values(|t: MDevType| type_view(t)) == sorted_by_typename(
            v@.map_values(|t: MDevType| type_view(t)),
        ),
{
    let ghost orig = v@.map_values(|t: MDevType| type_view(t));
    let ghost items = v@;
    let total: usize = v.len();
    let mut rest = v;
    let mut out: Vec<MDevType> = Vec::new();
    let mut k: usize = 0;
    assert(orig.take(0) =~= Seq::<MDevTypeView>::empty());
    assert(out@.map_values(|t: MDevType| type_view(t)) =~= Seq::<MDevTypeView>::empty());
    assert(items.skip(0) =~= items);
    while rest.len() > 0
        invariant
            k <= orig.len(),
            orig.len() == total,
            items.len() == orig.len(),
            forall|j: int| 0 <= j < items.len() ==> #[trigger] orig[j] == type_view(items[j]),
            rest@ == items.skip(k as int),
            rest@.len() == orig.len() - k,
            out@.map_values(|t: MDevType| type_view(t)).to_multiset() == orig.take(k as int).to_multiset(),
            out@.map_values(|t: MDevType| type_view(t)) == sorted_by_typename(orig.take(k as int)),
            by_typename(out@),
        decreases rest.len(),
    {
        let item = rest.remove(0);
        assert(item == items[k as int]);
        assert(rest@ =~= items.skip(k + 1));
        let mut p: usize = 0;
        let ghost prev_v = out@.map_values(|t: MDevType| type_view(t));
        assert(prev_v == sorted_by_typename(orig.take(k as int)));
        while p < out.len() && !text_lt(item.typename.as_str(), out[p].typename.as_str())
            invariant
                p <= out.len(),
                prev_v == out@.map_values(|t: MDevType| type_view(t)),
                insert_position(prev_v, type_view(item), 0) == insert_position(prev_v, type_view(item), p as int),
                forall|i: int| 0 <= i < p ==> !text_less(item.typename@, #[trigger] out@[i].typename@),
            decreases out.len() - p,
        {
            p = p + 1;
        }
        let ghost before = out@;
        let ghost before_v = out@.map_values(|t: MDevType| type_view(t));
        out.insert(p, item);
        assert(by_typename(out@)) by {
            assert forall|i: int, j: int| 0 <= i < j < out@.len() implies !text_less(
                #[trigger] out@[j].typename@,
                #[trigger] out@[i].typename@,
            ) by {
                if i < p && j > p {
                    assert(out@[i] == before[i] && out@[j] == before[j - 1]);
                } else if i < p && j == p {
                } else if i == p && j > p {
                    let x = before[p as int].typename@;
                    let y = before[j - 1].typename@;
                    assert(text_less(item.typename@, x));
                    if p < j - 1 {
                        assert(!text_less(y, x));
                        lemma_text_less_order(x, y, y);
                        if x != y {
                            lemma_text_less_order(item.typename@, x, y);
                        }
                    }
                    lemma_text_less_order(item.typename@, y, y);
                } else if i > p {
                    assert(out@[i] == before[i - 1] && out@[j] == before[j - 1]);
                } else {
                    assert(out@[i] == before[i] && out@[j] == before[j]);
                }
            }
        }
        assert(out@.map_values(|t: MDevType| type_view(t)) =~= before_v.insert(p as int, type_view(item)));
        assert(insert_position(prev_v, type_view(item), p as int) == p);
        assert(orig.take(k + 1).drop_last() =~= orig.take(k as int));
        assert(orig.take(k + 1).last() == type_view(item));
        proof {
            vstd::seq_lib::to_multiset_insert(before_v, p as int, type_view(item));
            vstd::seq_lib::to_multiset_build(orig.take(k as int), orig[k as int]);
        }
        assert(orig.take(k + 1) =~= orig.take(k as int).push(orig[k as int]));
        assert(orig.take(k + 1).to_multiset() == orig.take(k as int).to_multiset().insert(
            orig[k as int],
        ));
        k = k + 1;
    }
    assert(orig.take(k as int) =~= orig);
    out
}

/// Names in order, as the contracts see types.
pub open spec fn names_in_order(s: Seq<MDevTypeView>) -> bool {
    forall|i: int, j: int| 0 <= i < j < s.len() ==> !text_less(#[trigger] s[j].typename, #[trigger] s[i].typename)
}

proof fn lemma_insert_position(s: Seq<MDevTypeView>, t: MDevTypeView, i: int)
    requires
        0 <= i <= s.len(),
    ensures
        i <= insert_position(s, t, i) <= s.len(),
        forall|j: int| i <= j < insert_position(s, t, i) ==> !text_less(t.typename, #[trigger] s[j].typename),
        insert_position(s, t, i) < s.len() ==> text_less(t.typename, s[insert_position(s, t, i)].typename),
    decreases s.len() - i,
{
    if i < s.len() && !text_less(t.typename, s[i].typename) {
        lemma_insert_position(s, t, i + 1);
    }
}

/// Sorting by name gives the same types (as a multiset), in name order.
pub proof fn law_sorted_by_typename(s: Seq<MDevTypeView>)
    ensures
        names_in_order(sorted_by_typename(s)),
        sorted_by_typename(s).to_multiset() == s.to_multiset(),
    decreases s.len(),
{
    if s.len() == 0 {
        assert(sorted_by_typename(s).to_multiset() =~= s.to_multiset()) by {
            assert(s =~= Seq::<MDevTypeView>::empty());
        }
    } else {
        let prev = sorted_by_typename(s.drop_last());
        let t = s.last();
        law_sorted_by_typename(s.drop_last());
        lemma_insert_position(prev, t, 0);
        let p = insert_position(prev, t, 0);
        let out = prev.insert(p, t);
        assert(names_in_order(out)) by {
            assert forall|i: int, j: int| 0 <= i < j < out.len() implies !text_less(
                #[trigger] out[j].typename,
                #[trigger] out[i].typename,
            ) by {
                if i < p && j > p {
                    assert(out[i] == prev[i] && out[j] == prev[j - 1]);
                } else if i < p && j == p {
                    assert(out[i] == prev[i]);
                } else if i == p && j > p {
                    let x = prev[p].typename;
                    let y = prev[j - 1].typename;
                    assert(out[j] == prev[j - 1]);
                    if p < j - 1 {
                        assert(!text_less(y, x));
                        lemma_text_less_order(x, y, y);
                        if x != y {
                            lemma_text_less_order(t.typename, x, y);
                        }
                    }
                    lemma_text_less_order(t.typename, y, y);
                } else if i > p {
                    assert(out[i] == prev[i - 1] && out[j] == prev[j - 1]);
                } else {
                    assert(out[i] == prev[i] && out[j] == prev[j]);
                }
            }
        }
        vstd::seq_lib::to_multiset_insert(prev, p, t);
        vstd::seq_lib::to_multiset_build(s.drop_last(), t);
        assert(s.drop_last().push(t) =~= s);
    }
}

} // verus!
