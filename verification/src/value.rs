//! The value model: one parsed JSON node, together with its mathematical
//! abstraction used in contracts.

use vstd::prelude::*;

verus! {

/// The tag of a parsed node: string, number, array or object.
#[derive(Debug, Clone, PartialEq, Eq, Structural)]
pub enum JType {
    JString,
    JNumber,
    JArray,
    JObject,
}

impl Default for JType {
    fn default() -> (r: Self)
        ensures
            r == JType::JObject,
    {
        JType::JObject
    }
}

/// One parsed JSON node. The tag decides which field carries the payload:
/// `str_value` for strings and numbers (the literal source text, escapes not
/// decoded), `arr` for arrays, `object` for objects. The fields belonging to
/// the other tags stay empty; `wf()` states that.
///
/// An object is kept as a vector of key/value pairs with pairwise distinct
/// keys; a duplicate key in the input overwrites the earlier value in place.
#[derive(Debug)]
pub struct JSONValue {
    pub jtype: JType,
    pub str_value: String,
    pub arr: Vec<Box<JSONValue>>,
    pub object: Vec<(String, JSONValue)>,
}

impl Default for JSONValue {
    fn default() -> (r: Self)
        ensures
            r.jtype == JType::JObject,
            r.str_value@ == Seq::<char>::empty(),
            r.arr@ == Seq::<Box<JSONValue>>::empty(),
            r.object@ == Seq::<(String, JSONValue)>::empty(),
            r.wf(),
    {
        JSONValue {
            jtype: JType::JObject,
            str_value: String::new(),
            arr: Vec::new(),
            object: Vec::new(),
        }
    }
}

/// The mathematical abstraction of a parsed node: a plain tree over character
/// sequences. An object is an association sequence with pairwise distinct
/// keys, in insertion order.
pub enum JVal {
    JStr(Seq<char>),
    JNum(Seq<char>),
    JArr(Seq<JVal>),
    JObj(Seq<(Seq<char>, JVal)>),
}

/// Abstraction of an array's element vector, elementwise.
pub open spec fn abs_elems(elems: Seq<Box<JSONValue>>) -> Seq<JVal>
    decreases elems,
{
    if elems.len() == 0 {
        Seq::empty()
    } else {
        seq![(*elems[0]).abs()] + abs_elems(elems.drop_first())
    }
}

/// Abstraction of an object's entry vector, elementwise.
pub open spec fn abs_entries(entries: Seq<(String, JSONValue)>) -> Seq<(Seq<char>, JVal)>
    decreases entries,
{
    if entries.len() == 0 {
        Seq::empty()
    } else {
        seq![(entries[0].0@, entries[0].1.abs())] + abs_entries(entries.drop_first())
    }
}

/// Every element of an array's vector is well formed.
pub open spec fn all_wf(elems: Seq<Box<JSONValue>>) -> bool
    decreases elems,
{
    elems.len() == 0 || ((*elems[0]).wf() && all_wf(elems.drop_first()))
}

/// Every value of an object's entry vector is well formed.
pub open spec fn entries_wf(entries: Seq<(String, JSONValue)>) -> bool
    decreases entries,
{
    entries.len() == 0 || (entries[0].1.wf() && entries_wf(entries.drop_first()))
}

/// The keys of an object's entry vector are pairwise distinct.
pub open spec fn keys_unique(entries: Seq<(String, JSONValue)>) -> bool {
    forall|a: int, b: int|
        0 <= a < b < entries.len() ==> entries[a].0@ != entries[b].0@
}

impl JSONValue {
    /// The tree this node stands for.
    pub open spec fn abs(self) -> JVal
        decreases self,
    {
        match self.jtype {
            JType::JString => JVal::JStr(self.str_value@),
            JType::JNumber => JVal::JNum(self.str_value@),
            JType::JArray => JVal::JArr(abs_elems(self.arr@)),
            JType::JObject => JVal::JObj(abs_entries(self.object@)),
        }
    }

    /// Well-formedness: the tag decides which field is meaningful, the others
    /// are empty; object keys are pairwise distinct; children are well formed.
    pub open spec fn wf(self) -> bool
        decreases self,
    {
        match self.jtype {
            JType::JString => self.arr@.len() == 0 && self.object@.len() == 0,
            JType::JNumber => self.arr@.len() == 0 && self.object@.len() == 0,
            JType::JArray => self.str_value@.len() == 0 && self.object@.len() == 0 && all_wf(
                self.arr@,
            ),
            JType::JObject => self.str_value@.len() == 0 && self.arr@.len() == 0 && entries_wf(
                self.object@,
            ) && keys_unique(self.object@),
        }
    }
}

/// Insert a key/value pair into an association sequence: an existing key is
/// overwritten in place, a new key is appended at the end.
pub open spec fn assoc_insert(
    entries: Seq<(Seq<char>, JVal)>,
    k: Seq<char>,
    v: JVal,
) -> Seq<(Seq<char>, JVal)>
    decreases entries,
{
    if entries.len() == 0 {
        seq![(k, v)]
    } else if entries[0].0 == k {
        seq![(k, v)] + entries.drop_first()
    } else {
        seq![entries[0]] + assoc_insert(entries.drop_first(), k, v)
    }
}

/// The abstraction of an element vector, pointwise.
pub proof fn lemma_abs_elems_index(elems: Seq<Box<JSONValue>>)
    ensures
        abs_elems(elems).len() == elems.len(),
        forall|k: int|
            0 <= k < elems.len() ==> abs_elems(elems)[k] == (*elems[k]).abs(),
    decreases elems,
{
    if elems.len() > 0 {
        lemma_abs_elems_index(elems.drop_first());
    }
}

/// The abstraction of an entry vector, pointwise.
pub proof fn lemma_abs_entries_index(entries: Seq<(String, JSONValue)>)
    ensures
        abs_entries(entries).len() == entries.len(),
        forall|k: int|
            0 <= k < entries.len() ==> abs_entries(entries)[k] == (
                entries[k].0@,
                entries[k].1.abs(),
            ),
    decreases entries,
{
    if entries.len() > 0 {
        lemma_abs_entries_index(entries.drop_first());
    }
}

/// Elementwise well-formedness of an element vector, pointwise.
pub proof fn lemma_all_wf_index(elems: Seq<Box<JSONValue>>)
    ensures
        all_wf(elems) <==> (forall|k: int| 0 <= k < elems.len() ==> (*elems[k]).wf()),
    decreases elems,
{
    if elems.len() > 0 {
        lemma_all_wf_index(elems.drop_first());
        if (*elems[0]).wf() && all_wf(elems.drop_first()) {
            assert forall|k: int| 0 <= k < elems.len() implies (*elems[k]).wf() by {
                if k > 0 {
                    assert((*elems.drop_first()[k - 1]).wf());
                }
            }
        }
    }
}

/// Elementwise well-formedness of an entry vector, pointwise.
pub proof fn lemma_entries_wf_index(entries: Seq<(String, JSONValue)>)
    ensures
        entries_wf(entries) <==> (forall|k: int|
            0 <= k < entries.len() ==> entries[k].1.wf()),
    decreases entries,
{
    if entries.len() > 0 {
        lemma_entries_wf_index(entries.drop_first());
        if entries[0].1.wf() && entries_wf(entries.drop_first()) {
            assert forall|k: int| 0 <= k < entries.len() implies entries[k].1.wf() by {
                if k > 0 {
                    assert(entries.drop_first()[k - 1].1.wf());
                }
            }
        }
    }
}

/// Inserting a key that already occurs (first at `idx`) overwrites in place.
pub proof fn lemma_assoc_insert_hit(es: Seq<(Seq<char>, JVal)>, idx: int, k: Seq<char>, v: JVal)
    requires
        0 <= idx < es.len(),
        forall|a: int| 0 <= a < idx ==> es[a].0 != k,
        es[idx].0 == k,
    ensures
        assoc_insert(es, k, v) == es.update(idx, (k, v)),
    decreases idx,
{
    if idx == 0 {
        assert(assoc_insert(es, k, v) =~= es.update(0, (k, v)));
    } else {
        assert(forall|a: int|
            0 <= a < idx - 1 ==> es.drop_first()[a].0 == es[a + 1].0);
        lemma_assoc_insert_hit(es.drop_first(), idx - 1, k, v);
        assert(assoc_insert(es, k, v) =~= es.update(idx, (k, v)));
    }
}

/// Inserting a key that does not occur appends at the end.
pub proof fn lemma_assoc_insert_miss(es: Seq<(Seq<char>, JVal)>, k: Seq<char>, v: JVal)
    requires
        forall|a: int| 0 <= a < es.len() ==> es[a].0 != k,
    ensures
        assoc_insert(es, k, v) == es.push((k, v)),
    decreases es,
{
    if es.len() == 0 {
        assert(assoc_insert(es, k, v) =~= es.push((k, v)));
    } else {
        assert(forall|a: int|
            0 <= a < es.drop_first().len() ==> es.drop_first()[a].0 == es[a + 1].0);
        lemma_assoc_insert_miss(es.drop_first(), k, v);
        assert(assoc_insert(es, k, v) =~= es.push((k, v)));
    }
}

/// Insert a key/value pair into an object's entry vector: the executable
/// counterpart of `assoc_insert`. An existing key's value is overwritten in
/// place, a new key is appended; distinct keys and well-formedness are kept.
pub fn object_insert(entries: &mut Vec<(String, JSONValue)>, key: String, v: JSONValue)
    requires
        entries_wf(old(entries)@),
        keys_unique(old(entries)@),
        v.wf(),
    ensures
        abs_entries(final(entries)@) == assoc_insert(abs_entries(old(entries)@), key@, v.abs()),
        entries_wf(final(entries)@),
        keys_unique(final(entries)@),
{
    let n = entries.len();
    let mut idx: usize = 0;
    proof {
        lemma_abs_entries_index(old(entries)@);
        lemma_entries_wf_index(old(entries)@);
    }
    while idx < n
        invariant
            idx <= n,
            n == entries@.len(),
            entries@ == old(entries)@,
            entries_wf(entries@),
            keys_unique(entries@),
            v.wf(),
            forall|a: int| 0 <= a < idx ==> entries@[a].0@ != key@,
        decreases n - idx,
    {
        if entries[idx].0 == key {
            proof {
                lemma_abs_entries_index(entries@);
                lemma_entries_wf_index(entries@);
                lemma_assoc_insert_hit(
                    abs_entries(entries@),
                    idx as int,
                    key@,
                    v.abs(),
                );
            }
            let ghost before = entries@;
            entries[idx] = (key, v);
            proof {
                lemma_abs_entries_index(entries@);
                lemma_entries_wf_index(entries@);
                assert(abs_entries(entries@) =~= assoc_insert(
                    abs_entries(before),
                    entries@[idx as int].0@,
                    v.abs(),
                ));
            }
            return;
        }
        idx = idx + 1;
    }
    let ghost before = entries@;
    proof {
        lemma_assoc_insert_miss(abs_entries(entries@), key@, v.abs());
    }
    entries.push((key, v));
    proof {
        lemma_abs_entries_index(entries@);
        lemma_entries_wf_index(entries@);
        assert(abs_entries(entries@) =~= assoc_insert(
            abs_entries(before),
            entries@[n as int].0@,
            v.abs(),
        ));
    }
}

} // verus!
