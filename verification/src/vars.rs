//! The free-form variables tree for a Patina and its recursive overlay merge.
//!
//! Variables form a JSON-like document: an ordered map with unique string
//! keys, an array, a string, a number, a boolean, or null. Merging document
//! `b` onto document `a` unions object keys recursively; a key mapped to
//! null in `b` is removed from `a` (a tombstone) rather than set to null;
//! on any other shape mismatch `b` replaces `a` outright.

use vstd::prelude::*;

verus! {

/// Specification-level shape of a [`VarValue`] tree.
pub enum Vval {
    /// An ordered map of unique string keys to values
    Object(Seq<(Seq<char>, Vval)>),
    /// An ordered list of values
    Array(Seq<Vval>),
    /// A text value
    Str(Seq<char>),
    /// A numeric value, kept as its decimal rendering
    Num(Seq<char>),
    /// A boolean value
    Bool(bool),
    /// The null value
    Null,
}

/// A JSON-like variables tree.
#[derive(Debug, PartialEq)]
pub enum VarValue {
    /// An ordered map of unique string keys to values
    Object(Vec<(String, VarValue)>),
    /// An ordered list of values
    Array(Vec<VarValue>),
    /// A text value
    Str(String),
    /// A numeric value, kept as its decimal rendering
    Num(String),
    /// A boolean value
    Bool(bool),
    /// The null value; merged over an existing key it deletes that key
    Null,
}

/// The model of a [`VarValue`] tree.
pub open spec fn vv_model(v: VarValue) -> Vval
    decreases v,
{
    match v {
        VarValue::Object(fs) => Vval::Object(obj_model(fs@)),
        VarValue::Array(xs) => Vval::Array(arr_model(xs@)),
        VarValue::Str(s) => Vval::Str(s@),
        VarValue::Num(s) => Vval::Num(s@),
        VarValue::Bool(b) => Vval::Bool(b),
        VarValue::Null => Vval::Null,
    }
}

/// The model of an object's field list.
pub open spec fn obj_model(fs: Seq<(String, VarValue)>) -> Seq<(Seq<char>, Vval)>
    decreases fs,
{
    if fs.len() == 0 {
        Seq::empty()
    } else {
        seq![(fs[0].0@, vv_model(fs[0].1))] + obj_model(fs.drop_first())
    }
}

/// The model of an array's element list.
pub open spec fn arr_model(xs: Seq<VarValue>) -> Seq<Vval>
    decreases xs,
{
    if xs.len() == 0 {
        Seq::empty()
    } else {
        seq![vv_model(xs[0])] + arr_model(xs.drop_first())
    }
}

impl View for VarValue {
    type V = Vval;

    open spec fn view(&self) -> Vval {
        vv_model(*self)
    }
}

/// The field models correspond index by index to the fields.
pub proof fn lemma_obj_model_index(fs: Seq<(String, VarValue)>)
    ensures
        obj_model(fs).len() == fs.len(),
        forall|i: int|
            0 <= i < fs.len() ==> #[trigger] obj_model(fs)[i] == (fs[i].0@, vv_model(fs[i].1)),
    decreases fs.len(),
{
    if fs.len() > 0 {
        lemma_obj_model_index(fs.drop_first());
    }
}

/// The element models correspond index by index to the elements.
pub proof fn lemma_arr_model_index(xs: Seq<VarValue>)
    ensures
        arr_model(xs).len() == xs.len(),
        forall|i: int| 0 <= i < xs.len() ==> #[trigger] arr_model(xs)[i] == vv_model(xs[i]),
    decreases xs.len(),
{
    if xs.len() > 0 {
        lemma_arr_model_index(xs.drop_first());
    }
}

/// A measure for termination of the merge: the number of nodes in a tree.
pub open spec fn vv_size(v: Vval) -> nat
    decreases v,
{
    match v {
        Vval::Object(fs) => 1 + fields_size(fs),
        Vval::Array(xs) => 1 + elems_size(xs),
        _ => 1,
    }
}

/// The node count of an array's element list.
pub open spec fn elems_size(xs: Seq<Vval>) -> nat
    decreases xs,
{
    if xs.len() == 0 {
        0
    } else {
        1 + vv_size(xs[0]) + elems_size(xs.drop_first())
    }
}

/// The node count of an object's field list.
pub open spec fn fields_size(fs: Seq<(Seq<char>, Vval)>) -> nat
    decreases fs,
{
    if fs.len() == 0 {
        0
    } else {
        1 + vv_size(fs[0].1) + fields_size(fs.drop_first())
    }
}

/// The value at the first occurrence of key `k`, or null if `k` is absent.
pub open spec fn lookup_or_null(fs: Seq<(Seq<char>, Vval)>, k: Seq<char>) -> Vval
    decreases fs.len(),
{
    if fs.len() == 0 {
        Vval::Null
    } else if fs[0].0 == k {
        fs[0].1
    } else {
        lookup_or_null(fs.drop_first(), k)
    }
}

/// The field list with every entry for key `k` removed, order preserved.
pub open spec fn remove_key_model(fs: Seq<(Seq<char>, Vval)>, k: Seq<char>) -> Seq<
    (Seq<char>, Vval),
>
    decreases fs.len(),
{
    if fs.len() == 0 {
        fs
    } else if fs[0].0 == k {
        remove_key_model(fs.drop_first(), k)
    } else {
        seq![fs[0]] + remove_key_model(fs.drop_first(), k)
    }
}

/// The field list with the first entry for key `k` replaced by `v`, or with
/// `(k, v)` appended when `k` is absent.
pub open spec fn upsert_model(fs: Seq<(Seq<char>, Vval)>, k: Seq<char>, v: Vval) -> Seq<
    (Seq<char>, Vval),
>
    decreases fs.len(),
{
    if fs.len() == 0 {
        seq![(k, v)]
    } else if fs[0].0 == k {
        seq![(k, v)] + fs.drop_first()
    } else {
        seq![fs[0]] + upsert_model(fs.drop_first(), k, v)
    }
}

/// The overlay merge of tree `b` onto tree `a`: objects union recursively,
/// a null entry in `b` removes the key, and any other `b` replaces `a`.
pub open spec fn merge_model(a: Vval, b: Vval) -> Vval
    decreases b, 0int,
{
    match b {
        Vval::Object(bf) => match a {
            Vval::Object(af) => Vval::Object(merge_fields_model(af, bf)),
            _ => b,
        },
        _ => b,
    }
}

/// The overlay merge of field list `bf` onto field list `af`, entry by entry
/// in the order of `bf`.
pub open spec fn merge_fields_model(
    af: Seq<(Seq<char>, Vval)>,
    bf: Seq<(Seq<char>, Vval)>,
) -> Seq<(Seq<char>, Vval)>
    decreases bf, 1int,
{
    if bf.len() == 0 {
        af
    } else {
        let k = bf[0].0;
        let v = bf[0].1;
        let af2 = if v is Null {
            remove_key_model(af, k)
        } else {
            upsert_model(af, k, merge_model(lookup_or_null(af, k), v))
        };
        merge_fields_model(af2, bf.drop_first())
    }
}

/// Merging any tree onto null yields that tree.
pub proof fn lemma_merge_onto_null(b: Vval)
    ensures
        merge_model(Vval::Null, b) == b,
{
}

/// The tombstone law: overlaying an object that maps `k` to null removes
/// every entry for `k` from the base object and leaves the other entries
/// as they stand, in order — the key is deleted, not set to null.
pub proof fn lemma_overlay_null_removes_key(af: Seq<(Seq<char>, Vval)>, k: Seq<char>)
    ensures
        merge_model(Vval::Object(af), Vval::Object(seq![(k, Vval::Null)])) == Vval::Object(
            remove_key_model(af, k),
        ),
{
    assert(seq![(k, Vval::Null)].drop_first() =~= Seq::<(Seq<char>, Vval)>::empty());
    assert(seq![(k, Vval::Null)][0] == (k, Vval::Null));
    assert(merge_fields_model(remove_key_model(af, k), Seq::empty()) == remove_key_model(af, k));
}

/// The override law: overlaying an object that maps `k` to a non-null
/// leaf replaces the first entry for `k` in place, or appends the entry
/// when `k` is absent; the other entries stand as they are. Overlaying
/// the same key twice therefore keeps the later value.
pub proof fn lemma_overlay_replaces_key(af: Seq<(Seq<char>, Vval)>, k: Seq<char>, v: Vval)
    requires
        !(v is Null),
        !(v is Object),
    ensures
        merge_model(Vval::Object(af), Vval::Object(seq![(k, v)])) == Vval::Object(
            upsert_model(af, k, v),
        ),
{
    assert(seq![(k, v)].drop_first() =~= Seq::<(Seq<char>, Vval)>::empty());
    assert(seq![(k, v)][0] == (k, v));
    assert(merge_model(lookup_or_null(af, k), v) == v);
    assert(merge_fields_model(upsert_model(af, k, v), Seq::empty()) == upsert_model(af, k, v));
}

/// Every field's value is strictly smaller than the whole field list.
pub proof fn lemma_fields_size_elem(fs: Seq<(Seq<char>, Vval)>, i: int)
    requires
        0 <= i < fs.len(),
    ensures
        vv_size(fs[i].1) < fields_size(fs),
    decreases fs.len(),
{
    if i > 0 {
        lemma_fields_size_elem(fs.drop_first(), i - 1);
    }
}

/// Every element is strictly smaller than the whole element list.
pub proof fn lemma_elems_size_elem(xs: Seq<Vval>, i: int)
    requires
        0 <= i < xs.len(),
    ensures
        vv_size(xs[i]) < elems_size(xs),
    decreases xs.len(),
{
    if i > 0 {
        lemma_elems_size_elem(xs.drop_first(), i - 1);
    }
}

/// A deep copy of a variables tree.
pub fn clone_var(v: &VarValue) -> (r: VarValue)
    ensures
        r@ == v@,
    decreases vv_size(v@), 0int,
{
    match v {
        VarValue::Object(fs) => VarValue::Object(clone_fields(fs)),
        VarValue::Array(xs) => VarValue::Array(clone_elems(xs)),
        VarValue::Str(s) => VarValue::Str(s.clone()),
        VarValue::Num(s) => VarValue::Num(s.clone()),
        VarValue::Bool(b) => VarValue::Bool(*b),
        VarValue::Null => VarValue::Null,
    }
}

/// A deep copy of an object's field list.
fn clone_fields(fs: &Vec<(String, VarValue)>) -> (r: Vec<(String, VarValue)>)
    ensures
        obj_model(r@) == obj_model(fs@),
        r@.len() == fs@.len(),
    decreases fields_size(obj_model(fs@)), 1int,
{
    let mut out: Vec<(String, VarValue)> = Vec::new();
    let mut i: usize = 0;
    while i < fs.len()
        invariant
            i <= fs@.len(),
            out@.len() == i,
            forall|j: int|
                0 <= j < i ==> ((#[trigger] out@[j]).0@ == fs@[j].0@ && vv_model(out@[j].1)
                    == vv_model(fs@[j].1)),
        decreases fs@.len() - i,
    {
        proof {
            lemma_obj_model_index(fs@);
            lemma_fields_size_elem(obj_model(fs@), i as int);
        }
        let item = &fs[i];
        out.push((item.0.clone(), clone_var(&item.1)));
        i += 1;
    }
    proof {
        lemma_obj_model_index(fs@);
        lemma_obj_model_index(out@);
        assert(obj_model(out@) =~= obj_model(fs@));
    }
    out
}

/// A deep copy of an array's element list.
fn clone_elems(xs: &Vec<VarValue>) -> (r: Vec<VarValue>)
    ensures
        arr_model(r@) == arr_model(xs@),
        r@.len() == xs@.len(),
    decreases elems_size(arr_model(xs@)), 1int,
{
    let mut out: Vec<VarValue> = Vec::new();
    let mut i: usize = 0;
    while i < xs.len()
        invariant
            i <= xs@.len(),
            out@.len() == i,
            forall|j: int|
                0 <= j < i ==> vv_model(#[trigger] out@[j]) == vv_model(xs@[j]),
        decreases xs@.len() - i,
    {
        proof {
            lemma_arr_model_index(xs@);
            lemma_elems_size_elem(arr_model(xs@), i as int);
        }
        out.push(clone_var(&xs[i]));
        i += 1;
    }
    proof {
        lemma_arr_model_index(xs@);
        lemma_arr_model_index(out@);
        assert(arr_model(out@) =~= arr_model(xs@));
    }
    out
}

/// serde_json's generic value, used only as a carrier between the TOML
/// parser, the template engine and this crate's own tree.
#[verifier::external_type_specification]
#[verifier::external_body]
pub struct ExJsonValue(serde_json::Value);

/// Relies on serde_json::Value only as a data carrier: each variant is
/// mapped one for one onto [`VarValue`]; a number keeps its decimal
/// rendering.
#[verifier::external_body]
pub(crate) fn json_to_vars(v: &serde_json::Value) -> VarValue {
    match v {
        serde_json::Value::Null => VarValue::Null,
        serde_json::Value::Bool(b) => VarValue::Bool(*b),
        serde_json::Value::Number(n) => VarValue::Num(n.to_string()),
        serde_json::Value::String(s) => VarValue::Str(s.clone()),
        serde_json::Value::Array(a) => VarValue::Array(a.iter().map(json_to_vars).collect()),
        serde_json::Value::Object(m) => VarValue::Object(
            m.iter().map(|(k, val)| (k.clone(), json_to_vars(val))).collect(),
        ),
    }
}

/// Relies on serde_json::Value only as a data carrier in the other
/// direction: each [`VarValue`] variant is mapped one for one; a number
/// that does not parse back becomes null.
#[verifier::external_body]
pub(crate) fn vars_to_json(v: &VarValue) -> serde_json::Value {
    match v {
        VarValue::Null => serde_json::Value::Null,
        VarValue::Bool(b) => serde_json::Value::Bool(*b),
        VarValue::Num(s) => match s.parse::<serde_json::Number>() {
            Ok(n) => serde_json::Value::Number(n),
            Err(_) => serde_json::Value::Null,
        },
        VarValue::Str(s) => serde_json::Value::String(s.clone()),
        VarValue::Array(a) => serde_json::Value::Array(a.iter().map(vars_to_json).collect()),
        VarValue::Object(m) => serde_json::Value::Object(
            m.iter().map(|kv| (kv.0.clone(), vars_to_json(&kv.1))).collect(),
        ),
    }
}

/// Remove every entry for key `k` from a field list, preserving order.
fn remove_key(af: Vec<(String, VarValue)>, k: &String) -> (r: Vec<(String, VarValue)>)
    ensures
        obj_model(r@) == remove_key_model(obj_model(af@), k@),
    decreases af@.len(),
{
    let mut af = af;
    if af.len() == 0 {
        af
    } else {
        let ghost af0 = af@;
        let kv = af.remove(0);
        proof {
            assert(af@ =~= af0.drop_first());
        }
        let same = crate::utils::str_eq(kv.0.as_str(), k.as_str());
        let mut rest = remove_key(af, k);
        proof {
            assert(obj_model(af0) == seq![(af0[0].0@, vv_model(af0[0].1))] + obj_model(
                af0.drop_first(),
            ));
            assert(obj_model(af0)[0] == (kv.0@, vv_model(kv.1)));
            assert(obj_model(af0).drop_first() =~= obj_model(af0.drop_first()));
        }
        if same {
            rest
        } else {
            let ghost rest0 = rest@;
            rest.insert(0, kv);
            proof {
                assert(rest@ =~= seq![kv] + rest0);
                assert((seq![kv] + rest0).drop_first() =~= rest0);
                assert(obj_model(rest@) =~= remove_key_model(obj_model(af0), k@));
            }
            rest
        }
    }
}

/// Merge tree `b` onto tree `a` following the overlay rule: objects union
/// recursively, a null entry deletes its key, anything else replaces.
pub fn merge_values(a: VarValue, b: VarValue) -> (r: VarValue)
    ensures
        r@ == merge_model(a@, b@),
    decreases vv_size(b@), 0int, 0int,
{
    match b {
        VarValue::Object(bf) => {
            match a {
                VarValue::Object(af) => {
                    proof {
                        assert(vv_size(Vval::Object(obj_model(bf@))) == 1 + fields_size(
                            obj_model(bf@),
                        ));
                    }
                    VarValue::Object(merge_fields(af, bf))
                },
                _ => VarValue::Object(bf),
            }
        },
        _ => b,
    }
}

/// Merge field list `bf` onto field list `af`, entry by entry in `bf` order.
fn merge_fields(af: Vec<(String, VarValue)>, bf: Vec<(String, VarValue)>) -> (r: Vec<
    (String, VarValue),
>)
    ensures
        obj_model(r@) == merge_fields_model(obj_model(af@), obj_model(bf@)),
    decreases fields_size(obj_model(bf@)), 1int, 0int,
{
    let mut bf = bf;
    if bf.len() == 0 {
        af
    } else {
        let ghost bf0 = bf@;
        let kv = bf.remove(0);
        proof {
            assert(bf@ =~= bf0.drop_first());
            assert(obj_model(bf0) == seq![(bf0[0].0@, vv_model(bf0[0].1))] + obj_model(
                bf0.drop_first(),
            ));
            assert(obj_model(bf0)[0] == (kv.0@, vv_model(kv.1)));
            assert(obj_model(bf0).drop_first() =~= obj_model(bf0.drop_first()));
        }
        let af2 = if matches!(kv.1, VarValue::Null) {
            remove_key(af, &kv.0)
        } else {
            upsert_merged(af, kv.0, kv.1)
        };
        merge_fields(af2, bf)
    }
}

/// Replace the value at key `k` by the merge of the current value (or null)
/// with `v`, appending the entry when `k` is absent.
fn upsert_merged(af: Vec<(String, VarValue)>, k: String, v: VarValue) -> (r: Vec<
    (String, VarValue),
>)
    ensures
        obj_model(r@) == upsert_model(
            obj_model(af@),
            k@,
            merge_model(lookup_or_null(obj_model(af@), k@), v@),
        ),
    decreases vv_size(v@), 2int, af@.len(),
{
    let mut af = af;
    if af.len() == 0 {
        let merged = merge_values(VarValue::Null, v);
        af.push((k, merged));
        proof {
            assert(af@.len() == 1);
            assert(af@[0] == (k, merged));
            assert(af@.drop_first() =~= Seq::<(String, VarValue)>::empty());
            assert(obj_model(af@.drop_first()) =~= Seq::<(Seq<char>, Vval)>::empty());
            assert(obj_model(af@) == seq![(af@[0].0@, vv_model(af@[0].1))] + obj_model(
                af@.drop_first(),
            ));
            assert(obj_model(af@) =~= seq![(k@, vv_model(merged))]);
        }
        af
    } else {
        let ghost af0 = af@;
        let kv = af.remove(0);
        proof {
            assert(af@ =~= af0.drop_first());
            assert(obj_model(af0) == seq![(af0[0].0@, vv_model(af0[0].1))] + obj_model(
                af0.drop_first(),
            ));
            assert(obj_model(af0)[0] == (kv.0@, vv_model(kv.1)));
            assert(obj_model(af0).drop_first() =~= obj_model(af0.drop_first()));
        }
        if crate::utils::str_eq(kv.0.as_str(), k.as_str()) {
            let merged = merge_values(kv.1, v);
            let mut out = af;
            let ghost out0 = out@;
            out.insert(0, (k, merged));
            proof {
                assert(out@ =~= seq![(k, merged)] + out0);
                assert((seq![(k, merged)] + out0).drop_first() =~= out0);
                assert(obj_model(out@) =~= upsert_model(
                    obj_model(af0),
                    k@,
                    merge_model(lookup_or_null(obj_model(af0), k@), v@),
                ));
            }
            out
        } else {
            let mut rest = upsert_merged(af, k, v);
            let ghost rest0 = rest@;
            rest.insert(0, kv);
            proof {
                assert(rest@ =~= seq![kv] + rest0);
                assert((seq![kv] + rest0).drop_first() =~= rest0);
                assert(obj_model(rest@) =~= upsert_model(
                    obj_model(af0),
                    k@,
                    merge_model(lookup_or_null(obj_model(af0), k@), v@),
                ));
            }
            rest
        }
    }
}

} // verus!
