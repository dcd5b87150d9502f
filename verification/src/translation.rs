//! The catalog document model: a JSON-shaped tree whose leaves are null or
//! opaque scalar handles, the flattening of such a tree into dot-and-
//! bracket keys, and the removal of unused keys from it.

use vstd::prelude::*;
use crate::search::views;
use crate::stats::spec_decimal;

verus! {

/// A catalog document: nested objects and arrays whose leaves are either
/// null or non-null scalars. A scalar's content never matters here, so it
/// is carried as an opaque handle that the caller owns.
pub enum JsonValue {
    Null,
    Scalar(u64),
    Object(Vec<(String, JsonValue)>),
    Array(Vec<JsonValue>),
}

/// The mathematical shape of a catalog document.
pub enum SpecJson {
    Null,
    Scalar(u64),
    Object(Seq<(Seq<char>, SpecJson)>),
    Array(Seq<SpecJson>),
}

impl JsonValue {
    /// The document's mathematical shape.
    pub open spec fn deep(self) -> SpecJson
        decreases self, 0int, 0int,
    {
        match self {
            JsonValue::Null => SpecJson::Null,
            JsonValue::Scalar(id) => SpecJson::Scalar(id),
            JsonValue::Object(fields) => SpecJson::Object(deep_fields(fields, 0)),
            JsonValue::Array(items) => SpecJson::Array(deep_items(items, 0)),
        }
    }
}

/// The shapes of object entries from position `i` on.
pub open spec fn deep_fields(fields: Vec<(String, JsonValue)>, i: int) -> Seq<(Seq<char>, SpecJson)>
    decreases fields, 1int, fields@.len() - i,
{
    if i < 0 || i >= fields@.len() {
        Seq::empty()
    } else {
        seq![(fields@[i].0@, fields@[i].1.deep())] + deep_fields(fields, i + 1)
    }
}

/// The shapes of array items from position `i` on.
pub open spec fn deep_items(items: Vec<JsonValue>, i: int) -> Seq<SpecJson>
    decreases items, 1int, items@.len() - i,
{
    if i < 0 || i >= items@.len() {
        Seq::empty()
    } else {
        seq![items@[i].deep()] + deep_items(items, i + 1)
    }
}

/// The flattened key of an object entry: the entry's name under an empty
/// prefix, else the prefix, a dot, and the name.
pub open spec fn spec_child_key(prefix: Seq<char>, name: Seq<char>) -> Seq<char> {
    if prefix.len() == 0 {
        name
    } else {
        prefix + seq!['.'] + name
    }
}

/// The flattened key of an array item: the prefix followed by the item's
/// position in brackets.
pub open spec fn spec_item_key(prefix: Seq<char>, i: int) -> Seq<char> {
    prefix + seq!['['] + spec_decimal(i as nat) + seq![']']
}

/// The flattened form of a document: one pair per leaf, keyed by the
/// leaf's dot-and-bracket path, in document order.
pub open spec fn spec_flatten(v: SpecJson, prefix: Seq<char>) -> Seq<(Seq<char>, SpecJson)>
    decreases v, 0int, 0int,
{
    match v {
        SpecJson::Object(fields) => spec_flatten_fields(fields, 0, prefix),
        SpecJson::Array(items) => spec_flatten_items(items, 0, prefix),
        _ => seq![(prefix, v)],
    }
}

/// The flattened leaves of object entries from position `i` on.
pub open spec fn spec_flatten_fields(
    fields: Seq<(Seq<char>, SpecJson)>,
    i: int,
    prefix: Seq<char>,
) -> Seq<(Seq<char>, SpecJson)>
    decreases fields, 1int, fields.len() - i,
{
    if i < 0 || i >= fields.len() {
        Seq::empty()
    } else {
        spec_flatten(fields[i].1, spec_child_key(prefix, fields[i].0)) + spec_flatten_fields(
            fields,
            i + 1,
            prefix,
        )
    }
}

/// The flattened leaves of array items from position `i` on.
pub open spec fn spec_flatten_items(
    items: Seq<SpecJson>,
    i: int,
    prefix: Seq<char>,
) -> Seq<(Seq<char>, SpecJson)>
    decreases items, 1int, items.len() - i,
{
    if i < 0 || i >= items.len() {
        Seq::empty()
    } else {
        spec_flatten(items[i], spec_item_key(prefix, i)) + spec_flatten_items(items, i + 1, prefix)
    }
}

/// The views of flattened exec pairs.
pub open spec fn pair_views(r: Seq<(String, JsonValue)>) -> Seq<(Seq<char>, SpecJson)> {
    r.map_values(|p: (String, JsonValue)| (p.0@, p.1.deep()))
}

proof fn lemma_deep_fields(fields: Vec<(String, JsonValue)>, i: int)
    requires
        0 <= i <= fields@.len(),
    ensures
        deep_fields(fields, i).len() == fields@.len() - i,
        forall|k: int|
            0 <= k < fields@.len() - i ==> #[trigger] deep_fields(fields, i)[k] == (
                fields@[k + i].0@,
                fields@[k + i].1.deep(),
            ),
    decreases fields@.len() - i,
{
    if i < fields@.len() {
        lemma_deep_fields(fields, i + 1);
        assert forall|k: int|
            0 <= k < fields@.len() - i implies #[trigger] deep_fields(fields, i)[k] == (
            fields@[k + i].0@,
            fields@[k + i].1.deep(),
        ) by {
            if k > 0 {
                assert(deep_fields(fields, i)[k] == deep_fields(fields, i + 1)[k - 1]);
            }
        }
    }
}

proof fn lemma_deep_items(items: Vec<JsonValue>, i: int)
    requires
        0 <= i <= items@.len(),
    ensures
        deep_items(items, i).len() == items@.len() - i,
        forall|k: int|
            0 <= k < items@.len() - i ==> #[trigger] deep_items(items, i)[k] == items@[k
                + i].deep(),
    decreases items@.len() - i,
{
    if i < items@.len() {
        lemma_deep_items(items, i + 1);
        assert forall|k: int|
            0 <= k < items@.len() - i implies #[trigger] deep_items(items, i)[k] == items@[k
            + i].deep() by {
            if k > 0 {
                assert(deep_items(items, i)[k] == deep_items(items, i + 1)[k - 1]);
            }
        }
    }
}

/// Appends `name` to a copy of `prefix`, behind a dot when the prefix is
/// not empty: the flattened key of an object entry.
fn child_key(prefix: &String, name: &String) -> (r: String)
    ensures
        r@ == spec_child_key(prefix@, name@),
{
    if prefix.as_str().is_empty() {
        name.clone()
    } else {
        let mut r = prefix.clone();
        r.push('.');
        r.append(name.as_str());
        proof {
            assert(r@ =~= spec_child_key(prefix@, name@));
        }
        r
    }
}

/// Appends `[i]` to a copy of `prefix`: the flattened key of an array
/// item.
fn item_key(prefix: &String, i: usize) -> (r: String)
    ensures
        r@ == spec_item_key(prefix@, i as int),
{
    let mut r = prefix.clone();
    r.push('[');
    crate::stats::push_decimal(i as u64, &mut r);
    r.push(']');
    proof {
        assert(i as u64 as nat == i as nat);
        assert(r@ =~= spec_item_key(prefix@, i as int));
    }
    r
}

/// Flattens a document into dot-and-bracket keys paired with their leaf
/// values, in document order. When two branches flatten to the same key,
/// both pairs appear; a catalog built from the pairs in order keeps the
/// last.
#[verifier::loop_isolation(false)]
pub fn flatten_json(value: &JsonValue, prefix: String) -> (r: Vec<(String, JsonValue)>)
    ensures
        pair_views(r@) == spec_flatten(value.deep(), prefix@),
    decreases value,
{
    match value {
        JsonValue::Null => {
            let mut out: Vec<(String, JsonValue)> = Vec::new();
            out.push((prefix, JsonValue::Null));
            proof {
                assert(pair_views(out@) =~= spec_flatten(value.deep(), prefix@));
            }
            out
        },
        JsonValue::Scalar(id) => {
            let mut out: Vec<(String, JsonValue)> = Vec::new();
            out.push((prefix, JsonValue::Scalar(*id)));
            proof {
                assert(pair_views(out@) =~= spec_flatten(value.deep(), prefix@));
            }
            out
        },
        JsonValue::Object(fields) => {
            let ghost df = deep_fields(*fields, 0);
            proof {
                lemma_deep_fields(*fields, 0);
            }
            let mut out: Vec<(String, JsonValue)> = Vec::new();
            let n = fields.len();
            let mut i: usize = 0;
            while i < n
                invariant
                    n == fields@.len(),
                    i <= n,
                    df == deep_fields(*fields, 0),
                    df.len() == n,
                    forall|k: int|
                        0 <= k < n ==> #[trigger] df[k] == (fields@[k + 0].0@, fields@[k + 0].1.deep()),
                    pair_views(out@) + spec_flatten_fields(df, i as int, prefix@)
                        == spec_flatten_fields(df, 0, prefix@),
                decreases n - i,
            {
                let ghost out_pre = out@;
                let ck = child_key(&prefix, &fields[i].0);
                proof {
                    vstd::std_specs::vec::axiom_vec_index_decreases(*fields, i as int);
                    assert(decreases_to!(*value => *fields));
                    assert(decreases_to!(fields@[i as int] => fields@[i as int].1));
                    assert(decreases_to!(*value => fields@[i as int].1));
                }
                let mut sub = flatten_json(&fields[i].1, ck);
                let ghost sub_view = sub@;
                out.append(&mut sub);
                proof {
                    assert(pair_views(out@) =~= pair_views(out_pre) + pair_views(sub_view));
                    assert(spec_flatten_fields(df, i as int, prefix@) == spec_flatten(
                        df[i as int].1,
                        spec_child_key(prefix@, df[i as int].0),
                    ) + spec_flatten_fields(df, i + 1, prefix@));
                    assert(pair_views(out@) + spec_flatten_fields(df, i + 1, prefix@)
                        =~= spec_flatten_fields(df, 0, prefix@));
                }
                i = i + 1;
            }
            proof {
                assert(spec_flatten_fields(df, n as int, prefix@) =~= Seq::empty());
                assert(pair_views(out@) =~= spec_flatten(value.deep(), prefix@));
            }
            out
        },
        JsonValue::Array(items) => {
            let ghost di = deep_items(*items, 0);
            proof {
                lemma_deep_items(*items, 0);
            }
            let mut out: Vec<(String, JsonValue)> = Vec::new();
            let n = items.len();
            let mut i: usize = 0;
            while i < n
                invariant
                    n == items@.len(),
                    i <= n,
                    di == deep_items(*items, 0),
                    di.len() == n,
                    forall|k: int| 0 <= k < n ==> #[trigger] di[k] == items@[k + 0].deep(),
                    pair_views(out@) + spec_flatten_items(di, i as int, prefix@)
                        == spec_flatten_items(di, 0, prefix@),
                decreases n - i,
            {
                let ghost out_pre = out@;
                let ik = item_key(&prefix, i);
                proof {
                    vstd::std_specs::vec::axiom_vec_index_decreases(*items, i as int);
                    assert(decreases_to!(*value => *items));
                    assert(decreases_to!(*value => items@[i as int]));
                }
                let mut sub = flatten_json(&items[i], ik);
                let ghost sub_view = sub@;
                out.append(&mut sub);
                proof {
                    assert(pair_views(out@) =~= pair_views(out_pre) + pair_views(sub_view));
                    assert(spec_flatten_items(di, i as int, prefix@) == spec_flatten(
                        di[i as int],
                        spec_item_key(prefix@, i as int),
                    ) + spec_flatten_items(di, i + 1, prefix@));
                    assert(pair_views(out@) + spec_flatten_items(di, i + 1, prefix@)
                        =~= spec_flatten_items(di, 0, prefix@));
                }
                i = i + 1;
            }
            proof {
                assert(spec_flatten_items(di, n as int, prefix@) =~= Seq::empty());
                assert(pair_views(out@) =~= spec_flatten(value.deep(), prefix@));
            }
            out
        },
    }
}

/// `s` begins with `pat`.
pub open spec fn spec_starts_with(s: Seq<char>, pat: Seq<char>) -> bool {
    s.len() >= pat.len() && s.subrange(0, pat.len() as int) == pat
}

/// A catalog entry at `path` is kept when the path itself is used, when
/// some used key lies under it (so the branch must survive), or when the
/// path was never condemned as unused.
pub open spec fn spec_should_keep(
    path: Seq<char>,
    used: Seq<Seq<char>>,
    unused: Seq<Seq<char>>,
) -> bool {
    ||| used.contains(path)
    ||| exists|i: int|
        0 <= i < used.len() && (spec_starts_with(#[trigger] used[i], path + seq!['.']) || used[i]
            == path)
    ||| !unused.contains(path)
}

/// The document after removal: object entries are dropped when their path
/// is condemned and no used key needs the branch; array items keep their
/// slots, but any item that cleans to null is dropped.
pub open spec fn spec_remove(
    v: SpecJson,
    prefix: Seq<char>,
    used: Seq<Seq<char>>,
    unused: Seq<Seq<char>>,
) -> SpecJson
    decreases v, 0int, 0int,
{
    match v {
        SpecJson::Object(fields) => SpecJson::Object(
            spec_remove_fields(fields, 0, prefix, used, unused),
        ),
        SpecJson::Array(items) => SpecJson::Array(
            spec_remove_items(items, 0, prefix, used, unused),
        ),
        _ => v,
    }
}

/// The kept object entries from position `i` on, each cleaned.
pub open spec fn spec_remove_fields(
    fields: Seq<(Seq<char>, SpecJson)>,
    i: int,
    prefix: Seq<char>,
    used: Seq<Seq<char>>,
    unused: Seq<Seq<char>>,
) -> Seq<(Seq<char>, SpecJson)>
    decreases fields, 1int, fields.len() - i,
{
    if i < 0 || i >= fields.len() {
        Seq::empty()
    } else {
        let path = spec_child_key(prefix, fields[i].0);
        let rest = spec_remove_fields(fields, i + 1, prefix, used, unused);
        if spec_should_keep(path, used, unused) {
            seq![(fields[i].0, spec_remove(fields[i].1, path, used, unused))] + rest
        } else {
            rest
        }
    }
}

/// The cleaned array items from position `i` on, with nulls dropped.
pub open spec fn spec_remove_items(
    items: Seq<SpecJson>,
    i: int,
    prefix: Seq<char>,
    used: Seq<Seq<char>>,
    unused: Seq<Seq<char>>,
) -> Seq<SpecJson>
    decreases items, 1int, items.len() - i,
{
    if i < 0 || i >= items.len() {
        Seq::empty()
    } else {
        let cleaned = spec_remove(items[i], spec_item_key(prefix, i), used, unused);
        let rest = spec_remove_items(items, i + 1, prefix, used, unused);
        if cleaned is Null {
            rest
        } else {
            seq![cleaned] + rest
        }
    }
}

fn str_starts_with(s: &String, pat_head: &String, pat_last: char) -> (r: bool)
    ensures
        r == spec_starts_with(s@, pat_head@.push(pat_last)),
{
    let plen = pat_head.as_str().unicode_len();
    let slen = s.as_str().unicode_len();
    if slen <= plen {
        return false;
    }
    let mut i: usize = 0;
    while i < plen
        invariant
            plen == pat_head@.len(),
            slen == s@.len(),
            slen >= plen + 1,
            i <= plen,
            forall|a: int| 0 <= a < i ==> s@[a] == pat_head@[a],
        decreases plen - i,
    {
        if s.as_str().get_char(i) != pat_head.as_str().get_char(i) {
            proof {
                assert(s@.subrange(0, plen + 1 as int)[i as int] != pat_head@.push(pat_last)[
                    i as int]);
            }
            return false;
        }
        i = i + 1;
    }
    let r = s.as_str().get_char(plen) == pat_last;
    proof {
        if r {
            assert(s@.subrange(0, plen + 1 as int) =~= pat_head@.push(pat_last));
        } else {
            assert(s@.subrange(0, plen + 1 as int)[plen as int] != pat_head@.push(pat_last)[
                plen as int]);
        }
    }
    r
}

/// Whether the entry at `path` survives removal: kept when the path is a
/// used key, when some used key lies under it, or when it was never
/// condemned as unused.
fn should_keep_key(path: &String, used_keys: &Vec<String>, unused_keys: &Vec<String>) -> (r: bool)
    ensures
        r == spec_should_keep(path@, views(used_keys@), views(unused_keys@)),
{
    if crate::search::find_string(used_keys, path).is_some() {
        proof {
            let j = choose|j: int| 0 <= j < used_keys@.len() && used_keys@[j]@ == path@;
            assert(views(used_keys@)[j] == path@);
        }
        return true;
    }
    let n = used_keys.len();
    let mut i: usize = 0;
    while i < n
        invariant
            n == used_keys@.len(),
            i <= n,
            forall|a: int|
                0 <= a < i ==> !(spec_starts_with(
                    #[trigger] views(used_keys@)[a],
                    path@ + seq!['.'],
                ) || views(used_keys@)[a] == path@),
        decreases n - i,
    {
        proof {
            assert(path@.push('.') =~= path@ + seq!['.']);
            assert(views(used_keys@)[i as int] == used_keys@[i as int]@);
        }
        if str_starts_with(&used_keys[i], path, '.') || used_keys[i] == *path {
            return true;
        }
        i = i + 1;
    }
    let condemned = crate::search::find_string(unused_keys, path).is_some();
    proof {
        if condemned {
            let j = choose|j: int| 0 <= j < unused_keys@.len() && unused_keys@[j]@ == path@;
            assert(views(unused_keys@)[j] == path@);
        } else {
            if views(unused_keys@).contains(path@) {
                let j = choose|j: int|
                    0 <= j < views(unused_keys@).len() && views(unused_keys@)[j] == path@;
                assert(unused_keys@[j]@ == path@);
            }
        }
    }
    !condemned
}

/// Cleans one value: rebuilds it with condemned object entries removed
/// and null array items dropped.
#[verifier::loop_isolation(false)]
fn remove_recursive(
    value: &JsonValue,
    prefix: String,
    used_keys: &Vec<String>,
    unused_keys: &Vec<String>,
) -> (r: JsonValue)
    ensures
        r.deep() == spec_remove(value.deep(), prefix@, views(used_keys@), views(unused_keys@)),
    decreases value,
{
    let ghost used = views(used_keys@);
    let ghost unused = views(unused_keys@);
    match value {
        JsonValue::Null => JsonValue::Null,
        JsonValue::Scalar(id) => JsonValue::Scalar(*id),
        JsonValue::Object(fields) => {
            let ghost df = deep_fields(*fields, 0);
            proof {
                lemma_deep_fields(*fields, 0);
            }
            let mut out: Vec<(String, JsonValue)> = Vec::new();
            let n = fields.len();
            let mut i: usize = 0;
            while i < n
                invariant
                    i <= n,
                    deep_fields(out, 0) + spec_remove_fields(df, i as int, prefix@, used, unused)
                        == spec_remove_fields(df, 0, prefix@, used, unused),
                decreases n - i,
            {
                let ghost out_pre = out;
                let path = child_key(&prefix, &fields[i].0);
                proof {
                    vstd::std_specs::vec::axiom_vec_index_decreases(*fields, i as int);
                    assert(decreases_to!(*value => *fields));
                    assert(decreases_to!(*value => fields@[i as int].1));
                }
                let cleaned = remove_recursive(&fields[i].1, path.clone(), used_keys, unused_keys);
                if should_keep_key(&path, used_keys, unused_keys) {
                    out.push((fields[i].0.clone(), cleaned));
                    proof {
                        lemma_deep_fields(out_pre, 0);
                        lemma_deep_fields(out, 0);
                        assert(deep_fields(out, 0) =~= deep_fields(out_pre, 0) + seq![
                            (df[i as int].0, spec_remove(df[i as int].1, path@, used, unused)),
                        ]);
                        assert(deep_fields(out, 0) + spec_remove_fields(
                            df,
                            i + 1,
                            prefix@,
                            used,
                            unused,
                        ) =~= spec_remove_fields(df, 0, prefix@, used, unused));
                    }
                } else {
                    proof {
                        assert(spec_remove_fields(df, i as int, prefix@, used, unused)
                            == spec_remove_fields(df, i + 1, prefix@, used, unused));
                    }
                }
                i = i + 1;
            }
            proof {
                assert(spec_remove_fields(df, n as int, prefix@, used, unused) =~= Seq::empty());
                assert(deep_fields(out, 0) =~= spec_remove_fields(df, 0, prefix@, used, unused));
            }
            JsonValue::Object(out)
        },
        JsonValue::Array(items) => {
            let ghost di = deep_items(*items, 0);
            proof {
                lemma_deep_items(*items, 0);
            }
            let mut out: Vec<JsonValue> = Vec::new();
            let n = items.len();
            let mut i: usize = 0;
            while i < n
                invariant
                    i <= n,
                    deep_items(out, 0) + spec_remove_items(di, i as int, prefix@, used, unused)
                        == spec_remove_items(di, 0, prefix@, used, unused),
                decreases n - i,
            {
                let ghost out_pre = out;
                let path = item_key(&prefix, i);
                proof {
                    vstd::std_specs::vec::axiom_vec_index_decreases(*items, i as int);
                    assert(decreases_to!(*value => *items));
                    assert(decreases_to!(*value => items@[i as int]));
                }
                let cleaned = remove_recursive(&items[i], path, used_keys, unused_keys);
                let keep = match &cleaned {
                    JsonValue::Null => false,
                    _ => true,
                };
                if keep {
                    out.push(cleaned);
                    proof {
                        lemma_deep_items(out_pre, 0);
                        lemma_deep_items(out, 0);
                        assert(deep_items(out, 0) =~= deep_items(out_pre, 0) + seq![
                            spec_remove(di[i as int], spec_item_key(prefix@, i as int), used, unused),
                        ]);
                        assert(deep_items(out, 0) + spec_remove_items(
                            di,
                            i + 1,
                            prefix@,
                            used,
                            unused,
                        ) =~= spec_remove_items(di, 0, prefix@, used, unused));
                    }
                } else {
                    proof {
                        assert(spec_remove(
                            di[i as int],
                            spec_item_key(prefix@, i as int),
                            used,
                            unused,
                        ) is Null);
                        assert(spec_remove_items(di, i as int, prefix@, used, unused)
                            == spec_remove_items(di, i + 1, prefix@, used, unused));
                    }
                }
                i = i + 1;
            }
            proof {
                assert(spec_remove_items(di, n as int, prefix@, used, unused) =~= Seq::empty());
                assert(deep_items(out, 0) =~= spec_remove_items(di, 0, prefix@, used, unused));
            }
            JsonValue::Array(out)
        },
    }
}

/// Removes unused keys from a catalog document while preserving its order:
/// an object entry goes when its path is condemned and no used key lies
/// under it, and array items that clean to null are dropped. The document
/// is cleaned from the root, with an empty path prefix.
pub fn remove_keys_from_value(
    value: &JsonValue,
    unused_keys: &Vec<String>,
    used_keys: &Vec<String>,
) -> (r: JsonValue)
    ensures
        r.deep() == spec_remove(
            value.deep(),
            Seq::empty(),
            views(used_keys@),
            views(unused_keys@),
        ),
{
    let cleaned = remove_recursive(value, String::new(), used_keys, unused_keys);
    cleaned
}

} // verus!
