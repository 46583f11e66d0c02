//! The key-path inserter: form keys in bracket notation (`key`, `key[]`,
//! `key[sub]`) folded into a JSON object tree. A key is split on its first
//! `[` only; a second `[` is a fault that stops the whole parse. A plain key
//! overwrites, `key[]` appends to an array, `key[sub]` writes into a nested
//! object; a key whose earlier value has the wrong shape keeps that value
//! (first write wins) and the later pair is dropped.

use vstd::prelude::*;
use crate::error::PipelineError;
use crate::json::{Json, JsonValue, json_model, json_model_items, json_model_entries, lemma_json_model_entries, lemma_json_model_items};
use crate::text::{chars_vec, string_from_range};

verus! {

/// The index of the first occurrence of `c` in `s` at or after `i`, or
/// `s.len()` where there is none.
pub open spec fn char_index_from(s: Seq<char>, c: char, i: int) -> int
    decreases s.len() - i,
{
    if i < 0 || i >= s.len() {
        s.len() as int
    } else if s[i] == c {
        i
    } else {
        char_index_from(s, c, i + 1)
    }
}

/// `s` with every trailing `]` removed.
pub open spec fn trim_trailing_brackets(s: Seq<char>) -> Seq<char>
    decreases s.len(),
{
    if s.len() > 0 && s.last() == ']' {
        trim_trailing_brackets(s.drop_last())
    } else {
        s
    }
}

/// The outcome of splitting a form key on its first `[`.
pub enum SplitKey {
    /// No `[` at all: the key stands whole.
    Whole,
    /// Exactly one `[`: a main key and a sub key with trailing `]` trimmed.
    Two { main: Seq<char>, sub: Seq<char> },
    /// A second `[`: an unsupported multi-level key.
    Fault,
}

/// The meaning of splitting a form key: at most one `[` is recognised.
pub open spec fn spec_split_key(k: Seq<char>) -> SplitKey {
    let p = char_index_from(k, '[', 0);
    if p == k.len() {
        SplitKey::Whole
    } else if char_index_from(k.skip(p + 1), '[', 0) < k.skip(p + 1).len() {
        SplitKey::Fault
    } else {
        SplitKey::Two { main: k.take(p), sub: trim_trailing_brackets(k.skip(p + 1)) }
    }
}

/// The splitting outcome carried by executable code.
pub enum KeySplit {
    Whole,
    Two(String, String),
    Fault,
}

/// Split a form key on its first `[`, trimming trailing `]` from the sub
/// key; report a fault on a second `[`.
pub fn split_form_key(key: &str) -> (r: KeySplit)
    ensures
        match spec_split_key(key@) {
            SplitKey::Whole => r is Whole,
            SplitKey::Two { main, sub } => r matches KeySplit::Two(m, s2) && m@ == main && s2@
                == sub,
            SplitKey::Fault => r is Fault,
        },
{
    let ghost s = key@;
    let cs = chars_vec(key);
    let n = cs.len();
    let mut p: usize = 0;
    while p < n && cs[p] != '['
        invariant
            cs@ == s,
            n == cs.len(),
            p <= n,
            char_index_from(s, '[', 0) == char_index_from(s, '[', p as int),
        decreases n - p,
    {
        p = p + 1;
    }
    if p == n {
        return KeySplit::Whole;
    }
    let ghost rest = s.skip(p + 1);
    proof {
        assert(char_index_from(s, '[', 0) == p);
    }
    let mut q: usize = p + 1;
    while q < n && cs[q] != '['
        invariant
            cs@ == s,
            n == cs.len(),
            p + 1 <= q <= n,
            rest == s.skip(p + 1),
            char_index_from(rest, '[', 0) == char_index_from(rest, '[', q - p - 1),
        decreases n - q,
    {
        proof {
            assert(rest[q - p - 1] == s[q as int]);
        }
        q = q + 1;
    }
    if q < n {
        proof {
            assert(rest[q - p - 1] == s[q as int]);
            assert(char_index_from(rest, '[', 0) < rest.len());
        }
        return KeySplit::Fault;
    }
    proof {
        assert(char_index_from(rest, '[', 0) == rest.len());
    }
    let mut end: usize = n;
    proof {
        assert(rest.take(end - p - 1) =~= rest);
    }
    while end > p + 1 && cs[end - 1] == ']'
        invariant
            cs@ == s,
            n == cs.len(),
            p + 1 <= end <= n,
            rest == s.skip(p + 1),
            trim_trailing_brackets(rest) == trim_trailing_brackets(
                rest.take(end - p - 1),
            ),
        decreases end,
    {
        proof {
            let m: int = end - p - 1;
            let t = rest.take(m);
            assert(t.len() == m);
            assert(t.last() == rest[m - 1]);
            assert(rest[m - 1] == s[end - 1]);
            assert(t.drop_last() =~= rest.take(m - 1));
        }
        end = end - 1;
    }
    proof {
        let m: int = end - p - 1;
        let t = rest.take(m);
        if end == p + 1 {
            assert(t =~= Seq::<char>::empty());
        } else {
            assert(t.last() == rest[m - 1]);
            assert(rest[m - 1] == s[end - 1]);
        }
        assert(trim_trailing_brackets(t) == t);
        assert(rest.take(m) =~= s.subrange(p + 1, end as int));
        assert(s.take(p as int) =~= s.subrange(0, p as int));
    }
    let main = string_from_range(&cs, 0, p);
    let sub = string_from_range(&cs, p + 1, end);
    KeySplit::Two(main, sub)
}

/// The index of the first entry with key `k` at or after `i`, or `es.len()`
/// where there is none.
pub open spec fn obj_key_index_from(es: Seq<(Seq<char>, Json)>, k: Seq<char>, i: int) -> int
    decreases es.len() - i,
{
    if i < 0 || i >= es.len() {
        es.len() as int
    } else if es[i].0 == k {
        i
    } else {
        obj_key_index_from(es, k, i + 1)
    }
}

/// The index of the first entry with key `k`, or `es.len()`.
pub open spec fn obj_key_index(es: Seq<(Seq<char>, Json)>, k: Seq<char>) -> int {
    obj_key_index_from(es, k, 0)
}

/// Whether some entry has key `k`.
pub open spec fn obj_has_key(es: Seq<(Seq<char>, Json)>, k: Seq<char>) -> bool {
    obj_key_index(es, k) < es.len()
}

/// The value at key `k`.
pub open spec fn obj_get(es: Seq<(Seq<char>, Json)>, k: Seq<char>) -> Json
    recommends
        obj_has_key(es, k),
{
    es[obj_key_index(es, k)].1
}

/// Write `v` at key `k`: in place where the key exists, appended at the end
/// where it does not.
pub open spec fn obj_set(es: Seq<(Seq<char>, Json)>, k: Seq<char>, v: Json) -> Seq<
    (Seq<char>, Json),
> {
    if obj_has_key(es, k) {
        es.update(obj_key_index(es, k), (k, v))
    } else {
        es.push((k, v))
    }
}

/// The first-match index lies between `i` and `es.len()`, lands on `k` when
/// it is below `es.len()`, and skips no earlier entry with key `k`.
pub proof fn lemma_obj_key_index_from_bounds(es: Seq<(Seq<char>, Json)>, k: Seq<char>, i: int)
    requires
        0 <= i <= es.len(),
    ensures
        i <= obj_key_index_from(es, k, i) <= es.len(),
        obj_key_index_from(es, k, i) < es.len() ==> es[obj_key_index_from(es, k, i)].0 == k,
        forall|m: int| i <= m < obj_key_index_from(es, k, i) ==> #[trigger] es[m].0 != k,
    decreases es.len() - i,
{
    if i < es.len() && es[i].0 != k {
        lemma_obj_key_index_from_bounds(es, k, i + 1);
    }
}

/// Entries have pairwise distinct keys.
pub open spec fn keys_unique(es: Seq<(Seq<char>, Json)>) -> bool {
    forall|a: int, b: int| 0 <= a < b < es.len() ==> es[a].0 != es[b].0
}

/// An object is well formed when its keys are pairwise distinct, and so are
/// the keys of each value that is itself an object.
pub open spec fn entries_wf(es: Seq<(Seq<char>, Json)>) -> bool {
    &&& keys_unique(es)
    &&& forall|i: int|
        0 <= i < es.len() ==> (#[trigger] es[i].1 matches Json::Object { entries } ==> keys_unique(
            entries,
        ))
}

/// Writing at a key keeps keys pairwise distinct.
pub proof fn lemma_obj_set_keeps_keys_unique(es: Seq<(Seq<char>, Json)>, k: Seq<char>, v: Json)
    requires
        keys_unique(es),
    ensures
        keys_unique(obj_set(es, k, v)),
{
    lemma_obj_key_index_from_bounds(es, k, 0);
    let ns = obj_set(es, k, v);
    if obj_has_key(es, k) {
        let idx = obj_key_index(es, k);
        assert forall|a: int, b: int| 0 <= a < b < ns.len() implies ns[a].0 != ns[b].0 by {
            assert(es[a].0 != es[b].0);
            assert(ns[a].0 == if a == idx {
                k
            } else {
                es[a].0
            });
            assert(ns[b].0 == if b == idx {
                k
            } else {
                es[b].0
            });
        }
    } else {
        assert forall|a: int, b: int| 0 <= a < b < ns.len() implies ns[a].0 != ns[b].0 by {
            if b < es.len() {
                assert(es[a].0 != es[b].0);
            } else {
                assert(es[a].0 != k);
            }
        }
    }
}

/// Inserting one pair keeps the object well formed.
pub proof fn lemma_insert_pair_keeps_wf(es: Seq<(Seq<char>, Json)>, k: Seq<char>, v: Seq<char>)
    requires
        entries_wf(es),
    ensures
        spec_insert_pair(es, k, v) matches Some(ns) ==> entries_wf(ns),
{
    match spec_split_key(k) {
        SplitKey::Fault => {},
        SplitKey::Whole => {
            lemma_obj_set_wf_value(es, k, Json::String { text: v });
        },
        SplitKey::Two { main, sub } => {
            lemma_obj_key_index_from_bounds(es, main, 0);
            if sub.len() == 0 {
                if !obj_has_key(es, main) {
                    lemma_obj_set_wf_value(
                        es,
                        main,
                        Json::Array { items: seq![Json::String { text: v }] },
                    );
                } else {
                    match obj_get(es, main) {
                        Json::Array { items } => {
                            lemma_obj_set_wf_value(
                                es,
                                main,
                                Json::Array { items: items.push(Json::String { text: v }) },
                            );
                        },
                        _ => {},
                    }
                }
            } else {
                if !obj_has_key(es, main) {
                    lemma_obj_set_wf_value(
                        es,
                        main,
                        Json::Object { entries: seq![(sub, Json::String { text: v })] },
                    );
                } else {
                    match obj_get(es, main) {
                        Json::Object { entries } => {
                            lemma_obj_set_keeps_keys_unique(
                                entries,
                                sub,
                                Json::String { text: v },
                            );
                            lemma_obj_set_wf_value(
                                es,
                                main,
                                Json::Object {
                                    entries: obj_set(entries, sub, Json::String { text: v }),
                                },
                            );
                        },
                        _ => {},
                    }
                }
            }
        },
    }
}

/// Writing a value whose own keys (if it is an object) are distinct keeps
/// the whole object well formed.
proof fn lemma_obj_set_wf_value(es: Seq<(Seq<char>, Json)>, k: Seq<char>, v: Json)
    requires
        entries_wf(es),
        v matches Json::Object { entries } ==> keys_unique(entries),
    ensures
        entries_wf(obj_set(es, k, v)),
{
    lemma_obj_key_index_from_bounds(es, k, 0);
    lemma_obj_set_keeps_keys_unique(es, k, v);
    let ns = obj_set(es, k, v);
    assert forall|i: int|
        0 <= i < ns.len() implies (#[trigger] ns[i].1 matches Json::Object { entries }
        ==> keys_unique(entries)) by {
        if i < es.len() && ns[i].1 != v {
            assert(ns[i].1 == es[i].1);
        }
    }
}

/// Every object the fold builds is well formed: its keys are pairwise
/// distinct, and so are the keys of each nested object.
pub proof fn lemma_fold_pairs_wf(pairs: Seq<(Seq<char>, Seq<char>)>)
    ensures
        spec_fold_pairs(pairs) matches Some(es) ==> entries_wf(es),
{
    lemma_fold_pairs_wf_from(pairs, 0, Seq::empty());
}

proof fn lemma_fold_pairs_wf_from(
    pairs: Seq<(Seq<char>, Seq<char>)>,
    i: int,
    es: Seq<(Seq<char>, Json)>,
)
    requires
        entries_wf(es),
    ensures
        spec_fold_pairs_from(pairs, i, es) matches Some(ns) ==> entries_wf(ns),
    decreases pairs.len() - i,
{
    if 0 <= i < pairs.len() {
        lemma_insert_pair_keeps_wf(es, pairs[i].0, pairs[i].1);
        match spec_insert_pair(es, pairs[i].0, pairs[i].1) {
            Some(es2) => {
                lemma_fold_pairs_wf_from(pairs, i + 1, es2);
            },
            None => {},
        }
    }
}

/// The meaning of inserting one `key=value` pair into an object: `None`
/// stands for the multi-level-key fault; otherwise the new entries. A plain
/// key writes a string, `key[]` appends to an array, `key[sub]` writes into
/// a nested object; where the key's earlier value has the wrong shape, the
/// earlier value stays and the pair is dropped (first write wins).
pub open spec fn spec_insert_pair(
    es: Seq<(Seq<char>, Json)>,
    k: Seq<char>,
    v: Seq<char>,
) -> Option<Seq<(Seq<char>, Json)>> {
    match spec_split_key(k) {
        SplitKey::Fault => None,
        SplitKey::Whole => Some(obj_set(es, k, Json::String { text: v })),
        SplitKey::Two { main, sub } => {
            if sub.len() == 0 {
                if !obj_has_key(es, main) {
                    Some(obj_set(es, main, Json::Array { items: seq![Json::String { text: v }] }))
                } else {
                    match obj_get(es, main) {
                        Json::Array { items } => Some(
                            obj_set(
                                es,
                                main,
                                Json::Array { items: items.push(Json::String { text: v }) },
                            ),
                        ),
                        _ => Some(es),
                    }
                }
            } else {
                if !obj_has_key(es, main) {
                    Some(
                        obj_set(
                            es,
                            main,
                            Json::Object { entries: seq![(sub, Json::String { text: v })] },
                        ),
                    )
                } else {
                    match obj_get(es, main) {
                        Json::Object { entries } => Some(
                            obj_set(
                                es,
                                main,
                                Json::Object { entries: obj_set(entries, sub, Json::String { text: v }) },
                            ),
                        ),
                        _ => Some(es),
                    }
                }
            }
        },
    }
}

/// Insert one form `key=value` pair into the object under construction,
/// splitting the key on its first `[`; a multi-level key stops the parse
/// with a fault and leaves the object as it was.
pub fn insert_into_json_map(
    result: &mut Vec<(String, JsonValue)>,
    key: &str,
    value: &str,
) -> (r: Result<(), PipelineError>)
    ensures
        match spec_insert_pair(json_model_entries(*old(result), 0), key@, value@) {
            Some(es) => r is Ok && json_model_entries(*final(result), 0) == es,
            None => r is Err && (r matches Err(e) && e == PipelineError::KeyFormatFault)
                && *final(result) == *old(result),
        },
{
    let ghost r0 = *result;
    let ghost es0 = json_model_entries(*old(result), 0);
    proof {
        lemma_json_model_entries(*result, 0);
        lemma_obj_key_index_from_bounds(es0, key@, 0);
    }
    match split_form_key(key) {
        KeySplit::Fault => Err(PipelineError::KeyFormatFault),
        KeySplit::Whole => {
            let key_string = key.to_owned();
            let idx = entry_index(result, &key_string);
            let new_pair = (key_string, JsonValue::String(value.to_owned()));
            let ghost np = new_pair;
            let ghost target = obj_set(es0, key@, Json::String { text: value@ });
            if idx < result.len() {
                let _old_pair = result.remove(idx);
                result.insert(idx, new_pair);
                proof {
                    assert((*result)@ =~= r0@.update(idx as int, np));
                    lemma_json_model_entries(*result, 0);
                    let ne = json_model_entries(*result, 0);
                    assert(forall|m: int| 0 <= m < ne.len() && m != idx ==> ne[m] == es0[m]);
                    assert(ne[idx as int] == (key@, Json::String { text: value@ }));
                    assert(ne =~~= target);
                }
            } else {
                result.push(new_pair);
                proof {
                    lemma_json_model_entries(*result, 0);
                    let ne = json_model_entries(*result, 0);
                    assert(forall|m: int| 0 <= m < es0.len() ==> ne[m] == es0[m]);
                    assert(ne[es0.len() as int] == (key@, Json::String { text: value@ }));
                    assert(ne =~~= target);
                }
            }
            Ok(())
        },
        KeySplit::Two(main, sub) => {
            proof {
                lemma_obj_key_index_from_bounds(es0, main@, 0);
            }
            let idx = entry_index(result, &main);
            let item = JsonValue::String(value.to_owned());
            let sub_empty = sub.as_str().unicode_len() == 0;
            if sub_empty {
                if idx == result.len() {
                    let ghost item0 = item;
                    let mut arr_items: Vec<JsonValue> = Vec::new();
                    arr_items.push(item);
                    let ghost ai = arr_items;
                    let arr = JsonValue::Array(arr_items);
                    let ghost target = obj_set(
                        es0,
                        main@,
                        Json::Array { items: seq![Json::String { text: value@ }] },
                    );
                    proof {
                        lemma_json_model_items(ai, 0);
                        assert(ai@ =~= seq![item0]);
                        assert(json_model_items(ai, 0).len() == 1);
                        assert(json_model_items(ai, 0)[0] == json_model(item0));
                        assert(json_model(item0) == Json::String { text: value@ });
                        assert(json_model_items(ai, 0) =~= seq![Json::String { text: value@ }]);
                        assert(arr->Array_0 == ai);
                        assert(json_model(arr) == Json::Array { items: json_model_items(ai, 0) });
                        assert(json_model(arr) =~~= Json::Array {
                            items: seq![Json::String { text: value@ }],
                        });
                    }
                    let new_pair = (main, arr);
                    let ghost np = new_pair;
                    result.push(new_pair);
                    proof {
                        lemma_json_model_entries(*result, 0);
                        let ne = json_model_entries(*result, 0);
                        assert(forall|m: int| 0 <= m < es0.len() ==> ne[m] == es0[m]);
                        assert(ne[es0.len() as int] == (main@, json_model(np.1)));
                        assert(ne =~~= target);
                    }
                } else {
                    let pair = result.remove(idx);
                    proof {
                        assert(pair == r0[idx as int]);
                        assert(obj_get(es0, main@) == json_model(pair.1));
                    }
                    match pair.1 {
                        JsonValue::Array(mut items) => {
                            let ghost items0 = items;
                            let ghost target = obj_set(
                                es0,
                                main@,
                                Json::Array {
                                    items: json_model_items(items0, 0).push(
                                        Json::String { text: value@ },
                                    ),
                                },
                            );
                            items.push(item);
                            proof {
                                lemma_json_model_items(items0, 0);
                                lemma_json_model_items(items, 0);
                                assert(json_model_items(items, 0) =~~= json_model_items(
                                    items0,
                                    0,
                                ).push(Json::String { text: value@ }));
                            }
                            let new_pair = (pair.0, JsonValue::Array(items));
                            let ghost np = new_pair;
                            result.insert(idx, new_pair);
                            proof {
                                assert((*result)@ =~= r0@.update(idx as int, np));
                                lemma_json_model_entries(*result, 0);
                                let ne = json_model_entries(*result, 0);
                                assert(forall|m: int|
                                    0 <= m < ne.len() && m != idx ==> ne[m] == es0[m]);
                                assert(ne[idx as int].0 == main@);
                                assert(ne[idx as int].1 == json_model(np.1));
                                assert(json_model(np.1) =~~= Json::Array {
                                    items: json_model_items(items0, 0).push(
                                        Json::String { text: value@ },
                                    ),
                                });
                                assert(ne =~~= target);
                            }
                        },
                        other => {
                            let new_pair = (pair.0, other);
                            let ghost np = new_pair;
                            result.insert(idx, new_pair);
                            proof {
                                assert(!(obj_get(es0, main@) is Array));
                                assert(np == r0[idx as int]);
                                assert((*result)@ =~= r0@.update(idx as int, np));
                                assert((*result)@ =~= r0@);
                                lemma_json_model_entries(*result, 0);
                                let ne = json_model_entries(*result, 0);
                                assert(forall|m: int| 0 <= m < ne.len() ==> ne[m] == es0[m]);
                                assert(ne =~~= es0);
                            }
                        },
                    }
                }
            } else {
                if idx == result.len() {
                    let ghost sub0 = sub@;
                    let ghost item0 = item;
                    let mut obj_entries: Vec<(String, JsonValue)> = Vec::new();
                    let inner_pair = (sub, item);
                    let ghost inp0 = inner_pair;
                    obj_entries.push(inner_pair);
                    let ghost oe = obj_entries;
                    let obj = JsonValue::Object(obj_entries);
                    let ghost target = obj_set(
                        es0,
                        main@,
                        Json::Object { entries: seq![(sub0, Json::String { text: value@ })] },
                    );
                    proof {
                        lemma_json_model_entries(oe, 0);
                        assert(oe@ =~= seq![inp0]);
                        assert(json_model_entries(oe, 0).len() == 1);
                        assert(json_model_entries(oe, 0)[0] == (inp0.0@, json_model(inp0.1)));
                        assert(json_model(inp0.1) == Json::String { text: value@ });
                        assert(json_model_entries(oe, 0) =~= seq![(sub0, Json::String { text: value@ })]);
                        assert(obj->Object_0 == oe);
                        assert(json_model(obj) == Json::Object { entries: json_model_entries(oe, 0) });
                        assert(json_model(obj) =~~= Json::Object {
                            entries: seq![(sub0, Json::String { text: value@ })],
                        });
                    }
                    let new_pair = (main, obj);
                    let ghost np = new_pair;
                    result.push(new_pair);
                    proof {
                        lemma_json_model_entries(*result, 0);
                        let ne = json_model_entries(*result, 0);
                        assert(forall|m: int| 0 <= m < es0.len() ==> ne[m] == es0[m]);
                        assert(ne[es0.len() as int] == (main@, json_model(np.1)));
                        assert(ne =~~= target);
                    }
                } else {
                    let pair = result.remove(idx);
                    proof {
                        assert(pair == r0[idx as int]);
                        assert(obj_get(es0, main@) == json_model(pair.1));
                    }
                    match pair.1 {
                        JsonValue::Object(mut inner) => {
                            let ghost inner0 = inner;
                            let ghost inner_es0 = json_model_entries(inner0, 0);
                            let ghost target = obj_set(
                                es0,
                                main@,
                                Json::Object {
                                    entries: obj_set(inner_es0, sub@, Json::String { text: value@ }),
                                },
                            );
                            proof {
                                lemma_json_model_entries(inner0, 0);
                                lemma_obj_key_index_from_bounds(inner_es0, sub@, 0);
                            }
                            let jdx = entry_index(&inner, &sub);
                            let inner_pair = (sub, item);
                            let ghost inp = inner_pair;
                            let ghost inner_target = obj_set(
                                inner_es0,
                                inp.0@,
                                Json::String { text: value@ },
                            );
                            if jdx < inner.len() {
                                let _old_inner = inner.remove(jdx);
                                inner.insert(jdx, inner_pair);
                                proof {
                                    assert(inner@ =~= inner0@.update(jdx as int, inp));
                                    lemma_json_model_entries(inner, 0);
                                    let ie = json_model_entries(inner, 0);
                                    assert(forall|m: int|
                                        0 <= m < ie.len() && m != jdx ==> ie[m] == inner_es0[m]);
                                    assert(ie[jdx as int] == (
                                        inp.0@,
                                        Json::String { text: value@ },
                                    ));
                                    assert(ie =~~= inner_target);
                                }
                            } else {
                                inner.push(inner_pair);
                                proof {
                                    lemma_json_model_entries(inner, 0);
                                    let ie = json_model_entries(inner, 0);
                                    assert(forall|m: int|
                                        0 <= m < inner_es0.len() ==> ie[m] == inner_es0[m]);
                                    assert(ie[inner_es0.len() as int] == (
                                        inp.0@,
                                        Json::String { text: value@ },
                                    ));
                                    assert(ie =~~= inner_target);
                                }
                            }
                            let new_pair = (pair.0, JsonValue::Object(inner));
                            let ghost np = new_pair;
                            result.insert(idx, new_pair);
                            proof {
                                assert((*result)@ =~= r0@.update(idx as int, np));
                                lemma_json_model_entries(*result, 0);
                                let ne = json_model_entries(*result, 0);
                                assert(forall|m: int|
                                    0 <= m < ne.len() && m != idx ==> ne[m] == es0[m]);
                                assert(ne[idx as int].0 == main@);
                                assert(ne[idx as int].1 == json_model(np.1));
                                assert(json_model(np.1) =~~= Json::Object {
                                    entries: obj_set(inner_es0, sub@, Json::String { text: value@ }),
                                });
                                assert(ne =~~= target);
                            }
                        },
                        other => {
                            let new_pair = (pair.0, other);
                            let ghost np = new_pair;
                            result.insert(idx, new_pair);
                            proof {
                                assert(!(obj_get(es0, main@) is Object));
                                assert(np == r0[idx as int]);
                                assert((*result)@ =~= r0@.update(idx as int, np));
                                assert((*result)@ =~= r0@);
                                lemma_json_model_entries(*result, 0);
                                let ne = json_model_entries(*result, 0);
                                assert(forall|m: int| 0 <= m < ne.len() ==> ne[m] == es0[m]);
                                assert(ne =~~= es0);
                            }
                        },
                    }
                }
            }
            Ok(())
        },
    }
}

/// Folding form pairs into an object, one insert after another, from pair
/// `i` on; `None` is the multi-level-key fault, which stops the whole fold.
pub open spec fn spec_fold_pairs_from(
    pairs: Seq<(Seq<char>, Seq<char>)>,
    i: int,
    es: Seq<(Seq<char>, Json)>,
) -> Option<Seq<(Seq<char>, Json)>>
    decreases pairs.len() - i,
{
    if i < 0 || i >= pairs.len() {
        Some(es)
    } else {
        match spec_insert_pair(es, pairs[i].0, pairs[i].1) {
            Some(es2) => spec_fold_pairs_from(pairs, i + 1, es2),
            None => None,
        }
    }
}

/// Folding all form pairs into an object, starting from nothing.
pub open spec fn spec_fold_pairs(pairs: Seq<(Seq<char>, Seq<char>)>) -> Option<
    Seq<(Seq<char>, Json)>,
> {
    spec_fold_pairs_from(pairs, 0, Seq::empty())
}

/// The index of the first entry of `entries` whose key reads as `key`, or
/// `entries.len()` where there is none.
fn entry_index(entries: &Vec<(String, JsonValue)>, key: &String) -> (r: usize)
    ensures
        r as int == obj_key_index(json_model_entries(*entries, 0), key@),
{
    let ghost es = json_model_entries(*entries, 0);
    proof {
        lemma_json_model_entries(*entries, 0);
    }
    let n = entries.len();
    let mut j: usize = 0;
    while j < n
        invariant
            es == json_model_entries(*entries, 0),
            n == entries.len(),
            j <= n,
            es.len() == n,
            forall|m: int|
                0 <= m < n ==> #[trigger] es[m] == (entries[m].0@, json_model(entries[m].1)),
            obj_key_index_from(es, key@, 0) == obj_key_index_from(es, key@, j as int),
        decreases n - j,
    {
        let hit = entries[j].0 == *key;
        if hit {
            proof {
                assert(es[j as int].0 == key@);
                assert(obj_key_index_from(es, key@, j as int) == j);
            }
            return j;
        }
        proof {
            assert(es[j as int].0 != key@);
        }
        j = j + 1;
    }
    n
}

} // verus!
