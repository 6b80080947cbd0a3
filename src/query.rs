//! Encoding query parameters: plain, repeated and deep-object styles, and the
//! purge-then-append merge of bulk and per-parameter inputs.
use vstd::prelude::*;
use crate::command_tree::{is_deep_object, opt_eq, opt_is, Operation, ParamDef};
use crate::error::EngineError;
use crate::json::{json_value_to_string, leaf_text, pairs_view, JsonValue};
use crate::path::{arg_lookup, find_arg, ArgValue, ArgValues};
use crate::text::{concat, has_prefix, starts_with, str_eq};

verus! {

/// `key[k]`: the key of member `k` under `key`.
pub open spec fn bracket(key: Seq<char>, k: Seq<char>) -> Seq<char> {
    key + seq!['['] + k + seq![']']
}

/// The pairs a value flattens to under `key`: nothing for `null`; one pair
/// per element, all under `key`, for an array; each member under
/// `key[member]`, recursively, for an object; one pair otherwise.
pub open spec fn deep_pairs(key: Seq<char>, v: JsonValue) -> Seq<(Seq<char>, Seq<char>)>
    decreases v, 0nat,
{
    match v {
        JsonValue::Null => Seq::empty(),
        JsonValue::Array(items, _) => element_pairs(key, items@),
        JsonValue::Object(m, _) => deep_members(key, m, m@.len()),
        _ => seq![(key, leaf_text(v))],
    }
}

/// The pairs of an array's elements under `key`, in order: one per element,
/// `null` elements dropped.
pub open spec fn element_pairs(key: Seq<char>, items: Seq<JsonValue>) -> Seq<(Seq<char>, Seq<char>)>
    decreases items.len(),
{
    if items.len() == 0 {
        Seq::empty()
    } else if items.last() is Null {
        element_pairs(key, items.drop_last())
    } else {
        element_pairs(key, items.drop_last()).push((key, leaf_text(items.last())))
    }
}

/// The pairs of the first `n` members of an object under `key`.
pub open spec fn deep_members(key: Seq<char>, m: Vec<(String, JsonValue)>, n: nat) -> Seq<(Seq<char>, Seq<char>)>
    decreases m, n,
{
    if n == 0 || n > m@.len() {
        Seq::empty()
    } else {
        deep_members(key, m, (n - 1) as nat) + deep_pairs(bracket(key, m@[n - 1].0@), m@[n - 1].1)
    }
}

/// The key of member `k` under `key`.
fn bracket_key(key: &String, k: &String) -> (r: String)
    ensures
        r@ == bracket(key@, k@),
{
    let a = concat(key.as_str(), "[");
    let b = concat(a.as_str(), k.as_str());
    let r = concat(b.as_str(), "]");
    proof {
        reveal_strlit("[");
        reveal_strlit("]");
    }
    r
}

/// Appends the pairs that `v` flattens to under `key`.
fn walk(out: &mut Vec<(String, String)>, key: &String, v: &JsonValue)
    ensures
        pairs_view(final(out)@) == pairs_view(old(out)@) + deep_pairs(key@, *v),
    decreases v, 0nat,
{
    let ghost start = pairs_view(out@);
    match v {
        JsonValue::Null => {
            assert(pairs_view(out@) =~= start + deep_pairs(key@, *v));
        },
        JsonValue::Array(items, _) => {
            let mut i: usize = 0;
            while i < items.len()
                invariant
                    i <= items.len(),
                    pairs_view(out@) == start + element_pairs(key@, items@.subrange(0, i as int)),
                decreases items.len() - i,
            {
                assert(items@.subrange(0, i + 1).drop_last() =~= items@.subrange(0, i as int));
                if !matches!(&items[i], JsonValue::Null) {
                    let t = json_value_to_string(&items[i]);
                    let ghost before = out@;
                    out.push((key.clone(), t));
                    assert(pairs_view(out@) =~= pairs_view(before).push((key@, leaf_text(items@[i as int]))));
                }
                i = i + 1;
            }
            assert(items@.subrange(0, items@.len() as int) =~= items@);
        },
        JsonValue::Object(m, _) => {
            let mut i: usize = 0;
            while i < m.len()
                invariant
                    i <= m.len(),
                    *v == JsonValue::Object(*m, v->Object_1),
                    pairs_view(out@) == start + deep_members(key@, *m, i as nat),
                decreases m.len() - i,
            {
                let k = bracket_key(key, &m[i].0);
                proof {
                    assert(decreases_to!(*v => v->Object_0));
                    assert(v->Object_0 == *m);
                    assert(decreases_to!(*m => m@));
                    assert(decreases_to!(m@ => m@[i as int]));
                    assert(decreases_to!(m@[i as int] => m@[i as int].1));
                }
                walk(out, &k, &m[i].1);
                i = i + 1;
                assert(pairs_view(out@) =~= start + deep_members(key@, *m, i as nat));
            }
        },
        _ => {
            let t = json_value_to_string(v);
            out.push((key.clone(), t));
            assert(pairs_view(out@) =~= start + deep_pairs(key@, *v));
        },
    }
}

/// What deep-object encoding gives: the flattened pairs of an object,
/// an error for anything else.
pub open spec fn deep_object_result(prefix: Seq<char>, v: JsonValue) -> Option<Seq<(Seq<char>, Seq<char>)>> {
    if v is Object {
        Some(deep_pairs(prefix, v))
    } else {
        None
    }
}

/// Flattens a JSON object into `prefix[member]` pairs (see `deep_pairs`).
pub fn encode_deep_object(prefix: &String, value: &JsonValue) -> (r: Result<Vec<(String, String)>, EngineError>)
    ensures
        match deep_object_result(prefix@, *value) {
            Some(p) => r matches Ok(out) && pairs_view(out@) == p,
            None => r matches Err(EngineError::NotAnObject),
        },
{
    if !matches!(value, JsonValue::Object(..)) {
        return Err(EngineError::NotAnObject);
    }
    let mut out: Vec<(String, String)> = Vec::new();
    walk(&mut out, prefix, value);
    assert(pairs_view(Seq::<(String, String)>::empty()) =~= Seq::empty());
    assert(pairs_view(out@) =~= deep_pairs(prefix@, *value));
    Ok(out)
}

/// Whether a pair under key `k` goes when `key` is purged: the key itself,
/// and, for a deep object, every `key[...]`.
pub open spec fn purged_key(k: Seq<char>, key: Seq<char>, deep: bool) -> bool {
    k == key || (deep && has_prefix(k, key + seq!['[']))
}

/// `s` without the pairs that purging `key` removes, order kept.
pub open spec fn purge(s: Seq<(Seq<char>, Seq<char>)>, key: Seq<char>, deep: bool) -> Seq<(Seq<char>, Seq<char>)>
    decreases s.len(),
{
    if s.len() == 0 {
        s
    } else {
        let rest = purge(s.drop_last(), key, deep);
        if purged_key(s.last().0, key, deep) {
            rest
        } else {
            rest.push(s.last())
        }
    }
}

/// Removes every pair under `key` (and under `key[...]` for a deep object).
pub fn remove_query_key(out: &mut Vec<(String, String)>, key: &str, style: &Option<String>)
    ensures
        pairs_view(final(out)@) == purge(pairs_view(old(out)@), key@, opt_is(*style, "deepObject"@)),
{
    let deep = opt_eq(style, "deepObject");
    let prefix = concat(key, "[");
    proof {
        reveal_strlit("[");
    }
    let ghost all = pairs_view(out@);
    let mut kept: Vec<(String, String)> = Vec::new();
    let mut i: usize = 0;
    while i < out.len()
        invariant
            i <= out.len(),
            all == pairs_view(out@),
            prefix@ == key@ + seq!['['],
            pairs_view(kept@) == purge(all.subrange(0, i as int), key@, deep),
        decreases out.len() - i,
    {
        let k = &out[i].0;
        let gone = str_eq(k.as_str(), key) || (deep && starts_with(k.as_str(), prefix.as_str()));
        let ghost before = kept@;
        assert(all.subrange(0, i + 1).drop_last() =~= all.subrange(0, i as int));
        if !gone {
            kept.push((out[i].0.clone(), out[i].1.clone()));
            assert(pairs_view(kept@) =~= pairs_view(before).push(all[i as int]));
        }
        i = i + 1;
    }
    assert(all.subrange(0, out@.len() as int) =~= all);
    *out = kept;
}

/// Purging `key` leaves no pair under `key`.
pub proof fn lemma_purge_drops_key(s: Seq<(Seq<char>, Seq<char>)>, key: Seq<char>, deep: bool)
    ensures
        forall|i: int| 0 <= i < purge(s, key, deep).len() ==> purge(s, key, deep)[i].0 != key,
    decreases s.len(),
{
    if s.len() > 0 {
        lemma_purge_drops_key(s.drop_last(), key, deep);
        let r = purge(s, key, deep);
        let rest = purge(s.drop_last(), key, deep);
        assert forall|i: int| 0 <= i < r.len() implies r[i].0 != key by {
            if i < rest.len() {
                assert(r[i] == rest[i]);
            }
        }
    }
}

/// Purging a plain key keeps exactly the pairs under other keys, in order.
pub proof fn lemma_purge_is_filter(s: Seq<(Seq<char>, Seq<char>)>, key: Seq<char>)
    ensures
        purge(s, key, false) == s.filter(|p: (Seq<char>, Seq<char>)| p.0 != key),
    decreases s.len(),
{
    reveal_with_fuel(Seq::filter, 1);
    if s.len() > 0 {
        lemma_purge_is_filter(s.drop_last(), key);
    }
}

/// The first query parameter named `k`.
pub open spec fn first_query_param(defs: Seq<ParamDef>, k: Seq<char>) -> Option<ParamDef>
    decreases defs.len(),
{
    if defs.len() == 0 {
        None
    } else if defs[0].location@ == "query"@ && defs[0].name@ == k {
        Some(defs[0])
    } else {
        first_query_param(defs.subrange(1, defs.len() as int), k)
    }
}

/// Whether key `k` of a bulk input is a deep-object query parameter.
pub open spec fn deep_key(defs: Seq<ParamDef>, k: Seq<char>) -> bool {
    first_query_param(defs, k) matches Some(p) && is_deep_object(p)
}

/// Whether key `k` of a bulk input is a deep-object query parameter.
fn is_deep_key(defs: &Vec<ParamDef>, k: &str) -> (r: bool)
    ensures
        r == deep_key(defs@, k@),
{
    let mut i: usize = 0;
    assert(defs@.subrange(0, defs@.len() as int) =~= defs@);
    while i < defs.len()
        invariant
            i <= defs.len(),
            first_query_param(defs@, k@) == first_query_param(defs@.subrange(i as int, defs@.len() as int), k@),
        decreases defs.len() - i,
    {
        let ghost rest = defs@.subrange(i as int, defs@.len() as int);
        assert(rest.subrange(1, rest.len() as int) =~= defs@.subrange(i + 1, defs@.len() as int));
        assert(rest[0] == defs@[i as int]);
        if str_eq(defs[i].location.as_str(), "query") && str_eq(defs[i].name.as_str(), k) {
            assert(first_query_param(rest, k@) == Some(defs@[i as int]));
            return opt_eq(&defs[i].style, "deepObject");
        }
        i = i + 1;
    }
    false
}

/// The pairs one member of a bulk input gives: deep-object flattening for
/// a deep-object parameter, one pair per element for an array, one pair
/// otherwise; `None` where a deep-object value is not an object.
pub open spec fn member_pairs(k: Seq<char>, v: JsonValue, deep: bool) -> Option<Seq<(Seq<char>, Seq<char>)>> {
    if deep {
        deep_object_result(k, v)
    } else {
        match v {
            JsonValue::Array(items, _) => Some(items@.map_values(|x: JsonValue| (k, leaf_text(x)))),
            _ => Some(seq![(k, leaf_text(v))]),
        }
    }
}

/// The pairs of the first `n` members of a bulk input, in order.
pub open spec fn bulk_pairs(m: Seq<(String, JsonValue)>, n: nat, defs: Seq<ParamDef>) -> Option<Seq<(Seq<char>, Seq<char>)>>
    decreases n,
{
    if n == 0 || n > m.len() {
        Some(Seq::empty())
    } else {
        match bulk_pairs(m, (n - 1) as nat, defs) {
            None => None,
            Some(p) => match member_pairs(m[n - 1].0@, m[n - 1].1, deep_key(defs, m[n - 1].0@)) {
                None => None,
                Some(q) => Some(p + q),
            },
        }
    }
}

/// What a bulk input encodes to: nothing when absent, its members' pairs
/// when it is an object; `None` (an input error) otherwise.
pub open spec fn bulk_result(params: Option<JsonValue>, defs: Seq<ParamDef>) -> Option<Seq<(Seq<char>, Seq<char>)>> {
    match params {
        None => Some(Seq::empty()),
        Some(JsonValue::Object(m, _)) => bulk_pairs(m@, m@.len(), defs),
        Some(_) => None,
    }
}

proof fn lemma_bulk_none_stays(m: Seq<(String, JsonValue)>, k: nat, n: nat, defs: Seq<ParamDef>)
    requires
        0 < k <= n <= m.len(),
        bulk_pairs(m, k, defs) is None,
    ensures
        bulk_pairs(m, n, defs) is None,
    decreases n - k,
{
    if n > k {
        lemma_bulk_none_stays(m, k, (n - 1) as nat, defs);
    }
}

/// Encodes a bulk JSON object of query parameters (see `bulk_result`).
pub fn parse_params_json(params: Option<&JsonValue>, defs: &Vec<ParamDef>) -> (r: Result<Vec<(String, String)>, EngineError>)
    ensures
        match bulk_result(match params { Some(p) => Some(*p), None => None }, defs@) {
            Some(q) => r matches Ok(out) && pairs_view(out@) == q,
            None => r matches Err(EngineError::NotAnObject),
        },
{
    let m = match params {
        None => {
            let out: Vec<(String, String)> = Vec::new();
            assert(pairs_view(out@) =~= Seq::empty());
            return Ok(out);
        },
        Some(JsonValue::Object(m, _)) => m,
        Some(_) => return Err(EngineError::NotAnObject),
    };
    let mut out: Vec<(String, String)> = Vec::new();
    let mut i: usize = 0;
    assert(pairs_view(out@) =~= Seq::empty());
    while i < m.len()
        invariant
            i <= m.len(),
            bulk_pairs(m@, i as nat, defs@) == Some(pairs_view(out@)),
            bulk_result(match params { Some(p) => Some(*p), None => None }, defs@) == bulk_pairs(m@, m@.len(), defs@),
        decreases m.len() - i,
    {
        let k = &m[i].0;
        let v = &m[i].1;
        let ghost before = pairs_view(out@);
        if is_deep_key(defs, k.as_str()) {
            match encode_deep_object(k, v) {
                Ok(more) => extend_pairs(&mut out, &more),
                Err(_) => {
                    assert(member_pairs(m@[i as int].0@, m@[i as int].1, deep_key(defs@, m@[i as int].0@)) is None);
                    assert(bulk_pairs(m@, (i + 1) as nat, defs@) is None);
                    proof {
                        lemma_bulk_none_stays(m@, (i + 1) as nat, m@.len(), defs@);
                    }
                    return Err(EngineError::NotAnObject);
                },
            }
        } else {
            match v {
                JsonValue::Array(items, _) => {
                    let mut j: usize = 0;
                    while j < items.len()
                        invariant
                            j <= items.len(),
                            pairs_view(out@) == before + items@.subrange(0, j as int).map_values(|x: JsonValue| (k@, leaf_text(x))),
                        decreases items.len() - j,
                    {
                        let t = json_value_to_string(&items[j]);
                        let ghost b2 = out@;
                        out.push((k.clone(), t));
                        assert(pairs_view(out@) =~= pairs_view(b2).push((k@, leaf_text(items@[j as int]))));
                        assert(items@.subrange(0, j + 1) =~= items@.subrange(0, j as int).push(items@[j as int]));
                        j = j + 1;
                        assert(pairs_view(out@) =~= before + items@.subrange(0, j as int).map_values(|x: JsonValue| (k@, leaf_text(x))));
                    }
                    assert(items@.subrange(0, items@.len() as int) =~= items@);
                },
                _ => {
                    let t = json_value_to_string(v);
                    out.push((k.clone(), t));
                    assert(pairs_view(out@) =~= before + seq![(k@, leaf_text(*v))]);
                },
            }
        }
        i = i + 1;
    }
    Ok(out)
}

/// Whether a parameter belongs in the query.
pub open spec fn in_query(p: ParamDef) -> bool {
    p.location@ == "query"@
}

/// The query after applying parameter `p`'s own input to `acc`: its earlier
/// pairs are purged and its new ones appended; `None` where a deep-object
/// input is not an object.
pub open spec fn query_step(acc: Seq<(Seq<char>, Seq<char>)>, p: ParamDef, args: Seq<(String, ArgValue)>) -> Option<Seq<(Seq<char>, Seq<char>)>> {
    let key = p.name@;
    let deep = is_deep_object(p);
    if !in_query(p) {
        Some(acc)
    } else if crate::command_tree::is_array(p) {
        match arg_lookup(args, key) {
            Some(ArgValue::Multiple(vs)) => Some(purge(acc, key, deep) + vs@.map_values(|v: String| (key, v@))),
            _ => Some(acc),
        }
    } else if deep {
        match arg_lookup(args, key) {
            Some(ArgValue::Json(v)) => match deep_object_result(key, v) {
                Some(q) => Some(purge(acc, key, true) + q),
                None => None,
            },
            _ => Some(acc),
        }
    } else {
        match arg_lookup(args, key) {
            Some(ArgValue::Single(v)) => Some(purge(acc, key, deep).push((key, v@))),
            _ => Some(acc),
        }
    }
}

/// The query after applying the first `n` parameters in order.
pub open spec fn query_fold(start: Seq<(Seq<char>, Seq<char>)>, params: Seq<ParamDef>, n: nat, args: Seq<(String, ArgValue)>) -> Option<Seq<(Seq<char>, Seq<char>)>>
    decreases n,
{
    if n == 0 || n > params.len() {
        Some(start)
    } else {
        match query_fold(start, params, (n - 1) as nat, args) {
            None => None,
            Some(acc) => query_step(acc, params[n - 1], args),
        }
    }
}

/// The query pairs of an operation: the bulk input first, then each query
/// parameter's own input, purging and appending.
pub open spec fn query_result(op: Operation, params: Option<JsonValue>, args: Seq<(String, ArgValue)>) -> Option<Seq<(Seq<char>, Seq<char>)>> {
    match bulk_result(params, op.params@) {
        None => None,
        Some(start) => query_fold(start, op.params@, op.params@.len(), args),
    }
}

proof fn lemma_fold_none_stays(start: Seq<(Seq<char>, Seq<char>)>, params: Seq<ParamDef>, k: nat, n: nat, args: Seq<(String, ArgValue)>)
    requires
        0 < k <= n <= params.len(),
        query_fold(start, params, k, args) is None,
    ensures
        query_fold(start, params, n, args) is None,
    decreases n - k,
{
    if n > k {
        lemma_fold_none_stays(start, params, k, (n - 1) as nat, args);
    }
}

/// Appends copies of `more` to `out`.
fn extend_pairs(out: &mut Vec<(String, String)>, more: &Vec<(String, String)>)
    ensures
        pairs_view(final(out)@) == pairs_view(old(out)@) + pairs_view(more@),
{
    let ghost before = pairs_view(out@);
    let mut j: usize = 0;
    while j < more.len()
        invariant
            j <= more.len(),
            pairs_view(out@) == before + pairs_view(more@.subrange(0, j as int)),
        decreases more.len() - j,
    {
        let ghost b2 = out@;
        out.push((more[j].0.clone(), more[j].1.clone()));
        assert(pairs_view(out@) =~= pairs_view(b2).push((more@[j as int].0@, more@[j as int].1@)));
        assert(pairs_view(more@.subrange(0, j + 1)) =~= pairs_view(more@.subrange(0, j as int)).push((more@[j as int].0@, more@[j as int].1@)));
        j = j + 1;
    }
    assert(more@.subrange(0, more@.len() as int) =~= more@);
}

/// Builds the query pairs of an operation (see `query_result`).
pub fn build_query_params(op: &Operation, params: Option<&JsonValue>, args: &ArgValues) -> (r: Result<Vec<(String, String)>, EngineError>)
    ensures
        match query_result(*op, match params { Some(p) => Some(*p), None => None }, args@) {
            Some(q) => r matches Ok(out) && pairs_view(out@) == q,
            None => r matches Err(EngineError::NotAnObject),
        },
{
    let mut out = match parse_params_json(params, &op.params) {
        Ok(o) => o,
        Err(_) => return Err(EngineError::NotAnObject),
    };
    let ghost start = pairs_view(out@);
    let mut i: usize = 0;
    while i < op.params.len()
        invariant
            i <= op.params.len(),
            bulk_result(match params { Some(p) => Some(*p), None => None }, op.params@) == Some(start),
            query_fold(start, op.params@, i as nat, args@) == Some(pairs_view(out@)),
        decreases op.params.len() - i,
    {
        let p = &op.params[i];
        if str_eq(p.location.as_str(), "query") {
            let key = &p.name;
            if str_eq(p.schema_type.as_str(), "array") {
                if let Some(ArgValue::Multiple(values)) = find_arg(args, key.as_str()) {
                    remove_query_key(&mut out, key.as_str(), &p.style);
                    let ghost purged = pairs_view(out@);
                    let mut j: usize = 0;
                    while j < values.len()
                        invariant
                            j <= values.len(),
                            pairs_view(out@) == purged + values@.subrange(0, j as int).map_values(|v: String| (key@, v@)),
                        decreases values.len() - j,
                    {
                        let ghost b2 = out@;
                        out.push((key.clone(), values[j].clone()));
                        assert(pairs_view(out@) =~= pairs_view(b2).push((key@, values@[j as int]@)));
                        assert(values@.subrange(0, j + 1) =~= values@.subrange(0, j as int).push(values@[j as int]));
                        j = j + 1;
                        assert(pairs_view(out@) =~= purged + values@.subrange(0, j as int).map_values(|v: String| (key@, v@)));
                    }
                    assert(values@.subrange(0, values@.len() as int) =~= values@);
                }
            } else if opt_eq(&p.style, "deepObject") {
                if let Some(ArgValue::Json(v)) = find_arg(args, key.as_str()) {
                    remove_query_key(&mut out, key.as_str(), &p.style);
                    match encode_deep_object(key, v) {
                        Ok(more) => extend_pairs(&mut out, &more),
                        Err(_) => {
                            assert(query_fold(start, op.params@, (i + 1) as nat, args@) is None);
                            proof {
                                lemma_fold_none_stays(start, op.params@, (i + 1) as nat, op.params@.len(), args@);
                            }
                            return Err(EngineError::NotAnObject);
                        },
                    }
                }
            } else {
                if let Some(ArgValue::Single(v)) = find_arg(args, key.as_str()) {
                    remove_query_key(&mut out, key.as_str(), &p.style);
                    let ghost b2 = out@;
                    out.push((key.clone(), v.clone()));
                    assert(pairs_view(out@) =~= pairs_view(b2).push((key@, v@)));
                }
            }
        }
        i = i + 1;
    }
    Ok(out)
}

/// A plain query parameter given both in the bulk input and by its own
/// input ends up exactly once in the query, with its own input's value: the
/// last pair is that value and no earlier pair has its key.
pub proof fn lemma_flag_overrides_bulk(acc: Seq<(Seq<char>, Seq<char>)>, p: ParamDef, args: Seq<(String, ArgValue)>, v: String)
    requires
        in_query(p),
        !crate::command_tree::is_array(p),
        !is_deep_object(p),
        arg_lookup(args, p.name@) == Some(ArgValue::Single(v)),
    ensures
        query_step(acc, p, args) matches Some(q) && q.len() > 0 && q.last() == (p.name@, v@)
            && forall|i: int| 0 <= i < q.len() - 1 ==> q[i].0 != p.name@,
{
    lemma_purge_drops_key(acc, p.name@, false);
}

/// Parameters outside the query leave it unchanged, so with one query
/// parameter the fold is that parameter's step.
proof fn lemma_fold_single_query_param(
    start: Seq<(Seq<char>, Seq<char>)>,
    params: Seq<ParamDef>,
    j: int,
    n: nat,
    args: Seq<(String, ArgValue)>,
)
    requires
        0 <= j < params.len(),
        n <= params.len(),
        forall|i: int| 0 <= i < params.len() && i != j ==> !in_query(#[trigger] params[i]),
    ensures
        query_fold(start, params, n, args) == if n > j {
            query_step(start, params[j], args)
        } else {
            Some(start)
        },
    decreases n,
{
    if n > 0 {
        lemma_fold_single_query_param(start, params, j, (n - 1) as nat, args);
        if n - 1 > j {
            if query_step(start, params[j], args) is Some {
                assert(!in_query(params[n - 1]));
            }
        }
    }
}

/// A plain query parameter given in the bulk input and by its own input,
/// on an operation where it is the only query parameter: the query is the
/// bulk input's pairs without that key, in order, followed by the one pair
/// of its own input.
pub proof fn lemma_flag_overrides_bulk_query(op: Operation, params: Option<JsonValue>, args: Seq<(String, ArgValue)>, j: int, v: String)
    requires
        0 <= j < op.params@.len(),
        in_query(op.params@[j]),
        !crate::command_tree::is_array(op.params@[j]),
        !is_deep_object(op.params@[j]),
        forall|i: int| 0 <= i < op.params@.len() && i != j ==> !in_query(#[trigger] op.params@[i]),
        arg_lookup(args, op.params@[j].name@) == Some(ArgValue::Single(v)),
        bulk_result(params, op.params@) is Some,
    ensures
        ({
            let key = op.params@[j].name@;
            let q = purge(bulk_result(params, op.params@)->0, key, false).push((key, v@));
            query_result(op, params, args) == Some(q)
                && (forall|i: int| 0 <= i < q.len() - 1 ==> q[i].0 != key)
                && purge(bulk_result(params, op.params@)->0, key, false)
                    == bulk_result(params, op.params@)->0.filter(|p: (Seq<char>, Seq<char>)| p.0 != key)
        }),
{
    let start = bulk_result(params, op.params@)->0;
    lemma_fold_single_query_param(start, op.params@, j, op.params@.len(), args);
    lemma_flag_overrides_bulk(start, op.params@[j], args, v);
    lemma_purge_is_filter(start, op.params@[j].name@);
}

} // verus!
