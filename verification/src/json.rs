//! JSON values held by components and logic nodes, and the path edits on them.

use vstd::prelude::*;
use vstd::string::*;
use crate::seqs::{first_match, is_first_match, lemma_first_match, lemma_first_match_at, lemma_first_match_none, lemma_first_match_update};
use crate::text::str_equal;

verus! {

/// A JSON value. Numbers keep their textual form so that no precision is lost.
#[derive(Debug)]
pub enum JsonValue {
    Null,
    Bool(bool),
    Number(String),
    Str(String),
    Array(Vec<JsonValue>),
    Object(Vec<JsonEntry>),
}

/// One `key: value` member of a JSON object; keys are unique within an object.
#[derive(Debug)]
pub struct JsonEntry {
    pub key: String,
    pub value: JsonValue,
}

/// Mathematical model of a JSON value.
pub enum JsonV {
    Null,
    Bool(bool),
    Number(Seq<char>),
    Str(Seq<char>),
    Array(Seq<JsonV>),
    Object(Seq<(Seq<char>, JsonV)>),
}

impl JsonValue {
    pub open spec fn view(&self) -> JsonV
        decreases self,
    {
        match self {
            JsonValue::Null => JsonV::Null,
            JsonValue::Bool(b) => JsonV::Bool(*b),
            JsonValue::Number(n) => JsonV::Number(n@),
            JsonValue::Str(s) => JsonV::Str(s@),
            JsonValue::Array(a) => JsonV::Array(
                Seq::new(a@.len(), |i: int| if 0 <= i < a@.len() { a@[i].view() } else { JsonV::Null }),
            ),
            JsonValue::Object(es) => JsonV::Object(
                Seq::new(
                    es@.len(),
                    |i: int|
                        if 0 <= i < es@.len() {
                            (es@[i].key@, es@[i].value.view())
                        } else {
                            (Seq::empty(), JsonV::Null)
                        },
                ),
            ),
        }
    }
}

/// The views of a sequence of strings.
pub open spec fn strs_view(v: Seq<String>) -> Seq<Seq<char>> {
    v.map_values(|s: String| s@)
}

/// Predicate "this object member has key `k`".
pub open spec fn has_key(k: Seq<char>) -> spec_fn((Seq<char>, JsonV)) -> bool {
    |e: (Seq<char>, JsonV)| e.0 == k
}

/// The member of `v` under key `k`, when `v` is an object that has that key.
pub open spec fn json_get(v: JsonV, k: Seq<char>) -> Option<JsonV> {
    match v {
        JsonV::Object(es) => {
            let i = first_match(es, has_key(k));
            if 0 <= i < es.len() {
                Some(es[i].1)
            } else {
                None
            }
        },
        _ => None,
    }
}

/// The value reached from `v` by following the keys `path[d..]`, if every step exists.
pub open spec fn json_get_path(v: JsonV, path: Seq<Seq<char>>, d: int) -> Option<JsonV>
    decreases path.len() - d,
{
    if d < 0 || d >= path.len() {
        Some(v)
    } else {
        match json_get(v, path[d]) {
            Some(c) => json_get_path(c, path, d + 1),
            None => None,
        }
    }
}

/// Replace the value at `path[d..]` inside `v` by `new`.
/// `Ok((updated, old))` when every step of the path exists; otherwise `Err((k, non_object))`
/// names the first step `k` that fails, and whether it failed because the value there is
/// not an object (`true`) or because the key is absent (`false`).
pub open spec fn json_set_path(v: JsonV, path: Seq<Seq<char>>, d: int, new: JsonV) -> Result<(JsonV, JsonV), (int, bool)>
    decreases path.len() - d,
{
    if d < 0 || d >= path.len() {
        Err((d, false))
    } else {
        match v {
            JsonV::Object(es) => {
                let i = first_match(es, has_key(path[d]));
                if !(0 <= i < es.len()) {
                    Err((d, false))
                } else if d + 1 == path.len() {
                    Ok((JsonV::Object(es.update(i, (es[i].0, new))), es[i].1))
                } else {
                    match json_set_path(es[i].1, path, d + 1, new) {
                        Ok((c, old)) => Ok((JsonV::Object(es.update(i, (es[i].0, c))), old)),
                        Err(e) => Err(e),
                    }
                }
            },
            _ => Err((d, true)),
        }
    }
}

/// A deep copy of a JSON value.
pub fn json_clone(v: &JsonValue) -> (r: JsonValue)
    ensures
        r@ == v@,
    decreases v,
{
    match v {
        JsonValue::Null => JsonValue::Null,
        JsonValue::Bool(b) => JsonValue::Bool(*b),
        JsonValue::Number(n) => JsonValue::Number(n.clone()),
        JsonValue::Str(s) => JsonValue::Str(s.clone()),
        JsonValue::Array(a) => {
            let mut out: Vec<JsonValue> = Vec::new();
            let mut i: usize = 0;
            while i < a.len()
                invariant
                    *v == JsonValue::Array(*a),
                    i <= a.len(),
                    out.len() == i,
                    forall|k: int| 0 <= k < i ==> (#[trigger] out@[k])@ == a@[k]@,
                decreases a.len() - i,
            {
                proof {
                    assert(decreases_to!(*v => (*v)->Array_0));
                    assert(decreases_to!((*v)->Array_0 => (*v)->Array_0@));
                    assert(decreases_to!(v => a@[i as int]));
                }
                let c = json_clone(&a[i]);
                out.push(c);
                i += 1;
            }
            let r = JsonValue::Array(out);
            assert(r@->Array_0 =~= v@->Array_0);
            r
        },
        JsonValue::Object(es) => {
            let mut out: Vec<JsonEntry> = Vec::new();
            let mut i: usize = 0;
            while i < es.len()
                invariant
                    *v == JsonValue::Object(*es),
                    i <= es.len(),
                    out.len() == i,
                    forall|k: int|
                        0 <= k < i ==> (#[trigger] out@[k]).key@ == es@[k].key@ && out@[k].value@
                            == es@[k].value@,
                decreases es.len() - i,
            {
                proof {
                    assert(decreases_to!(*v => (*v)->Object_0));
                    assert(decreases_to!((*v)->Object_0 => (*v)->Object_0@));
                    assert(decreases_to!((*v)->Object_0@ => (*v)->Object_0@[i as int]));
                    assert(decreases_to!((*v)->Object_0@[i as int] => (*v)->Object_0@[i as int].value));
                }
                let c = json_clone(&es[i].value);
                out.push(JsonEntry { key: es[i].key.clone(), value: c });
                i += 1;
            }
            let r = JsonValue::Object(out);
            assert(r@->Object_0 =~= v@->Object_0);
            r
        },
    }
}

/// Whether two JSON values are equal: same kind, same scalar text, and arrays and
/// objects equal member by member, in order.
pub fn json_equal(a: &JsonValue, b: &JsonValue) -> (r: bool)
    ensures
        r == (a@ == b@),
    decreases a,
{
    match a {
        JsonValue::Null => match b {
            JsonValue::Null => true,
            _ => false,
        },
        JsonValue::Bool(x) => match b {
            JsonValue::Bool(y) => *x == *y,
            _ => false,
        },
        JsonValue::Number(x) => match b {
            JsonValue::Number(y) => str_equal(x.as_str(), y.as_str()),
            _ => false,
        },
        JsonValue::Str(x) => match b {
            JsonValue::Str(y) => str_equal(x.as_str(), y.as_str()),
            _ => false,
        },
        JsonValue::Array(x) => match b {
            JsonValue::Array(y) => {
                if x.len() != y.len() {
                    assert(a@->Array_0.len() != b@->Array_0.len());
                    return false;
                }
                let mut i: usize = 0;
                while i < x.len()
                    invariant
                        *a == JsonValue::Array(*x),
                        *b == JsonValue::Array(*y),
                        x.len() == y.len(),
                        i <= x.len(),
                        forall|k: int| 0 <= k < i ==> (#[trigger] x@[k])@ == y@[k]@,
                    decreases x.len() - i,
                {
                    proof {
                        assert(decreases_to!(*a => (*a)->Array_0));
                        assert(decreases_to!((*a)->Array_0 => (*a)->Array_0@));
                        assert(decreases_to!(a => x@[i as int]));
                    }
                    if !json_equal(&x[i], &y[i]) {
                        assert(a@->Array_0[i as int] != b@->Array_0[i as int]);
                        return false;
                    }
                    i += 1;
                }
                assert(a@->Array_0 =~= b@->Array_0);
                true
            },
            _ => false,
        },
        JsonValue::Object(x) => match b {
            JsonValue::Object(y) => {
                if x.len() != y.len() {
                    assert(a@->Object_0.len() != b@->Object_0.len());
                    return false;
                }
                let mut i: usize = 0;
                while i < x.len()
                    invariant
                        *a == JsonValue::Object(*x),
                        *b == JsonValue::Object(*y),
                        x.len() == y.len(),
                        i <= x.len(),
                        forall|k: int|
                            0 <= k < i ==> (#[trigger] x@[k]).key@ == y@[k].key@ && x@[k].value@ == y@[k].value@,
                    decreases x.len() - i,
                {
                    proof {
                        assert(decreases_to!(*a => (*a)->Object_0));
                        assert(decreases_to!((*a)->Object_0 => (*a)->Object_0@));
                        assert(decreases_to!((*a)->Object_0@ => (*a)->Object_0@[i as int]));
                        assert(decreases_to!((*a)->Object_0@[i as int] => (*a)->Object_0@[i as int].value));
                    }
                    if !str_equal(x[i].key.as_str(), y[i].key.as_str()) {
                        assert(a@->Object_0[i as int] != b@->Object_0[i as int]);
                        return false;
                    }
                    if !json_equal(&x[i].value, &y[i].value) {
                        assert(a@->Object_0[i as int] != b@->Object_0[i as int]);
                        return false;
                    }
                    i += 1;
                }
                assert(a@->Object_0 =~= b@->Object_0);
                true
            },
            _ => false,
        },
    }
}

/// Position of the member with key `k` in an object's members.
pub fn find_key(es: &Vec<JsonEntry>, k: &str) -> (r: Option<usize>)
    ensures
        ({
            let ev = JsonValue::Object(*es)@->Object_0;
            match r {
                Some(i) => first_match(ev, has_key(k@)) == i && i < es@.len(),
                None => first_match(ev, has_key(k@)) == -1,
            }
        }),
{
    let ghost ev = JsonValue::Object(*es)@->Object_0;
    let mut i: usize = 0;
    while i < es.len()
        invariant
            ev == JsonValue::Object(*es)@->Object_0,
            ev.len() == es@.len(),
            i <= es.len(),
            forall|j: int| 0 <= j < i ==> !has_key(k@)(#[trigger] ev[j]),
        decreases es.len() - i,
    {
        if str_equal(es[i].key.as_str(), k) {
            proof {
                assert(is_first_match(ev, has_key(k@), i as int));
                lemma_first_match_at(ev, has_key(k@), i as int);
            }
            return Some(i);
        }
        i += 1;
    }
    proof {
        lemma_first_match_none(ev, has_key(k@));
    }
    None
}

/// The value at `path[d..]` inside `v`, when every step exists.
pub fn json_get_path_exec<'a>(v: &'a JsonValue, path: &Vec<String>, d: usize) -> (r: Option<&'a JsonValue>)
    requires
        d <= path.len(),
    ensures
        match r {
            Some(x) => json_get_path(v@, strs_view(path@), d as int) == Some(x@),
            None => json_get_path(v@, strs_view(path@), d as int) is None,
        },
    decreases path.len() - d,
{
    if d >= path.len() {
        return Some(v);
    }
    match v {
        JsonValue::Object(es) => {
            match find_key(es, path[d].as_str()) {
                Some(i) => json_get_path_exec(&es[i].value, path, d + 1),
                None => None,
            }
        },
        _ => None,
    }
}

/// Functional form of the path edit: `Ok((updated, old))` or the failing step.
pub fn json_set_path_exec(v: &JsonValue, path: &Vec<String>, d: usize, new: JsonValue) -> (r: Result<(JsonValue, JsonValue), (usize, bool)>)
    requires
        d < path.len(),
    ensures
        match r {
            Ok((u, o)) => json_set_path(v@, strs_view(path@), d as int, new@) == Ok::<(JsonV, JsonV), (int, bool)>((u@, o@)),
            Err((k, b)) => json_set_path(v@, strs_view(path@), d as int, new@) == Err::<(JsonV, JsonV), (int, bool)>((k as int, b)),
        },
    decreases path.len() - d,
{
    match v {
        JsonValue::Object(es) => {
            match find_key(es, path[d].as_str()) {
                None => Err((d, false)),
                Some(i) => {
                    let ghost ev = v@->Object_0;
                    if d + 1 == path.len() {
                        let old = json_clone(&es[i].value);
                        let mut es2: Vec<JsonEntry> = Vec::new();
                        let mut j: usize = 0;
                        while j < es.len()
                            invariant
                                *v == JsonValue::Object(*es),
                                ev == v@->Object_0,
                                i < es.len(),
                                j <= es.len(),
                                es2.len() == j,
                                forall|k: int|
                                    0 <= k < j ==> ((#[trigger] es2@[k]).key@, es2@[k].value@) == (if k == i {
                                        (ev[k].0, new@)
                                    } else {
                                        ev[k]
                                    }),
                            decreases es.len() - j,
                        {
                            if j == i {
                                let nv = json_clone(&new);
                                es2.push(JsonEntry { key: es[j].key.clone(), value: nv });
                            } else {
                                es2.push(JsonEntry { key: es[j].key.clone(), value: json_clone(&es[j].value) });
                            }
                            j += 1;
                        }
                        let u = JsonValue::Object(es2);
                        assert(u@->Object_0 =~= ev.update(i as int, (ev[i as int].0, new@)));
                        Ok((u, old))
                    } else {
                        match json_set_path_exec(&es[i].value, path, d + 1, new) {
                            Err(e) => Err(e),
                            Ok((c, old)) => {
                                let ghost cv = c@;
                                let mut es2: Vec<JsonEntry> = Vec::new();
                                let mut c_opt = Some(c);
                                let mut j: usize = 0;
                                while j < es.len()
                                    invariant
                                        *v == JsonValue::Object(*es),
                                        ev == v@->Object_0,
                                        i < es.len(),
                                        j <= es.len(),
                                        es2.len() == j,
                                        j <= i ==> c_opt == Some(c_opt->0) && c_opt->0@ == cv,
                                        forall|k: int|
                                            0 <= k < j ==> ((#[trigger] es2@[k]).key@, es2@[k].value@) == (if k == i {
                                                (ev[k].0, cv)
                                            } else {
                                                ev[k]
                                            }),
                                    decreases es.len() - j,
                                {
                                    if j == i {
                                        let cc = c_opt.take().unwrap();
                                        es2.push(JsonEntry { key: es[j].key.clone(), value: cc });
                                    } else {
                                        es2.push(JsonEntry { key: es[j].key.clone(), value: json_clone(&es[j].value) });
                                    }
                                    j += 1;
                                }
                                let u = JsonValue::Object(es2);
                                assert(u@->Object_0 =~= ev.update(i as int, (ev[i as int].0, cv)));
                                Ok((u, old))
                            },
                        }
                    }
                },
            }
        },
        _ => Err((d, true)),
    }
}

/// After a successful edit, the path leads to the new value, and before it led to the old one.
pub proof fn lemma_set_then_get(v: JsonV, path: Seq<Seq<char>>, d: int, new: JsonV)
    requires
        json_set_path(v, path, d, new) is Ok,
    ensures
        json_get_path(json_set_path(v, path, d, new)->Ok_0.0, path, d) == Some(new),
        json_get_path(v, path, d) == Some(json_set_path(v, path, d, new)->Ok_0.1),
    decreases path.len() - d,
{
    match v {
        JsonV::Object(es) => {
            let i = first_match(es, has_key(path[d]));
            lemma_first_match(es, has_key(path[d]));
            if d + 1 == path.len() {
                let es2 = es.update(i, (es[i].0, new));
                lemma_first_match_update(es, has_key(path[d]), i, (es[i].0, new));
                assert(json_get_path(new, path, d + 1) == Some(new));
                assert(json_get_path(es[i].1, path, d + 1) == Some(es[i].1));
            } else {
                lemma_set_then_get(es[i].1, path, d + 1, new);
                let c = json_set_path(es[i].1, path, d + 1, new)->Ok_0.0;
                lemma_first_match_update(es, has_key(path[d]), i, (es[i].0, c));
            }
        },
        _ => {},
    }
}

/// Writing the old value back at the same path undoes an edit.
pub proof fn lemma_set_set_restores(v: JsonV, path: Seq<Seq<char>>, d: int, new: JsonV)
    requires
        json_set_path(v, path, d, new) is Ok,
    ensures
        ({
            let (u, old) = json_set_path(v, path, d, new)->Ok_0;
            json_set_path(u, path, d, old) == Ok::<(JsonV, JsonV), (int, bool)>((v, new))
        }),
    decreases path.len() - d,
{
    match v {
        JsonV::Object(es) => {
            let i = first_match(es, has_key(path[d]));
            lemma_first_match(es, has_key(path[d]));
            if d + 1 == path.len() {
                let es2 = es.update(i, (es[i].0, new));
                lemma_first_match_update(es, has_key(path[d]), i, (es[i].0, new));
                assert(es2.update(i, (es2[i].0, es[i].1)) =~= es);
            } else {
                lemma_set_set_restores(es[i].1, path, d + 1, new);
                let c = json_set_path(es[i].1, path, d + 1, new)->Ok_0.0;
                let es2 = es.update(i, (es[i].0, c));
                lemma_first_match_update(es, has_key(path[d]), i, (es[i].0, c));
                assert(es2.update(i, (es2[i].0, es[i].1)) =~= es);
            }
        },
        _ => {},
    }
}

} // verus!
