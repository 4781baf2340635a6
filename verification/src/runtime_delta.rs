//! Runtime deltas: when a play session ends, the field-level differences between the
//! component values captured as play began and the values the running game holds, for
//! the apply-back panel to offer.

use vstd::prelude::*;
use crate::json::{find_key, json_clone, json_equal, json_get, strs_view, JsonEntry, JsonV, JsonValue};
use crate::logic_validation::contains_str;
use crate::text::{concat3, to_owned_string};
use crate::seqs::{is_first_match, lemma_first_match_at};
use crate::json::has_key;

verus! {

/// One difference between a baseline value and the value at runtime.
#[derive(Debug)]
pub struct RuntimeDelta {
    pub instance_id: String,
    /// Always empty: deltas are reported per instance, not per entity inside it.
    pub target_local_id: String,
    pub component_type_id: String,
    /// Dot-separated path of the field inside the component.
    pub field_path: String,
    pub baseline_value: JsonValue,
    /// `null` where the field, or the whole component, is gone at runtime.
    pub runtime_value: JsonValue,
    pub captured_at_ms: u64,
    /// Whether the component's schema lets the delta be applied back.
    pub apply_back_eligible: bool,
}

/// Model of a runtime delta.
pub struct RuntimeDeltaV {
    pub instance_id: Seq<char>,
    pub target_local_id: Seq<char>,
    pub component_type_id: Seq<char>,
    pub field_path: Seq<char>,
    pub baseline_value: JsonV,
    pub runtime_value: JsonV,
    pub captured_at_ms: u64,
    pub apply_back_eligible: bool,
}

impl RuntimeDelta {
    pub open spec fn view(&self) -> RuntimeDeltaV {
        RuntimeDeltaV {
            instance_id: self.instance_id@,
            target_local_id: self.target_local_id@,
            component_type_id: self.component_type_id@,
            field_path: self.field_path@,
            baseline_value: self.baseline_value@,
            runtime_value: self.runtime_value@,
            captured_at_ms: self.captured_at_ms,
            apply_back_eligible: self.apply_back_eligible,
        }
    }
}

/// The models of a run of deltas.
pub open spec fn deltas_view(s: Seq<RuntimeDelta>) -> Seq<RuntimeDeltaV> {
    s.map_values(|d: RuntimeDelta| d@)
}

/// The model of an optional value.
pub open spec fn opt_view(v: Option<&JsonValue>) -> Option<JsonV> {
    match v {
        Some(x) => Some(x@),
        None => None,
    }
}

/// The member `k` of an object's members.
pub open spec fn member(c: Seq<(Seq<char>, JsonV)>, k: Seq<char>) -> Option<JsonV> {
    json_get(JsonV::Object(c), k)
}

/// The differences under `path` between `baseline` and `current`: objects met on both
/// sides are compared key by key (keys only at runtime are not reported); otherwise one
/// difference for the whole path when the values differ, with `null` for a value gone
/// at runtime.
pub open spec fn field_diffs(path: Seq<char>, baseline: JsonValue, current: Option<JsonV>) -> Seq<
    (Seq<char>, JsonV, JsonV),
>
    decreases baseline,
{
    match baseline {
        JsonValue::Object(es) => match current {
            Some(JsonV::Object(c)) => member_diffs(path, es@, c).flatten(),
            Some(other) => seq![(path, baseline@, other)],
            None => seq![(path, baseline@, JsonV::Null)],
        },
        _ => match current {
            Some(x) => if x == baseline@ {
                Seq::empty()
            } else {
                seq![(path, baseline@, x)]
            },
            None => seq![(path, baseline@, JsonV::Null)],
        },
    }
}

/// The differences under each member `k` of a baseline object, at `path.k`.
pub open spec fn member_diffs(path: Seq<char>, es: Seq<JsonEntry>, c: Seq<(Seq<char>, JsonV)>) -> Seq<
    Seq<(Seq<char>, JsonV, JsonV)>,
>
    decreases es,
{
    Seq::new(
        es.len(),
        |i: int|
            if 0 <= i < es.len() {
                field_diffs(path + "."@ + es[i].key@, es[i].value, member(c, es[i].key@))
            } else {
                Seq::empty()
            },
    )
}

/// Differences turned into deltas of one component of one instance.
pub open spec fn stamp(
    ds: Seq<(Seq<char>, JsonV, JsonV)>,
    instance_id: Seq<char>,
    component_type_id: Seq<char>,
    now_ms: u64,
    eligible: bool,
) -> Seq<RuntimeDeltaV> {
    ds.map_values(
        |d: (Seq<char>, JsonV, JsonV)|
            RuntimeDeltaV {
                instance_id,
                target_local_id: Seq::empty(),
                component_type_id,
                field_path: d.0,
                baseline_value: d.1,
                runtime_value: d.2,
                captured_at_ms: now_ms,
                apply_back_eligible: eligible,
            },
    )
}

/// The runtime members of component `ct` in an instance's runtime values, when they
/// form an object.
pub open spec fn current_component(values: JsonV, ct: Seq<char>) -> Option<Seq<(Seq<char>, JsonV)>> {
    match json_get(values, ct) {
        Some(JsonV::Object(c)) => Some(c),
        _ => None,
    }
}

/// The differences of each field of one component.
pub open spec fn component_field_diffs(fields: Seq<JsonEntry>, current: Option<Seq<(Seq<char>, JsonV)>>) -> Seq<
    Seq<(Seq<char>, JsonV, JsonV)>,
> {
    Seq::new(
        fields.len(),
        |i: int|
            field_diffs(
                fields[i].key@,
                fields[i].value,
                match current {
                    Some(c) => member(c, fields[i].key@),
                    None => None,
                },
            ),
    )
}

/// A field reported as gone at runtime.
pub open spec fn gone(f: JsonEntry) -> (Seq<char>, JsonV, JsonV) {
    (f.key@, f.value@, JsonV::Null)
}

/// The differences of one component, field by field; where the component is gone at
/// runtime, one difference per top-level field, with a `null` runtime value.
pub open spec fn component_diffs(fields: Seq<JsonEntry>, current: Option<Seq<(Seq<char>, JsonV)>>) -> Seq<
    (Seq<char>, JsonV, JsonV),
> {
    match current {
        Some(_) => component_field_diffs(fields, current).flatten(),
        None => fields.map_values(|f: JsonEntry| gone(f)),
    }
}

/// The deltas of each component of an instance whose baseline value is an object.
pub open spec fn component_deltas(
    instance_id: Seq<char>,
    comps: Seq<JsonEntry>,
    values: JsonV,
    now_ms: u64,
    never: Seq<Seq<char>>,
) -> Seq<Seq<RuntimeDeltaV>> {
    Seq::new(
        comps.len(),
        |j: int|
            match comps[j].value {
                JsonValue::Object(fields) => stamp(
                    component_diffs(fields@, current_component(values, comps[j].key@)),
                    instance_id,
                    comps[j].key@,
                    now_ms,
                    !never.contains(comps[j].key@),
                ),
                _ => Seq::empty(),
            },
    )
}

/// The deltas of one instance: for each component of its baseline whose value is an
/// object, the component's differences; nothing when the instance is gone at runtime or
/// its baseline is not an object.
pub open spec fn instance_deltas(
    instance_id: Seq<char>,
    baseline: JsonValue,
    current: Option<JsonV>,
    now_ms: u64,
    never: Seq<Seq<char>>,
) -> Seq<RuntimeDeltaV> {
    match baseline {
        JsonValue::Object(comps) => match current {
            Some(values) => component_deltas(instance_id, comps@, values, now_ms, never).flatten(),
            None => Seq::empty(),
        },
        _ => Seq::empty(),
    }
}

/// The deltas of each instance, in the order of the baselines.
pub open spec fn instance_deltas_each(
    baselines: Seq<JsonEntry>,
    current: Seq<(Seq<char>, JsonV)>,
    now_ms: u64,
    never: Seq<Seq<char>>,
) -> Seq<Seq<RuntimeDeltaV>> {
    Seq::new(
        baselines.len(),
        |k: int|
            instance_deltas(
                baselines[k].key@,
                baselines[k].value,
                member(current, baselines[k].key@),
                now_ms,
                never,
            ),
    )
}

/// All the deltas, instance after instance in the order of the baselines.
pub open spec fn runtime_deltas(
    baselines: Seq<JsonEntry>,
    current: Seq<(Seq<char>, JsonV)>,
    now_ms: u64,
    never: Seq<Seq<char>>,
) -> Seq<RuntimeDeltaV> {
    instance_deltas_each(baselines, current, now_ms, never).flatten()
}

/// The members of an optional object, as a model.
pub open spec fn opt_members(c: Option<&Vec<JsonEntry>>) -> Option<Seq<(Seq<char>, JsonV)>> {
    match c {
        Some(es) => Some(JsonValue::Object(*es)@->Object_0),
        None => None,
    }
}

/// The members of an object have distinct keys.
pub open spec fn keys_distinct(es: Seq<JsonEntry>) -> bool {
    forall|i: int, j: int| 0 <= i < j < es.len() ==> #[trigger] es[i].key@ != #[trigger] es[j].key@
}

/// Every object inside `v`, reached through objects, has distinct keys, as values read
/// from JSON text do.
pub open spec fn distinct_keys_throughout(v: JsonValue) -> bool
    decreases v,
{
    match v {
        JsonValue::Object(es) => keys_distinct(es@) && all_true(members_distinct_throughout(es@)),
        _ => true,
    }
}

/// For each member, whether its value has distinct keys throughout.
pub open spec fn members_distinct_throughout(es: Seq<JsonEntry>) -> Seq<bool>
    decreases es,
{
    Seq::new(
        es.len(),
        |i: int|
            if 0 <= i < es.len() {
                distinct_keys_throughout(es[i].value)
            } else {
                true
            },
    )
}

/// Every element is `true`.
pub open spec fn all_true(s: Seq<bool>) -> bool {
    forall|i: int| 0 <= i < s.len() ==> #[trigger] s[i]
}

/// The members of an object, as a model.
pub open spec fn members_of(es: Seq<JsonEntry>) -> Seq<(Seq<char>, JsonV)> {
    Seq::new(es.len(), |k: int| (es[k].key@, es[k].value@))
}

proof fn lemma_members_of_object(v: JsonValue)
    requires
        v is Object,
    ensures
        v@ == JsonV::Object(members_of(v->Object_0@)),
{
    assert(v@->Object_0 =~= members_of(v->Object_0@));
}

proof fn lemma_member_at(es: Seq<JsonEntry>, i: int)
    requires
        keys_distinct(es),
        0 <= i < es.len(),
    ensures
        member(members_of(es), es[i].key@) == Some(es[i].value@),
{
    let ev = members_of(es);
    assert(is_first_match(ev, has_key(es[i].key@), i)) by {
        assert forall|j: int| 0 <= j < i implies !has_key(es[i].key@)(#[trigger] ev[j]) by {
            assert(es[j].key@ != es[i].key@);
        }
    }
    lemma_first_match_at(ev, has_key(es[i].key@), i);
}

proof fn lemma_flatten_all_empty<A>(parts: Seq<Seq<A>>)
    requires
        forall|i: int| 0 <= i < parts.len() ==> #[trigger] parts[i].len() == 0,
    ensures
        parts.flatten().len() == 0,
    decreases parts.len(),
{
    if parts.len() > 0 {
        assert forall|i: int| 0 <= i < parts.drop_first().len() implies #[trigger] parts.drop_first()[i].len() == 0 by {
            assert(parts.drop_first()[i] == parts[i + 1]);
        }
        lemma_flatten_all_empty(parts.drop_first());
        assert(parts[0].len() == 0);
    }
}

/// A value compared with itself has no difference.
pub proof fn law_unchanged_field_has_no_diff(path: Seq<char>, v: JsonValue)
    requires
        distinct_keys_throughout(v),
    ensures
        field_diffs(path, v, Some(v@)).len() == 0,
    decreases v,
{
    match v {
        JsonValue::Object(es) => {
            lemma_members_of_object(v);
            let cv = members_of(es@);
            let parts = member_diffs(path, es@, cv);
            assert(keys_distinct(es@));
            assert forall|i: int| 0 <= i < es@.len() implies #[trigger] distinct_keys_throughout(es@[i].value) by {
                assert(members_distinct_throughout(es@)[i]);
            }
            assert forall|i: int| 0 <= i < parts.len() implies #[trigger] parts[i].len() == 0 by {
                lemma_member_at(es@, i);
                assert(decreases_to!(v => v->Object_0));
                assert(decreases_to!(v->Object_0 => v->Object_0@));
                assert(decreases_to!(v->Object_0@ => v->Object_0@[i]));
                assert(decreases_to!(v->Object_0@[i] => v->Object_0@[i].value));
                law_unchanged_field_has_no_diff(path + "."@ + es@[i].key@, es@[i].value);
            }
            lemma_flatten_all_empty(parts);
        },
        _ => {},
    }
}

/// A play session that changed nothing reports nothing: when every instance's runtime
/// values equal its baseline, there is no delta.
pub proof fn law_unchanged_instances_have_no_deltas(baselines: Seq<JsonEntry>, now_ms: u64, never: Seq<Seq<char>>)
    requires
        keys_distinct(baselines),
        forall|k: int| 0 <= k < baselines.len() ==> #[trigger] distinct_keys_throughout(baselines[k].value),
    ensures
        runtime_deltas(baselines, members_of(baselines), now_ms, never).len() == 0,
{
    let cv = members_of(baselines);
    let parts = instance_deltas_each(baselines, cv, now_ms, never);
    assert forall|k: int| 0 <= k < parts.len() implies #[trigger] parts[k].len() == 0 by {
        lemma_member_at(baselines, k);
        lemma_unchanged_instance(baselines[k].key@, baselines[k].value, now_ms, never);
    }
    lemma_flatten_all_empty(parts);
}

proof fn lemma_unchanged_instance(id: Seq<char>, b: JsonValue, now_ms: u64, never: Seq<Seq<char>>)
    requires
        distinct_keys_throughout(b),
    ensures
        instance_deltas(id, b, Some(b@), now_ms, never).len() == 0,
{
    match b {
        JsonValue::Object(comps) => {
            lemma_members_of_object(b);
            let values = b@;
            let parts = component_deltas(id, comps@, values, now_ms, never);
            assert forall|j: int| 0 <= j < parts.len() implies #[trigger] parts[j].len() == 0 by {
                assert(members_distinct_throughout(comps@)[j]);
                let cj = comps@[j].value;
                match cj {
                    JsonValue::Object(fields) => {
                        lemma_member_at(comps@, j);
                        lemma_members_of_object(cj);
                        let mf = members_of(fields@);
                        assert(current_component(values, comps@[j].key@) == Some(mf));
                        let fparts = component_field_diffs(fields@, Some(mf));
                        assert forall|i: int| 0 <= i < fparts.len() implies #[trigger] fparts[i].len() == 0 by {
                            assert(members_distinct_throughout(fields@)[i]);
                            lemma_member_at(fields@, i);
                            law_unchanged_field_has_no_diff(fields@[i].key@, fields@[i].value);
                        }
                        lemma_flatten_all_empty(fparts);
                    },
                    _ => {},
                }
            }
            lemma_flatten_all_empty(parts);
        },
        _ => {},
    }
}

proof fn lemma_stamp_add(
    a: Seq<(Seq<char>, JsonV, JsonV)>,
    b: Seq<(Seq<char>, JsonV, JsonV)>,
    instance_id: Seq<char>,
    component_type_id: Seq<char>,
    now_ms: u64,
    eligible: bool,
)
    ensures
        stamp(a + b, instance_id, component_type_id, now_ms, eligible) == stamp(
            a,
            instance_id,
            component_type_id,
            now_ms,
            eligible,
        ) + stamp(b, instance_id, component_type_id, now_ms, eligible),
{
    assert(stamp(a + b, instance_id, component_type_id, now_ms, eligible) =~= stamp(
        a,
        instance_id,
        component_type_id,
        now_ms,
        eligible,
    ) + stamp(b, instance_id, component_type_id, now_ms, eligible));
}

proof fn lemma_flatten_step<A>(parts: Seq<Seq<A>>, i: int)
    requires
        0 <= i < parts.len(),
    ensures
        parts.subrange(0, i + 1).flatten() == parts.subrange(0, i).flatten() + parts[i],
{
    assert(parts.subrange(0, i + 1) =~= parts.subrange(0, i).push(parts[i]));
    parts.subrange(0, i).lemma_flatten_push(parts[i]);
}

fn make_delta(
    instance_id: &str,
    component_type_id: &str,
    field_path: String,
    baseline_value: JsonValue,
    runtime_value: JsonValue,
    now_ms: u64,
    eligible: bool,
) -> (r: RuntimeDelta)
    ensures
        r@ == (RuntimeDeltaV {
            instance_id: instance_id@,
            target_local_id: Seq::empty(),
            component_type_id: component_type_id@,
            field_path: field_path@,
            baseline_value: baseline_value@,
            runtime_value: runtime_value@,
            captured_at_ms: now_ms,
            apply_back_eligible: eligible,
        }),
{
    RuntimeDelta {
        instance_id: to_owned_string(instance_id),
        target_local_id: String::new(),
        component_type_id: to_owned_string(component_type_id),
        field_path,
        baseline_value,
        runtime_value,
        captured_at_ms: now_ms,
        apply_back_eligible: eligible,
    }
}

/// The member `k` of `c`, by reference.
fn member_ref<'a>(c: &'a Vec<JsonEntry>, k: &str) -> (r: Option<&'a JsonValue>)
    ensures
        opt_view(r) == member(JsonValue::Object(*c)@->Object_0, k@),
{
    match find_key(c, k) {
        Some(j) => Some(&c[j].value),
        None => None,
    }
}

/// Append the deltas of `field_diffs(path, baseline, current)` to `out`.
fn diff_field(
    instance_id: &str,
    component_type_id: &str,
    path: &str,
    baseline: &JsonValue,
    current: Option<&JsonValue>,
    now_ms: u64,
    eligible: bool,
    out: &mut Vec<RuntimeDelta>,
)
    ensures
        deltas_view(final(out)@) == deltas_view(old(out)@) + stamp(
            field_diffs(path@, *baseline, opt_view(current)),
            instance_id@,
            component_type_id@,
            now_ms,
            eligible,
        ),
    decreases baseline,
{
    let ghost start = deltas_view(out@);
    let ghost ds = field_diffs(path@, *baseline, opt_view(current));
    match baseline {
        JsonValue::Object(es) => match current {
            Some(JsonValue::Object(c)) => {
                let ghost cv = JsonValue::Object(*c)@->Object_0;
                let ghost parts = member_diffs(path@, es@, cv);
                assert(opt_view(current) == Some(JsonV::Object(cv)));
                let mut i: usize = 0;
                while i < es.len()
                    invariant
                        *baseline == JsonValue::Object(*es),
                        cv == JsonValue::Object(*c)@->Object_0,
                        parts.len() == es@.len(),
                        i <= es.len(),
                        forall|k: int|
                            0 <= k < es@.len() ==> #[trigger] parts[k] == field_diffs(
                                path@ + "."@ + es@[k].key@,
                                es@[k].value,
                                member(cv, es@[k].key@),
                            ),
                        deltas_view(out@) == start + stamp(
                            parts.subrange(0, i as int).flatten(),
                            instance_id@,
                            component_type_id@,
                            now_ms,
                            eligible,
                        ),
                    decreases es.len() - i,
                {
                    proof {
                        assert(decreases_to!(*baseline => (*baseline)->Object_0));
                        assert(decreases_to!((*baseline)->Object_0 => (*baseline)->Object_0@));
                        assert(decreases_to!((*baseline)->Object_0@ => (*baseline)->Object_0@[i as int]));
                        assert(decreases_to!((*baseline)->Object_0@[i as int] => (*baseline)->Object_0@[i as int].value));
                    }
                    let nested = concat3(path, ".", es[i].key.as_str());
                    let cur = member_ref(c, es[i].key.as_str());
                    diff_field(instance_id, component_type_id, nested.as_str(), &es[i].value, cur, now_ms, eligible, out);
                    proof {
                        lemma_flatten_step(parts, i as int);
                        lemma_stamp_add(
                            parts.subrange(0, i as int).flatten(),
                            parts[i as int],
                            instance_id@,
                            component_type_id@,
                            now_ms,
                            eligible,
                        );
                    }
                    i += 1;
                }
                assert(parts.subrange(0, es@.len() as int) =~= parts);
            },
            Some(other) => {
                let d = make_delta(instance_id, component_type_id, to_owned_string(path), json_clone(baseline), json_clone(other), now_ms, eligible);
                out.push(d);
                assert(deltas_view(out@) =~= start + stamp(ds, instance_id@, component_type_id@, now_ms, eligible));
            },
            None => {
                let d = make_delta(instance_id, component_type_id, to_owned_string(path), json_clone(baseline), JsonValue::Null, now_ms, eligible);
                out.push(d);
                assert(deltas_view(out@) =~= start + stamp(ds, instance_id@, component_type_id@, now_ms, eligible));
            },
        },
        _ => match current {
            Some(x) => {
                if !json_equal(baseline, x) {
                    let d = make_delta(instance_id, component_type_id, to_owned_string(path), json_clone(baseline), json_clone(x), now_ms, eligible);
                    out.push(d);
                    assert(deltas_view(out@) =~= start + stamp(ds, instance_id@, component_type_id@, now_ms, eligible));
                } else {
                    assert(deltas_view(out@) =~= start + stamp(ds, instance_id@, component_type_id@, now_ms, eligible));
                }
            },
            None => {
                let d = make_delta(instance_id, component_type_id, to_owned_string(path), json_clone(baseline), JsonValue::Null, now_ms, eligible);
                out.push(d);
                assert(deltas_view(out@) =~= start + stamp(ds, instance_id@, component_type_id@, now_ms, eligible));
            },
        },
    }
}

/// The runtime members of component `ct` in `values`, when they form an object.
fn component_members<'a>(values: &'a JsonValue, ct: &str) -> (r: Option<&'a Vec<JsonEntry>>)
    ensures
        opt_members(r) == current_component(values@, ct@),
{
    match values {
        JsonValue::Object(es) => match find_key(es, ct) {
            Some(i) => {
                assert(values@->Object_0[i as int].1 == es@[i as int].value@);
                assert(json_get(values@, ct@) == Some(es@[i as int].value@));
                match &es[i].value {
                    JsonValue::Object(c) => Some(c),
                    _ => None,
                }
            },
            None => None,
        },
        _ => None,
    }
}

/// Append the deltas of one component of one instance to `out`.
fn append_component_deltas(
    instance_id: &str,
    component_type_id: &str,
    fields: &Vec<JsonEntry>,
    current: Option<&Vec<JsonEntry>>,
    now_ms: u64,
    eligible: bool,
    out: &mut Vec<RuntimeDelta>,
)
    ensures
        deltas_view(final(out)@) == deltas_view(old(out)@) + stamp(
            component_diffs(fields@, opt_members(current)),
            instance_id@,
            component_type_id@,
            now_ms,
            eligible,
        ),
{
    let ghost start = deltas_view(out@);
    let ghost cur = opt_members(current);
    match current {
        Some(c) => {
            let ghost parts = component_field_diffs(fields@, cur);
            let mut i: usize = 0;
            while i < fields.len()
                invariant
                    i <= fields.len(),
                    cur == opt_members(current),
                    current == Some(c),
                    parts == component_field_diffs(fields@, cur),
                    deltas_view(out@) == start + stamp(
                        parts.subrange(0, i as int).flatten(),
                        instance_id@,
                        component_type_id@,
                        now_ms,
                        eligible,
                    ),
                decreases fields.len() - i,
            {
                let key = fields[i].key.as_str();
                let field_now = member_ref(c, key);
                diff_field(instance_id, component_type_id, key, &fields[i].value, field_now, now_ms, eligible, out);
                proof {
                    lemma_flatten_step(parts, i as int);
                    lemma_stamp_add(
                        parts.subrange(0, i as int).flatten(),
                        parts[i as int],
                        instance_id@,
                        component_type_id@,
                        now_ms,
                        eligible,
                    );
                }
                i += 1;
            }
            assert(parts.subrange(0, fields@.len() as int) =~= parts);
        },
        None => {
            let mut k: usize = 0;
            while k < fields.len()
                invariant
                    k <= fields.len(),
                    deltas_view(out@) == start + stamp(
                        fields@.subrange(0, k as int).map_values(|f: JsonEntry| gone(f)),
                        instance_id@,
                        component_type_id@,
                        now_ms,
                        eligible,
                    ),
                decreases fields.len() - k,
            {
                let ghost before = deltas_view(out@);
                let d = make_delta(
                    instance_id,
                    component_type_id,
                    fields[k].key.clone(),
                    json_clone(&fields[k].value),
                    JsonValue::Null,
                    now_ms,
                    eligible,
                );
                out.push(d);
                proof {
                    let prev = fields@.subrange(0, k as int).map_values(|f: JsonEntry| gone(f));
                    let next = fields@.subrange(0, k + 1).map_values(|f: JsonEntry| gone(f));
                    assert(next =~= prev.push(gone(fields@[k as int])));
                    assert(deltas_view(out@) =~= before.push(stamp(
                        seq![gone(fields@[k as int])],
                        instance_id@,
                        component_type_id@,
                        now_ms,
                        eligible,
                    )[0]));
                    lemma_stamp_add(prev, seq![gone(fields@[k as int])], instance_id@, component_type_id@, now_ms, eligible);
                    assert(prev + seq![gone(fields@[k as int])] =~= next);
                    assert(deltas_view(out@) =~= start + stamp(next, instance_id@, component_type_id@, now_ms, eligible));
                }
                k += 1;
            }
            assert(fields@.subrange(0, fields@.len() as int) =~= fields@);
        },
    }
}

/// Append the deltas of one instance to `out`.
fn append_instance_deltas(
    instance_id: &str,
    baseline: &JsonValue,
    current: Option<&JsonValue>,
    now_ms: u64,
    never_apply_back: &Vec<String>,
    out: &mut Vec<RuntimeDelta>,
)
    ensures
        deltas_view(final(out)@) == deltas_view(old(out)@) + instance_deltas(
            instance_id@,
            *baseline,
            opt_view(current),
            now_ms,
            strs_view(never_apply_back@),
        ),
{
    let ghost start = deltas_view(out@);
    let ghost never = strs_view(never_apply_back@);
    match baseline {
        JsonValue::Object(comps) => match current {
            Some(values) => {
                let ghost parts = component_deltas(instance_id@, comps@, values@, now_ms, never);
                let mut j: usize = 0;
                while j < comps.len()
                    invariant
                        j <= comps.len(),
                        never == strs_view(never_apply_back@),
                        parts == component_deltas(instance_id@, comps@, values@, now_ms, never),
                        deltas_view(out@) == start + parts.subrange(0, j as int).flatten(),
                    decreases comps.len() - j,
                {
                    let ghost before = deltas_view(out@);
                    match &comps[j].value {
                        JsonValue::Object(fields) => {
                            let ct = comps[j].key.as_str();
                            let now_members = component_members(values, ct);
                            let eligible = !contains_str(never_apply_back, ct);
                            append_component_deltas(instance_id, ct, fields, now_members, now_ms, eligible, out);
                        },
                        _ => {
                            assert(deltas_view(out@) =~= before + parts[j as int]);
                        },
                    }
                    proof {
                        lemma_flatten_step(parts, j as int);
                        assert(deltas_view(out@) =~= start + parts.subrange(0, j + 1).flatten());
                    }
                    j += 1;
                }
                assert(parts.subrange(0, comps@.len() as int) =~= parts);
            },
            None => {
                assert(deltas_view(out@) =~= start + instance_deltas(
                    instance_id@,
                    *baseline,
                    opt_view(current),
                    now_ms,
                    never,
                ));
            },
        },
        _ => {
            assert(deltas_view(out@) =~= start + instance_deltas(
                instance_id@,
                *baseline,
                opt_view(current),
                now_ms,
                never,
            ));
        },
    }
}

/// The field-level deltas between the baselines captured when play began (by instance
/// id, each an object of component values by component type) and the instances' values
/// at runtime (by instance id). Components whose schema never allows applying back are
/// listed in `never_apply_back`; their deltas are reported as not eligible.
pub fn compute_runtime_deltas(
    baselines: &Vec<JsonEntry>,
    current: &Vec<JsonEntry>,
    never_apply_back: &Vec<String>,
    now_ms: u64,
) -> (r: Vec<RuntimeDelta>)
    ensures
        deltas_view(r@) == runtime_deltas(
            baselines@,
            JsonValue::Object(*current)@->Object_0,
            now_ms,
            strs_view(never_apply_back@),
        ),
{
    let ghost cv = JsonValue::Object(*current)@->Object_0;
    let ghost never = strs_view(never_apply_back@);
    let ghost parts = instance_deltas_each(baselines@, cv, now_ms, never);
    let mut out: Vec<RuntimeDelta> = Vec::new();
    let mut k: usize = 0;
    while k < baselines.len()
        invariant
            k <= baselines.len(),
            cv == JsonValue::Object(*current)@->Object_0,
            never == strs_view(never_apply_back@),
            parts == instance_deltas_each(baselines@, cv, now_ms, never),
            deltas_view(out@) == parts.subrange(0, k as int).flatten(),
        decreases baselines.len() - k,
    {
        let now_values = member_ref(current, baselines[k].key.as_str());
        append_instance_deltas(baselines[k].key.as_str(), &baselines[k].value, now_values, now_ms, never_apply_back, &mut out);
        proof {
            lemma_flatten_step(parts, k as int);
        }
        k += 1;
    }
    assert(parts.subrange(0, baselines@.len() as int) =~= parts);
    out
}

} // verus!
