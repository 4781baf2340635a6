//! Evaluation of logic graphs: typed port values, the node registry with its built-in
//! evaluators, and the sensor → controller → actuator run of a graph.
//!
//! Floating-point port values are carried as their IEEE-754 bit patterns: evaluation
//! only moves them from port to port and never computes with them.

use vstd::prelude::*;
use vstd::string::*;
use crate::json::{JsonValue};
use crate::logic_graph::{LogicGraphAsset, LogicGraphV, LogicNode, LogicNodeRole, LogicEdge, NodeV, EdgeV, nodes_view, edges_view, clone_graph};
use crate::seqs::{first_match, lemma_first_match_at, lemma_first_match_none};
use crate::text::{str_equal};
use crate::json::strs_view;
use crate::topo_order::{topological_sort, sort_outcome};
use crate::assoc::{keys_unique, has_assoc_key, assoc_map, lemma_assoc_at, lemma_assoc_update, lemma_assoc_push};

verus! {

/// A value carried by a port.
#[derive(Debug)]
pub enum PortValue {
    Bool(bool),
    /// An `f32`, by its bit pattern.
    Float(u32),
    /// A 2D vector of `f32`s, by their bit patterns.
    Vec2 { x: u32, y: u32 },
    EntityRef(String),
    Action(String),
}

/// Model of a port value.
pub enum PortValueV {
    Bool(bool),
    Float(u32),
    Vec2 { x: u32, y: u32 },
    EntityRef(Seq<char>),
    Action(Seq<char>),
}

impl PortValue {
    pub open spec fn view(&self) -> PortValueV {
        match self {
            PortValue::Bool(b) => PortValueV::Bool(*b),
            PortValue::Float(f) => PortValueV::Float(*f),
            PortValue::Vec2 { x, y } => PortValueV::Vec2 { x: *x, y: *y },
            PortValue::EntityRef(s) => PortValueV::EntityRef(s@),
            PortValue::Action(s) => PortValueV::Action(s@),
        }
    }
}

/// A copy of a port value.
pub fn clone_port_value(v: &PortValue) -> (r: PortValue)
    ensures
        r@ == v@,
{
    match v {
        PortValue::Bool(b) => PortValue::Bool(*b),
        PortValue::Float(f) => PortValue::Float(*f),
        PortValue::Vec2 { x, y } => PortValue::Vec2 { x: *x, y: *y },
        PortValue::EntityRef(s) => PortValue::EntityRef(s.clone()),
        PortValue::Action(s) => PortValue::Action(s.clone()),
    }
}

/// The models of a list of port values.
pub open spec fn pvs_view(vs: Seq<PortValue>) -> Seq<PortValueV> {
    vs.map_values(|v: PortValue| v@)
}

/// The type of a port.
#[derive(Debug, Clone, Copy, PartialEq, Eq, Structural)]
pub enum PortValueType {
    Bool,
    Float,
    Vec2,
    EntityRef,
    Action,
}

/// The name of a port type.
pub open spec fn port_type_str(t: PortValueType) -> Seq<char> {
    match t {
        PortValueType::Bool => "bool"@,
        PortValueType::Float => "float"@,
        PortValueType::Vec2 => "vec2"@,
        PortValueType::EntityRef => "entity_ref"@,
        PortValueType::Action => "action"@,
    }
}

/// The name of a port type, as used in messages.
pub fn port_type_name(t: PortValueType) -> (r: &'static str)
    ensures
        r@ == port_type_str(t),
{
    match t {
        PortValueType::Bool => "bool",
        PortValueType::Float => "float",
        PortValueType::Vec2 => "vec2",
        PortValueType::EntityRef => "entity_ref",
        PortValueType::Action => "action",
    }
}

/// An input or output port of a node type.
#[derive(Debug)]
pub struct PortSpec {
    pub port_id: String,
    pub value_type: PortValueType,
    pub display_name: String,
}

/// Model of a port spec.
pub struct PortSpecV {
    pub port_id: Seq<char>,
    pub value_type: PortValueType,
    pub display_name: Seq<char>,
}

impl PortSpec {
    pub open spec fn view(&self) -> PortSpecV {
        PortSpecV { port_id: self.port_id@, value_type: self.value_type, display_name: self.display_name@ }
    }
}

/// The models of a list of port specs.
pub open spec fn ports_view(ps: Seq<PortSpec>) -> Seq<PortSpecV> {
    ps.map_values(|p: PortSpec| p@)
}

/// The description of a node type.
#[derive(Debug)]
pub struct NodeDescriptor {
    pub node_type_id: String,
    pub role: LogicNodeRole,
    pub display_name: String,
    pub category: String,
    pub inputs: Vec<PortSpec>,
    pub outputs: Vec<PortSpec>,
}

/// Model of a node descriptor.
pub struct DescriptorV {
    pub node_type_id: Seq<char>,
    pub role: LogicNodeRole,
    pub display_name: Seq<char>,
    pub category: Seq<char>,
    pub inputs: Seq<PortSpecV>,
    pub outputs: Seq<PortSpecV>,
}

impl NodeDescriptor {
    pub open spec fn view(&self) -> DescriptorV {
        DescriptorV {
            node_type_id: self.node_type_id@,
            role: self.role,
            display_name: self.display_name@,
            category: self.category@,
            inputs: ports_view(self.inputs@),
            outputs: ports_view(self.outputs@),
        }
    }
}

/// A parameter of a node type.
#[derive(Debug)]
pub struct ParamSpec {
    pub name: String,
    pub value_type: PortValueType,
    pub default: Option<JsonValue>,
}

/// Errors of graph evaluation.
#[derive(Debug)]
pub enum LogicError {
    AssetNotFound(String),
    VersionMismatch { asset_id: String, expected: u32, actual: u32 },
    CycleDetected,
    MissingEvaluator(String),
    InvalidPort { node_id: String, port_id: String },
    NodeNotFound(String),
}

/// Model of an evaluation error.
pub enum LogicErrorV {
    AssetNotFound(Seq<char>),
    VersionMismatch { asset_id: Seq<char>, expected: u32, actual: u32 },
    CycleDetected,
    MissingEvaluator(Seq<char>),
    InvalidPort { node_id: Seq<char>, port_id: Seq<char> },
    NodeNotFound(Seq<char>),
}

impl LogicError {
    pub open spec fn view(&self) -> LogicErrorV {
        match self {
            LogicError::AssetNotFound(s) => LogicErrorV::AssetNotFound(s@),
            LogicError::VersionMismatch { asset_id, expected, actual } => LogicErrorV::VersionMismatch {
                asset_id: asset_id@,
                expected: *expected,
                actual: *actual,
            },
            LogicError::CycleDetected => LogicErrorV::CycleDetected,
            LogicError::MissingEvaluator(s) => LogicErrorV::MissingEvaluator(s@),
            LogicError::InvalidPort { node_id, port_id } => LogicErrorV::InvalidPort { node_id: node_id@, port_id: port_id@ },
            LogicError::NodeNotFound(s) => LogicErrorV::NodeNotFound(s@),
        }
    }
}

/// The built-in evaluators.
#[derive(Debug, Clone, Copy, PartialEq, Eq, Structural)]
pub enum EvaluatorKind {
    /// `controller.if`: the `then` input when the condition holds, else the `else` input.
    If,
    /// `controller.and`: the conjunction of two booleans.
    And,
    /// `sensor.always`: always `true`.
    Always,
    /// `actuator.translate`: passes its vector through.
    Translate,
}

/// The boolean carried by input `i`, or `false` when it is missing or not a boolean.
pub open spec fn bool_input(inputs: Seq<PortValueV>, i: int) -> bool {
    if 0 <= i < inputs.len() {
        match inputs[i] {
            PortValueV::Bool(b) => b,
            _ => false,
        }
    } else {
        false
    }
}

/// Input `i`, or `dflt` when it is missing.
pub open spec fn input_or(inputs: Seq<PortValueV>, i: int, dflt: PortValueV) -> PortValueV {
    if 0 <= i < inputs.len() { inputs[i] } else { dflt }
}

/// What evaluator `k` outputs for `inputs`.
pub open spec fn spec_evaluate(k: EvaluatorKind, inputs: Seq<PortValueV>) -> Seq<PortValueV> {
    match k {
        EvaluatorKind::If => seq![
            if bool_input(inputs, 0) {
                input_or(inputs, 1, PortValueV::Action(Seq::empty()))
            } else {
                input_or(inputs, 2, PortValueV::Action(Seq::empty()))
            },
        ],
        EvaluatorKind::And => seq![PortValueV::Bool(bool_input(inputs, 0) && bool_input(inputs, 1))],
        EvaluatorKind::Always => seq![PortValueV::Bool(true)],
        EvaluatorKind::Translate => seq![input_or(inputs, 0, PortValueV::Vec2 { x: 0, y: 0 })],
    }
}

/// What each built-in evaluator outputs, in terms of its inputs: always one value;
/// `controller.and` outputs `true` exactly when its first two inputs are both `true`
/// (so `false` as soon as either is `false`, missing or not a boolean); `controller.if`
/// passes its second input on when the first is `true`, else its third, an empty action
/// standing in for a missing one; `sensor.always` outputs `true`; `actuator.translate`
/// passes its first input through, or the zero vector when there is none.
pub proof fn law_builtin_evaluators(inputs: Seq<PortValueV>)
    ensures
        forall|k: EvaluatorKind| (#[trigger] spec_evaluate(k, inputs)).len() == 1,
        spec_evaluate(EvaluatorKind::And, inputs) == seq![PortValueV::Bool(true)] || spec_evaluate(EvaluatorKind::And, inputs)
            == seq![PortValueV::Bool(false)],
        (spec_evaluate(EvaluatorKind::And, inputs) == seq![PortValueV::Bool(true)]) <==> (inputs.len() >= 2 && inputs[0]
            == PortValueV::Bool(true) && inputs[1] == PortValueV::Bool(true)),
        inputs.len() >= 1 && inputs[0] == PortValueV::Bool(true) ==> spec_evaluate(EvaluatorKind::If, inputs)[0] == (
        if inputs.len() >= 2 { inputs[1] } else { PortValueV::Action(Seq::empty()) }),
        !(inputs.len() >= 1 && inputs[0] == PortValueV::Bool(true)) ==> spec_evaluate(EvaluatorKind::If, inputs)[0] == (
        if inputs.len() >= 3 { inputs[2] } else { PortValueV::Action(Seq::empty()) }),
        spec_evaluate(EvaluatorKind::Always, inputs) == seq![PortValueV::Bool(true)],
        spec_evaluate(EvaluatorKind::Translate, inputs) == seq![
            if inputs.len() >= 1 { inputs[0] } else { PortValueV::Vec2 { x: 0, y: 0 } },
        ],
{
    assert forall|k: EvaluatorKind| (#[trigger] spec_evaluate(k, inputs)).len() == 1 by {
        match k {
            EvaluatorKind::If => {},
            EvaluatorKind::And => {},
            EvaluatorKind::Always => {},
            EvaluatorKind::Translate => {},
        }
    }
    let a = bool_input(inputs, 0) && bool_input(inputs, 1);
    if a {
        assert(inputs[0] == PortValueV::Bool(true));
        assert(inputs[1] == PortValueV::Bool(true));
    }
    if spec_evaluate(EvaluatorKind::And, inputs) == seq![PortValueV::Bool(true)] {
        assert(spec_evaluate(EvaluatorKind::And, inputs)[0] == PortValueV::Bool(true));
    }
}

fn bool_input_exec(inputs: &Vec<PortValue>, i: usize) -> (r: bool)
    ensures
        r == bool_input(pvs_view(inputs@), i as int),
{
    if i < inputs.len() {
        match &inputs[i] {
            PortValue::Bool(b) => *b,
            _ => false,
        }
    } else {
        false
    }
}

fn input_or_exec(inputs: &Vec<PortValue>, i: usize, dflt: PortValue) -> (r: PortValue)
    ensures
        r@ == input_or(pvs_view(inputs@), i as int, dflt@),
{
    if i < inputs.len() {
        clone_port_value(&inputs[i])
    } else {
        dflt
    }
}

/// Evaluate the built-in evaluator `k` on `inputs`.
pub fn evaluate_builtin(k: EvaluatorKind, inputs: &Vec<PortValue>) -> (r: Vec<PortValue>)
    ensures
        pvs_view(r@) == spec_evaluate(k, pvs_view(inputs@)),
{
    let out = match k {
        EvaluatorKind::If => {
            if bool_input_exec(inputs, 0) {
                input_or_exec(inputs, 1, PortValue::Action(String::new()))
            } else {
                input_or_exec(inputs, 2, PortValue::Action(String::new()))
            }
        },
        EvaluatorKind::And => {
            let a = bool_input_exec(inputs, 0);
            let b = bool_input_exec(inputs, 1);
            PortValue::Bool(a && b)
        },
        EvaluatorKind::Always => PortValue::Bool(true),
        EvaluatorKind::Translate => input_or_exec(inputs, 0, PortValue::Vec2 { x: 0, y: 0 }),
    };
    let ghost ov = out@;
    let mut r: Vec<PortValue> = Vec::new();
    r.push(out);
    proof {
        assert(pvs_view(r@) =~= seq![ov]);
    }
    r
}

/// Models of the evaluator table.
pub open spec fn kinds_view(v: Seq<(String, EvaluatorKind)>) -> Seq<(Seq<char>, EvaluatorKind)> {
    v.map_values(|p: (String, EvaluatorKind)| (p.0@, p.1))
}

/// Models of the descriptor table, keyed by node type.
pub open spec fn descs_view(v: Seq<NodeDescriptor>) -> Seq<(Seq<char>, DescriptorV)> {
    v.map_values(|d: NodeDescriptor| (d.node_type_id@, d@))
}

/// Position of key `k` in an evaluator table.
fn find_kind_index(v: &Vec<(String, EvaluatorKind)>, k: &str) -> (r: Option<usize>)
    ensures
        match r {
            Some(i) => i < v.len() && kinds_view(v@)[i as int].0 == k@,
            None => !has_assoc_key(kinds_view(v@), k@),
        },
{
    let mut i: usize = 0;
    while i < v.len()
        invariant
            i <= v.len(),
            forall|j: int| 0 <= j < i ==> v@[j].0@ != k@,
        decreases v.len() - i,
    {
        if str_equal(v[i].0.as_str(), k) {
            return Some(i);
        }
        i += 1;
    }
    proof {
        if has_assoc_key(kinds_view(v@), k@) {
            let j = choose|j: int| 0 <= j < kinds_view(v@).len() && (#[trigger] kinds_view(v@)[j]).0 == k@;
            assert(v@[j].0@ == k@);
        }
    }
    None
}

/// Position of the descriptor of node type `k`.
fn find_descriptor_index(v: &Vec<NodeDescriptor>, k: &str) -> (r: Option<usize>)
    ensures
        match r {
            Some(i) => i < v.len() && descs_view(v@)[i as int].0 == k@,
            None => !has_assoc_key(descs_view(v@), k@),
        },
{
    let mut i: usize = 0;
    while i < v.len()
        invariant
            i <= v.len(),
            forall|j: int| 0 <= j < i ==> v@[j].node_type_id@ != k@,
        decreases v.len() - i,
    {
        if str_equal(v[i].node_type_id.as_str(), k) {
            return Some(i);
        }
        i += 1;
    }
    proof {
        if has_assoc_key(descs_view(v@), k@) {
            let j = choose|j: int| 0 <= j < descs_view(v@).len() && (#[trigger] descs_view(v@)[j]).0 == k@;
            assert(v@[j].node_type_id@ == k@);
        }
    }
    None
}

/// Set key `k` of an evaluator table to `e`.
fn put_kind(v: &mut Vec<(String, EvaluatorKind)>, k: &str, e: EvaluatorKind)
    requires
        keys_unique(kinds_view(old(v)@)),
    ensures
        keys_unique(kinds_view(final(v)@)),
        assoc_map(kinds_view(final(v)@)) == assoc_map(kinds_view(old(v)@)).insert(k@, e),
{
    let ghost s0 = kinds_view(v@);
    match find_kind_index(v, k) {
        Some(i) => {
            let key = v[i].0.clone();
            v.set(i, (key, e));
            proof {
                lemma_assoc_update(s0, i as int, e);
                assert(kinds_view(v@) =~= s0.update(i as int, (s0[i as int].0, e)));
            }
        },
        None => {
            v.push((String::from_str(k), e));
            proof {
                lemma_assoc_push(s0, k@, e);
                assert(kinds_view(v@) =~= s0.push((k@, e)));
            }
        },
    }
}

/// The node registry: the evaluator of each node type and of each controller, and the
/// descriptor of each node type.
#[derive(Debug)]
pub struct LogicNodeRegistry {
    by_node_type: Vec<(String, EvaluatorKind)>,
    by_controller_id: Vec<(String, EvaluatorKind)>,
    descriptors: Vec<NodeDescriptor>,
}

impl LogicNodeRegistry {
    /// Evaluators by node type.
    pub closed spec fn evaluators(&self) -> Map<Seq<char>, EvaluatorKind> {
        assoc_map(kinds_view(self.by_node_type@))
    }

    /// Evaluators by controller id.
    pub closed spec fn controllers(&self) -> Map<Seq<char>, EvaluatorKind> {
        assoc_map(kinds_view(self.by_controller_id@))
    }

    /// Descriptors by node type.
    pub closed spec fn descriptors(&self) -> Map<Seq<char>, DescriptorV> {
        assoc_map(descs_view(self.descriptors@))
    }

    /// The tables hold each key once.
    pub closed spec fn wf(&self) -> bool {
        &&& keys_unique(kinds_view(self.by_node_type@))
        &&& keys_unique(kinds_view(self.by_controller_id@))
        &&& keys_unique(descs_view(self.descriptors@))
    }

    /// An empty registry.
    pub fn new() -> (r: LogicNodeRegistry)
        ensures
            r.wf(),
            r.evaluators() == Map::<Seq<char>, EvaluatorKind>::empty(),
            r.controllers() == Map::<Seq<char>, EvaluatorKind>::empty(),
            r.descriptors() == Map::<Seq<char>, DescriptorV>::empty(),
    {
        let r = LogicNodeRegistry { by_node_type: Vec::new(), by_controller_id: Vec::new(), descriptors: Vec::new() };
        assert(r.evaluators() =~= Map::<Seq<char>, EvaluatorKind>::empty());
        assert(r.controllers() =~= Map::<Seq<char>, EvaluatorKind>::empty());
        assert(r.descriptors() =~= Map::<Seq<char>, DescriptorV>::empty());
        r
    }

    /// The evaluator of node type `node_type_id`.
    pub fn get_evaluator(&self, node_type_id: &str) -> (r: Option<EvaluatorKind>)
        requires
            self.wf(),
        ensures
            r == (if self.evaluators().contains_key(node_type_id@) {
                Some(self.evaluators()[node_type_id@])
            } else {
                None::<EvaluatorKind>
            }),
    {
        match find_kind_index(&self.by_node_type, node_type_id) {
            Some(i) => {
                proof {
                    lemma_assoc_at(kinds_view(self.by_node_type@), i as int);
                }
                Some(self.by_node_type[i].1)
            },
            None => None,
        }
    }

    /// The evaluator registered for controller `controller_id`.
    pub fn get_controller(&self, controller_id: &str) -> (r: Option<EvaluatorKind>)
        requires
            self.wf(),
        ensures
            r == (if self.controllers().contains_key(controller_id@) {
                Some(self.controllers()[controller_id@])
            } else {
                None::<EvaluatorKind>
            }),
    {
        match find_kind_index(&self.by_controller_id, controller_id) {
            Some(i) => {
                proof {
                    lemma_assoc_at(kinds_view(self.by_controller_id@), i as int);
                }
                Some(self.by_controller_id[i].1)
            },
            None => None,
        }
    }

    /// The descriptor of node type `node_type_id`.
    pub fn descriptor(&self, node_type_id: &str) -> (r: Option<&NodeDescriptor>)
        requires
            self.wf(),
        ensures
            match r {
                Some(d) => self.descriptors().contains_key(node_type_id@) && d@ == self.descriptors()[node_type_id@],
                None => !self.descriptors().contains_key(node_type_id@),
            },
    {
        match find_descriptor_index(&self.descriptors, node_type_id) {
            Some(i) => {
                proof {
                    lemma_assoc_at(descs_view(self.descriptors@), i as int);
                }
                Some(&self.descriptors[i])
            },
            None => None,
        }
    }

    /// Every descriptor, each node type once.
    pub fn all_descriptors(&self) -> (r: &Vec<NodeDescriptor>)
        ensures
            assoc_map(descs_view(r@)) == self.descriptors(),
    {
        &self.descriptors
    }

    /// Register `evaluator` and `descriptor` for the descriptor's node type, replacing
    /// what that type had.
    pub fn register_builtin(&mut self, evaluator: EvaluatorKind, descriptor: NodeDescriptor)
        requires
            old(self).wf(),
        ensures
            final(self).wf(),
            final(self).evaluators() == old(self).evaluators().insert(descriptor.node_type_id@, evaluator),
            final(self).descriptors() == old(self).descriptors().insert(descriptor.node_type_id@, descriptor@),
            final(self).controllers() == old(self).controllers(),
    {
        let ghost d0 = descs_view(self.descriptors@);
        let ghost dv = descriptor@;
        let ghost key = descriptor.node_type_id@;
        let node_type_id = descriptor.node_type_id.clone();
        put_kind(&mut self.by_node_type, node_type_id.as_str(), evaluator);
        match find_descriptor_index(&self.descriptors, node_type_id.as_str()) {
            Some(i) => {
                self.descriptors.set(i, descriptor);
                proof {
                    lemma_assoc_update(d0, i as int, dv);
                    assert(descs_view(self.descriptors@) =~= d0.update(i as int, (d0[i as int].0, dv)));
                }
            },
            None => {
                self.descriptors.push(descriptor);
                proof {
                    lemma_assoc_push(d0, key, dv);
                    assert(descs_view(self.descriptors@) =~= d0.push((key, dv)));
                }
            },
        }
    }

    /// Register `evaluator` for controller `controller_id`, replacing what it had.
    pub fn register_controller(&mut self, controller_id: &str, evaluator: EvaluatorKind)
        requires
            old(self).wf(),
        ensures
            final(self).wf(),
            final(self).controllers() == old(self).controllers().insert(controller_id@, evaluator),
            final(self).evaluators() == old(self).evaluators(),
            final(self).descriptors() == old(self).descriptors(),
    {
        put_kind(&mut self.by_controller_id, controller_id, evaluator);
    }
}

/// The model of a port spec.
pub open spec fn port(id: Seq<char>, t: PortValueType, name: Seq<char>) -> PortSpecV {
    PortSpecV { port_id: id, value_type: t, display_name: name }
}

/// Descriptor of `controller.if`.
pub open spec fn if_descriptor() -> DescriptorV {
    DescriptorV {
        node_type_id: "controller.if"@,
        role: LogicNodeRole::Controller,
        display_name: "If"@,
        category: "controller"@,
        inputs: seq![
            port("condition"@, PortValueType::Bool, "Condition"@),
            port("then"@, PortValueType::Action, "Then"@),
            port("else"@, PortValueType::Action, "Else"@),
        ],
        outputs: seq![port("done"@, PortValueType::Action, "Done"@)],
    }
}

/// Descriptor of `controller.and`.
pub open spec fn and_descriptor() -> DescriptorV {
    DescriptorV {
        node_type_id: "controller.and"@,
        role: LogicNodeRole::Controller,
        display_name: "And"@,
        category: "controller"@,
        inputs: seq![port("a"@, PortValueType::Bool, "A"@), port("b"@, PortValueType::Bool, "B"@)],
        outputs: seq![port("out"@, PortValueType::Bool, "Out"@)],
    }
}

/// Descriptor of `sensor.always`.
pub open spec fn always_descriptor() -> DescriptorV {
    DescriptorV {
        node_type_id: "sensor.always"@,
        role: LogicNodeRole::Sensor,
        display_name: "Always"@,
        category: "sensor"@,
        inputs: Seq::empty(),
        outputs: seq![port("tick"@, PortValueType::Bool, "Tick"@)],
    }
}

/// Descriptor of `actuator.translate`.
pub open spec fn translate_descriptor() -> DescriptorV {
    DescriptorV {
        node_type_id: "actuator.translate"@,
        role: LogicNodeRole::Actuator,
        display_name: "Translate"@,
        category: "actuator"@,
        inputs: seq![port("vector"@, PortValueType::Vec2, "Vector"@)],
        outputs: seq![port("done"@, PortValueType::Vec2, "Done"@)],
    }
}

fn make_port(id: &str, t: PortValueType, name: &str) -> (r: PortSpec)
    ensures
        r@ == port(id@, t, name@),
{
    PortSpec { port_id: String::from_str(id), value_type: t, display_name: String::from_str(name) }
}

fn make_descriptor(
    node_type_id: &str,
    role: LogicNodeRole,
    display_name: &str,
    category: &str,
    inputs: Vec<PortSpec>,
    outputs: Vec<PortSpec>,
) -> (r: NodeDescriptor)
    ensures
        r@ == (DescriptorV {
            node_type_id: node_type_id@,
            role,
            display_name: display_name@,
            category: category@,
            inputs: ports_view(inputs@),
            outputs: ports_view(outputs@),
        }),
{
    NodeDescriptor {
        node_type_id: String::from_str(node_type_id),
        role,
        display_name: String::from_str(display_name),
        category: String::from_str(category),
        inputs,
        outputs,
    }
}

/// Register the built-in evaluators with their descriptors: `controller.if`,
/// `controller.and`, `sensor.always` and `actuator.translate`.
pub fn seed_builtin_evaluators(registry: &mut LogicNodeRegistry)
    requires
        old(registry).wf(),
    ensures
        final(registry).wf(),
        final(registry).evaluators() == old(registry).evaluators().insert("controller.if"@, EvaluatorKind::If).insert(
            "controller.and"@,
            EvaluatorKind::And,
        ).insert("sensor.always"@, EvaluatorKind::Always).insert("actuator.translate"@, EvaluatorKind::Translate),
        final(registry).descriptors() == old(registry).descriptors().insert("controller.if"@, if_descriptor()).insert(
            "controller.and"@,
            and_descriptor(),
        ).insert("sensor.always"@, always_descriptor()).insert("actuator.translate"@, translate_descriptor()),
        final(registry).controllers() == old(registry).controllers(),
{
    let mut ins = Vec::new();
    ins.push(make_port("condition", PortValueType::Bool, "Condition"));
    ins.push(make_port("then", PortValueType::Action, "Then"));
    ins.push(make_port("else", PortValueType::Action, "Else"));
    let mut outs = Vec::new();
    outs.push(make_port("done", PortValueType::Action, "Done"));
    assert(ports_view(ins@) =~= if_descriptor().inputs);
    assert(ports_view(outs@) =~= if_descriptor().outputs);
    registry.register_builtin(EvaluatorKind::If, make_descriptor("controller.if", LogicNodeRole::Controller, "If", "controller", ins, outs));

    let mut ins = Vec::new();
    ins.push(make_port("a", PortValueType::Bool, "A"));
    ins.push(make_port("b", PortValueType::Bool, "B"));
    let mut outs = Vec::new();
    outs.push(make_port("out", PortValueType::Bool, "Out"));
    assert(ports_view(ins@) =~= and_descriptor().inputs);
    assert(ports_view(outs@) =~= and_descriptor().outputs);
    registry.register_builtin(EvaluatorKind::And, make_descriptor("controller.and", LogicNodeRole::Controller, "And", "controller", ins, outs));

    let ins: Vec<PortSpec> = Vec::new();
    let mut outs = Vec::new();
    outs.push(make_port("tick", PortValueType::Bool, "Tick"));
    assert(ports_view(ins@) =~= always_descriptor().inputs);
    assert(ports_view(outs@) =~= always_descriptor().outputs);
    registry.register_builtin(EvaluatorKind::Always, make_descriptor("sensor.always", LogicNodeRole::Sensor, "Always", "sensor", ins, outs));

    let mut ins = Vec::new();
    ins.push(make_port("vector", PortValueType::Vec2, "Vector"));
    let mut outs = Vec::new();
    outs.push(make_port("done", PortValueType::Vec2, "Done"));
    assert(ports_view(ins@) =~= translate_descriptor().inputs);
    assert(ports_view(outs@) =~= translate_descriptor().outputs);
    registry.register_builtin(
        EvaluatorKind::Translate,
        make_descriptor("actuator.translate", LogicNodeRole::Actuator, "Translate", "actuator", ins, outs),
    );
}

/// Registered logic graphs, by asset id.
#[derive(Debug)]
pub struct LogicGraphRegistry {
    graphs: Vec<LogicGraphAsset>,
}

/// Models of the graph table, keyed by asset id.
pub open spec fn graphs_view(v: Seq<LogicGraphAsset>) -> Seq<(Seq<char>, LogicGraphV)> {
    v.map_values(|g: LogicGraphAsset| (g.asset_id@, g@))
}

fn find_graph_index(v: &Vec<LogicGraphAsset>, k: &str) -> (r: Option<usize>)
    ensures
        match r {
            Some(i) => i < v.len() && graphs_view(v@)[i as int].0 == k@,
            None => !has_assoc_key(graphs_view(v@), k@),
        },
{
    let mut i: usize = 0;
    while i < v.len()
        invariant
            i <= v.len(),
            forall|j: int| 0 <= j < i ==> v@[j].asset_id@ != k@,
        decreases v.len() - i,
    {
        if str_equal(v[i].asset_id.as_str(), k) {
            return Some(i);
        }
        i += 1;
    }
    proof {
        if has_assoc_key(graphs_view(v@), k@) {
            let j = choose|j: int| 0 <= j < graphs_view(v@).len() && (#[trigger] graphs_view(v@)[j]).0 == k@;
            assert(v@[j].asset_id@ == k@);
        }
    }
    None
}

impl LogicGraphRegistry {
    /// The registered graphs by asset id.
    pub closed spec fn graphs(&self) -> Map<Seq<char>, LogicGraphV> {
        assoc_map(graphs_view(self.graphs@))
    }

    /// Each asset id is held once.
    pub closed spec fn wf(&self) -> bool {
        keys_unique(graphs_view(self.graphs@))
    }

    /// An empty registry.
    pub fn new() -> (r: LogicGraphRegistry)
        ensures
            r.wf(),
            r.graphs() == Map::<Seq<char>, LogicGraphV>::empty(),
    {
        let r = LogicGraphRegistry { graphs: Vec::new() };
        assert(r.graphs() =~= Map::<Seq<char>, LogicGraphV>::empty());
        r
    }
}

/// Register `asset` under its asset id, replacing any graph registered there.
pub fn register_logic_graph(registry: &mut LogicGraphRegistry, asset: LogicGraphAsset)
    requires
        old(registry).wf(),
    ensures
        final(registry).wf(),
        final(registry).graphs() == old(registry).graphs().insert(asset.asset_id@, asset@),
{
    let ghost g0 = graphs_view(registry.graphs@);
    let ghost key = asset.asset_id@;
    let ghost av = asset@;
    match find_graph_index(&registry.graphs, asset.asset_id.as_str()) {
        Some(i) => {
            registry.graphs.set(i, asset);
            proof {
                lemma_assoc_update(g0, i as int, av);
                assert(graphs_view(registry.graphs@) =~= g0.update(i as int, (g0[i as int].0, av)));
            }
        },
        None => {
            registry.graphs.push(asset);
            proof {
                lemma_assoc_push(g0, key, av);
                assert(graphs_view(registry.graphs@) =~= g0.push((key, av)));
            }
        },
    }
}

/// A copy of the graph registered under `asset_id`.
pub fn get_logic_graph_asset(registry: &LogicGraphRegistry, asset_id: &str) -> (r: Option<LogicGraphAsset>)
    requires
        registry.wf(),
    ensures
        match r {
            Some(g) => registry.graphs().contains_key(asset_id@) && g@ == registry.graphs()[asset_id@],
            None => !registry.graphs().contains_key(asset_id@),
        },
{
    match find_graph_index(&registry.graphs, asset_id) {
        Some(i) => {
            proof {
                lemma_assoc_at(graphs_view(registry.graphs@), i as int);
            }
            Some(clone_graph(&registry.graphs[i]))
        },
        None => None,
    }
}

/// An output of an actuator node: the value to write into a field of an entity.
#[derive(Debug)]
pub struct ActuatorOutput {
    /// The entity, as the bits of its id.
    pub entity_bits: u64,
    pub field: String,
    pub value: PortValue,
}

/// Model of an actuator output.
pub struct ActuatorOutputV {
    pub entity_bits: u64,
    pub field: Seq<char>,
    pub value: PortValueV,
}

impl ActuatorOutput {
    pub open spec fn view(&self) -> ActuatorOutputV {
        ActuatorOutputV { entity_bits: self.entity_bits, field: self.field@, value: self.value@ }
    }
}

/// The component field an actuator of type `t` writes: translation, rotation, scale or
/// color for the matching built-in actuators, else the type id itself.
pub open spec fn actuator_field(t: Seq<char>) -> Seq<char> {
    if t == "actuator.translate"@ {
        "translation"@
    } else if t == "actuator.rotate"@ {
        "rotation"@
    } else if t == "actuator.scale"@ {
        "scale"@
    } else if t == "actuator.set_color"@ {
        "color"@
    } else {
        t
    }
}

fn actuator_field_exec(t: &str) -> (r: String)
    ensures
        r@ == actuator_field(t@),
{
    if str_equal(t, "actuator.translate") {
        String::from_str("translation")
    } else if str_equal(t, "actuator.rotate") {
        String::from_str("rotation")
    } else if str_equal(t, "actuator.scale") {
        String::from_str("scale")
    } else if str_equal(t, "actuator.set_color") {
        String::from_str("color")
    } else {
        String::from_str(t)
    }
}

/// A port value produced during a run, under the node and port that produced it.
#[derive(Debug)]
struct PortSlot {
    node: String,
    port: String,
    value: PortValue,
}

/// Models of the produced port values.
spec fn slots_view(v: Seq<PortSlot>) -> Seq<((Seq<char>, Seq<char>), PortValueV)> {
    v.map_values(|p: PortSlot| ((p.node@, p.port@), p.value@))
}

/// Predicate "this slot is for port `p` of node `n`".
pub open spec fn slot_is(n: Seq<char>, p: Seq<char>) -> spec_fn(((Seq<char>, Seq<char>), PortValueV)) -> bool {
    |s: ((Seq<char>, Seq<char>), PortValueV)| s.0.0 == n && s.0.1 == p
}

/// The value produced on port `p` of node `n`, if any.
pub open spec fn pv_lookup(pvs: Seq<((Seq<char>, Seq<char>), PortValueV)>, n: Seq<char>, p: Seq<char>) -> Option<PortValueV> {
    let i = first_match(pvs, slot_is(n, p));
    if 0 <= i < pvs.len() { Some(pvs[i].1) } else { None }
}

/// `pvs` with port `p` of node `n` now holding `v`.
pub open spec fn pv_store(pvs: Seq<((Seq<char>, Seq<char>), PortValueV)>, n: Seq<char>, p: Seq<char>, v: PortValueV) -> Seq<((Seq<char>, Seq<char>), PortValueV)> {
    let i = first_match(pvs, slot_is(n, p));
    if 0 <= i < pvs.len() { pvs.update(i, ((n, p), v)) } else { pvs.push(((n, p), v)) }
}

/// The inputs of node `id`: for each of the first `k` edges into it, in order, the value
/// produced on the edge's source port, or an empty action when none was.
pub open spec fn gathered(pvs: Seq<((Seq<char>, Seq<char>), PortValueV)>, id: Seq<char>, es: Seq<EdgeV>, k: int) -> Seq<PortValueV>
    decreases k,
{
    if k <= 0 || k > es.len() {
        Seq::empty()
    } else {
        let prev = gathered(pvs, id, es, k - 1);
        let e = es[k - 1];
        if e.to_node == id {
            prev.push(
                match pv_lookup(pvs, e.from_node, e.from_port) {
                    Some(v) => v,
                    None => PortValueV::Action(Seq::empty()),
                },
            )
        } else {
            prev
        }
    }
}

/// How many of the first `k` edges leave node `id`.
pub open spec fn outgoing_count(id: Seq<char>, es: Seq<EdgeV>, k: int) -> nat
    decreases k,
{
    if k <= 0 || k > es.len() {
        0
    } else {
        outgoing_count(id, es, k - 1) + (if es[k - 1].from_node == id { 1nat } else { 0nat })
    }
}

/// The produced values after node `id` output `outs`: the `i`-th edge leaving the node
/// carries `outs[i]` on its source port, for the first `k` edges.
pub open spec fn stored(
    pvs: Seq<((Seq<char>, Seq<char>), PortValueV)>,
    id: Seq<char>,
    es: Seq<EdgeV>,
    outs: Seq<PortValueV>,
    k: int,
) -> Seq<((Seq<char>, Seq<char>), PortValueV)>
    decreases k,
{
    if k <= 0 || k > es.len() {
        pvs
    } else {
        let p = stored(pvs, id, es, outs, k - 1);
        let e = es[k - 1];
        let i = outgoing_count(id, es, k - 1);
        if e.from_node == id && i < outs.len() {
            pv_store(p, e.from_node, e.from_port, outs[i as int])
        } else {
            p
        }
    }
}

/// Position of the last node with id `id`, or -1.
pub open spec fn last_node(ns: Seq<NodeV>, id: Seq<char>, k: int) -> int
    decreases k,
{
    if k <= 0 || k > ns.len() {
        -1
    } else if ns[k - 1].node_id == id {
        k - 1
    } else {
        last_node(ns, id, k - 1)
    }
}

/// The actuator outputs for values `outs` of an actuator of type `t` on entity `bits`.
pub open spec fn outputs_of(bits: u64, t: Seq<char>, outs: Seq<PortValueV>) -> Seq<ActuatorOutputV> {
    outs.map_values(|v: PortValueV| ActuatorOutputV { entity_bits: bits, field: actuator_field(t), value: v })
}

/// Running the nodes `order[k..]` of graph `g` with evaluators `evs`, after the values
/// `pvs` were produced and the outputs `acc` collected.
pub open spec fn run_nodes(
    g: LogicGraphV,
    order: Seq<Seq<char>>,
    evs: Map<Seq<char>, EvaluatorKind>,
    bits: u64,
    k: int,
    pvs: Seq<((Seq<char>, Seq<char>), PortValueV)>,
    acc: Seq<ActuatorOutputV>,
) -> Result<Seq<ActuatorOutputV>, LogicErrorV>
    decreases order.len() - k,
{
    if k < 0 || k >= order.len() {
        Ok(acc)
    } else {
        let i = last_node(g.nodes, order[k], g.nodes.len() as int);
        if i < 0 {
            Err(LogicErrorV::NodeNotFound(order[k]))
        } else {
            let n = g.nodes[i];
            if !evs.contains_key(n.node_type_id) {
                Err(LogicErrorV::MissingEvaluator(n.node_type_id))
            } else {
                let outs = spec_evaluate(evs[n.node_type_id], gathered(pvs, n.node_id, g.edges, g.edges.len() as int));
                let pvs2 = stored(pvs, n.node_id, g.edges, outs, g.edges.len() as int);
                let acc2 = if n.role == LogicNodeRole::Actuator { acc + outputs_of(bits, n.node_type_id, outs) } else { acc };
                run_nodes(g, order, evs, bits, k + 1, pvs2, acc2)
            }
        }
    }
}

fn pv_find(pvs: &Vec<PortSlot>, n: &str, p: &str) -> (r: Option<usize>)
    ensures
        match r {
            Some(i) => first_match(slots_view(pvs@), slot_is(n@, p@)) == i && i < pvs.len(),
            None => first_match(slots_view(pvs@), slot_is(n@, p@)) == -1,
        },
{
    let ghost sv = slots_view(pvs@);
    let mut i: usize = 0;
    while i < pvs.len()
        invariant
            sv == slots_view(pvs@),
            i <= pvs.len(),
            forall|j: int| 0 <= j < i ==> !slot_is(n@, p@)(#[trigger] sv[j]),
        decreases pvs.len() - i,
    {
        if str_equal(pvs[i].node.as_str(), n) && str_equal(pvs[i].port.as_str(), p) {
            proof {
                lemma_first_match_at(sv, slot_is(n@, p@), i as int);
            }
            return Some(i);
        }
        i += 1;
    }
    proof {
        lemma_first_match_none(sv, slot_is(n@, p@));
    }
    None
}

fn pv_store_exec(pvs: &mut Vec<PortSlot>, n: &str, p: &str, v: PortValue)
    ensures
        slots_view(final(pvs)@) == pv_store(slots_view(old(pvs)@), n@, p@, v@),
{
    let ghost s0 = slots_view(pvs@);
    let ghost vv = v@;
    match pv_find(pvs, n, p) {
        Some(i) => {
            pvs.set(i, PortSlot { node: String::from_str(n), port: String::from_str(p), value: v });
            assert(slots_view(pvs@) =~= s0.update(i as int, ((n@, p@), vv)));
        },
        None => {
            pvs.push(PortSlot { node: String::from_str(n), port: String::from_str(p), value: v });
            assert(slots_view(pvs@) =~= s0.push(((n@, p@), vv)));
        },
    }
}

/// The inputs of `node`: for each edge into it, in edge order, the value produced on
/// the edge's source port, or an empty action when none was.
fn gather_input_values(node: &LogicNode, edges: &Vec<LogicEdge>, port_values: &Vec<PortSlot>) -> (r: Vec<PortValue>)
    ensures
        pvs_view(r@) == gathered(slots_view(port_values@), node.node_id@, edges_view(edges@), edges@.len() as int),
{
    let ghost es = edges_view(edges@);
    let ghost pv = slots_view(port_values@);
    let mut inputs: Vec<PortValue> = Vec::new();
    let mut j: usize = 0;
    while j < edges.len()
        invariant
            es == edges_view(edges@),
            pv == slots_view(port_values@),
            j <= edges.len(),
            pvs_view(inputs@) == gathered(pv, node.node_id@, es, j as int),
        decreases edges.len() - j,
    {
        let e = &edges[j];
        assert(e@ == es[j as int]);
        let ghost prev = pvs_view(inputs@);
        if str_equal(e.to_node.as_str(), node.node_id.as_str()) {
            let v = match pv_find(port_values, e.from_node.as_str(), e.from_port.as_str()) {
                Some(i) => clone_port_value(&port_values[i].value),
                None => PortValue::Action(String::new()),
            };
            let ghost vv = v@;
            inputs.push(v);
            assert(pvs_view(inputs@) =~= prev.push(vv));
        }
        j += 1;
    }
    inputs
}

/// Record the outputs of `node`: the `i`-th edge leaving it carries `outputs[i]` on its
/// source port.
fn store_output_values(node: &LogicNode, outputs: &Vec<PortValue>, edges: &Vec<LogicEdge>, port_values: &mut Vec<PortSlot>)
    ensures
        slots_view(final(port_values)@) == stored(
            slots_view(old(port_values)@),
            node.node_id@,
            edges_view(edges@),
            pvs_view(outputs@),
            edges@.len() as int,
        ),
{
    let ghost es = edges_view(edges@);
    let ghost pv0 = slots_view(port_values@);
    let ghost outs = pvs_view(outputs@);
    let mut i: usize = 0;
    let mut j: usize = 0;
    while j < edges.len()
        invariant
            es == edges_view(edges@),
            outs == pvs_view(outputs@),
            pv0 == slots_view(old(port_values)@),
            j <= edges.len(),
            i == outgoing_count(node.node_id@, es, j as int),
            i <= j,
            slots_view(port_values@) == stored(pv0, node.node_id@, es, outs, j as int),
        decreases edges.len() - j,
    {
        let e = &edges[j];
        assert(e@ == es[j as int]);
        if str_equal(e.from_node.as_str(), node.node_id.as_str()) {
            if i < outputs.len() {
                pv_store_exec(port_values, e.from_node.as_str(), e.from_port.as_str(), clone_port_value(&outputs[i]));
            }
            i += 1;
        }
        j += 1;
    }
}

fn last_node_index(ns: &Vec<LogicNode>, id: &str) -> (r: Option<usize>)
    ensures
        match r {
            Some(i) => last_node(nodes_view(ns@), id@, ns@.len() as int) == i && i < ns.len(),
            None => last_node(nodes_view(ns@), id@, ns@.len() as int) == -1,
        },
{
    let ghost nv = nodes_view(ns@);
    let mut found: Option<usize> = None;
    let mut k: usize = 0;
    while k < ns.len()
        invariant
            nv == nodes_view(ns@),
            k <= ns.len(),
            match found {
                Some(i) => last_node(nv, id@, k as int) == i && i < k,
                None => last_node(nv, id@, k as int) == -1,
            },
        decreases ns.len() - k,
    {
        if str_equal(ns[k].node_id.as_str(), id) {
            found = Some(k);
        }
        k += 1;
    }
    found
}

/// The models of a list of actuator outputs.
pub open spec fn outs_view(v: Seq<ActuatorOutput>) -> Seq<ActuatorOutputV> {
    v.map_values(|o: ActuatorOutput| o@)
}

/// The view of an evaluation result.
pub open spec fn eval_res_view(r: Result<Vec<ActuatorOutput>, LogicError>) -> Result<Seq<ActuatorOutputV>, LogicErrorV> {
    match r {
        Ok(v) => Ok(outs_view(v@)),
        Err(e) => Err(e@),
    }
}

/// Evaluate the nodes of `asset` in the given order and collect the outputs of its
/// actuators for entity `entity_bits`.
pub fn evaluate_nodes_in_order(asset: &LogicGraphAsset, order: &Vec<String>, registry: &LogicNodeRegistry, entity_bits: u64) -> (r: Result<Vec<ActuatorOutput>, LogicError>)
    requires
        registry.wf(),
    ensures
        eval_res_view(r) == run_nodes(asset@, strs_view(order@), registry.evaluators(), entity_bits, 0, Seq::empty(), Seq::empty()),
{
    let ghost g = asset@;
    let ghost ord = strs_view(order@);
    let ghost evs = registry.evaluators();
    let mut port_values: Vec<PortSlot> = Vec::new();
    let mut outputs: Vec<ActuatorOutput> = Vec::new();
    let mut k: usize = 0;
    assert(slots_view(port_values@) =~= Seq::<((Seq<char>, Seq<char>), PortValueV)>::empty());
    assert(outs_view(outputs@) =~= Seq::<ActuatorOutputV>::empty());
    while k < order.len()
        invariant
            g == asset@,
            ord == strs_view(order@),
            evs == registry.evaluators(),
            registry.wf(),
            k <= order.len(),
            run_nodes(g, ord, evs, entity_bits, 0, Seq::empty(), Seq::empty()) == run_nodes(
                g,
                ord,
                evs,
                entity_bits,
                k as int,
                slots_view(port_values@),
                outs_view(outputs@),
            ),
        decreases order.len() - k,
    {
        assert(ord[k as int] == order@[k as int]@);
        let i = match last_node_index(&asset.nodes, order[k].as_str()) {
            Some(i) => i,
            None => {
                return Err(LogicError::NodeNotFound(order[k].clone()));
            },
        };
        let node = &asset.nodes[i];
        assert(node@ == g.nodes[i as int]);
        let inputs = gather_input_values(node, &asset.edges, &port_values);
        let kind = match registry.get_evaluator(node.node_type_id.as_str()) {
            Some(kind) => kind,
            None => {
                return Err(LogicError::MissingEvaluator(node.node_type_id.clone()));
            },
        };
        let outs = evaluate_builtin(kind, &inputs);
        store_output_values(node, &outs, &asset.edges, &mut port_values);
        if node.role == LogicNodeRole::Actuator {
            let ghost acc0 = outs_view(outputs@);
            let mut q: usize = 0;
            while q < outs.len()
                invariant
                    q <= outs.len(),
                    outs_view(outputs@) == acc0 + outputs_of(entity_bits, node.node_type_id@, pvs_view(outs@)).subrange(0, q as int),
                decreases outs.len() - q,
            {
                let ghost before = outs_view(outputs@);
                let field = actuator_field_exec(node.node_type_id.as_str());
                outputs.push(ActuatorOutput { entity_bits, field, value: clone_port_value(&outs[q]) });
                proof {
                    let full = outputs_of(entity_bits, node.node_type_id@, pvs_view(outs@));
                    assert(full.subrange(0, q + 1) =~= full.subrange(0, q as int).push(full[q as int]));
                    assert(outs_view(outputs@) =~= before.push(full[q as int]));
                }
                q += 1;
            }
            proof {
                let full = outputs_of(entity_bits, node.node_type_id@, pvs_view(outs@));
                assert(full.subrange(0, outs.len() as int) =~= full);
            }
        }
        k += 1;
    }
    Ok(outputs)
}

/// Evaluate the logic graph registered under `asset_id` for entity `entity_bits`: its
/// version must be `version`, its nodes must have an execution order, and each node in
/// that order must have an evaluator. Returns the outputs of its actuators.
pub fn evaluate_logic_binding(
    graphs: &LogicGraphRegistry,
    registry: &LogicNodeRegistry,
    asset_id: &str,
    version: u32,
    entity_bits: u64,
) -> (r: Result<Vec<ActuatorOutput>, LogicError>)
    requires
        graphs.wf(),
        registry.wf(),
    ensures
        !graphs.graphs().contains_key(asset_id@) ==> eval_res_view(r) == Err::<Seq<ActuatorOutputV>, LogicErrorV>(
            LogicErrorV::AssetNotFound(asset_id@),
        ),
        graphs.graphs().contains_key(asset_id@) ==> {
            let g = graphs.graphs()[asset_id@];
            if g.version != version {
                eval_res_view(r) == Err::<Seq<ActuatorOutputV>, LogicErrorV>(
                    LogicErrorV::VersionMismatch { asset_id: asset_id@, expected: version, actual: g.version },
                )
            } else {
                ||| (sort_outcome(g.nodes, g.edges, None) && eval_res_view(r) == Err::<Seq<ActuatorOutputV>, LogicErrorV>(
                    LogicErrorV::CycleDetected,
                ))
                ||| exists|o: Seq<Seq<char>>|
                    sort_outcome(g.nodes, g.edges, Some(o)) && eval_res_view(r) == run_nodes(
                        g,
                        o,
                        registry.evaluators(),
                        entity_bits,
                        0,
                        Seq::empty(),
                        Seq::empty(),
                    )
            }
        },
{
    let asset = match get_logic_graph_asset(graphs, asset_id) {
        Some(a) => a,
        None => {
            return Err(LogicError::AssetNotFound(String::from_str(asset_id)));
        },
    };
    if asset.version != version {
        return Err(LogicError::VersionMismatch { asset_id: String::from_str(asset_id), expected: version, actual: asset.version });
    }
    let order = match topological_sort(asset.nodes.as_slice(), asset.edges.as_slice()) {
        Some(o) => o,
        None => {
            return Err(LogicError::CycleDetected);
        },
    };
    evaluate_nodes_in_order(&asset, &order, registry, entity_bits)
}

impl Default for LogicNodeRegistry {
    /// An empty registry, as `new` makes it.
    fn default() -> (r: LogicNodeRegistry)
        ensures
            r.wf(),
            r.evaluators() == Map::<Seq<char>, EvaluatorKind>::empty(),
            r.controllers() == Map::<Seq<char>, EvaluatorKind>::empty(),
            r.descriptors() == Map::<Seq<char>, DescriptorV>::empty(),
    {
        LogicNodeRegistry::new()
    }
}

} // verus!
