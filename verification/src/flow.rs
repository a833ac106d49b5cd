//! Value-flow verification for parameter markers.
//!
//! Every function output slot is related to the function's parameters by a
//! provenance: it is provably the very same version of one parameter, or a
//! part taken out of such a version, or nothing is proven. Builtins declare
//! their provenance axiomatically (finite arithmetic returns its operands
//! unchanged, `FiniteNext` returns a changed value, `dup` propagates the
//! source version to both copies). Taking a parameter apart yields its parts
//! (a projected field and its residual, the components of a split, the
//! payload a match arm binds), and putting exactly those parts back together
//! at the parameter's own type (an insertion at the same field, a product of
//! all the components in order, an injection at the same variant) yields the
//! same version of the parameter again, so take-apart/put-back round trips
//! are recognised as identity. Function summaries are inferred over the call
//! graph by iterating to a fixpoint, so recursion and mutual recursion
//! converge.
//!
//! Frontend flow markers are contracts against these summaries:
//!
//! - an unmarked (borrowed) parameter must be provably returned as the same
//!   version in its hidden output slot;
//! - a `mut` parameter whose slot is provably the same version is reported as
//!   actually being a borrow;
//! - a `take` parameter that provably reappears unchanged in an output is
//!   reported as moved through rather than consumed.

use std::collections::HashMap;

use vstd::prelude::*;
use vstd::std_specs::hash::obeys_key_model;

use crate::id::{FunctionId, TypeId, ValueId};
use crate::ir::{BuiltinOp, CoreProgram, Expr, Function, MatchArm, Param, Statement};

verus! {

broadcast use vstd::std_specs::hash::group_hash_axioms;

/// How a value relates to the enclosing function's parameters.
#[derive(Clone, Copy, Debug, PartialEq, Eq, Structural)]
pub enum Provenance {
    /// Unconstrained fixpoint start. Survives only on paths with no
    /// terminating definition (e.g. bare infinite recursion), where any
    /// contract holds vacuously.
    Top,
    /// Provably the same version of parameter `index`.
    Param(usize),
    /// Field `field` taken out of the same version of parameter `param`.
    Field { param: usize, field: usize },
    /// What remains of the same version of parameter `param` once its field
    /// `field` is taken out.
    Residual { param: usize, field: usize },
    /// Component `index` of the `count` components the same version of
    /// parameter `param` was split into.
    Part { param: usize, index: usize, count: usize },
    /// The payload of variant `variant` matched out of the same version of
    /// parameter `param`.
    Payload { param: usize, variant: usize },
    /// No proven relationship to any parameter.
    Other,
}

/// The meet of two provenances: `Top` is neutral, equal provenances agree,
/// anything else is `Other`.
pub open spec fn spec_meet(a: Provenance, b: Provenance) -> Provenance {
    match (a, b) {
        (Provenance::Top, p) => p,
        (p, Provenance::Top) => p,
        _ => if a == b {
            a
        } else {
            Provenance::Other
        },
    }
}

impl Provenance {
    fn meet(self, other: Self) -> (r: Self)
        ensures
            r == spec_meet(self, other),
    {
        match (self, other) {
            (Provenance::Top, p) => p,
            (p, Provenance::Top) => p,
            _ => if self == other {
                self
            } else {
                Provenance::Other
            },
        }
    }
}

/// Inferred provenance of each core output slot of one function.
#[derive(Clone, Debug, PartialEq, Eq)]
pub struct FunctionFlow {
    pub outputs: Vec<Provenance>,
}

/// The declared contract of one frontend parameter.
#[derive(Clone, Copy, Debug, PartialEq, Eq, Structural)]
pub enum ParamContract {
    /// Unmarked: returned unchanged, same version.
    Borrowed,
    /// `mut`: returned changed.
    Updated,
    /// `take`: consumed, no output slot.
    Consumed,
}

#[derive(Clone, Debug, PartialEq, Eq)]
pub enum FlowViolation {
    /// An unmarked parameter's output slot is not provably the same version
    /// of that parameter.
    BorrowNotProven { function: String, param: String },
    /// A `mut` parameter's output slot is provably the same version of that
    /// parameter on every path, so the marker overstates what happens.
    MutIsBorrow { function: String, param: String },
    /// A `take` parameter provably escapes unchanged into some output slot on
    /// every path, so it is really moved through, not consumed.
    TakeIsBorrow { function: String, param: String },
}

/// The model of a [`FlowViolation`], names as character sequences.
pub enum FlowViolationView {
    BorrowNotProven { function: Seq<char>, param: Seq<char> },
    MutIsBorrow { function: Seq<char>, param: Seq<char> },
    TakeIsBorrow { function: Seq<char>, param: Seq<char> },
}

impl View for FlowViolation {
    type V = FlowViolationView;

    open spec fn view(&self) -> FlowViolationView {
        match *self {
            FlowViolation::BorrowNotProven { function, param } => FlowViolationView::BorrowNotProven {
                function: function@,
                param: param@,
            },
            FlowViolation::MutIsBorrow { function, param } => FlowViolationView::MutIsBorrow {
                function: function@,
                param: param@,
            },
            FlowViolation::TakeIsBorrow { function, param } => FlowViolationView::TakeIsBorrow {
                function: function@,
                param: param@,
            },
        }
    }
}

// ---------------------------------------------------------------------------
// The analysis, stated
// ---------------------------------------------------------------------------

/// The provenance recorded for `id`, `Other` when there is none.
pub open spec fn lookup_prov(env: Map<u32, Provenance>, id: ValueId) -> Provenance {
    if env.contains_key(id.0) {
        env[id.0]
    } else {
        Provenance::Other
    }
}

/// Slot `i` of `ps`, `Other` past its end.
pub open spec fn prov_at(ps: Seq<Provenance>, i: int) -> Provenance {
    if 0 <= i < ps.len() {
        ps[i]
    } else {
        Provenance::Other
    }
}

pub open spec fn others(n: nat) -> Seq<Provenance> {
    Seq::new(n, |i: int| Provenance::Other)
}

/// The provenance of argument `index` of a call, `Other` past the end.
pub open spec fn arg_prov(env: Map<u32, Provenance>, args: Seq<ValueId>, index: int) -> Provenance {
    if 0 <= index < args.len() {
        lookup_prov(env, args[index])
    } else {
        Provenance::Other
    }
}

/// A callee's summary slot seen at a call site: a parameter becomes the
/// provenance of its argument, and a part of a parameter stays that part of
/// whatever parameter the argument is.
pub open spec fn substitute_slot(slot: Provenance, env: Map<u32, Provenance>, args: Seq<ValueId>) -> Provenance {
    match slot {
        Provenance::Top => Provenance::Top,
        Provenance::Param(i) => arg_prov(env, args, i as int),
        Provenance::Field { param, field } => match arg_prov(env, args, param as int) {
            Provenance::Param(j) => Provenance::Field { param: j, field },
            _ => Provenance::Other,
        },
        Provenance::Residual { param, field } => match arg_prov(env, args, param as int) {
            Provenance::Param(j) => Provenance::Residual { param: j, field },
            _ => Provenance::Other,
        },
        Provenance::Part { param, index, count } => match arg_prov(env, args, param as int) {
            Provenance::Param(j) => Provenance::Part { param: j, index, count },
            _ => Provenance::Other,
        },
        Provenance::Payload { param, variant } => match arg_prov(env, args, param as int) {
            Provenance::Param(j) => Provenance::Payload { param: j, variant },
            _ => Provenance::Other,
        },
        Provenance::Other => Provenance::Other,
    }
}

/// Parameter `i` has type `ty`.
pub open spec fn param_has_type(inputs: Seq<Param>, i: usize, ty: TypeId) -> bool {
    i < inputs.len() && inputs[i as int].ty == ty
}

/// The parameter that a product rebuilds: every field is, in order, the
/// component split out of the same version of one parameter, all of them,
/// and the rebuilt type is that parameter's type.
pub open spec fn build_source(inputs: Seq<Param>, env: Map<u32, Provenance>, ty: TypeId, fields: Seq<ValueId>) -> Option<
    usize,
> {
    if fields.len() > 0 && lookup_prov(env, fields[0]) is Part {
        let i = lookup_prov(env, fields[0])->Part_param;
        if param_has_type(inputs, i, ty) && forall|k: int|
            0 <= k < fields.len() ==> lookup_prov(env, #[trigger] fields[k]) == (Provenance::Part {
                param: i,
                index: k as usize,
                count: fields.len() as usize,
            }) {
            Some(i)
        } else {
            None
        }
    } else {
        None
    }
}

/// The parameter that an injection rebuilds: the payload was matched out of
/// the same version of one parameter at the same variant, and the rebuilt
/// type is that parameter's type.
pub open spec fn inject_source(inputs: Seq<Param>, env: Map<u32, Provenance>, ty: TypeId, variant: usize, payload: ValueId) -> Option<
    usize,
> {
    match lookup_prov(env, payload) {
        Provenance::Payload { param: i, variant: v } => if v == variant && param_has_type(inputs, i, ty) {
            Some(i)
        } else {
            None
        },
        _ => None,
    }
}

/// The components a split of a value of provenance `p` yields.
pub open spec fn split_parts(p: Provenance, count: nat) -> Seq<Provenance> {
    match p {
        Provenance::Param(i) => Seq::new(
            count,
            |k: int| Provenance::Part { param: i, index: k as usize, count: count as usize },
        ),
        _ => others(count),
    }
}

/// The payload an arm for `variant` binds when matching a value of
/// provenance `p`.
pub open spec fn payload_prov(p: Provenance, variant: usize) -> Provenance {
    match p {
        Provenance::Param(i) => Provenance::Payload { param: i, variant },
        _ => Provenance::Other,
    }
}

/// The parameter that an insertion rebuilds: the inserted field and the
/// residual were taken out of the same version of one parameter at the same
/// field, and the rebuilt type is that parameter's type.
pub open spec fn plug_source(
    inputs: Seq<Param>,
    env: Map<u32, Provenance>,
    ty: TypeId,
    field: usize,
    field_value: ValueId,
    residual: ValueId,
) -> Option<usize> {
    match (lookup_prov(env, field_value), lookup_prov(env, residual)) {
        (Provenance::Field { param: i, field: f }, Provenance::Residual { param: j, field: g }) => if i == j && f
            == field && g == field && i < inputs.len() && inputs[i as int].ty == ty {
            Some(i)
        } else {
            None
        },
        _ => None,
    }
}

/// A call's results: the callee's summary with each parameter slot replaced
/// by the provenance of the corresponding argument.
pub open spec fn spec_call_flow(
    flows: Seq<Seq<Provenance>>,
    function: FunctionId,
    args: Seq<ValueId>,
    env: Map<u32, Provenance>,
    result_count: nat,
) -> Seq<Provenance> {
    if function.0 < flows.len() {
        flows[function.0 as int].map_values(|slot: Provenance| substitute_slot(slot, env, args))
    } else {
        others(result_count)
    }
}

pub open spec fn spec_builtin_flow(op: BuiltinOp, args: Seq<ValueId>, env: Map<u32, Provenance>) -> Seq<Provenance> {
    match op {
        BuiltinOp::FiniteNext { .. } => seq![Provenance::Other],
        _ => seq![arg_prov(env, args, 0), arg_prov(env, args, 1), Provenance::Other],
    }
}

/// Records `ids[from..]` with the provenances `res[from..]`, in order.
pub open spec fn record_results(env: Map<u32, Provenance>, ids: Seq<ValueId>, res: Seq<Provenance>, from: int) -> Map<u32, Provenance>
    decreases ids.len() - from,
{
    if from < 0 || from >= ids.len() {
        env
    } else {
        record_results(env.insert(ids[from].0, prov_at(res, from)), ids, res, from + 1)
    }
}

/// Records each input as the same version of its parameter.
pub open spec fn record_params(env: Map<u32, Provenance>, inputs: Seq<Param>, from: int) -> Map<u32, Provenance>
    decreases inputs.len() - from,
{
    if from < 0 || from >= inputs.len() {
        env
    } else {
        record_params(env.insert(inputs[from].id.0, Provenance::Param(from as usize)), inputs, from + 1)
    }
}

/// The slotwise meet of two arms' results, over the first one's length.
pub open spec fn join_results(previous: Seq<Provenance>, returned: Seq<Provenance>) -> Seq<Provenance> {
    Seq::new(previous.len(), |i: int| spec_meet(previous[i], prov_at(returned, i)))
}

/// The provenances of the results of `expr`.
pub open spec fn sp_analyze_expr(
    flows: Seq<Seq<Provenance>>,
    inputs: Seq<Param>,
    env: Map<u32, Provenance>,
    expr: Expr,
    result_count: nat,
) -> Seq<Provenance>
    decreases expr, 0int,
{
    match expr {
        Expr::Dup { value } => seq![lookup_prov(env, value), lookup_prov(env, value)],
        Expr::Zap { .. } => Seq::empty(),
        Expr::Call { function, args } => spec_call_flow(flows, function, args@, env, result_count),
        Expr::Builtin { op, args } => spec_builtin_flow(op, args@, env),
        Expr::Match { scrutinee, arms } => match sp_analyze_arms(
            flows,
            inputs,
            env,
            lookup_prov(env, scrutinee),
            arms@,
            0,
            None,
        ) {
            Some(joined) => joined,
            None => others(result_count),
        },
        Expr::SplitProduct { value } => split_parts(lookup_prov(env, value), result_count),
        Expr::Product { ty, fields } => match build_source(inputs, env, ty, fields@) {
            Some(i) => seq![Provenance::Param(i)],
            None => others(result_count),
        },
        Expr::SumInject { ty, variant, payload } => match inject_source(inputs, env, ty, variant, payload) {
            Some(i) => seq![Provenance::Param(i)],
            None => others(result_count),
        },
        Expr::ProjectProduct { value, field, .. } => match lookup_prov(env, value) {
            Provenance::Param(i) => seq![Provenance::Field { param: i, field }, Provenance::Residual { param: i, field }],
            _ => others(result_count),
        },
        Expr::InsertProductField { ty, field, field_value, residual } => match plug_source(
            inputs,
            env,
            ty,
            field,
            field_value,
            residual,
        ) {
            Some(i) => seq![Provenance::Param(i)],
            None => others(result_count),
        },
        _ => others(result_count),
    }
}

/// Joining the results of `arms[from..]` into `joined`.
pub open spec fn sp_analyze_arms(
    flows: Seq<Seq<Provenance>>,
    inputs: Seq<Param>,
    env: Map<u32, Provenance>,
    scrutinee: Provenance,
    arms: Seq<MatchArm>,
    from: int,
    joined: Option<Seq<Provenance>>,
) -> Option<Seq<Provenance>>
    decreases arms, arms.len() - from,
{
    if from < 0 || from >= arms.len() {
        joined
    } else {
        let arm = arms[from];
        let returned = sp_analyze_block(
            flows,
            inputs,
            env.insert(arm.payload.0, payload_prov(scrutinee, arm.variant)),
            arm.body@,
            arm.returned@,
        );
        let next = match joined {
            None => returned,
            Some(previous) => join_results(previous, returned),
        };
        sp_analyze_arms(flows, inputs, env, scrutinee, arms, from + 1, Some(next))
    }
}

/// The provenances of a block's returned values.
pub open spec fn sp_analyze_block(
    flows: Seq<Seq<Provenance>>,
    inputs: Seq<Param>,
    env: Map<u32, Provenance>,
    body: Seq<Statement>,
    returned: Seq<ValueId>,
) -> Seq<Provenance>
    decreases body, body.len() + 1,
{
    let env1 = sp_analyze_statements(flows, inputs, env, body, 0);
    returned.map_values(|id: ValueId| lookup_prov(env1, id))
}

/// The environment after the statements `body[from..]`.
pub open spec fn sp_analyze_statements(
    flows: Seq<Seq<Provenance>>,
    inputs: Seq<Param>,
    env: Map<u32, Provenance>,
    body: Seq<Statement>,
    from: int,
) -> Map<u32, Provenance>
    decreases body, body.len() - from,
{
    if from < 0 || from >= body.len() {
        env
    } else {
        let statement = body[from];
        let results = sp_analyze_expr(flows, inputs, env, statement.expr, statement.results@.len());
        sp_analyze_statements(flows, inputs, record_results(env, statement.results@, results, 0), body, from + 1)
    }
}

/// The provenances of a function's outputs, under the summaries `flows`.
pub open spec fn sp_analyze_function(flows: Seq<Seq<Provenance>>, function: Function) -> Seq<Provenance> {
    sp_analyze_block(flows, function.inputs@, record_params(Map::empty(), function.inputs@, 0), function.body@, function.returned@)
}

// ---------------------------------------------------------------------------
// The analysis, executed
// ---------------------------------------------------------------------------

/// The summaries as sequences of slots.
pub open spec fn flows_view(flows: Seq<FunctionFlow>) -> Seq<Seq<Provenance>> {
    flows.map_values(|f: FunctionFlow| f.outputs@)
}

fn lookup(env: &HashMap<u32, Provenance>, id: ValueId) -> (r: Provenance)
    ensures
        r == lookup_prov(env@, id),
{
    match env.get(&id.0) {
        Some(p) => *p,
        None => Provenance::Other,
    }
}

fn arg_provenance(env: &HashMap<u32, Provenance>, args: &Vec<ValueId>, index: usize) -> (r: Provenance)
    ensures
        r == arg_prov(env@, args@, index as int),
{
    if index < args.len() {
        lookup(env, args[index])
    } else {
        Provenance::Other
    }
}

fn other_slots(n: usize) -> (r: Vec<Provenance>)
    ensures
        r@ == others(n as nat),
{
    let mut r: Vec<Provenance> = Vec::new();
    let mut i: usize = 0;
    while i < n
        invariant
            0 <= i <= n,
            r@ == others(i as nat),
        decreases n - i,
    {
        r.push(Provenance::Other);
        proof {
            assert(r@ =~= others((i + 1) as nat));
        }
        i += 1;
    }
    r
}

fn record(env: &mut HashMap<u32, Provenance>, ids: &Vec<ValueId>, res: &Vec<Provenance>)
    ensures
        final(env)@ == record_results(old(env)@, ids@, res@, 0),
{
    let mut i: usize = 0;
    while i < ids.len()
        invariant
            0 <= i <= ids@.len(),
            record_results(old(env)@, ids@, res@, 0) == record_results(env@, ids@, res@, i as int),
        decreases ids@.len() - i,
    {
        let p = if i < res.len() {
            res[i]
        } else {
            Provenance::Other
        };
        env.insert(ids[i].0, p);
        i += 1;
    }
}

fn substitute(slot: Provenance, env: &HashMap<u32, Provenance>, args: &Vec<ValueId>) -> (r: Provenance)
    ensures
        r == substitute_slot(slot, env@, args@),
{
    match slot {
        Provenance::Top => Provenance::Top,
        Provenance::Param(i) => arg_provenance(env, args, i),
        Provenance::Field { param, field } => match arg_provenance(env, args, param) {
            Provenance::Param(j) => Provenance::Field { param: j, field },
            _ => Provenance::Other,
        },
        Provenance::Residual { param, field } => match arg_provenance(env, args, param) {
            Provenance::Param(j) => Provenance::Residual { param: j, field },
            _ => Provenance::Other,
        },
        Provenance::Part { param, index, count } => match arg_provenance(env, args, param) {
            Provenance::Param(j) => Provenance::Part { param: j, index, count },
            _ => Provenance::Other,
        },
        Provenance::Payload { param, variant } => match arg_provenance(env, args, param) {
            Provenance::Param(j) => Provenance::Payload { param: j, variant },
            _ => Provenance::Other,
        },
        Provenance::Other => Provenance::Other,
    }
}

fn has_type(inputs: &Vec<Param>, i: usize, ty: TypeId) -> (r: bool)
    ensures
        r == param_has_type(inputs@, i, ty),
{
    i < inputs.len() && inputs[i].ty == ty
}

fn build(inputs: &Vec<Param>, env: &HashMap<u32, Provenance>, ty: TypeId, fields: &Vec<ValueId>) -> (r: Option<usize>)
    ensures
        r == build_source(inputs@, env@, ty, fields@),
{
    if fields.len() == 0 {
        return None;
    }
    let i = match lookup(env, fields[0]) {
        Provenance::Part { param, .. } => param,
        _ => {
            return None;
        },
    };
    if !has_type(inputs, i, ty) {
        return None;
    }
    let n = fields.len();
    let mut k: usize = 0;
    while k < n
        invariant
            0 < n == fields@.len(),
            0 <= k <= n,
            lookup_prov(env@, fields@[0]) is Part && lookup_prov(env@, fields@[0])->Part_param == i,
            param_has_type(inputs@, i, ty),
            forall|j: int|
                0 <= j < k ==> lookup_prov(env@, #[trigger] fields@[j]) == (Provenance::Part {
                    param: i,
                    index: j as usize,
                    count: n,
                }),
        decreases n - k,
    {
        if lookup(env, fields[k]) != (Provenance::Part { param: i, index: k, count: n }) {
            proof {
                let j = k as int;
                assert(lookup_prov(env@, fields@[j]) != (Provenance::Part {
                    param: i,
                    index: j as usize,
                    count: fields@.len() as usize,
                }));
            }
            return None;
        }
        k += 1;
    }
    Some(i)
}

fn inject(inputs: &Vec<Param>, env: &HashMap<u32, Provenance>, ty: TypeId, variant: usize, payload: ValueId) -> (r:
    Option<usize>)
    ensures
        r == inject_source(inputs@, env@, ty, variant, payload),
{
    match lookup(env, payload) {
        Provenance::Payload { param: i, variant: v } => {
            if v == variant && has_type(inputs, i, ty) {
                Some(i)
            } else {
                None
            }
        },
        _ => None,
    }
}

fn split(p: Provenance, count: usize) -> (r: Vec<Provenance>)
    ensures
        r@ == split_parts(p, count as nat),
{
    match p {
        Provenance::Param(i) => {
            let mut r: Vec<Provenance> = Vec::new();
            let mut k: usize = 0;
            while k < count
                invariant
                    0 <= k <= count,
                    r@ == Seq::new(
                        k as nat,
                        |j: int| Provenance::Part { param: i, index: j as usize, count: count as usize },
                    ),
                decreases count - k,
            {
                r.push(Provenance::Part { param: i, index: k, count });
                proof {
                    assert(r@ =~= Seq::new(
                        (k + 1) as nat,
                        |j: int| Provenance::Part { param: i, index: j as usize, count: count as usize },
                    ));
                }
                k += 1;
            }
            r
        },
        _ => other_slots(count),
    }
}

fn payload_of(p: Provenance, variant: usize) -> (r: Provenance)
    ensures
        r == payload_prov(p, variant),
{
    match p {
        Provenance::Param(i) => Provenance::Payload { param: i, variant },
        _ => Provenance::Other,
    }
}

fn plug(
    inputs: &Vec<Param>,
    env: &HashMap<u32, Provenance>,
    ty: TypeId,
    field: usize,
    field_value: ValueId,
    residual: ValueId,
) -> (r: Option<usize>)
    ensures
        r == plug_source(inputs@, env@, ty, field, field_value, residual),
{
    match (lookup(env, field_value), lookup(env, residual)) {
        (Provenance::Field { param: i, field: f }, Provenance::Residual { param: j, field: g }) => {
            if i == j && f == field && g == field && i < inputs.len() && inputs[i].ty == ty {
                Some(i)
            } else {
                None
            }
        },
        _ => None,
    }
}

fn call_flow(
    flows: &Vec<FunctionFlow>,
    function: FunctionId,
    args: &Vec<ValueId>,
    env: &HashMap<u32, Provenance>,
    result_count: usize,
) -> (r: Vec<Provenance>)
    ensures
        r@ == spec_call_flow(flows_view(flows@), function, args@, env@, result_count as nat),
{
    if (function.0 as usize) < flows.len() {
        let outputs = &flows[function.0 as usize].outputs;
        let mut r: Vec<Provenance> = Vec::new();
        let mut i: usize = 0;
        while i < outputs.len()
            invariant
                0 <= i <= outputs@.len(),
                r@.len() == i,
                forall|k: int| 0 <= k < i ==> #[trigger] r@[k] == substitute_slot(outputs@[k], env@, args@),
            decreases outputs@.len() - i,
        {
            let p = substitute(outputs[i], env, args);
            r.push(p);
            i += 1;
        }
        proof {
            assert(flows_view(flows@)[function.0 as int] == outputs@);
            assert(r@ =~= spec_call_flow(flows_view(flows@), function, args@, env@, result_count as nat));
        }
        r
    } else {
        other_slots(result_count)
    }
}

fn join(previous: &Vec<Provenance>, returned: &Vec<Provenance>) -> (r: Vec<Provenance>)
    ensures
        r@ == join_results(previous@, returned@),
{
    let mut r: Vec<Provenance> = Vec::new();
    let mut i: usize = 0;
    while i < previous.len()
        invariant
            0 <= i <= previous@.len(),
            r@.len() == i,
            forall|k: int| 0 <= k < i ==> #[trigger] r@[k] == spec_meet(previous@[k], prov_at(returned@, k)),
        decreases previous@.len() - i,
    {
        let other = if i < returned.len() {
            returned[i]
        } else {
            Provenance::Other
        };
        r.push(previous[i].meet(other));
        i += 1;
    }
    assert(r@ =~= join_results(previous@, returned@));
    r
}

/// The provenances of the results of `expr`.
#[verifier::loop_isolation(false)]
fn analyze_expr(
    flows: &Vec<FunctionFlow>,
    inputs: &Vec<Param>,
    env: &HashMap<u32, Provenance>,
    expr: &Expr,
    result_count: usize,
) -> (r: Vec<Provenance>)
    ensures
        r@ == sp_analyze_expr(flows_view(flows@), inputs@, env@, *expr, result_count as nat),
    decreases expr,
{
    match expr {
        Expr::Dup { value } => {
            let p = lookup(env, *value);
            let r = vec![p, p];
            assert(r@ =~= seq![p, p]);
            r
        },
        Expr::Zap { .. } => {
            let r: Vec<Provenance> = Vec::new();
            assert(r@ =~= Seq::<Provenance>::empty());
            r
        },
        Expr::Call { function, args } => call_flow(flows, *function, args, env, result_count),
        Expr::Builtin { op, args } => match op {
            BuiltinOp::FiniteNext { .. } => {
                let r = vec![Provenance::Other];
                assert(r@ =~= seq![Provenance::Other]);
                r
            },
            _ => {
                let r = vec![arg_provenance(env, args, 0), arg_provenance(env, args, 1), Provenance::Other];
                assert(r@ =~= spec_builtin_flow(*op, args@, env@));
                r
            },
        },
        Expr::Match { scrutinee, arms } => {
            let sp = lookup(env, *scrutinee);
            let mut joined: Option<Vec<Provenance>> = None;
            let mut i: usize = 0;
            while i < arms.len()
                invariant
                    0 <= i <= arms@.len(),
                    sp == lookup_prov(env@, *scrutinee),
                    sp_analyze_arms(flows_view(flows@), inputs@, env@, sp, arms@, 0, None) == sp_analyze_arms(
                        flows_view(flows@),
                        inputs@,
                        env@,
                        sp,
                        arms@,
                        i as int,
                        match joined {
                            Some(j) => Some(j@),
                            None => None,
                        },
                    ),
                decreases arms@.len() - i,
            {
                let arm = &arms[i];
                let mut arm_env = env.clone();
                arm_env.insert(arm.payload.0, payload_of(sp, arm.variant));
                let returned = analyze_block(flows, inputs, arm_env, &arm.body, &arm.returned);
                let next = match joined {
                    None => returned,
                    Some(previous) => join(&previous, &returned),
                };
                joined = Some(next);
                i += 1;
            }
            match joined {
                Some(j) => j,
                None => other_slots(result_count),
            }
        },
        Expr::SplitProduct { value } => split(lookup(env, *value), result_count),
        Expr::Product { ty, fields } => match build(inputs, env, *ty, fields) {
            Some(i) => {
                let r = vec![Provenance::Param(i)];
                assert(r@ =~= seq![Provenance::Param(i)]);
                r
            },
            None => other_slots(result_count),
        },
        Expr::SumInject { ty, variant, payload } => match inject(inputs, env, *ty, *variant, *payload) {
            Some(i) => {
                let r = vec![Provenance::Param(i)];
                assert(r@ =~= seq![Provenance::Param(i)]);
                r
            },
            None => other_slots(result_count),
        },
        Expr::ProjectProduct { value, field, .. } => match lookup(env, *value) {
            Provenance::Param(i) => {
                let r = vec![Provenance::Field { param: i, field: *field }, Provenance::Residual { param: i, field: *field }];
                assert(r@ =~= seq![Provenance::Field { param: i, field: *field }, Provenance::Residual { param: i, field: *field }]);
                r
            },
            _ => other_slots(result_count),
        },
        Expr::InsertProductField { ty, field, field_value, residual } => match plug(
            inputs,
            env,
            *ty,
            *field,
            *field_value,
            *residual,
        ) {
            Some(i) => {
                let r = vec![Provenance::Param(i)];
                assert(r@ =~= seq![Provenance::Param(i)]);
                r
            },
            None => other_slots(result_count),
        },
        _ => other_slots(result_count),
    }
}

/// The provenances of a block's returned values.
#[verifier::loop_isolation(false)]
fn analyze_block(
    flows: &Vec<FunctionFlow>,
    inputs: &Vec<Param>,
    env: HashMap<u32, Provenance>,
    body: &Vec<Statement>,
    returned: &Vec<ValueId>,
) -> (r: Vec<Provenance>)
    ensures
        r@ == sp_analyze_block(flows_view(flows@), inputs@, env@, body@, returned@),
    decreases body@,
{
    let ghost env0 = env@;
    let mut env = env;
    let mut k: usize = 0;
    while k < body.len()
        invariant
            0 <= k <= body@.len(),
            sp_analyze_statements(flows_view(flows@), inputs@, env0, body@, 0) == sp_analyze_statements(
                flows_view(flows@),
                inputs@,
                env@,
                body@,
                k as int,
            ),
        decreases body@.len() - k,
    {
        let statement = &body[k];
        let results = analyze_expr(flows, inputs, &env, &statement.expr, statement.results.len());
        record(&mut env, &statement.results, &results);
        k += 1;
    }
    let mut r: Vec<Provenance> = Vec::new();
    let mut i: usize = 0;
    while i < returned.len()
        invariant
            0 <= i <= returned@.len(),
            r@.len() == i,
            forall|j: int| 0 <= j < i ==> #[trigger] r@[j] == lookup_prov(env@, returned@[j]),
        decreases returned@.len() - i,
    {
        r.push(lookup(&env, returned[i]));
        i += 1;
    }
    assert(r@ =~= returned@.map_values(|id: ValueId| lookup_prov(env@, id)));
    r
}

/// The provenances of `function`'s outputs under the summaries `flows`.
fn analyze_function(flows: &Vec<FunctionFlow>, function: &Function) -> (r: Vec<Provenance>)
    ensures
        r@ == sp_analyze_function(flows_view(flows@), *function),
{
    let mut env: HashMap<u32, Provenance> = HashMap::new();
    let mut i: usize = 0;
    while i < function.inputs.len()
        invariant
            0 <= i <= function.inputs@.len(),
            record_params(Map::empty(), function.inputs@, 0) == record_params(env@, function.inputs@, i as int),
        decreases function.inputs@.len() - i,
    {
        env.insert(function.inputs[i].id.0, Provenance::Param(i));
        i += 1;
    }
    analyze_block(flows, &function.inputs, env, &function.body, &function.returned)
}

// ---------------------------------------------------------------------------
// The fixpoint
// ---------------------------------------------------------------------------

/// Every output slot of every function starts at `Top`.
pub open spec fn initial_flows(functions: Seq<Function>) -> Seq<Seq<Provenance>> {
    functions.map_values(|f: Function| Seq::new(f.outputs@.len(), |i: int| Provenance::Top))
}

/// Each slot met with what was inferred for it; slots past the inferred
/// ones stay.
pub open spec fn update_slots(current: Seq<Provenance>, inferred: Seq<Provenance>) -> Seq<Provenance> {
    Seq::new(
        current.len(),
        |s: int|
            if s < inferred.len() {
                spec_meet(current[s], inferred[s])
            } else {
                current[s]
            },
    )
}

/// One round: the functions `functions[from..]` in id order, each analyzed
/// under the summaries as updated so far.
pub open spec fn sp_round(functions: Seq<Function>, flows: Seq<Seq<Provenance>>, from: int) -> Seq<Seq<Provenance>>
    decreases functions.len() - from,
{
    if from < 0 || from >= functions.len() || from >= flows.len() {
        flows
    } else {
        let next = flows.update(from, update_slots(flows[from], sp_analyze_function(flows, functions[from])));
        sp_round(functions, next, from + 1)
    }
}

/// How far a slot can still descend: `Top` above any proven relationship
/// above `Other`.
pub open spec fn rank(p: Provenance) -> nat {
    match p {
        Provenance::Top => 2,
        Provenance::Other => 0,
        _ => 1,
    }
}

pub open spec fn slots_rank(slots: Seq<Provenance>) -> nat
    decreases slots.len(),
{
    if slots.len() == 0 {
        0
    } else {
        rank(slots.last()) + slots_rank(slots.drop_last())
    }
}

pub open spec fn flows_rank(flows: Seq<Seq<Provenance>>) -> nat
    decreases flows.len(),
{
    if flows.len() == 0 {
        0
    } else {
        slots_rank(flows.last()) + flows_rank(flows.drop_last())
    }
}

/// Rounds until one changes nothing.
pub open spec fn sp_fixpoint(functions: Seq<Function>, flows: Seq<Seq<Provenance>>) -> Seq<Seq<Provenance>>
    decreases flows_rank(flows),
{
    let next = sp_round(functions, flows, 0);
    if next == flows {
        flows
    } else {
        proof {
            lemma_round_rank(functions, flows, 0);
        }
        sp_fixpoint(functions, next)
    }
}

/// The meet is a semilattice with `Top` as its unit and `Other` as its
/// zero: commutative, associative and idempotent.
pub proof fn law_meet_semilattice(a: Provenance, b: Provenance, c: Provenance)
    ensures
        spec_meet(a, b) == spec_meet(b, a),
        spec_meet(spec_meet(a, b), c) == spec_meet(a, spec_meet(b, c)),
        spec_meet(a, a) == a,
        spec_meet(Provenance::Top, a) == a,
        spec_meet(Provenance::Other, a) == Provenance::Other,
{
}

/// Each function keeps as many slots as it had.
pub open spec fn same_shape(a: Seq<Seq<Provenance>>, b: Seq<Seq<Provenance>>) -> bool {
    a.len() == b.len() && forall|k: int| 0 <= k < a.len() ==> (#[trigger] a[k]).len() == b[k].len()
}

proof fn lemma_round_shape(functions: Seq<Function>, flows: Seq<Seq<Provenance>>, from: int)
    ensures
        same_shape(sp_round(functions, flows, from), flows),
    decreases functions.len() - from,
{
    if !(from < 0 || from >= functions.len() || from >= flows.len()) {
        let next = flows.update(from, update_slots(flows[from], sp_analyze_function(flows, functions[from])));
        lemma_round_shape(functions, next, from + 1);
        assert forall|k: int| 0 <= k < flows.len() implies (#[trigger] sp_round(functions, flows, from)[k]).len()
            == flows[k].len() by {
            assert(sp_round(functions, next, from + 1)[k].len() == next[k].len());
        }
    }
}

proof fn lemma_fixpoint_shape(functions: Seq<Function>, flows: Seq<Seq<Provenance>>)
    ensures
        same_shape(sp_fixpoint(functions, flows), flows),
    decreases flows_rank(flows),
{
    let next = sp_round(functions, flows, 0);
    lemma_round_shape(functions, flows, 0);
    if next != flows {
        lemma_round_rank(functions, flows, 0);
        lemma_fixpoint_shape(functions, next);
    }
}

/// A meet never raises a slot, and lowers it whenever it changes it.
pub proof fn lemma_meet_descends(a: Provenance, b: Provenance)
    ensures
        rank(spec_meet(a, b)) <= rank(a),
        spec_meet(a, b) != a ==> rank(spec_meet(a, b)) < rank(a),
{
}

proof fn lemma_update_slots_rank(current: Seq<Provenance>, inferred: Seq<Provenance>)
    ensures
        slots_rank(update_slots(current, inferred)) <= slots_rank(current),
        update_slots(current, inferred) != current ==> slots_rank(update_slots(current, inferred)) < slots_rank(
            current,
        ),
    decreases current.len(),
{
    let u = update_slots(current, inferred);
    if current.len() > 0 {
        let c0 = current.drop_last();
        assert(u.drop_last() =~= update_slots(c0, inferred));
        lemma_update_slots_rank(c0, inferred);
        let n = current.len() - 1;
        if n < inferred.len() {
            lemma_meet_descends(current[n], inferred[n]);
        }
        if u != current {
            if u.drop_last() == c0 {
                assert(u.last() != current.last()) by {
                    if u.last() == current.last() {
                        assert forall|k: int| 0 <= k < u.len() implies u[k] == current[k] by {
                            if k < n {
                                assert(u.drop_last()[k] == c0[k]);
                            }
                        }
                        assert(u =~= current);
                    }
                }
            }
        }
    } else {
        assert(u =~= current);
    }
}

proof fn lemma_flows_rank_update(flows: Seq<Seq<Provenance>>, i: int, x: Seq<Provenance>)
    requires
        0 <= i < flows.len(),
    ensures
        flows_rank(flows.update(i, x)) + slots_rank(flows[i]) == flows_rank(flows) + slots_rank(x),
    decreases flows.len(),
{
    let u = flows.update(i, x);
    if i == flows.len() - 1 {
        assert(u.drop_last() =~= flows.drop_last());
    } else {
        assert(u.drop_last() =~= flows.drop_last().update(i, x));
        lemma_flows_rank_update(flows.drop_last(), i, x);
    }
}

/// A round never raises the summaries, and lowers them whenever it changes
/// them.
pub proof fn lemma_round_rank(functions: Seq<Function>, flows: Seq<Seq<Provenance>>, from: int)
    ensures
        flows_rank(sp_round(functions, flows, from)) <= flows_rank(flows),
        sp_round(functions, flows, from) != flows ==> flows_rank(sp_round(functions, flows, from)) < flows_rank(
            flows,
        ),
    decreases functions.len() - from,
{
    if !(from < 0 || from >= functions.len() || from >= flows.len()) {
        let updated = update_slots(flows[from], sp_analyze_function(flows, functions[from]));
        let next = flows.update(from, updated);
        lemma_update_slots_rank(flows[from], sp_analyze_function(flows, functions[from]));
        lemma_flows_rank_update(flows, from, updated);
        lemma_round_rank(functions, next, from + 1);
        if next == flows {
        } else {
            assert(updated != flows[from]) by {
                if updated == flows[from] {
                    assert(next =~= flows);
                }
            }
        }
    }
}

fn top_slots(n: usize) -> (r: Vec<Provenance>)
    ensures
        r@ == Seq::new(n as nat, |i: int| Provenance::Top),
{
    let mut r: Vec<Provenance> = Vec::new();
    let mut i: usize = 0;
    while i < n
        invariant
            0 <= i <= n,
            r@ == Seq::new(i as nat, |k: int| Provenance::Top),
        decreases n - i,
    {
        r.push(Provenance::Top);
        proof {
            assert(r@ =~= Seq::new((i + 1) as nat, |k: int| Provenance::Top));
        }
        i += 1;
    }
    r
}

fn copy_slots(v: &Vec<Provenance>) -> (r: Vec<Provenance>)
    ensures
        r@ == v@,
{
    let mut r: Vec<Provenance> = Vec::new();
    let mut i: usize = 0;
    while i < v.len()
        invariant
            0 <= i <= v@.len(),
            r@ == v@.subrange(0, i as int),
        decreases v@.len() - i,
    {
        r.push(v[i]);
        proof {
            assert(v@.subrange(0, i + 1) =~= v@.subrange(0, i as int).push(v@[i as int]));
        }
        i += 1;
    }
    assert(v@.subrange(0, v@.len() as int) =~= v@);
    r
}

fn copy_flows(flows: &Vec<FunctionFlow>) -> (r: Vec<FunctionFlow>)
    ensures
        flows_view(r@) == flows_view(flows@),
        r@.len() == flows@.len(),
{
    let mut r: Vec<FunctionFlow> = Vec::new();
    let mut i: usize = 0;
    while i < flows.len()
        invariant
            0 <= i <= flows@.len(),
            r@.len() == i,
            flows_view(r@) == flows_view(flows@.subrange(0, i as int)),
        decreases flows@.len() - i,
    {
        let ghost r0 = r@;
        r.push(FunctionFlow { outputs: copy_slots(&flows[i].outputs) });
        proof {
            assert(flows_view(r@) =~= flows_view(r0).push(flows@[i as int].outputs@));
            assert(flows_view(flows@.subrange(0, i + 1)) =~= flows_view(flows@.subrange(0, i as int)).push(
                flows@[i as int].outputs@,
            ));
        }
        i += 1;
    }
    assert(flows@.subrange(0, flows@.len() as int) =~= flows@);
    r
}

fn update(current: &Vec<Provenance>, inferred: &Vec<Provenance>) -> (r: Vec<Provenance>)
    ensures
        r@ == update_slots(current@, inferred@),
{
    let mut r: Vec<Provenance> = Vec::new();
    let mut i: usize = 0;
    while i < current.len()
        invariant
            0 <= i <= current@.len(),
            r@.len() == i,
            forall|k: int|
                0 <= k < i ==> #[trigger] r@[k] == (if k < inferred@.len() {
                    spec_meet(current@[k], inferred@[k])
                } else {
                    current@[k]
                }),
        decreases current@.len() - i,
    {
        let p = if i < inferred.len() {
            current[i].meet(inferred[i])
        } else {
            current[i]
        };
        r.push(p);
        i += 1;
    }
    assert(r@ =~= update_slots(current@, inferred@));
    r
}

#[verifier::loop_isolation(false)]
fn same_flows(a: &Vec<FunctionFlow>, b: &Vec<FunctionFlow>) -> (r: bool)
    ensures
        r == (flows_view(a@) == flows_view(b@)),
{
    if a.len() != b.len() {
        assert(flows_view(a@).len() != flows_view(b@).len());
        return false;
    }
    let mut i: usize = 0;
    while i < a.len()
        invariant
            0 <= i <= a@.len() == b@.len(),
            forall|k: int| 0 <= k < i ==> (#[trigger] a@[k]).outputs@ == b@[k].outputs@,
        decreases a@.len() - i,
    {
        let x = &a[i].outputs;
        let y = &b[i].outputs;
        if x.len() != y.len() {
            assert(flows_view(a@)[i as int] != flows_view(b@)[i as int]);
            return false;
        }
        let mut j: usize = 0;
        while j < x.len()
            invariant
                0 <= j <= x@.len() == y@.len(),
                forall|k: int| 0 <= k < j ==> x@[k] == y@[k],
            decreases x@.len() - j,
        {
            if x[j] != y[j] {
                assert(flows_view(a@)[i as int] == x@ && flows_view(b@)[i as int] == y@);
                assert(flows_view(a@)[i as int][j as int] != flows_view(b@)[i as int][j as int]);
                return false;
            }
            j += 1;
        }
        assert(x@ =~= y@);
        i += 1;
    }
    assert(flows_view(a@) =~= flows_view(b@));
    true
}

/// One round over the program's functions in id order.
fn round(program: &CoreProgram, flows: &Vec<FunctionFlow>) -> (r: Vec<FunctionFlow>)
    requires
        program.wf(),
        flows@.len() == program.spec_functions().len(),
    ensures
        flows_view(r@) == sp_round(program.spec_functions(), flows_view(flows@), 0),
        r@.len() == flows@.len(),
{
    let mut cur = copy_flows(flows);
    let n = flows.len();
    let mut i: usize = 0;
    while i < n
        invariant
            0 <= i <= n == cur@.len() == program.spec_functions().len() <= u32::MAX,
            sp_round(program.spec_functions(), flows_view(flows@), 0) == sp_round(
                program.spec_functions(),
                flows_view(cur@),
                i as int,
            ),
        decreases n - i,
    {
        let function = match program.get(FunctionId(i as u32)) {
            Some(f) => f,
            None => {
                return cur;
            },
        };
        let inferred = analyze_function(&cur, function);
        let updated = update(&cur[i].outputs, &inferred);
        let ghost before = cur@;
        cur.set(i, FunctionFlow { outputs: updated });
        proof {
            assert(flows_view(cur@) =~= flows_view(before).update(
                i as int,
                update_slots(flows_view(before)[i as int], sp_analyze_function(flows_view(before), program.spec_functions()[i as int])),
            ));
        }
        i += 1;
    }
    cur
}

/// The summaries of every function, indexed by function id: the fixpoint
/// reached from all-`Top` by rounds in id order.
pub fn infer_flows(program: &CoreProgram) -> (r: Vec<FunctionFlow>)
    requires
        program.wf(),
    ensures
        flows_view(r@) == sp_fixpoint(program.spec_functions(), initial_flows(program.spec_functions())),
        sp_round(program.spec_functions(), flows_view(r@), 0) == flows_view(r@),
        r@.len() == program.spec_functions().len(),
        forall|k: int|
            0 <= k < r@.len() ==> (#[trigger] r@[k]).outputs@.len() == program.spec_functions()[k].outputs@.len(),
{
    let functions = program.functions();
    let mut flows: Vec<FunctionFlow> = Vec::new();
    let mut i: usize = 0;
    while i < functions.len()
        invariant
            0 <= i <= functions@.len() == program.spec_functions().len(),
            forall|k: int| 0 <= k < functions@.len() ==> *(#[trigger] functions@[k]).1 == program.spec_functions()[k],
            flows_view(flows@) == initial_flows(program.spec_functions().subrange(0, i as int)),
        decreases functions@.len() - i,
    {
        let ghost f0 = flows@;
        let ghost fi = program.spec_functions()[i as int];
        assert(*functions@[i as int].1 == fi);
        flows.push(FunctionFlow { outputs: top_slots(functions[i].1.outputs.len()) });
        proof {
            let slots = Seq::new(fi.outputs@.len(), |k: int| Provenance::Top);
            assert(flows_view(flows@) =~= flows_view(f0).push(slots));
            assert(initial_flows(program.spec_functions().subrange(0, i + 1)) =~= initial_flows(
                program.spec_functions().subrange(0, i as int),
            ).push(slots));
        }
        i += 1;
    }
    assert(program.spec_functions().subrange(0, functions@.len() as int) =~= program.spec_functions());
    loop
        invariant
            program.wf(),
            flows@.len() == program.spec_functions().len(),
            sp_fixpoint(program.spec_functions(), initial_flows(program.spec_functions())) == sp_fixpoint(
                program.spec_functions(),
                flows_view(flows@),
            ),
        decreases flows_rank(flows_view(flows@)),
    {
        let next = round(program, &flows);
        if same_flows(&next, &flows) {
            proof {
                let fs = program.spec_functions();
                lemma_fixpoint_shape(fs, initial_flows(fs));
                assert(sp_fixpoint(fs, flows_view(flows@)) == flows_view(flows@));
                assert forall|k: int| 0 <= k < flows@.len() implies (#[trigger] flows@[k]).outputs@.len()
                    == fs[k].outputs@.len() by {
                    assert(flows_view(flows@)[k] == flows@[k].outputs@);
                    assert(initial_flows(fs)[k].len() == fs[k].outputs@.len());
                }
            }
            return flows;
        }
        proof {
            lemma_round_rank(program.spec_functions(), flows_view(flows@), 0);
        }
        flows = next;
    }
}

/// Infers output provenances for every function in `program`, keyed by
/// function id. What the map holds is stated for a key type that the
/// standard hash map model covers; `infer_flows` states the same result as a
/// vector indexed by id.
pub fn infer_function_flows(program: &CoreProgram) -> (r: HashMap<FunctionId, FunctionFlow>)
    requires
        program.wf(),
    ensures
        obeys_key_model::<FunctionId>() ==> forall|k: FunctionId|
            #[trigger] r@.contains_key(k) <==> k.0 < program.spec_functions().len(),
        obeys_key_model::<FunctionId>() ==> forall|k: FunctionId|
            #[trigger] r@.contains_key(k) ==> r@[k].outputs@ == sp_fixpoint(
                program.spec_functions(),
                initial_flows(program.spec_functions()),
            )[k.0 as int],
{
    let flows = infer_flows(program);
    let ghost result = flows_view(flows@);
    let mut map: HashMap<FunctionId, FunctionFlow> = HashMap::new();
    let mut rest = flows;
    let n = rest.len();
    let mut i: usize = n;
    while i > 0
        invariant
            0 <= i <= n == program.spec_functions().len() <= u32::MAX,
            rest@.len() == i,
            forall|k: int| 0 <= k < i ==> (#[trigger] rest@[k]).outputs@ == result[k],
            result == flows_view(flows@),
            obeys_key_model::<FunctionId>() ==> forall|k: FunctionId|
                #[trigger] map@.contains_key(k) <==> i <= k.0 < n,
            obeys_key_model::<FunctionId>() ==> forall|k: FunctionId|
                #[trigger] map@.contains_key(k) ==> map@[k].outputs@ == result[k.0 as int],
        decreases i,
    {
        let flow = rest.pop().unwrap();
        i -= 1;
        map.insert(FunctionId(i as u32), flow);
    }
    map
}

// ---------------------------------------------------------------------------
// Parameter contracts
// ---------------------------------------------------------------------------

pub open spec fn params_view(params: Seq<(String, ParamContract)>) -> Seq<(Seq<char>, ParamContract)> {
    params.map_values(|p: (String, ParamContract)| (p.0@, p.1))
}

pub open spec fn violations_view(vs: Seq<FlowViolation>) -> Seq<FlowViolationView> {
    vs.map_values(|v: FlowViolation| v@)
}

/// Parameter `index`'s exact version reappears in some output slot.
pub open spec fn escapes(outputs: Seq<Provenance>, index: int) -> bool {
    exists|k: int| 0 <= k < outputs.len() && outputs[k] == Provenance::Param(index as usize)
}

/// Output slot `slot` is provably parameter `index` (or never produced).
pub open spec fn borrow_proven(outputs: Seq<Provenance>, slot: int, index: int) -> bool {
    if 0 <= slot < outputs.len() {
        match outputs[slot] {
            Provenance::Top => true,
            Provenance::Param(source) => source == index,
            _ => false,
        }
    } else {
        false
    }
}

/// Output slot `slot` is provably the same version of parameter `index`.
pub open spec fn same_version(outputs: Seq<Provenance>, slot: int, index: int) -> bool {
    0 <= slot < outputs.len() && outputs[slot] == Provenance::Param(index as usize)
}

/// The violations of the contracts `params[index..]`, whose hidden output
/// slots start at `slot`; only non-consumed parameters own a slot.
pub open spec fn spec_contract_violations(
    function: Seq<char>,
    params: Seq<(Seq<char>, ParamContract)>,
    outputs: Seq<Provenance>,
    index: int,
    slot: int,
) -> Seq<FlowViolationView>
    decreases params.len() - index,
{
    if index < 0 || index >= params.len() {
        Seq::empty()
    } else {
        let name = params[index].0;
        match params[index].1 {
            ParamContract::Consumed => (if escapes(outputs, index) {
                seq![FlowViolationView::TakeIsBorrow { function, param: name }]
            } else {
                Seq::empty()
            }) + spec_contract_violations(function, params, outputs, index + 1, slot),
            ParamContract::Borrowed => (if !borrow_proven(outputs, slot, index) {
                seq![FlowViolationView::BorrowNotProven { function, param: name }]
            } else {
                Seq::empty()
            }) + spec_contract_violations(function, params, outputs, index + 1, slot + 1),
            ParamContract::Updated => (if same_version(outputs, slot, index) {
                seq![FlowViolationView::MutIsBorrow { function, param: name }]
            } else {
                Seq::empty()
            }) + spec_contract_violations(function, params, outputs, index + 1, slot + 1),
        }
    }
}

fn escapes_exec(outputs: &Vec<Provenance>, index: usize) -> (r: bool)
    ensures
        r == escapes(outputs@, index as int),
{
    let mut k: usize = 0;
    while k < outputs.len()
        invariant
            0 <= k <= outputs@.len(),
            forall|j: int| 0 <= j < k ==> outputs@[j] != Provenance::Param(index),
        decreases outputs@.len() - k,
    {
        if outputs[k] == Provenance::Param(index) {
            assert(outputs@[k as int] == Provenance::Param(index));
            return true;
        }
        k += 1;
    }
    false
}

/// Checks one function's declared parameter contracts against its inferred
/// flow. `params` lists every parameter in declaration order; hidden output
/// slots belong to the non-consumed parameters in that same order.
pub fn check_function_contract(function_name: &str, params: &[(String, ParamContract)], flow: &FunctionFlow) -> (r: Vec<FlowViolation>)
    ensures
        violations_view(r@) == spec_contract_violations(function_name@, params_view(params@), flow.outputs@, 0, 0),
{
    let ghost pv = params_view(params@);
    let mut violations: Vec<FlowViolation> = Vec::new();
    let mut slot: usize = 0;
    let mut index: usize = 0;
    while index < params.len()
        invariant
            0 <= slot <= index <= params@.len(),
            pv == params_view(params@),
            spec_contract_violations(function_name@, pv, flow.outputs@, 0, 0) == violations_view(violations@)
                + spec_contract_violations(function_name@, pv, flow.outputs@, index as int, slot as int),
        decreases params@.len() - index,
    {
        let ghost v0 = violations@;
        let ghost rest = spec_contract_violations(function_name@, pv, flow.outputs@, index + 1, slot as int);
        let ghost rest_next = spec_contract_violations(function_name@, pv, flow.outputs@, index + 1, slot + 1);
        let (param_name, contract) = &params[index];
        assert(pv[index as int] == (param_name@, *contract));
        match contract {
            ParamContract::Consumed => {
                if escapes_exec(&flow.outputs, index) {
                    violations.push(
                        FlowViolation::TakeIsBorrow { function: function_name.to_owned(), param: param_name.clone() },
                    );
                }
                proof {
                    assert(violations_view(violations@) + rest =~= violations_view(v0) + spec_contract_violations(
                        function_name@,
                        pv,
                        flow.outputs@,
                        index as int,
                        slot as int,
                    ));
                }
            },
            ParamContract::Borrowed => {
                let proven = if slot < flow.outputs.len() {
                    match flow.outputs[slot] {
                        Provenance::Top => true,
                        Provenance::Param(source) => source == index,
                        _ => false,
                    }
                } else {
                    false
                };
                if !proven {
                    violations.push(
                        FlowViolation::BorrowNotProven { function: function_name.to_owned(), param: param_name.clone() },
                    );
                }
                proof {
                    assert(violations_view(violations@) + rest_next =~= violations_view(v0) + spec_contract_violations(
                        function_name@,
                        pv,
                        flow.outputs@,
                        index as int,
                        slot as int,
                    ));
                }
                slot += 1;
            },
            ParamContract::Updated => {
                if slot < flow.outputs.len() && flow.outputs[slot] == Provenance::Param(index) {
                    violations.push(
                        FlowViolation::MutIsBorrow { function: function_name.to_owned(), param: param_name.clone() },
                    );
                }
                proof {
                    assert(violations_view(violations@) + rest_next =~= violations_view(v0) + spec_contract_violations(
                        function_name@,
                        pv,
                        flow.outputs@,
                        index as int,
                        slot as int,
                    ));
                }
                slot += 1;
            },
        }
        index += 1;
    }
    assert(violations_view(violations@) + Seq::<FlowViolationView>::empty() =~= violations_view(violations@));
    violations
}

/// Builtins that only observe their operands hand each operand back with
/// the provenance it had: the first two results of `+`, `-`, `*`, `==` and
/// `<` are their first and second operand, the third (the answer) is
/// `Other`. Only `FiniteNext`, which changes its operand, gives `Other`. A
/// `Dup` gives two copies of its operand's provenance, a `Zap` nothing.
pub proof fn law_observer_builtins_keep_operands(
    flows: Seq<Seq<Provenance>>,
    inputs: Seq<Param>,
    env: Map<u32, Provenance>,
    op: BuiltinOp,
    args: Vec<ValueId>,
    value: ValueId,
    n: nat,
)
    requires
        args@.len() == 2,
    ensures
        !(op is FiniteNext) ==> sp_analyze_expr(flows, inputs, env, Expr::Builtin { op, args }, n) == seq![
            lookup_prov(env, args@[0]),
            lookup_prov(env, args@[1]),
            Provenance::Other,
        ],
        op is FiniteNext ==> sp_analyze_expr(flows, inputs, env, Expr::Builtin { op, args }, n) == seq![
            Provenance::Other,
        ],
        sp_analyze_expr(flows, inputs, env, Expr::Dup { value }, n) == seq![
            lookup_prov(env, value),
            lookup_prov(env, value),
        ],
        sp_analyze_expr(flows, inputs, env, Expr::Zap { value }, n) == Seq::<Provenance>::empty(),
{
}

/// How one declared contract is judged against the outputs, the rest of
/// the parameters judged after it: a `take` parameter is reported as
/// `TakeIsBorrow` when its exact version appears in any output slot,
/// whatever the position; an unmarked parameter is reported as
/// `BorrowNotProven` unless its own slot is `Top` or its exact version; a
/// `mut` parameter is reported as `MutIsBorrow` when its own slot is its
/// exact version. Only unmarked and `mut` parameters own a slot.
pub proof fn law_contract_judgements(
    function: Seq<char>,
    params: Seq<(Seq<char>, ParamContract)>,
    outputs: Seq<Provenance>,
    index: int,
    slot: int,
)
    requires
        0 <= index < params.len(),
    ensures
        params[index].1 == ParamContract::Consumed ==> spec_contract_violations(function, params, outputs, index, slot)
            == (if outputs.contains(Provenance::Param(index as usize)) {
            seq![FlowViolationView::TakeIsBorrow { function, param: params[index].0 }]
        } else {
            Seq::empty()
        }) + spec_contract_violations(function, params, outputs, index + 1, slot),
        params[index].1 == ParamContract::Borrowed ==> spec_contract_violations(function, params, outputs, index, slot)
            == (if 0 <= slot < outputs.len() && (outputs[slot] == Provenance::Top || (outputs[slot]
            matches Provenance::Param(source) && source == index)) {
            Seq::empty()
        } else {
            seq![FlowViolationView::BorrowNotProven { function, param: params[index].0 }]
        }) + spec_contract_violations(function, params, outputs, index + 1, slot + 1),
        params[index].1 == ParamContract::Updated ==> spec_contract_violations(function, params, outputs, index, slot)
            == (if 0 <= slot < outputs.len() && outputs[slot] == Provenance::Param(index as usize) {
            seq![FlowViolationView::MutIsBorrow { function, param: params[index].0 }]
        } else {
            Seq::empty()
        }) + spec_contract_violations(function, params, outputs, index + 1, slot + 1),
{
    if outputs.contains(Provenance::Param(index as usize)) {
        let k = choose|k: int| 0 <= k < outputs.len() && outputs[k] == Provenance::Param(index as usize);
        assert(escapes(outputs, index));
    }
    if escapes(outputs, index) {
        let k = choose|k: int| 0 <= k < outputs.len() && outputs[k] == Provenance::Param(index as usize);
        assert(outputs.contains(Provenance::Param(index as usize)));
    }
}

/// A call passes its callee's summary through its arguments: there is one
/// result per slot of the callee's summary; a slot that is the callee's
/// parameter `i` becomes the provenance of argument `i`, and `Top` and
/// `Other` stay as they are. A callee with no summary gives `Other` for
/// each expected result.
pub proof fn law_call_substitutes_arguments(
    flows: Seq<Seq<Provenance>>,
    inputs: Seq<Param>,
    env: Map<u32, Provenance>,
    function: FunctionId,
    args: Vec<ValueId>,
    n: nat,
)
    ensures
        ({
            let r = sp_analyze_expr(flows, inputs, env, Expr::Call { function, args }, n);
            function.0 < flows.len() ==> {
                let f = flows[function.0 as int];
                &&& r.len() == f.len()
                &&& forall|k: int|
                    0 <= k < f.len() ==> match #[trigger] f[k] {
                        Provenance::Param(i) => (i < args@.len() ==> r[k] == lookup_prov(env, args@[i as int])) && (
                        i >= args@.len() ==> r[k] == Provenance::Other),
                        Provenance::Top => r[k] == Provenance::Top,
                        Provenance::Other => r[k] == Provenance::Other,
                        _ => true,
                    }
            }
        }),
        function.0 >= flows.len() ==> sp_analyze_expr(flows, inputs, env, Expr::Call { function, args }, n) == Seq::new(
            n,
            |k: int| Provenance::Other,
        ),
{
    assert(function.0 >= flows.len() ==> others(n) =~= Seq::new(n, |k: int| Provenance::Other));
}

} // verus!
