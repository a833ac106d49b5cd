//! The type arena and linear capabilities.
//!
//! Types are built strictly from already-existing types (an append-only
//! arena), so recursion is impossible by construction: every type refers only
//! to types with smaller ids. The foundations are `never` and `unit`;
//! everything else is sums, products, unary function types, compact finite
//! domains (`Finite<N>`, used for integers), the string-like primitives
//! `Symbol`/`Text`, and named opaque primitives.
//!
//! A type may support `Dup` (explicit duplication) and/or `Zap` (explicit
//! dropping); supporting neither makes it linear. Capabilities are
//! structural: derived from components for sums and products, always present
//! on finite/function/`Symbol`/`Text`/`unit`/`never`. A declaration may claim
//! capabilities, but only ones the structure already has, except opaque
//! primitives, whose declared capabilities are axiomatic.

use vstd::prelude::*;

use crate::id::TypeId;

verus! {

/// Append-only arena of type definitions plus a name table. `never` and
/// `unit` are created up front.
#[derive(Clone, Debug, PartialEq, Eq)]
pub struct TypeStore {
    types: Vec<TypeDef>,
    names: Vec<(String, TypeId)>,
    never: TypeId,
    unit: TypeId,
}

#[derive(Clone, Debug, PartialEq, Eq)]
pub struct TypeDef {
    pub name: Option<String>,
    pub kind: TypeKind,
    pub declared: DeclaredCapabilities,
}

#[derive(Clone, Debug, PartialEq, Eq)]
pub enum TypeKind {
    Never,
    Unit,
    Finite { values: u128 },
    Sum(Vec<Component>),
    Product(Vec<Component>),
    Function { input: TypeId, output: TypeId },
    Symbol,
    Text,
    Primitive,
}

#[derive(Clone, Debug, PartialEq, Eq, Hash)]
pub struct Component {
    pub name: ComponentName,
    pub ty: TypeId,
}

#[derive(Clone, Debug, PartialEq, Eq, Hash)]
pub enum ComponentName {
    Named(String),
    Index(usize),
}

#[derive(Clone, Copy, Debug, Default, PartialEq, Eq, Structural)]
pub struct DeclaredCapabilities {
    pub dup: bool,
    pub zap: bool,
}

#[derive(Clone, Copy, Debug, PartialEq, Eq, Structural)]
pub struct Capabilities {
    pub dup: bool,
    pub zap: bool,
}

#[derive(Clone, Debug, PartialEq, Eq)]
pub enum TypeError {
    DuplicateName(String),
    EmptyName,
    UnknownType(TypeId),
    RecursiveType(TypeId),
    ZeroFiniteCardinality,
    UIntTooWide(u32),
    DeclaredCapabilityExceedsStructural { declared: Capabilities, structural: Capabilities },
}

// ---------------------------------------------------------------------------
// Mathematical model
// ---------------------------------------------------------------------------

/// Both capabilities.
pub open spec fn caps_full() -> Capabilities {
    Capabilities { dup: true, zap: true }
}

/// Neither capability.
pub open spec fn caps_none() -> Capabilities {
    Capabilities { dup: false, zap: false }
}

/// Pointwise conjunction of capabilities.
pub open spec fn caps_meet(a: Capabilities, b: Capabilities) -> Capabilities {
    Capabilities { dup: a.dup && b.dup, zap: a.zap && b.zap }
}

/// `have` grants everything `requested` asks for.
pub open spec fn caps_allow(have: Capabilities, requested: Capabilities) -> bool {
    (!requested.dup || have.dup) && (!requested.zap || have.zap)
}

pub open spec fn declared_caps(d: DeclaredCapabilities) -> Capabilities {
    Capabilities { dup: d.dup, zap: d.zap }
}

/// The components of a sum or product kind.
pub open spec fn kind_components(kind: TypeKind) -> Option<Seq<Component>> {
    match kind {
        TypeKind::Sum(cs) => Some(cs@),
        TypeKind::Product(cs) => Some(cs@),
        _ => None,
    }
}

/// Capabilities of type `id` in the arena `types`: the declared ones for a
/// primitive, the meet over all components for a sum or product, and both
/// for every other kind. Components refer to smaller ids, which bounds the
/// recursion.
pub open spec fn spec_capabilities(types: Seq<TypeDef>, id: int) -> Capabilities
    decreases id, 1int, 0int,
{
    if 0 <= id < types.len() {
        match types[id].kind {
            TypeKind::Primitive => declared_caps(types[id].declared),
            TypeKind::Sum(cs) => spec_components_capabilities(types, cs@, id),
            TypeKind::Product(cs) => spec_components_capabilities(types, cs@, id),
            _ => caps_full(),
        }
    } else {
        caps_none()
    }
}

/// Meet of the capabilities of `comps`, every one of which must lie below
/// `bound` (a component at or above the bound counts as linear).
pub open spec fn spec_components_capabilities(
    types: Seq<TypeDef>,
    comps: Seq<Component>,
    bound: int,
) -> Capabilities
    decreases bound, 0int, comps.len(),
{
    if comps.len() == 0 {
        caps_full()
    } else {
        let rest = spec_components_capabilities(types, comps.drop_last(), bound);
        let ty = comps.last().ty.0 as int;
        if ty < bound {
            caps_meet(rest, spec_capabilities(types, ty))
        } else {
            caps_none()
        }
    }
}

/// Capabilities a new type of `kind` would have structurally on top of the
/// arena `types`.
pub open spec fn spec_structural_capabilities(types: Seq<TypeDef>, kind: TypeKind) -> Capabilities {
    match kind {
        TypeKind::Primitive => caps_none(),
        TypeKind::Sum(cs) => spec_components_capabilities(types, cs@, types.len() as int),
        TypeKind::Product(cs) => spec_components_capabilities(types, cs@, types.len() as int),
        _ => caps_full(),
    }
}

/// Every type id that `kind` mentions is below `bound`.
pub open spec fn kind_refs_below(kind: TypeKind, bound: int) -> bool {
    match kind {
        TypeKind::Sum(cs) => forall|j: int| 0 <= j < cs@.len() ==> (#[trigger] cs@[j]).ty.0 < bound,
        TypeKind::Product(cs) => forall|j: int|
            0 <= j < cs@.len() ==> (#[trigger] cs@[j]).ty.0 < bound,
        TypeKind::Function { input, output } => input.0 < bound && output.0 < bound,
        _ => true,
    }
}

/// Definition `i` of the arena is well formed.
pub open spec fn def_wf(types: Seq<TypeDef>, i: int) -> bool {
    &&& kind_refs_below(types[i].kind, i)
    &&& (types[i].kind matches TypeKind::Finite { values } ==> values > 0)
    &&& (!(types[i].kind is Primitive) ==> caps_allow(
        spec_capabilities(types, i),
        declared_caps(types[i].declared),
    ))
}

/// First id bound to `name` in the name table.
pub open spec fn names_lookup(names: Seq<(Seq<char>, TypeId)>, name: Seq<char>) -> Option<TypeId>
    decreases names.len(),
{
    if names.len() == 0 {
        None
    } else if names[0].0 == name {
        Some(names[0].1)
    } else {
        names_lookup(names.drop_first(), name)
    }
}

pub open spec fn opt_string_view(name: Option<String>) -> Option<Seq<char>> {
    match name {
        Some(s) => Some(s@),
        None => None,
    }
}

/// The whole store invariant: the arena starts with `never` and `unit`, every
/// definition refers only to earlier types, finite types are inhabited,
/// declared capabilities of composites never exceed their structure, and the
/// name table maps distinct non-empty names to existing ids.
pub open spec fn store_wf(
    types: Seq<TypeDef>,
    names: Seq<(Seq<char>, TypeId)>,
    never: TypeId,
    unit: TypeId,
) -> bool {
    &&& types.len() <= u32::MAX
    &&& types.len() >= 2
    &&& never.0 == 0
    &&& unit.0 == 1
    &&& types[0].kind is Never
    &&& types[1].kind is Unit
    &&& forall|i: int| 0 <= i < types.len() ==> #[trigger] def_wf(types, i)
    &&& forall|k: int| 0 <= k < names.len() ==> (#[trigger] names[k]).1.0 < types.len()
    &&& forall|k: int| 0 <= k < names.len() ==> (#[trigger] names[k]).0.len() > 0
    &&& forall|k: int, l: int|
        0 <= k < l < names.len() ==> (#[trigger] names[k]).0 != (#[trigger] names[l]).0
}

impl TypeStore {
    /// The definitions, in id order.
    pub closed spec fn spec_types(&self) -> Seq<TypeDef> {
        self.types@
    }

    /// The name table, in insertion order.
    pub closed spec fn spec_names(&self) -> Seq<(Seq<char>, TypeId)> {
        self.names@.map_values(|p: (String, TypeId)| (p.0@, p.1))
    }

    pub closed spec fn spec_never(&self) -> TypeId {
        self.never
    }

    pub closed spec fn spec_unit(&self) -> TypeId {
        self.unit
    }

    pub open spec fn wf(&self) -> bool {
        store_wf(self.spec_types(), self.spec_names(), self.spec_never(), self.spec_unit())
    }

    /// Id `id` names a type of this store.
    pub open spec fn valid(&self, id: TypeId) -> bool {
        id.0 < self.spec_types().len()
    }

    pub open spec fn spec_caps_of(&self, id: TypeId) -> Capabilities {
        spec_capabilities(self.spec_types(), id.0 as int)
    }

    pub open spec fn spec_lookup(&self, name: Seq<char>) -> Option<TypeId> {
        names_lookup(self.spec_names(), name)
    }

    /// Why adding a type named `name` of `kind` declaring `declared` is
    /// refused, checked in this order: an empty name, a name already bound,
    /// declared capabilities beyond the structural ones.
    pub open spec fn add_type_refused(
        &self,
        name: Option<Seq<char>>,
        kind: TypeKind,
        declared: DeclaredCapabilities,
    ) -> bool {
        ||| name matches Some(n) && n.len() == 0
        ||| name matches Some(n) && self.spec_lookup(n) is Some
        ||| (!(kind is Primitive) && !caps_allow(
            spec_structural_capabilities(self.spec_types(), kind),
            declared_caps(declared),
        ))
    }

    /// Names of `self` plus `name` bound to the next id.
    pub open spec fn names_after_add(&self, name: Option<Seq<char>>) -> Seq<(Seq<char>, TypeId)> {
        match name {
            Some(n) => self.spec_names().push((n, TypeId(self.spec_types().len() as u32))),
            None => self.spec_names(),
        }
    }
}

/// Ids of the components of `comps` that do not name an existing type.
pub open spec fn components_error(types_len: int, comps: Seq<Component>) -> Option<TypeError>
    decreases comps.len(),
{
    if comps.len() == 0 {
        None
    } else if comps[0].ty.0 >= types_len {
        Some(TypeError::UnknownType(comps[0].ty))
    } else if comps[0].name matches ComponentName::Named(n) && n@.len() == 0 {
        Some(TypeError::EmptyName)
    } else {
        components_error(types_len, comps.drop_first())
    }
}

// ---------------------------------------------------------------------------
// Lemmas
// ---------------------------------------------------------------------------

/// Component capabilities only depend on the definitions below the bound.
proof fn lemma_components_caps_prefix(
    types: Seq<TypeDef>,
    ext: Seq<TypeDef>,
    comps: Seq<Component>,
    bound: int,
)
    requires
        0 <= bound <= types.len() <= ext.len(),
        types == ext.subrange(0, types.len() as int),
        forall|i: int| 0 <= i < types.len() ==> kind_refs_below(#[trigger] types[i].kind, i),
    ensures
        spec_components_capabilities(types, comps, bound) == spec_components_capabilities(
            ext,
            comps,
            bound,
        ),
    decreases bound, 0int, comps.len(),
{
    if comps.len() > 0 {
        lemma_components_caps_prefix(types, ext, comps.drop_last(), bound);
        let ty = comps.last().ty.0 as int;
        if ty < bound {
            lemma_caps_prefix(types, ext, ty);
        }
    }
}

/// Capabilities of an existing type do not change when the arena grows.
proof fn lemma_caps_prefix(types: Seq<TypeDef>, ext: Seq<TypeDef>, id: int)
    requires
        0 <= id,
        types.len() <= ext.len(),
        types == ext.subrange(0, types.len() as int),
        forall|i: int| 0 <= i < types.len() ==> kind_refs_below(#[trigger] types[i].kind, i),
    ensures
        id < types.len() ==> spec_capabilities(types, id) == spec_capabilities(ext, id),
    decreases id, 1int, 0int,
{
    if id < types.len() {
        assert(types[id] == ext[id]);
        match types[id].kind {
            TypeKind::Sum(cs) => {
                lemma_components_caps_prefix(types, ext, cs@, id);
            },
            TypeKind::Product(cs) => {
                lemma_components_caps_prefix(types, ext, cs@, id);
            },
            _ => {},
        }
    }
}

/// Component capabilities with two bounds that both exceed every component
/// agree.
proof fn lemma_components_caps_bound(
    types: Seq<TypeDef>,
    comps: Seq<Component>,
    b1: int,
    b2: int,
)
    requires
        forall|j: int| 0 <= j < comps.len() ==> (#[trigger] comps[j]).ty.0 < b1,
        b1 <= b2,
    ensures
        spec_components_capabilities(types, comps, b1) == spec_components_capabilities(
            types,
            comps,
            b2,
        ),
    decreases comps.len(),
{
    if comps.len() > 0 {
        assert(comps.last() == comps[comps.len() - 1]);
        lemma_components_caps_bound(types, comps.drop_last(), b1, b2);
    }
}

/// The structural capabilities computed when a type is added are the
/// capabilities it has once stored.
proof fn lemma_structural_is_stored_caps(types: Seq<TypeDef>, def: TypeDef)
    requires
        kind_refs_below(def.kind, types.len() as int),
        forall|i: int| 0 <= i < types.len() ==> kind_refs_below(#[trigger] types[i].kind, i),
    ensures
        !(def.kind is Primitive) ==> spec_capabilities(types.push(def), types.len() as int)
            == spec_structural_capabilities(types, def.kind),
        def.kind is Primitive ==> spec_capabilities(types.push(def), types.len() as int)
            == declared_caps(def.declared),
{
    let ext = types.push(def);
    assert(types == ext.subrange(0, types.len() as int));
    match def.kind {
        TypeKind::Sum(cs) => {
            lemma_components_caps_prefix(types, ext, cs@, types.len() as int);
        },
        TypeKind::Product(cs) => {
            lemma_components_caps_prefix(types, ext, cs@, types.len() as int);
        },
        _ => {},
    }
}

/// A name bound in a table stays bound, to the same id, once more entries
/// follow.
pub(crate) proof fn lemma_names_lookup_prefix(
    p: Seq<(Seq<char>, TypeId)>,
    q: Seq<(Seq<char>, TypeId)>,
    n: Seq<char>,
)
    requires
        p.len() <= q.len(),
        q.subrange(0, p.len() as int) == p,
        names_lookup(p, n) is Some,
    ensures
        names_lookup(q, n) == names_lookup(p, n),
    decreases p.len(),
{
    assert(q[0] == p[0]);
    if p[0].0 != n {
        assert(q.drop_first().subrange(0, p.drop_first().len() as int) =~= p.drop_first());
        lemma_names_lookup_prefix(p.drop_first(), q.drop_first(), n);
    }
}

/// A name of a well-formed store names an existing type.
pub(crate) proof fn lemma_names_lookup_valid(store: TypeStore, n: Seq<char>)
    requires
        store.wf(),
    ensures
        store.spec_lookup(n) matches Some(t) ==> store.valid(t),
{
    lemma_names_lookup_some(store.spec_names(), n);
}

/// A looked-up name is bound in the table.
pub(crate) proof fn lemma_names_lookup_some(names: Seq<(Seq<char>, TypeId)>, n: Seq<char>)
    ensures
        names_lookup(names, n) is Some <==> exists|k: int| 0 <= k < names.len() && names[k].0 == n,
        names_lookup(names, n) matches Some(id) ==> exists|k: int|
            0 <= k < names.len() && names[k].0 == n && names[k].1 == id,
    decreases names.len(),
{
    if names.len() > 0 {
        lemma_names_lookup_some(names.drop_first(), n);
        if names[0].0 != n {
            if exists|k: int| 0 <= k < names.len() && names[k].0 == n {
                let k = choose|k: int| 0 <= k < names.len() && names[k].0 == n;
                assert(names.drop_first()[k - 1].0 == n);
            }
            if names_lookup(names, n) is Some {
                let k = choose|k: int|
                    0 <= k < names.drop_first().len() && names.drop_first()[k].0 == n
                        && names.drop_first()[k].1 == names_lookup(names, n)->0;
                assert(names[k + 1].0 == n);
            }
        }
    }
}

impl TypeStore {
    /// Every stored definition refers only to earlier types.
    pub proof fn lemma_refs_below(&self)
        requires
            self.wf(),
        ensures
            forall|i: int|
                0 <= i < self.spec_types().len() ==> kind_refs_below(
                    #[trigger] self.spec_types()[i].kind,
                    i,
                ),
    {
        assert forall|i: int| 0 <= i < self.spec_types().len() implies kind_refs_below(
            #[trigger] self.spec_types()[i].kind,
            i,
        ) by {
            assert(def_wf(self.spec_types(), i));
        }
    }
}

/// The meet over components holds a capability exactly when every component
/// holds it.
proof fn lemma_components_caps_all(types: Seq<TypeDef>, comps: Seq<Component>, bound: int)
    requires
        forall|j: int| 0 <= j < comps.len() ==> (#[trigger] comps[j]).ty.0 < bound,
    ensures
        spec_components_capabilities(types, comps, bound).dup <==> (forall|j: int|
            0 <= j < comps.len() ==> #[trigger] spec_capabilities(types, comps[j].ty.0 as int).dup),
        spec_components_capabilities(types, comps, bound).zap <==> (forall|j: int|
            0 <= j < comps.len() ==> #[trigger] spec_capabilities(types, comps[j].ty.0 as int).zap),
    decreases comps.len(),
{
    if comps.len() > 0 {
        let init = comps.drop_last();
        lemma_components_caps_all(types, init, bound);
        assert(comps.last() == comps[comps.len() - 1]);
        assert forall|j: int| 0 <= j < init.len() implies init[j] == comps[j] by {}
        if spec_components_capabilities(types, comps, bound).dup {
            assert forall|j: int| 0 <= j < comps.len() implies #[trigger] spec_capabilities(
                types,
                comps[j].ty.0 as int,
            ).dup by {
                if j < init.len() {
                    assert(init[j] == comps[j]);
                }
            }
        }
        if spec_components_capabilities(types, comps, bound).zap {
            assert forall|j: int| 0 <= j < comps.len() implies #[trigger] spec_capabilities(
                types,
                comps[j].ty.0 as int,
            ).zap by {
                if j < init.len() {
                    assert(init[j] == comps[j]);
                }
            }
        }
        if forall|j: int| 0 <= j < comps.len() ==> #[trigger] spec_capabilities(types, comps[j].ty.0 as int).dup {
            assert forall|j: int| 0 <= j < init.len() implies #[trigger] spec_capabilities(
                types,
                init[j].ty.0 as int,
            ).dup by {
                assert(init[j] == comps[j]);
            }
            assert(spec_capabilities(types, comps[comps.len() - 1].ty.0 as int).dup);
        }
        if forall|j: int| 0 <= j < comps.len() ==> #[trigger] spec_capabilities(types, comps[j].ty.0 as int).zap {
            assert forall|j: int| 0 <= j < init.len() implies #[trigger] spec_capabilities(
                types,
                init[j].ty.0 as int,
            ).zap by {
                assert(init[j] == comps[j]);
            }
            assert(spec_capabilities(types, comps[comps.len() - 1].ty.0 as int).zap);
        }
    }
}

/// Capabilities of a sum or product are structural: the composite can be
/// duplicated (dropped) exactly when every component can, so a linear
/// component can never be laundered away by wrapping it.
pub proof fn lemma_composite_capabilities_structural(store: &TypeStore, id: TypeId)
    requires
        store.wf(),
        store.valid(id),
        kind_components(store.spec_types()[id.0 as int].kind) is Some,
    ensures
        ({
            let comps = kind_components(store.spec_types()[id.0 as int].kind)->0;
            &&& store.spec_caps_of(id).dup <==> (forall|j: int|
                0 <= j < comps.len() ==> #[trigger] store.spec_caps_of(comps[j].ty).dup)
            &&& store.spec_caps_of(id).zap <==> (forall|j: int|
                0 <= j < comps.len() ==> #[trigger] store.spec_caps_of(comps[j].ty).zap)
        }),
{
    store.lemma_refs_below();
    let comps = kind_components(store.spec_types()[id.0 as int].kind)->0;
    assert(kind_refs_below(store.spec_types()[id.0 as int].kind, id.0 as int));
    lemma_components_caps_all(store.spec_types(), comps, id.0 as int);
    assert(store.spec_caps_of(id) == spec_components_capabilities(store.spec_types(), comps, id.0 as int));
    let types = store.spec_types();
    if store.spec_caps_of(id).dup {
        assert forall|j: int| 0 <= j < comps.len() implies #[trigger] store.spec_caps_of(
            comps[j].ty,
        ).dup by {
            assert(spec_capabilities(types, comps[j].ty.0 as int).dup);
        }
    } else {
        let j = choose|j: int|
            0 <= j < comps.len() && !#[trigger] spec_capabilities(types, comps[j].ty.0 as int).dup;
        assert(!store.spec_caps_of(comps[j].ty).dup);
    }
    if store.spec_caps_of(id).zap {
        assert forall|j: int| 0 <= j < comps.len() implies #[trigger] store.spec_caps_of(
            comps[j].ty,
        ).zap by {
            assert(spec_capabilities(types, comps[j].ty.0 as int).zap);
        }
    } else {
        let j = choose|j: int|
            0 <= j < comps.len() && !#[trigger] spec_capabilities(types, comps[j].ty.0 as int).zap;
        assert(!store.spec_caps_of(comps[j].ty).zap);
    }
}

/// A stored type never has a capability its declaration does not allow for
/// composites: declared capabilities of every non-primitive type are within
/// its capabilities, and a primitive has exactly its declared ones.
pub proof fn lemma_declared_within_capabilities(store: &TypeStore, id: TypeId)
    requires
        store.wf(),
        store.valid(id),
    ensures
        !(store.spec_types()[id.0 as int].kind is Primitive) ==> caps_allow(
            store.spec_caps_of(id),
            declared_caps(store.spec_types()[id.0 as int].declared),
        ),
        store.spec_types()[id.0 as int].kind is Primitive ==> store.spec_caps_of(id)
            == declared_caps(store.spec_types()[id.0 as int].declared),
{
    assert(def_wf(store.spec_types(), id.0 as int));
}

/// Capabilities of existing types are stable when the arena grows: a store
/// whose definitions extend another's gives every old type the same
/// capabilities.
pub proof fn lemma_capabilities_stable(old: &TypeStore, new: &TypeStore, id: TypeId)
    requires
        old.wf(),
        new.wf(),
        old.spec_types().len() <= new.spec_types().len(),
        new.spec_types().subrange(0, old.spec_types().len() as int) == old.spec_types(),
        old.valid(id),
    ensures
        new.spec_caps_of(id) == old.spec_caps_of(id),
{
    old.lemma_refs_below();
    lemma_caps_prefix(old.spec_types(), new.spec_types(), id.0 as int);
}

// ---------------------------------------------------------------------------
// Executable API
// ---------------------------------------------------------------------------

impl TypeStore {
    pub fn new() -> (store: Self)
        ensures
            store.wf(),
            store.spec_types().len() == 2,
            store.spec_types()[0] == (TypeDef {
                name: store.spec_types()[0].name,
                kind: TypeKind::Never,
                declared: DeclaredCapabilities { dup: true, zap: true },
            }),
            store.spec_types()[1] == (TypeDef {
                name: store.spec_types()[1].name,
                kind: TypeKind::Unit,
                declared: DeclaredCapabilities { dup: true, zap: true },
            }),
            opt_string_view(store.spec_types()[0].name) == Some("Never"@),
            opt_string_view(store.spec_types()[1].name) == Some("Unit"@),
            store.spec_names() == seq![("Never"@, TypeId(0)), ("Unit"@, TypeId(1))],
            store.spec_never() == TypeId(0),
            store.spec_unit() == TypeId(1),
    {
        let never_name = "Never".to_owned();
        let unit_name = "Unit".to_owned();
        proof {
            reveal_strlit("Never");
            reveal_strlit("Unit");
        }
        let mut types: Vec<TypeDef> = Vec::new();
        types.push(
            TypeDef {
                name: Some(never_name.clone()),
                kind: TypeKind::Never,
                declared: DeclaredCapabilities::dup_zap(),
            },
        );
        types.push(
            TypeDef {
                name: Some(unit_name.clone()),
                kind: TypeKind::Unit,
                declared: DeclaredCapabilities::dup_zap(),
            },
        );
        let mut names: Vec<(String, TypeId)> = Vec::new();
        names.push((never_name, TypeId(0)));
        names.push((unit_name, TypeId(1)));
        let store = TypeStore { types, names, never: TypeId(0), unit: TypeId(1) };
        proof {
            assert(store.spec_names() =~= seq![("Never"@, TypeId(0)), ("Unit"@, TypeId(1))]);
            assert forall|i: int| 0 <= i < store.spec_types().len() implies #[trigger] def_wf(
                store.spec_types(),
                i,
            ) by {}
            assert("Never"@.len() > 0);
            assert("Unit"@.len() > 0);
            assert("Never"@ != "Unit"@) by {
                assert("Never"@[0] != "Unit"@[0]);
            }
        }
        store
    }

    /// How many definitions the arena holds.
    pub(crate) fn type_count(&self) -> (n: usize)
        ensures
            n == self.spec_types().len(),
    {
        self.types.len()
    }

    pub fn never(&self) -> (id: TypeId)
        ensures
            id == self.spec_never(),
    {
        self.never
    }

    pub fn unit(&self) -> (id: TypeId)
        ensures
            id == self.spec_unit(),
    {
        self.unit
    }

    pub fn get(&self, id: TypeId) -> (def: Option<&TypeDef>)
        ensures
            self.valid(id) ==> def == Some(&self.spec_types()[id.0 as int]),
            !self.valid(id) ==> def is None,
    {
        if (id.0 as usize) < self.types.len() {
            Some(&self.types[id.0 as usize])
        } else {
            None
        }
    }

    pub fn type_id(&self, name: &str) -> (id: Option<TypeId>)
        ensures
            id == self.spec_lookup(name@),
    {
        let key: String = name.to_owned();
        let mut i: usize = 0;
        assert(self.spec_names().skip(0) == self.spec_names());
        while i < self.names.len()
            invariant
                0 <= i <= self.names@.len(),
                self.spec_lookup(name@) == names_lookup(self.spec_names().skip(i as int), name@),
                key@ == name@,
            decreases self.names@.len() - i,
        {
            let ghost rest = self.spec_names().skip(i as int);
            assert(rest[0] == (self.names@[i as int].0@, self.names@[i as int].1));
            if self.names[i].0 == key {
                return Some(self.names[i].1);
            }
            assert(rest.drop_first() == self.spec_names().skip(i + 1));
            i += 1;
        }
        None
    }

    fn name_exists(&self, name: &String) -> (b: bool)
        ensures
            b == (self.spec_lookup(name@) is Some),
    {
        self.type_id(name.as_str()).is_some()
    }

    pub fn add_alias(&mut self, name: &str, target: TypeId) -> (r: Result<(), TypeError>)
        requires
            old(self).wf(),
        ensures
            final(self).wf(),
            final(self).spec_types() == old(self).spec_types(),
            final(self).spec_never() == old(self).spec_never(),
            final(self).spec_unit() == old(self).spec_unit(),
            !old(self).valid(target) ==> r == Err::<(), TypeError>(TypeError::UnknownType(target)),
            old(self).valid(target) && name@.len() == 0 ==> r == Err::<(), TypeError>(
                TypeError::EmptyName,
            ),
            old(self).valid(target) && name@.len() > 0 && old(self).spec_lookup(name@) is Some
                ==> (r matches Err(TypeError::DuplicateName(n)) && n@ == name@),
            r is Ok <==> (old(self).valid(target) && name@.len() > 0 && old(self).spec_lookup(
                name@,
            ) is None),
            r is Ok ==> final(self).spec_names() == old(self).spec_names().push((name@, target)),
            r is Err ==> final(self).spec_names() == old(self).spec_names(),
    {
        if (target.0 as usize) >= self.types.len() {
            return Err(TypeError::UnknownType(target));
        }
        if name.is_empty() {
            return Err(TypeError::EmptyName);
        }
        let name: String = name.to_owned();
        if self.name_exists(&name) {
            return Err(TypeError::DuplicateName(name));
        }
        let ghost old_names = self.spec_names();
        self.names.push((name, target));
        proof {
            assert(self.spec_names() =~= old_names.push((name@, target)));
            lemma_names_lookup_some(old_names, name@);
            let names = self.spec_names();
            assert forall|k: int, l: int| 0 <= k < l < names.len() implies (#[trigger] names[k]).0
                != (#[trigger] names[l]).0 by {
                if l == names.len() - 1 {
                    assert(old_names[k] == names[k]);
                }
            }
        }
        Ok(())
    }

    /// Every definition paired with its id, in id order.
    pub fn types(&self) -> (all: Vec<(TypeId, &TypeDef)>)
        requires
            self.wf(),
        ensures
            all@.len() == self.spec_types().len(),
            forall|i: int|
                0 <= i < all@.len() ==> (#[trigger] all@[i]).0 == TypeId(i as u32) && *all@[i].1
                    == self.spec_types()[i],
    {
        let mut all: Vec<(TypeId, &TypeDef)> = Vec::new();
        let mut i: usize = 0;
        while i < self.types.len()
            invariant
                0 <= i <= self.types@.len() <= u32::MAX,
                self.spec_types() == self.types@,
                all@.len() == i,
                forall|k: int|
                    0 <= k < i ==> (#[trigger] all@[k]).0 == TypeId(k as u32) && *all@[k].1
                        == self.spec_types()[k],
            decreases self.types@.len() - i,
        {
            all.push((TypeId(i as u32), &self.types[i]));
            i += 1;
        }
        all
    }

    pub fn add_finite(&mut self, name: Option<String>, values: u128, declared: DeclaredCapabilities) -> (r: Result<TypeId, TypeError>)
        requires
            old(self).wf(),
            old(self).spec_types().len() < u32::MAX,
        ensures
            values == 0 ==> r == Err::<TypeId, TypeError>(TypeError::ZeroFiniteCardinality),
            values > 0 ==> final(self).added_type(
                *old(self),
                opt_string_view(name),
                TypeKind::Finite { values },
                declared,
                r,
            ),
            values == 0 ==> *final(self) == *old(self),
            final(self).wf(),
    {
        if values == 0 {
            return Err(TypeError::ZeroFiniteCardinality);
        }
        self.add_type(name, TypeKind::Finite { values }, declared)
    }

    pub fn add_uint(&mut self, name: &str, bits: u32) -> (r: Result<TypeId, TypeError>)
        requires
            old(self).wf(),
            old(self).spec_types().len() < u32::MAX,
        ensures
            bits >= 128 ==> r == Err::<TypeId, TypeError>(TypeError::UIntTooWide(bits)),
            bits >= 128 ==> *final(self) == *old(self),
            bits < 128 ==> final(self).added_type(
                *old(self),
                Some(name@),
                TypeKind::Finite { values: vstd::arithmetic::power2::pow2(bits as nat) as u128 },
                DeclaredCapabilities { dup: true, zap: true },
                r,
            ),
            final(self).wf(),
    {
        if bits >= 128 {
            return Err(TypeError::UIntTooWide(bits));
        }
        let values: u128 = 1u128 << bits;
        proof {
            lemma_shift_is_pow2(bits);
            assert(vstd::arithmetic::power2::pow2(bits as nat) as u128 == values);
            vstd::arithmetic::power2::lemma_pow2_pos(bits as nat);
        }
        let owned: String = name.to_owned();
        assert(opt_string_view(Some(owned)) == Some(name@));
        self.add_finite(Some(owned), values, DeclaredCapabilities::dup_zap())
    }

    pub fn add_sum(&mut self, name: Option<String>, variants: Vec<Component>, declared: DeclaredCapabilities) -> (r: Result<TypeId, TypeError>)
        requires
            old(self).wf(),
            old(self).spec_types().len() < u32::MAX,
        ensures
            final(self).wf(),
            components_error(old(self).spec_types().len() as int, variants@) matches Some(e) ==> r
                == Err::<TypeId, TypeError>(e) && *final(self) == *old(self),
            components_error(old(self).spec_types().len() as int, variants@) is None
                ==> final(self).added_type(
                *old(self),
                opt_string_view(name),
                TypeKind::Sum(variants),
                declared,
                r,
            ),
    {
        let ghost old_variants = variants@;
        self.validate_components(&variants)?;
        self.add_type(name, TypeKind::Sum(variants), declared)
    }

    pub fn add_product(&mut self, name: Option<String>, fields: Vec<Component>, declared: DeclaredCapabilities) -> (r: Result<TypeId, TypeError>)
        requires
            old(self).wf(),
            old(self).spec_types().len() < u32::MAX,
        ensures
            final(self).wf(),
            components_error(old(self).spec_types().len() as int, fields@) matches Some(e) ==> r
                == Err::<TypeId, TypeError>(e) && *final(self) == *old(self),
            components_error(old(self).spec_types().len() as int, fields@) is None
                ==> final(self).added_type(
                *old(self),
                opt_string_view(name),
                TypeKind::Product(fields),
                declared,
                r,
            ),
    {
        self.validate_components(&fields)?;
        self.add_type(name, TypeKind::Product(fields), declared)
    }

    pub fn add_function(&mut self, name: Option<String>, input: TypeId, output: TypeId) -> (r: Result<TypeId, TypeError>)
        requires
            old(self).wf(),
            old(self).spec_types().len() < u32::MAX,
        ensures
            final(self).wf(),
            !old(self).valid(input) ==> r == Err::<TypeId, TypeError>(TypeError::UnknownType(input))
                && *final(self) == *old(self),
            old(self).valid(input) && !old(self).valid(output) ==> r == Err::<TypeId, TypeError>(
                TypeError::UnknownType(output),
            ) && *final(self) == *old(self),
            old(self).valid(input) && old(self).valid(output) ==> final(self).added_type(
                *old(self),
                opt_string_view(name),
                TypeKind::Function { input, output },
                DeclaredCapabilities { dup: true, zap: true },
                r,
            ),
    {
        if (input.0 as usize) >= self.types.len() {
            return Err(TypeError::UnknownType(input));
        }
        if (output.0 as usize) >= self.types.len() {
            return Err(TypeError::UnknownType(output));
        }
        self.add_type(name, TypeKind::Function { input, output }, DeclaredCapabilities::dup_zap())
    }

    pub fn add_symbol(&mut self, name: &str) -> (r: Result<TypeId, TypeError>)
        requires
            old(self).wf(),
            old(self).spec_types().len() < u32::MAX,
        ensures
            final(self).wf(),
            final(self).added_type(
                *old(self),
                Some(name@),
                TypeKind::Symbol,
                DeclaredCapabilities { dup: true, zap: true },
                r,
            ),
    {
        self.add_type(Some(name.to_owned()), TypeKind::Symbol, DeclaredCapabilities::dup_zap())
    }

    pub fn add_text(&mut self, name: &str) -> (r: Result<TypeId, TypeError>)
        requires
            old(self).wf(),
            old(self).spec_types().len() < u32::MAX,
        ensures
            final(self).wf(),
            final(self).added_type(
                *old(self),
                Some(name@),
                TypeKind::Text,
                DeclaredCapabilities { dup: true, zap: true },
                r,
            ),
    {
        self.add_type(Some(name.to_owned()), TypeKind::Text, DeclaredCapabilities::dup_zap())
    }

    pub fn add_primitive(&mut self, name: &str, declared: DeclaredCapabilities) -> (r: Result<TypeId, TypeError>)
        requires
            old(self).wf(),
            old(self).spec_types().len() < u32::MAX,
        ensures
            final(self).wf(),
            final(self).added_type(*old(self), Some(name@), TypeKind::Primitive, declared, r),
    {
        self.add_type(Some(name.to_owned()), TypeKind::Primitive, declared)
    }

    pub fn capabilities(&self, id: TypeId) -> (r: Result<Capabilities, TypeError>)
        requires
            self.wf(),
        ensures
            self.valid(id) ==> r == Ok::<Capabilities, TypeError>(self.spec_caps_of(id)),
            !self.valid(id) ==> r == Err::<Capabilities, TypeError>(TypeError::UnknownType(id)),
    {
        if (id.0 as usize) >= self.types.len() {
            return Err(TypeError::UnknownType(id));
        }
        Ok(self.capabilities_of(id))
    }

    pub fn can_dup(&self, id: TypeId) -> (r: Result<bool, TypeError>)
        requires
            self.wf(),
        ensures
            self.valid(id) ==> r == Ok::<bool, TypeError>(self.spec_caps_of(id).dup),
            !self.valid(id) ==> r == Err::<bool, TypeError>(TypeError::UnknownType(id)),
    {
        match self.capabilities(id) {
            Ok(caps) => Ok(caps.dup),
            Err(e) => Err(e),
        }
    }

    pub fn can_zap(&self, id: TypeId) -> (r: Result<bool, TypeError>)
        requires
            self.wf(),
        ensures
            self.valid(id) ==> r == Ok::<bool, TypeError>(self.spec_caps_of(id).zap),
            !self.valid(id) ==> r == Err::<bool, TypeError>(TypeError::UnknownType(id)),
    {
        match self.capabilities(id) {
            Ok(caps) => Ok(caps.zap),
            Err(e) => Err(e),
        }
    }

    /// `self` is `old` with one definition appended (or unchanged with the
    /// reason for the refusal), as `add_type` leaves it.
    pub open spec fn added_type(
        &self,
        old: TypeStore,
        name: Option<Seq<char>>,
        kind: TypeKind,
        declared: DeclaredCapabilities,
        r: Result<TypeId, TypeError>,
    ) -> bool {
        &&& (r is Ok <==> !old.add_type_refused(name, kind, declared))
        &&& (name matches Some(n) && n.len() == 0 ==> r == Err::<TypeId, TypeError>(
            TypeError::EmptyName,
        ))
        &&& (name is Some && name->0.len() > 0 && old.spec_lookup(name->0) is Some ==> (r matches Err(
            TypeError::DuplicateName(d),
        ) && d@ == name->0))
        &&& (!(name matches Some(n) && (n.len() == 0 || old.spec_lookup(n) is Some)) && !(
        kind is Primitive) && !caps_allow(
            spec_structural_capabilities(old.spec_types(), kind),
            declared_caps(declared),
        ) ==> r == Err::<TypeId, TypeError>(
            TypeError::DeclaredCapabilityExceedsStructural {
                declared: declared_caps(declared),
                structural: spec_structural_capabilities(old.spec_types(), kind),
            },
        ))
        &&& (r is Err ==> *self == old)
        &&& (r matches Ok(id) ==> {
            &&& id.0 == old.spec_types().len()
            &&& self.spec_types().len() == old.spec_types().len() + 1
            &&& self.spec_types().subrange(0, old.spec_types().len() as int) == old.spec_types()
            &&& opt_string_view(self.spec_types()[id.0 as int].name) == name
            &&& self.spec_types()[id.0 as int].kind == kind
            &&& self.spec_types()[id.0 as int].declared == declared
            &&& self.spec_names() == old.names_after_add(name)
            &&& self.spec_never() == old.spec_never()
            &&& self.spec_unit() == old.spec_unit()
        })
    }

    fn add_type(&mut self, name: Option<String>, kind: TypeKind, declared: DeclaredCapabilities) -> (r: Result<TypeId, TypeError>)
        requires
            old(self).wf(),
            old(self).spec_types().len() < u32::MAX,
            kind_refs_below(kind, old(self).spec_types().len() as int),
            kind matches TypeKind::Finite { values } ==> values > 0,
        ensures
            final(self).wf(),
            final(self).added_type(*old(self), opt_string_view(name), kind, declared, r),
    {
        if let Some(n) = &name {
            if n.as_str().is_empty() {
                return Err(TypeError::EmptyName);
            }
            if self.name_exists(n) {
                return Err(TypeError::DuplicateName(n.clone()));
            }
        }
        let ghost gname = opt_string_view(name);
        if let Err(e) = self.validate_declared_capabilities(&kind, declared) {
            return Err(e);
        }
        let ghost old_types = self.spec_types();
        let ghost old_names = self.spec_names();
        let id = TypeId(self.types.len() as u32);
        let def = TypeDef { name: name.clone(), kind, declared };
        proof {
            self.lemma_refs_below();
            lemma_structural_is_stored_caps(old_types, def);
        }
        self.types.push(def);
        if let Some(n) = name {
            self.names.push((n, id));
        }
        proof {
            let types = self.spec_types();
            assert(types.subrange(0, old_types.len() as int) == old_types);
            assert forall|i: int| 0 <= i < types.len() implies #[trigger] def_wf(types, i) by {
                if i < old_types.len() {
                    assert(def_wf(old_types, i));
                    assert(old_types[i] == types[i]);
                    lemma_caps_prefix(old_types, types, i);
                }
            }
            assert(self.spec_names() =~= old(self).names_after_add(gname));
            if let Some(n) = gname {
                lemma_names_lookup_some(old_names, n);
                let names = self.spec_names();
                assert forall|k: int, l: int| 0 <= k < l < names.len() implies (#[trigger] names[k]).0
                    != (#[trigger] names[l]).0 by {
                    if l == names.len() - 1 {
                        assert(old_names[k] == names[k]);
                    }
                }
            }
        }
        Ok(id)
    }

    fn validate_declared_capabilities(&self, kind: &TypeKind, declared: DeclaredCapabilities) -> (r: Result<(), TypeError>)
        requires
            self.wf(),
            kind_refs_below(*kind, self.spec_types().len() as int),
        ensures
            kind is Primitive ==> r is Ok,
            !(kind is Primitive) ==> (r is Ok <==> caps_allow(
                spec_structural_capabilities(self.spec_types(), *kind),
                declared_caps(declared),
            )),
            r is Err ==> r == Err::<(), TypeError>(
                TypeError::DeclaredCapabilityExceedsStructural {
                    declared: declared_caps(declared),
                    structural: spec_structural_capabilities(self.spec_types(), *kind),
                },
            ),
    {
        if let TypeKind::Primitive = kind {
            return Ok(());
        }
        let structural = self.structural_capabilities_for_kind(kind);
        let declared = declared.into_capabilities();
        if structural.allows(declared) {
            Ok(())
        } else {
            Err(TypeError::DeclaredCapabilityExceedsStructural { declared, structural })
        }
    }

    fn structural_capabilities_for_kind(&self, kind: &TypeKind) -> (caps: Capabilities)
        requires
            self.wf(),
            kind_refs_below(*kind, self.spec_types().len() as int),
        ensures
            caps == spec_structural_capabilities(self.spec_types(), *kind),
    {
        match kind {
            TypeKind::Primitive => Capabilities::linear(),
            TypeKind::Sum(components) => {
                let len = self.types.len();
                self.components_capabilities(components, len)
            },
            TypeKind::Product(components) => {
                let len = self.types.len();
                self.components_capabilities(components, len)
            },
            _ => Capabilities::dup_zap(),
        }
    }

    /// Meet of the capabilities of `components`, all of which are below
    /// `bound`.
    fn components_capabilities(&self, components: &Vec<Component>, bound: usize) -> (caps: Capabilities)
        requires
            self.wf(),
            bound <= self.spec_types().len(),
            forall|j: int| 0 <= j < components@.len() ==> (#[trigger] components@[j]).ty.0 < bound,
        ensures
            caps == spec_components_capabilities(self.spec_types(), components@, bound as int),
        decreases bound, 0int,
    {
        let mut caps = Capabilities::dup_zap();
        let mut j: usize = 0;
        while j < components.len()
            invariant
                0 <= j <= components@.len(),
                self.wf(),
                bound <= self.spec_types().len(),
                forall|k: int| 0 <= k < components@.len() ==> (#[trigger] components@[k]).ty.0 < bound,
                caps == spec_components_capabilities(
                    self.spec_types(),
                    components@.subrange(0, j as int),
                    bound as int,
                ),
            decreases components@.len() - j,
        {
            let ty = components[j].ty;
            let component_caps = self.capabilities_of(ty);
            caps = Capabilities { dup: caps.dup && component_caps.dup, zap: caps.zap && component_caps.zap };
            proof {
                let next = components@.subrange(0, j + 1);
                assert(next.drop_last() =~= components@.subrange(0, j as int));
                assert(next.last() == components@[j as int]);
            }
            j += 1;
        }
        assert(components@.subrange(0, components@.len() as int) =~= components@);
        caps
    }

    fn capabilities_of(&self, id: TypeId) -> (caps: Capabilities)
        requires
            self.wf(),
            self.valid(id),
        ensures
            caps == self.spec_caps_of(id),
        decreases id.0, 1int,
    {
        let def = &self.types[id.0 as usize];
        proof {
            assert(def_wf(self.spec_types(), id.0 as int));
        }
        match &def.kind {
            TypeKind::Primitive => def.declared.into_capabilities(),
            TypeKind::Sum(components) => self.components_capabilities(components, id.0 as usize),
            TypeKind::Product(components) => self.components_capabilities(components, id.0 as usize),
            _ => Capabilities::dup_zap(),
        }
    }

    fn validate_components(&self, components: &Vec<Component>) -> (r: Result<(), TypeError>)
        requires
            self.wf(),
        ensures
            r is Ok <==> components_error(self.spec_types().len() as int, components@) is None,
            components_error(self.spec_types().len() as int, components@) matches Some(e) ==> r
                == Err::<(), TypeError>(e),
            r is Ok ==> forall|j: int|
                0 <= j < components@.len() ==> (#[trigger] components@[j]).ty.0
                    < self.spec_types().len(),
    {
        let mut j: usize = 0;
        assert(components@.skip(0) == components@);
        while j < components.len()
            invariant
                0 <= j <= components@.len(),
                components_error(self.spec_types().len() as int, components@)
                    == components_error(
                    self.spec_types().len() as int,
                    components@.skip(j as int),
                ),
                forall|k: int| 0 <= k < j ==> (#[trigger] components@[k]).ty.0 < self.spec_types().len(),
            decreases components@.len() - j,
        {
            let component = &components[j];
            let ghost rest = components@.skip(j as int);
            assert(rest[0] == components@[j as int]);
            if (component.ty.0 as usize) >= self.types.len() {
                return Err(TypeError::UnknownType(component.ty));
            }
            if let ComponentName::Named(name) = &component.name {
                if name.as_str().is_empty() {
                    return Err(TypeError::EmptyName);
                }
            }
            assert(rest.drop_first() =~= components@.skip(j + 1));
            j += 1;
        }
        Ok(())
    }
}

impl Default for TypeStore {
    fn default() -> (store: Self)
        ensures
            store.wf(),
    {
        Self::new()
    }
}

/// `1 << bits` is `2^bits` for the widths a `u128` holds.
/// `add_uint(name, bits)` with `bits < 128` is `add_finite` of the same
/// name with `1 << bits` values declaring `dup` and `zap`: that count is
/// never zero, and the outcomes the two contracts admit are the same.
pub proof fn law_uint_is_finite(
    old: TypeStore,
    new: TypeStore,
    name: Seq<char>,
    bits: u32,
    r: Result<TypeId, TypeError>,
)
    requires
        bits < 128,
    ensures
        (1u128 << bits) > 0,
        new.added_type(
            old,
            Some(name),
            TypeKind::Finite { values: vstd::arithmetic::power2::pow2(bits as nat) as u128 },
            DeclaredCapabilities { dup: true, zap: true },
            r,
        ) <==> new.added_type(
            old,
            Some(name),
            TypeKind::Finite { values: 1u128 << bits },
            DeclaredCapabilities { dup: true, zap: true },
            r,
        ),
{
    lemma_shift_is_pow2(bits);
    vstd::arithmetic::power2::lemma_pow2_pos(bits as nat);
}

/// A primitive's capabilities are axiomatic: adding one under a fresh,
/// non-empty name always succeeds, whatever it declares, and the new type
/// has exactly the declared capabilities.
pub proof fn law_primitive_capabilities_are_declared(
    old: TypeStore,
    new: TypeStore,
    name: Seq<char>,
    declared: DeclaredCapabilities,
    r: Result<TypeId, TypeError>,
)
    requires
        new.added_type(old, Some(name), TypeKind::Primitive, declared, r),
        name.len() > 0,
        old.spec_lookup(name) is None,
    ensures
        r matches Ok(id) && new.spec_caps_of(id) == (Capabilities { dup: declared.dup, zap: declared.zap }),
{
}

proof fn lemma_shift_is_pow2(bits: u32)
    requires
        bits < 128,
    ensures
        (1u128 << bits) == vstd::arithmetic::power2::pow2(bits as nat),
    decreases bits,
{
    if bits == 0 {
        assert((1u128 << 0u32) == 1u128) by (bit_vector);
        vstd::arithmetic::power2::lemma2_to64();
    } else {
        lemma_shift_is_pow2((bits - 1) as u32);
        assert((1u128 << bits) == 2 * (1u128 << ((bits - 1) as u32))) by (bit_vector)
            requires
                0 < bits < 128,
        ;
        vstd::arithmetic::power2::lemma_pow2_unfold(bits as nat);
    }
}

impl Component {
    pub fn named(name: &str, ty: TypeId) -> (c: Self)
        ensures
            c.name matches ComponentName::Named(n) && n@ == name@,
            c.ty == ty,
    {
        Component { name: ComponentName::Named(name.to_owned()), ty }
    }

    pub fn positional(index: usize, ty: TypeId) -> (c: Self)
        ensures
            c.name == ComponentName::Index(index),
            c.ty == ty,
    {
        Component { name: ComponentName::Index(index), ty }
    }
}

impl DeclaredCapabilities {
    pub fn linear() -> (c: Self)
        ensures
            c == (DeclaredCapabilities { dup: false, zap: false }),
    {
        DeclaredCapabilities { dup: false, zap: false }
    }

    pub fn dup() -> (c: Self)
        ensures
            c == (DeclaredCapabilities { dup: true, zap: false }),
    {
        DeclaredCapabilities { dup: true, zap: false }
    }

    pub fn zap() -> (c: Self)
        ensures
            c == (DeclaredCapabilities { dup: false, zap: true }),
    {
        DeclaredCapabilities { dup: false, zap: true }
    }

    pub fn dup_zap() -> (c: Self)
        ensures
            c == (DeclaredCapabilities { dup: true, zap: true }),
    {
        DeclaredCapabilities { dup: true, zap: true }
    }

    fn into_capabilities(self) -> (c: Capabilities)
        ensures
            c == declared_caps(self),
    {
        Capabilities { dup: self.dup, zap: self.zap }
    }
}

impl Capabilities {
    pub fn linear() -> (c: Self)
        ensures
            c == caps_none(),
    {
        Capabilities { dup: false, zap: false }
    }

    pub fn dup_zap() -> (c: Self)
        ensures
            c == caps_full(),
    {
        Capabilities { dup: true, zap: true }
    }

    fn allows(self, requested: Self) -> (b: bool)
        ensures
            b == caps_allow(self, requested),
    {
        (!requested.dup || self.dup) && (!requested.zap || self.zap)
    }
}

} // verus!
