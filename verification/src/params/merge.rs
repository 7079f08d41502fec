//! Merging what several templates say of the same parameter.

use indexmap::IndexMap;
use vstd::prelude::*;

use crate::params::constraints::{check_value, value_complaint};
use crate::params::floats::{float_eq, float_key, float_lt, less, NumberView, SIGN_BIT};
use crate::params::satisfiable::{can_be_met, concerns_only, is_of_type, satisfiable, suits};
use crate::params::template::{
    bits_of, Constraints, ConstraintsView, DataFlow, DefinitionView, EnvironmentTemplate,
    ErrorView, FloatBoundsView, JobParameterDefinition, JobTemplate, ModelError, ObjectType,
};
use crate::params::tighten::{
    accepts, allowed_floats_together, common_has_no_repeats, float_ok, tighten, tightened,
    together_accepts_what_both_accept, zeros_agree, zeros_settled,
};
use crate::params::values::{ExprValue, JobParameterType, ValueView};
use crate::text::{contains_text, i64_text, int_text, nat_text, opt_text, usize_text};

verus! {

/// A parameter definition merged from several templates.
///
/// Its constraints are those of all of them together.
#[derive(Debug)]
pub struct MergedParameterDefinition {
    pub name: String,
    pub param_type: JobParameterType,
    pub default: Option<String>,
    pub object_type: Option<ObjectType>,
    pub data_flow: Option<DataFlow>,
    /// The template that last contributed to this parameter.
    pub source: String,
    pub constraints: Constraints,
}

/// What a contract reads of a merged definition.
pub struct MergedView {
    pub name: Seq<char>,
    pub param_type: JobParameterType,
    pub default: Option<Seq<char>>,
    pub object_type: Option<ObjectType>,
    pub data_flow: Option<DataFlow>,
    pub source: Seq<char>,
    pub constraints: ConstraintsView,
}

impl View for MergedParameterDefinition {
    type V = MergedView;

    open spec fn view(&self) -> MergedView {
        MergedView {
            name: self.name@,
            param_type: self.param_type,
            default: opt_text(self.default),
            object_type: self.object_type,
            data_flow: self.data_flow,
            source: self.source@,
            constraints: self.constraints@,
        }
    }
}

/// What makes a merged definition impossible to use, if anything does: its constraints
/// contradict each other, they leave out its default, or no value of its type meets them.
pub open spec fn unsatisfiable(m: MergedView) -> Option<Seq<char>> {
    let c = m.constraints;
    let start = "Parameter '"@ + m.name;
    if c.ints.min matches Some(min) && c.ints.max matches Some(max) && min > max {
        Some(
            start + "': merged INT constraints have no valid range (min "@ + int_text(
                c.ints.min->0 as int,
            ) + " > max "@ + int_text(c.ints.max->0 as int) + ")"@,
        )
    } else if c.floats.min matches Some(min) && c.floats.max matches Some(max) && float_lt(
        max.bits,
        min.bits,
    ) {
        Some(
            start + "': merged FLOAT constraints have no valid range (min "@
                + c.floats.min->0.shown + " > max "@ + c.floats.max->0.shown + ")"@,
        )
    } else if c.length.min matches Some(min) && c.length.max matches Some(max) && min > max {
        Some(
            start + "': merged "@ + m.param_type.spec_str()
                + " constraints have no valid length (minLength "@ + nat_text(
                c.length.min->0 as nat,
            ) + " > maxLength "@ + nat_text(c.length.max->0 as nat) + ")"@,
        )
    } else if c.allowed_texts matches Some(allowed) && allowed.len() == 0 {
        Some(
            start + "': merged "@ + m.param_type.spec_str()
                + " allowedValues have no common values"@,
        )
    } else if c.allowed_texts matches Some(allowed) && m.default matches Some(d)
        && !allowed.contains(d) {
        Some(start + "': default '"@ + m.default->0 + "' not in merged allowedValues"@)
    } else if c.ints.allowed matches Some(allowed) && allowed.len() == 0 {
        Some(start + "': merged INT allowedValues have no common values"@)
    } else if c.floats.allowed matches Some(allowed) && allowed.len() == 0 {
        Some(start + "': merged FLOAT allowedValues have no common values"@)
    } else if !satisfiable(c, m.param_type) {
        Some(start + "': merged "@ + m.param_type.spec_str() + " constraints have no valid value"@)
    } else {
        None
    }
}

/// Whether the default of a merged definition, if there is one, is among its allowed texts.
pub open spec fn default_is_allowed(m: MergedView) -> bool {
    m.constraints.allowed_texts matches Some(allowed) ==> m.default matches Some(d)
        ==> allowed.contains(d)
}

/// A merged definition against which nothing is to be said has a value: one of its type that
/// meets all of its constraints.
pub proof fn usable_definition_has_a_value(m: MergedView)
    requires
        unsatisfiable(m) is None,
    ensures
        exists|v: ValueView| is_of_type(v, m.param_type) && #[trigger] accepts(m.constraints, v),
        default_is_allowed(m),
{
    let v = choose|v: ValueView| #[trigger] suits(m.constraints, m.param_type, v);
    assert(is_of_type(v, m.param_type) && accepts(m.constraints, v));
}

/// Nothing is to be said against a merged definition whose constraints concern its own type
/// exactly where some value of that type meets them all and its default is among the allowed
/// texts.
pub proof fn usable_exactly_when_a_value_exists(m: MergedView)
    requires
        concerns_only(m.constraints, m.param_type),
    ensures
        unsatisfiable(m) is None <==> (exists|v: ValueView|
            is_of_type(v, m.param_type) && #[trigger] accepts(m.constraints, v))
            && default_is_allowed(m),
{
    if unsatisfiable(m) is None {
        usable_definition_has_a_value(m);
    }
    let c = m.constraints;
    if (exists|v: ValueView| is_of_type(v, m.param_type) && #[trigger] accepts(c, v))
        && default_is_allowed(m) {
        let v = choose|v: ValueView| is_of_type(v, m.param_type) && #[trigger] accepts(c, v);
        assert(suits(c, m.param_type, v));
    }
}

/// `Parameter 'name`, the beginning of a message.
fn message_start(name: &String) -> (m: String)
    ensures
        m@ == "Parameter '"@ + name@,
{
    let mut m = "Parameter '".to_owned();
    m.append(name.as_str());
    m
}

impl MergedParameterDefinition {
    /// A copy of the definition.
    pub fn copy(&self) -> (r: MergedParameterDefinition)
        ensures
            r@ == self@,
    {
        MergedParameterDefinition {
            name: self.name.clone(),
            param_type: self.param_type,
            default: copy_text(&self.default),
            object_type: self.object_type,
            data_flow: self.data_flow,
            source: self.source.clone(),
            constraints: tighten(&self.constraints, &Constraints::none()),
        }
    }

    /// Tighten the constraints by those of one more definition.
    ///
    /// Of each list of allowed values that both have, what the definition allows too stays, in
    /// its order. A list that only the definition has is taken over; integers and strings then
    /// stand in it once each.
    pub fn merge_constraints(&mut self, def: &JobParameterDefinition)
        ensures
            final(self)@ == (MergedView {
                constraints: tightened(old(self)@.constraints, def@.constraints),
                ..old(self)@
            }),
    {
        self.constraints = tighten(&self.constraints, &def.constraints);
    }

    /// Whether some value of the parameter's type can meet the merged constraints, and the
    /// default is among the allowed texts.
    pub fn validate_satisfiable(&self) -> (r: Result<(), ModelError>)
        ensures
            match unsatisfiable(self@) {
                Some(m) => r matches Err(e) && e@ == ErrorView::Compatibility(m),
                None => r is Ok,
            },
    {
        let c = &self.constraints;
        if let (Some(min), Some(max)) = (c.ints.min, c.ints.max) {
            if min > max {
                let mut m = message_start(&self.name);
                m.append("': merged INT constraints have no valid range (min ");
                m.append(i64_text(min).as_str());
                m.append(" > max ");
                m.append(i64_text(max).as_str());
                m.append(")");
                return Err(ModelError::Compatibility(m));
            }
        }
        if let (Some(min), Some(max)) = (&c.floats.min, &c.floats.max) {
            if less(max.bits, min.bits) {
                let mut m = message_start(&self.name);
                m.append("': merged FLOAT constraints have no valid range (min ");
                m.append(min.shown.as_str());
                m.append(" > max ");
                m.append(max.shown.as_str());
                m.append(")");
                return Err(ModelError::Compatibility(m));
            }
        }
        if let (Some(min), Some(max)) = (c.length.min, c.length.max) {
            if min > max {
                let mut m = message_start(&self.name);
                m.append("': merged ");
                m.append(self.param_type.as_spec_str());
                m.append(" constraints have no valid length (minLength ");
                m.append(usize_text(min).as_str());
                m.append(" > maxLength ");
                m.append(usize_text(max).as_str());
                m.append(")");
                return Err(ModelError::Compatibility(m));
            }
        }
        if let Some(allowed) = &c.allowed_texts {
            if allowed.len() == 0 {
                let mut m = message_start(&self.name);
                m.append("': merged ");
                m.append(self.param_type.as_spec_str());
                m.append(" allowedValues have no common values");
                return Err(ModelError::Compatibility(m));
            }
            if let Some(default) = &self.default {
                if !contains_text(allowed, default.as_str()) {
                    let mut m = message_start(&self.name);
                    m.append("': default '");
                    m.append(default.as_str());
                    m.append("' not in merged allowedValues");
                    return Err(ModelError::Compatibility(m));
                }
            }
        }
        if let Some(allowed) = &c.ints.allowed {
            if allowed.len() == 0 {
                let mut m = message_start(&self.name);
                m.append("': merged INT allowedValues have no common values");
                return Err(ModelError::Compatibility(m));
            }
        }
        if let Some(allowed) = &c.floats.allowed {
            if allowed.len() == 0 {
                let mut m = message_start(&self.name);
                m.append("': merged FLOAT allowedValues have no common values");
                return Err(ModelError::Compatibility(m));
            }
        }
        if !can_be_met(c, self.param_type) {
            let mut m = message_start(&self.name);
            m.append("': merged ");
            m.append(self.param_type.as_spec_str());
            m.append(" constraints have no valid value");
            return Err(ModelError::Compatibility(m));
        }
        Ok(())
    }

    /// Check a coerced value against the merged constraints.
    pub fn check_constraints(&self, value: &ExprValue) -> (r: Result<(), ModelError>)
        ensures
            match value_complaint(self@.constraints, self@.name, value@) {
                Some(m) => r matches Err(e) && e@ == ErrorView::DecodeValidation(m),
                None => r is Ok,
            },
    {
        match check_value(&self.constraints, self.name.as_str(), value) {
            Some(m) => Err(ModelError::DecodeValidation(m)),
            None => Ok(()),
        }
    }
}

fn copy_text(t: &Option<String>) -> (r: Option<String>)
    ensures
        opt_text(r) == opt_text(*t),
{
    match t {
        Some(t) => Some(t.clone()),
        None => None,
    }
}

/// `indexmap::IndexMap`, a map that keeps its entries in the order of insertion.
#[verifier::external_type_specification]
#[verifier::external_body]
#[verifier::reject_recursive_types(K)]
#[verifier::reject_recursive_types(V)]
#[verifier::reject_recursive_types(S)]
pub struct ExIndexMap<K, V, S>(IndexMap<K, V, S>);

/// The entries of a map of merged definitions, in their order.
pub uninterp spec fn map_entries(
    m: IndexMap<String, MergedParameterDefinition>,
) -> Seq<(Seq<char>, MergedView)>;

/// The place of the entry with a key, if there is one.
pub open spec fn place(entries: Seq<(Seq<char>, MergedView)>, key: Seq<char>) -> Option<int>
    decreases entries.len(),
{
    if entries.len() == 0 {
        None
    } else if entries.last().0 == key {
        Some(entries.len() - 1)
    } else {
        place(entries.drop_last(), key)
    }
}

/// `IndexMap::new`: the new map has no entry.
#[verifier::external_body]
fn new_map() -> (m: IndexMap<String, MergedParameterDefinition>)
    ensures
        map_entries(m) == Seq::<(Seq<char>, MergedView)>::empty(),
{
    IndexMap::new()
}

/// `IndexMap::get`: the value of the entry with the key, or none where no entry has it.
#[verifier::external_body]
fn map_get<'a>(
    m: &'a IndexMap<String, MergedParameterDefinition>,
    key: &String,
) -> (r: Option<&'a MergedParameterDefinition>)
    ensures
        match place(map_entries(*m), key@) {
            Some(i) => r matches Some(v) && v@ == map_entries(*m)[i].1,
            None => r is None,
        },
{
    m.get(key)
}

/// `IndexMap::insert`: an entry that has the key keeps its place and takes the value; else a
/// new entry goes last.
#[verifier::external_body]
fn map_insert(
    m: &mut IndexMap<String, MergedParameterDefinition>,
    key: String,
    value: MergedParameterDefinition,
)
    ensures
        match place(map_entries(*old(m)), key@) {
            Some(i) => map_entries(*final(m)) == map_entries(*old(m)).update(i, (key@, value@)),
            None => map_entries(*final(m)) == map_entries(*old(m)).push((key@, value@)),
        },
{
    m.insert(key, value);
}

/// `IndexMap::into_values`: the values of the entries, in the order of the entries.
#[verifier::external_body]
fn map_into_values(
    m: IndexMap<String, MergedParameterDefinition>,
) -> (r: Vec<MergedParameterDefinition>)
    ensures
        merged_views(r@) == Seq::new(map_entries(m).len(), |i: int| map_entries(m)[i].1),
{
    m.into_values().collect()
}

/// The views of merged definitions.
pub open spec fn merged_views(v: Seq<MergedParameterDefinition>) -> Seq<MergedView> {
    Seq::new(v.len(), |i: int| v[i]@)
}

/// One definition of a parameter, and where it stands.
pub struct Contribution {
    pub definition: DefinitionView,
    pub source: Seq<char>,
}

/// The definitions of a list under one source.
pub open spec fn contributions(
    definitions: Option<Vec<JobParameterDefinition>>,
    source: Seq<char>,
) -> Seq<Contribution> {
    match definitions {
        Some(v) => Seq::new(v@.len(), |i: int| Contribution { definition: v@[i]@, source }),
        None => Seq::empty(),
    }
}

/// How messages name an environment template.
pub open spec fn environment_source(name: Seq<char>) -> Seq<char> {
    "EnvironmentTemplate '"@ + name + "'"@
}

/// The definitions of environment templates, in order.
pub open spec fn environment_contributions(envs: Seq<EnvironmentTemplate>) -> Seq<Contribution>
    decreases envs.len(),
{
    if envs.len() == 0 {
        Seq::empty()
    } else {
        environment_contributions(envs.drop_last()) + contributions(
            envs.last().parameter_definitions,
            environment_source(envs.last().environment.name@),
        )
    }
}

/// All definitions: those of the environment templates first, in order, and those of the job
/// template last.
pub open spec fn all_contributions(
    job: JobTemplate,
    envs: Seq<EnvironmentTemplate>,
) -> Seq<Contribution> {
    environment_contributions(envs) + contributions(job.parameter_definitions, "JobTemplate"@)
}

/// How one more definition contradicts what was merged so far, if it does.
pub open spec fn conflict(m: MergedView, c: Contribution) -> Option<Seq<char>> {
    let d = c.definition;
    let start = "Parameter '"@ + d.name;
    if m.param_type != d.param_type {
        Some(
            start + "' has conflicting types: '"@ + m.param_type.spec_str() + "' in "@ + m.source
                + " and '"@ + d.param_type.spec_str() + "' in "@ + c.source,
        )
    } else if m.param_type == JobParameterType::Path && m.object_type is Some && d.object_type is Some
        && m.object_type != d.object_type {
        Some(
            start + "' has conflicting objectType: '"@ + m.object_type->0.spec_str() + "' in "@
                + m.source + " and '"@ + d.object_type->0.spec_str() + "' in "@ + c.source,
        )
    } else if m.param_type == JobParameterType::Path && m.data_flow is Some && d.data_flow is Some
        && m.data_flow != d.data_flow {
        Some(
            start + "' has conflicting dataFlow: '"@ + m.data_flow->0.spec_str() + "' in "@
                + m.source + " and '"@ + d.data_flow->0.spec_str() + "' in "@ + c.source,
        )
    } else {
        None
    }
}

/// The second of two, where there is one.
pub open spec fn later<A>(first: Option<A>, second: Option<A>) -> Option<A> {
    if second is Some {
        second
    } else {
        first
    }
}

/// What was merged so far with one more definition.
pub open spec fn combined(m: MergedView, c: Contribution) -> MergedView {
    MergedView {
        name: m.name,
        param_type: m.param_type,
        default: later(m.default, c.definition.default),
        object_type: later(m.object_type, c.definition.object_type),
        data_flow: later(m.data_flow, c.definition.data_flow),
        source: c.source,
        constraints: tightened(m.constraints, c.definition.constraints),
    }
}

/// A definition on its own.
pub open spec fn alone(c: Contribution) -> MergedView {
    MergedView {
        name: c.definition.name,
        param_type: c.definition.param_type,
        default: c.definition.default,
        object_type: c.definition.object_type,
        data_flow: c.definition.data_flow,
        source: c.source,
        constraints: tightened(ConstraintsView::none(), c.definition.constraints),
    }
}

/// Merged definitions under their names.
pub open spec fn named(s: Seq<MergedView>) -> Seq<(Seq<char>, MergedView)> {
    Seq::new(s.len(), |i: int| (s[i].name, s[i]))
}

/// One more definition worked into what was merged so far.
pub open spec fn merge_one(
    s: Seq<MergedView>,
    c: Contribution,
) -> Result<Seq<MergedView>, Seq<char>> {
    match place(named(s), c.definition.name) {
        Some(i) => match conflict(s[i], c) {
            Some(m) => Err(m),
            None => Ok(s.update(i, combined(s[i], c))),
        },
        None => Ok(s.push(alone(c))),
    }
}

/// All definitions merged in order, or the first contradiction among them.
pub open spec fn merged(c: Seq<Contribution>) -> Result<Seq<MergedView>, Seq<char>>
    decreases c.len(),
{
    if c.len() == 0 {
        Ok(Seq::empty())
    } else {
        match merged(c.drop_last()) {
            Ok(s) => merge_one(s, c.last()),
            Err(m) => Err(m),
        }
    }
}

proof fn place_facts(entries: Seq<(Seq<char>, MergedView)>, key: Seq<char>)
    ensures
        match place(entries, key) {
            Some(i) => 0 <= i < entries.len() && entries[i].0 == key,
            None => forall|k: int| 0 <= k < entries.len() ==> (#[trigger] entries[k]).0 != key,
        },
    decreases entries.len(),
{
    if entries.len() > 0 && entries.last().0 != key {
        place_facts(entries.drop_last(), key);
        if place(entries, key) is None {
            assert forall|k: int| 0 <= k < entries.len() implies (#[trigger] entries[k]).0
                != key by {
                if k < entries.len() - 1 {
                    assert(entries.drop_last()[k].0 != key);
                }
            }
        }
    }
}

/// A contradiction stays one, whatever follows.
proof fn conflict_stays(c: Seq<Contribution>, more: Seq<Contribution>)
    requires
        merged(c) is Err,
    ensures
        merged(c + more) == merged(c),
    decreases more.len(),
{
    if more.len() > 0 {
        conflict_stays(c, more.drop_last());
        assert((c + more).drop_last() =~= c + more.drop_last());
    } else {
        assert(c + more =~= c);
    }
}

/// The message of a contradiction, if there is one.
fn find_conflict(
    existing: &MergedParameterDefinition,
    p: &JobParameterDefinition,
    source: &String,
) -> (r: Option<String>)
    ensures
        opt_text(r) == conflict(existing@, Contribution { definition: p@, source: source@ }),
{
    if existing.param_type != p.param_type {
        let mut m = message_start(&p.name);
        m.append("' has conflicting types: '");
        m.append(existing.param_type.as_spec_str());
        m.append("' in ");
        m.append(existing.source.as_str());
        m.append(" and '");
        m.append(p.param_type.as_spec_str());
        m.append("' in ");
        m.append(source.as_str());
        return Some(m);
    }
    if existing.param_type == JobParameterType::Path {
        if let (Some(a), Some(b)) = (existing.object_type, p.object_type) {
            if a != b {
                let mut m = message_start(&p.name);
                m.append("' has conflicting objectType: '");
                m.append(a.as_spec_str());
                m.append("' in ");
                m.append(existing.source.as_str());
                m.append(" and '");
                m.append(b.as_spec_str());
                m.append("' in ");
                m.append(source.as_str());
                return Some(m);
            }
        }
        if let (Some(a), Some(b)) = (existing.data_flow, p.data_flow) {
            if a != b {
                let mut m = message_start(&p.name);
                m.append("' has conflicting dataFlow: '");
                m.append(a.as_spec_str());
                m.append("' in ");
                m.append(existing.source.as_str());
                m.append(" and '");
                m.append(b.as_spec_str());
                m.append("' in ");
                m.append(source.as_str());
                return Some(m);
            }
        }
    }
    None
}

/// Work one definition into the map of what was merged so far.
fn process_param(
    map: &mut IndexMap<String, MergedParameterDefinition>,
    p: &JobParameterDefinition,
    source: &String,
    Ghost(done): Ghost<Seq<MergedView>>,
) -> (r: Result<(), ModelError>)
    requires
        map_entries(*old(map)) == named(done),
    ensures
        match merge_one(done, Contribution { definition: p@, source: source@ }) {
            Ok(s) => r is Ok && map_entries(*final(map)) == named(s),
            Err(m) => r matches Err(e) && e@ == ErrorView::Compatibility(m),
        },
{
    let ghost c = Contribution { definition: p@, source: source@ };
    proof {
        place_facts(named(done), p@.name);
    }
    let next = match map_get(map, &p.name) {
        Some(existing) => {
            if let Some(m) = find_conflict(existing, p, source) {
                return Err(ModelError::Compatibility(m));
            }
            let mut next = existing.copy();
            if p.default.is_some() {
                next.default = copy_text(&p.default);
            }
            if p.object_type.is_some() {
                next.object_type = p.object_type;
            }
            if p.data_flow.is_some() {
                next.data_flow = p.data_flow;
            }
            next.source = source.clone();
            next.merge_constraints(p);
            proof {
                let i = place(named(done), p@.name)->0;
                assert(next@ == combined(done[i], c));
                assert(named(done.update(i, next@)) =~= named(done).update(i, (p@.name, next@)));
            }
            next
        },
        None => {
            let mut next = MergedParameterDefinition {
                name: p.name.clone(),
                param_type: p.param_type,
                default: copy_text(&p.default),
                object_type: p.object_type,
                data_flow: p.data_flow,
                source: source.clone(),
                constraints: Constraints::none(),
            };
            next.merge_constraints(p);
            proof {
                assert(next@ == alone(c));
                assert(named(done.push(next@)) =~= named(done).push((p@.name, next@)));
            }
            next
        },
    };
    map_insert(map, p.name.clone(), next);
    Ok(())
}

/// Work a list of definitions into the map.
fn process_params(
    map: &mut IndexMap<String, MergedParameterDefinition>,
    params: &Option<Vec<JobParameterDefinition>>,
    source: &String,
    Ghost(before): Ghost<Seq<Contribution>>,
) -> (r: Result<(), ModelError>)
    requires
        merged(before) is Ok,
        map_entries(*old(map)) == named(merged(before)->Ok_0),
    ensures
        match merged(before + contributions(*params, source@)) {
            Ok(s) => r is Ok && map_entries(*final(map)) == named(s),
            Err(m) => r matches Err(e) && e@ == ErrorView::Compatibility(m),
        },
{
    let ghost added = contributions(*params, source@);
    assert(before + added.take(0) =~= before);
    if let Some(list) = params {
        let mut i: usize = 0;
        while i < list.len()
            invariant
                i <= list.len() == added.len(),
                *params == Some(*list),
                added == contributions(*params, source@),
                merged(before + added.take(i as int)) is Ok,
                map_entries(*map) == named(merged(before + added.take(i as int))->Ok_0),
            decreases list.len() - i,
        {
            let ghost so_far = before + added.take(i as int);
            let ghost next = before + added.take(i + 1);
            assert(next.drop_last() =~= so_far);
            assert(next.last() == added[i as int]);
            if let Err(e) = process_param(map, &list[i], source, Ghost(merged(so_far)->Ok_0)) {
                proof {
                    conflict_stays(next, added.skip(i + 1));
                    assert(next + added.skip(i + 1) =~= before + added);
                }
                return Err(e);
            }
            i += 1;
        }
        assert(added.take(added.len() as int) =~= added);
    }
    Ok(())
}

/// Merge parameter definitions from environment templates and the job template.
///
/// Environment templates are processed in order and the job template last. Types that
/// contradict each other are errors, and so are object types and data flows of a PATH
/// parameter. A default comes from the last template that has one.
pub fn merge_job_parameter_definitions(
    job_template: &JobTemplate,
    environment_templates: &Vec<EnvironmentTemplate>,
) -> (r: Result<Vec<MergedParameterDefinition>, ModelError>)
    ensures
        match merged(all_contributions(*job_template, environment_templates@)) {
            Ok(s) => r matches Ok(v) && merged_views(v@) == s,
            Err(m) => r matches Err(e) && e@ == ErrorView::Compatibility(m),
        },
{
    let ghost envs = environment_templates@;
    let ghost from_job = contributions(job_template.parameter_definitions, "JobTemplate"@);
    let mut map = new_map();
    let mut i: usize = 0;
    assert(envs.take(0) =~= Seq::empty());
    assert(map_entries(map) =~= named(Seq::empty()));
    while i < environment_templates.len()
        invariant
            i <= environment_templates.len(),
            envs == environment_templates@,
            from_job == contributions(job_template.parameter_definitions, "JobTemplate"@),
            merged(environment_contributions(envs.take(i as int))) is Ok,
            map_entries(map) == named(
                merged(environment_contributions(envs.take(i as int)))->Ok_0,
            ),
        decreases environment_templates.len() - i,
    {
        let env = &environment_templates[i];
        let mut source = "EnvironmentTemplate '".to_owned();
        source.append(env.environment.name.as_str());
        source.append("'");
        let ghost before = environment_contributions(envs.take(i as int));
        let ghost next = environment_contributions(envs.take(i + 1));
        assert(envs.take(i + 1).drop_last() =~= envs.take(i as int));
        assert(next == before + contributions(env.parameter_definitions, source@));
        if let Err(e) = process_params(
            &mut map,
            &env.parameter_definitions,
            &source,
            Ghost(before),
        ) {
            proof {
                environments_extend(envs, i + 1);
                let rest = environment_contributions(envs).skip(next.len() as int);
                conflict_stays(next, rest + from_job);
                assert(next + (rest + from_job) =~= environment_contributions(envs) + from_job);
            }
            return Err(e);
        }
        i += 1;
    }
    assert(envs.take(envs.len() as int) =~= envs);
    let source = "JobTemplate".to_owned();
    if let Err(e) = process_params(
        &mut map,
        &job_template.parameter_definitions,
        &source,
        Ghost(environment_contributions(envs)),
    ) {
        return Err(e);
    }
    let values = map_into_values(map);
    proof {
        let s = merged(all_contributions(*job_template, envs))->Ok_0;
        assert(merged_views(values@) =~= s);
    }
    Ok(values)
}

/// The definitions of the first templates begin those of all of them.
proof fn environments_extend(envs: Seq<EnvironmentTemplate>, n: int)
    requires
        0 <= n <= envs.len(),
    ensures
        ({
            let head = environment_contributions(envs.take(n));
            let all = environment_contributions(envs);
            head.len() <= all.len() && all =~= head + all.skip(head.len() as int)
        }),
    decreases envs.len(),
{
    if n < envs.len() {
        environments_extend(envs.drop_last(), n);
        assert(envs.drop_last().take(n) =~= envs.take(n));
    } else {
        assert(envs.take(n) =~= envs);
    }
}

/// What the definitions of one name come to, merged in order.
pub open spec fn summary(c: Seq<Contribution>, name: Seq<char>) -> Option<MergedView>
    decreases c.len(),
{
    if c.len() == 0 {
        None
    } else {
        let before = summary(c.drop_last(), name);
        if c.last().definition.name != name {
            before
        } else {
            match before {
                Some(m) => Some(combined(m, c.last())),
                None => Some(alone(c.last())),
            }
        }
    }
}

proof fn place_by_names(s: Seq<MergedView>, t: Seq<MergedView>, name: Seq<char>)
    requires
        s.len() == t.len(),
        forall|i: int| 0 <= i < s.len() ==> (#[trigger] s[i]).name == t[i].name,
    ensures
        place(named(s), name) == place(named(t), name),
    decreases s.len(),
{
    if s.len() > 0 {
        assert(named(s).drop_last() =~= named(s.drop_last()));
        assert(named(t).drop_last() =~= named(t.drop_last()));
        assert(s[s.len() - 1].name == t[t.len() - 1].name);
        assert forall|i: int| 0 <= i < s.drop_last().len() implies (#[trigger] s.drop_last()[i]).name
            == t.drop_last()[i].name by {
            assert(s[i].name == t[i].name);
        }
        place_by_names(s.drop_last(), t.drop_last(), name);
    }
}

/// Merging keeps, for every name, what the definitions of that name come to, and nothing
/// else.
pub proof fn merged_is_summary_by_name(c: Seq<Contribution>, name: Seq<char>)
    requires
        merged(c) is Ok,
    ensures
        match place(named(merged(c)->Ok_0), name) {
            Some(i) => 0 <= i < merged(c)->Ok_0.len() && merged(c)->Ok_0[i].name == name
                && summary(c, name) == Some(merged(c)->Ok_0[i]),
            None => summary(c, name) is None,
        },
    decreases c.len(),
{
    let s = merged(c)->Ok_0;
    place_facts(named(s), name);
    if c.len() > 0 {
        let front = c.drop_last();
        let before = merged(front)->Ok_0;
        let key = c.last().definition.name;
        merged_is_summary_by_name(front, name);
        merged_is_summary_by_name(front, key);
        match place(named(before), key) {
            Some(at) => {
                assert forall|i: int| 0 <= i < s.len() implies (#[trigger] s[i]).name
                    == before[i].name by {}
                place_by_names(s, before, name);
                if name != key && place(named(before), name) is Some {
                    assert(place(named(before), name)->0 != at);
                }
            },
            None => {
                assert(named(s).drop_last() =~= named(before));
            },
        }
    }
}

/// No name occurs twice among merged definitions.
pub proof fn merged_names_are_distinct(c: Seq<Contribution>)
    requires
        merged(c) is Ok,
    ensures
        forall|i: int, j: int|
            0 <= i < j < merged(c)->Ok_0.len() ==> (#[trigger] merged(c)->Ok_0[i]).name != (
            #[trigger] merged(c)->Ok_0[j]).name,
    decreases c.len(),
{
    let s = merged(c)->Ok_0;
    if c.len() > 0 {
        let before = merged(c.drop_last())->Ok_0;
        merged_names_are_distinct(c.drop_last());
        let key = c.last().definition.name;
        place_facts(named(before), key);
        match place(named(before), key) {
            Some(at) => {
                assert forall|i: int, j: int| 0 <= i < j < s.len() implies (#[trigger] s[i]).name
                    != (#[trigger] s[j]).name by {
                    assert(before[i].name != before[j].name);
                }
            },
            None => {
                assert forall|i: int, j: int| 0 <= i < j < s.len() implies (#[trigger] s[i]).name
                    != (#[trigger] s[j]).name by {
                    assert(named(before)[i].0 != key);
                    if j < before.len() {
                        assert(before[i].name != before[j].name);
                    }
                }
            },
        }
    }
}

/// Every merged definition is what the definitions of its name come to.
pub proof fn merged_definition_is_summary(c: Seq<Contribution>, i: int)
    requires
        merged(c) is Ok,
        0 <= i < merged(c)->Ok_0.len(),
    ensures
        summary(c, merged(c)->Ok_0[i].name) == Some(merged(c)->Ok_0[i]),
{
    let s = merged(c)->Ok_0;
    merged_is_summary_by_name(c, s[i].name);
    place_facts(named(s), s[i].name);
    merged_names_are_distinct(c);
    match place(named(s), s[i].name) {
        Some(at) => {
            assert(at == i) by {
                if at < i {
                    assert(s[at].name != s[i].name);
                } else if i < at {
                    assert(s[i].name != s[at].name);
                }
            }
        },
        None => {
            assert(named(s)[i].0 == s[i].name);
        },
    }
}

proof fn summary_has_name(c: Seq<Contribution>, name: Seq<char>)
    ensures
        summary(c, name) matches Some(m) ==> m.name == name,
        summary(c, name) is None <==> forall|k: int|
            0 <= k < c.len() ==> (#[trigger] c[k]).definition.name != name,
    decreases c.len(),
{
    if c.len() > 0 {
        let front = c.drop_last();
        summary_has_name(front, name);
        assert forall|k: int| 0 <= k < front.len() implies front[k] == #[trigger] c[k] by {}
        if summary(c, name) is None {
            assert forall|k: int| 0 <= k < c.len() implies (#[trigger] c[k]).definition.name
                != name by {
                if k < front.len() {
                    assert(front[k].definition.name != name);
                }
            }
        } else if c.last().definition.name != name {
            let k = choose|k: int| 0 <= k < front.len() && front[k].definition.name == name;
            assert(c[k].definition.name == name);
        }
    }
}

/// Every defined name is merged to exactly one definition, and every merged definition has a
/// defined name.
pub proof fn every_name_is_merged(c: Seq<Contribution>, name: Seq<char>)
    requires
        merged(c) is Ok,
    ensures
        (exists|k: int| 0 <= k < c.len() && (#[trigger] c[k]).definition.name == name) <==> (
        exists|i: int| 0 <= i < merged(c)->Ok_0.len() && (#[trigger] merged(c)->Ok_0[i]).name
            == name),
{
    let s = merged(c)->Ok_0;
    merged_is_summary_by_name(c, name);
    place_facts(named(s), name);
    summary_has_name(c, name);
    match place(named(s), name) {
        Some(i) => {
            assert(s[i].name == name);
        },
        None => {
            assert forall|i: int| 0 <= i < s.len() implies (#[trigger] s[i]).name != name by {
                assert(named(s)[i].0 != name);
            }
        },
    }
}

/// Whether two definitions of one name contradict each other: their types differ, or they are
/// of PATH parameters and both give an object type or a data flow, and not the same.
pub open spec fn clash(a: DefinitionView, b: DefinitionView) -> bool {
    a.name == b.name && {
        ||| a.param_type != b.param_type
        ||| a.param_type == JobParameterType::Path && a.object_type is Some && b.object_type is Some
            && a.object_type != b.object_type
        ||| a.param_type == JobParameterType::Path && a.data_flow is Some && b.data_flow is Some
            && a.data_flow != b.data_flow
    }
}

/// Whether the definitions `j` and `k` contradict each other.
pub open spec fn clash_at(c: Seq<Contribution>, j: int, k: int) -> bool {
    0 <= j < c.len() && 0 <= k < c.len() && clash(c[j].definition, c[k].definition)
}

proof fn merged_definitions_agree(c: Seq<Contribution>, k: int)
    requires
        merged(c) is Ok,
        0 <= k < c.len(),
    ensures
        summary(c, c[k].definition.name) matches Some(m) && m.param_type
            == c[k].definition.param_type && (m.param_type == JobParameterType::Path ==> (
        c[k].definition.object_type is Some ==> m.object_type == c[k].definition.object_type) && (
        c[k].definition.data_flow is Some ==> m.data_flow == c[k].definition.data_flow)),
    decreases c.len(),
{
    let front = c.drop_last();
    let name = c[k].definition.name;
    let key = c.last().definition.name;
    merged_is_summary_by_name(front, key);
    if k < front.len() {
        assert(front[k] == c[k]);
        merged_definitions_agree(front, k);
    }
}

/// Definitions of one name with different types never merge.
pub proof fn conflicting_types_never_merge(c: Seq<Contribution>, j: int, k: int)
    requires
        0 <= j < c.len(),
        0 <= k < c.len(),
        c[j].definition.name == c[k].definition.name,
        c[j].definition.param_type != c[k].definition.param_type,
    ensures
        merged(c) is Err,
{
    assert(clash_at(c, j, k));
    merging_fails_exactly_on_a_clash(c);
}

/// Definitions of one PATH parameter with different object types never merge.
pub proof fn conflicting_object_types_never_merge(c: Seq<Contribution>, j: int, k: int)
    requires
        0 <= j < c.len(),
        0 <= k < c.len(),
        c[j].definition.name == c[k].definition.name,
        c[j].definition.param_type == JobParameterType::Path,
        c[j].definition.object_type is Some,
        c[k].definition.object_type is Some,
        c[j].definition.object_type != c[k].definition.object_type,
    ensures
        merged(c) is Err,
{
    assert(clash_at(c, j, k));
    merging_fails_exactly_on_a_clash(c);
}

/// Definitions of one PATH parameter with different data flows never merge.
pub proof fn conflicting_data_flows_never_merge(c: Seq<Contribution>, j: int, k: int)
    requires
        0 <= j < c.len(),
        0 <= k < c.len(),
        c[j].definition.name == c[k].definition.name,
        c[j].definition.param_type == JobParameterType::Path,
        c[j].definition.data_flow is Some,
        c[k].definition.data_flow is Some,
        c[j].definition.data_flow != c[k].definition.data_flow,
    ensures
        merged(c) is Err,
{
    assert(clash_at(c, j, k));
    merging_fails_exactly_on_a_clash(c);
}

/// Whether definition `k` of `name` gives the type.
spec fn gives_type(c: Seq<Contribution>, name: Seq<char>, t: JobParameterType, k: int) -> bool {
    0 <= k < c.len() && c[k].definition.name == name && c[k].definition.param_type == t
}

/// Whether definition `k` of `name` gives the object type.
spec fn gives_object(c: Seq<Contribution>, name: Seq<char>, o: ObjectType, k: int) -> bool {
    0 <= k < c.len() && c[k].definition.name == name && c[k].definition.object_type == Some(o)
}

/// Whether definition `k` of `name` gives the data flow.
spec fn gives_flow(c: Seq<Contribution>, name: Seq<char>, f: DataFlow, k: int) -> bool {
    0 <= k < c.len() && c[k].definition.name == name && c[k].definition.data_flow == Some(f)
}

proof fn summary_was_given(c: Seq<Contribution>, name: Seq<char>)
    ensures
        summary(c, name) matches Some(m) ==> {
            &&& exists|k: int| #[trigger] gives_type(c, name, m.param_type, k)
            &&& m.object_type matches Some(o) ==> exists|k: int| #[trigger]
                gives_object(c, name, o, k)
            &&& m.data_flow matches Some(f) ==> exists|k: int| #[trigger]
                gives_flow(c, name, f, k)
        },
    decreases c.len(),
{
    if c.len() > 0 && summary(c, name) is Some {
        let front = c.drop_last();
        let n = c.len() - 1;
        let m = summary(c, name)->0;
        summary_was_given(front, name);
        assert forall|k: int| 0 <= k < n implies #[trigger] c[k] == front[k] by {}
        if summary(front, name) is Some {
            let k = choose|k: int| #[trigger] gives_type(front, name, m.param_type, k);
            assert(gives_type(c, name, m.param_type, k));
        } else {
            assert(gives_type(c, name, m.param_type, n));
        }
        if m.object_type is Some {
            let o = m.object_type->0;
            if c[n].definition.name == name && c[n].definition.object_type is Some {
                assert(gives_object(c, name, o, n));
            } else {
                let k = choose|k: int| #[trigger] gives_object(front, name, o, k);
                assert(gives_object(c, name, o, k));
            }
        }
        if m.data_flow is Some {
            let f = m.data_flow->0;
            if c[n].definition.name == name && c[n].definition.data_flow is Some {
                assert(gives_flow(c, name, f, n));
            } else {
                let k = choose|k: int| #[trigger] gives_flow(front, name, f, k);
                assert(gives_flow(c, name, f, k));
            }
        }
    }
}

proof fn failure_has_a_clash(c: Seq<Contribution>)
    requires
        merged(c) is Err,
    ensures
        exists|j: int, k: int| #[trigger] clash_at(c, j, k),
    decreases c.len(),
{
    let front = c.drop_last();
    let n = c.len() - 1;
    if merged(front) is Err {
        failure_has_a_clash(front);
        let (j, k) = choose|j: int, k: int| #[trigger] clash_at(front, j, k);
        assert(clash_at(c, j, k));
    } else {
        let last = c.last().definition;
        let name = last.name;
        merged_is_summary_by_name(front, name);
        summary_was_given(front, name);
        let m = summary(front, name)->0;
        let t = choose|k: int| #[trigger] gives_type(front, name, m.param_type, k);
        if m.param_type != last.param_type {
            assert(clash_at(c, t, n));
        } else if m.object_type is Some && last.object_type is Some && m.object_type
            != last.object_type {
            let k = choose|k: int| #[trigger] gives_object(front, name, m.object_type->0, k);
            merged_definitions_agree(front, k);
            assert(clash_at(c, k, n));
        } else {
            let k = choose|k: int| #[trigger] gives_flow(front, name, m.data_flow->0, k);
            merged_definitions_agree(front, k);
            assert(clash_at(c, k, n));
        }
    }
}

/// Merging fails exactly where two definitions of one name contradict each other.
pub proof fn merging_fails_exactly_on_a_clash(c: Seq<Contribution>)
    ensures
        merged(c) is Err <==> exists|j: int, k: int| #[trigger] clash_at(c, j, k),
{
    if merged(c) is Err {
        failure_has_a_clash(c);
    } else {
        assert forall|j: int, k: int| !#[trigger] clash_at(c, j, k) by {
            if clash_at(c, j, k) {
                merged_definitions_agree(c, j);
                merged_definitions_agree(c, k);
            }
        }
    }
}

/// Whether `k` is the last of the definitions of `name`.
pub open spec fn defines_last(c: Seq<Contribution>, name: Seq<char>, k: int) -> bool {
    &&& 0 <= k < c.len()
    &&& c[k].definition.name == name
    &&& forall|l: int| k < l < c.len() ==> (#[trigger] c[l]).definition.name != name
}

proof fn summary_source(c: Seq<Contribution>, name: Seq<char>)
    ensures
        summary(c, name) matches Some(m) ==> exists|k: int|
            #[trigger] defines_last(c, name, k) && c[k].source == m.source,
    decreases c.len(),
{
    if c.len() > 0 && summary(c, name) is Some {
        let front = c.drop_last();
        let n = c.len() - 1;
        summary_source(front, name);
        if c[n].definition.name == name {
            assert(defines_last(c, name, n));
        } else {
            let m = summary(c, name)->0;
            let k = choose|k: int|
                #[trigger] defines_last(front, name, k) && front[k].source == m.source;
            assert forall|l: int| k < l < c.len() implies (#[trigger] c[l]).definition.name
                != name by {
                if l < n {
                    assert(front[l] == c[l]);
                }
            }
            assert(defines_last(c, name, k));
        }
    }
}

/// The source of a merged definition is the template that last defines the parameter.
pub proof fn source_is_the_last_to_define(c: Seq<Contribution>, i: int)
    requires
        merged(c) is Ok,
        0 <= i < merged(c)->Ok_0.len(),
    ensures
        exists|k: int|
            #[trigger] defines_last(c, merged(c)->Ok_0[i].name, k) && c[k].source
                == merged(c)->Ok_0[i].source,
{
    merged_definition_is_summary(c, i);
    summary_source(c, merged(c)->Ok_0[i].name);
}

/// Whether every definition constrains only what its own type has.
pub open spec fn all_concern_their_type(c: Seq<Contribution>) -> bool {
    forall|k: int|
        0 <= k < c.len() ==> concerns_only(
            (#[trigger] c[k]).definition.constraints,
            c[k].definition.param_type,
        )
}

proof fn summary_concerns_its_type(c: Seq<Contribution>, name: Seq<char>)
    requires
        merged(c) is Ok,
        all_concern_their_type(c),
    ensures
        summary(c, name) matches Some(m) ==> concerns_only(m.constraints, m.param_type),
    decreases c.len(),
{
    if c.len() > 0 {
        let front = c.drop_last();
        let n = c.len() - 1;
        assert forall|k: int| 0 <= k < front.len() implies concerns_only(
            (#[trigger] front[k]).definition.constraints,
            front[k].definition.param_type,
        ) by {
            assert(front[k] == c[k]);
        }
        summary_concerns_its_type(front, name);
        merged_is_summary_by_name(front, c[n].definition.name);
        assert(concerns_only(c[n].definition.constraints, c[n].definition.param_type));
    }
}

/// Where every definition constrains only what its own type has, nothing is to be said against
/// a merged definition exactly where some value of its type meets all its constraints and its
/// default is among the allowed texts.
pub proof fn merged_definition_is_usable_exactly_when_a_value_exists(
    c: Seq<Contribution>,
    i: int,
)
    requires
        merged(c) is Ok,
        0 <= i < merged(c)->Ok_0.len(),
        all_concern_their_type(c),
    ensures
        unsatisfiable(merged(c)->Ok_0[i]) is None <==> (exists|v: ValueView|
            is_of_type(v, merged(c)->Ok_0[i].param_type) && #[trigger] accepts(
                merged(c)->Ok_0[i].constraints,
                v,
            )) && default_is_allowed(merged(c)->Ok_0[i]),
{
    merged_definition_is_summary(c, i);
    summary_concerns_its_type(c, merged(c)->Ok_0[i].name);
    usable_exactly_when_a_value_exists(merged(c)->Ok_0[i]);
}

/// Whether no list of allowed integers or strings holds a value twice.
pub open spec fn no_allowed_value_repeats(c: ConstraintsView) -> bool {
    &&& c.ints.allowed matches Some(a) ==> a.no_duplicates()
    &&& c.allowed_texts matches Some(a) ==> a.no_duplicates()
    &&& c.item_ints.allowed matches Some(a) ==> a.no_duplicates()
    &&& c.item_allowed_texts matches Some(a) ==> a.no_duplicates()
    &&& c.item_item_ints.allowed matches Some(a) ==> a.no_duplicates()
}

proof fn tightened_without_repeats(c: ConstraintsView, d: ConstraintsView)
    requires
        no_allowed_value_repeats(c),
    ensures
        no_allowed_value_repeats(tightened(c, d)),
{
    common_has_no_repeats(c.ints.allowed, d.ints.allowed);
    common_has_no_repeats(c.allowed_texts, d.allowed_texts);
    common_has_no_repeats(c.item_ints.allowed, d.item_ints.allowed);
    common_has_no_repeats(c.item_allowed_texts, d.item_allowed_texts);
    common_has_no_repeats(c.item_item_ints.allowed, d.item_item_ints.allowed);
}

proof fn summary_has_no_repeats(c: Seq<Contribution>, name: Seq<char>)
    ensures
        summary(c, name) matches Some(m) ==> no_allowed_value_repeats(m.constraints),
    decreases c.len(),
{
    if c.len() > 0 {
        summary_has_no_repeats(c.drop_last(), name);
        let so_far = match summary(c.drop_last(), name) {
            Some(m) => m.constraints,
            None => ConstraintsView::none(),
        };
        tightened_without_repeats(so_far, c.last().definition.constraints);
    }
}

/// No allowed integer or string stands twice in a list of a merged definition.
pub proof fn merged_allowed_values_do_not_repeat(c: Seq<Contribution>, i: int)
    requires
        merged(c) is Ok,
        0 <= i < merged(c)->Ok_0.len(),
    ensures
        no_allowed_value_repeats(merged(c)->Ok_0[i].constraints),
{
    merged_definition_is_summary(c, i);
    summary_has_no_repeats(c, merged(c)->Ok_0[i].name);
}

/// Whether `k` is the last of the definitions of `name` that gives a default.
pub open spec fn gives_last_default(c: Seq<Contribution>, name: Seq<char>, k: int) -> bool {
    &&& 0 <= k < c.len()
    &&& c[k].definition.name == name
    &&& c[k].definition.default is Some
    &&& forall|l: int|
        k < l < c.len() && (#[trigger] c[l]).definition.name == name ==> c[l].definition.default
            is None
}

proof fn summary_default(c: Seq<Contribution>, name: Seq<char>)
    ensures
        summary(c, name) matches Some(m) ==> match m.default {
            Some(d) => exists|k: int|
                #[trigger] gives_last_default(c, name, k) && c[k].definition.default == Some(d),
            None => forall|k: int|
                0 <= k < c.len() && (#[trigger] c[k]).definition.name == name
                    ==> c[k].definition.default is None,
        },
    decreases c.len(),
{
    if c.len() > 0 && summary(c, name) is Some {
        let front = c.drop_last();
        let n = c.len() - 1;
        summary_default(front, name);
        summary_has_name(front, name);
        let m = summary(c, name)->0;
        if c.last().definition.name == name && c.last().definition.default is Some {
            assert(gives_last_default(c, name, n));
        } else if m.default is Some {
            let k = choose|k: int|
                #[trigger] gives_last_default(front, name, k) && front[k].definition.default
                    == m.default;
            assert forall|l: int|
                k < l < c.len() && (#[trigger] c[l]).definition.name == name implies c[l].definition.default
                is None by {
                if l < n {
                    assert(front[l] == c[l]);
                }
            }
            assert(gives_last_default(c, name, k));
        } else {
            assert forall|k: int|
                0 <= k < c.len() && (#[trigger] c[k]).definition.name
                    == name implies c[k].definition.default is None by {
                if k < n {
                    assert(front[k] == c[k]);
                }
            }
        }
    }
}

/// A merged default is the one that the last definition with a default gives; there is none
/// exactly where no definition of the name gives one.
pub proof fn default_is_the_last_given(c: Seq<Contribution>, i: int)
    requires
        merged(c) is Ok,
        0 <= i < merged(c)->Ok_0.len(),
    ensures
        match merged(c)->Ok_0[i].default {
            Some(d) => exists|k: int|
                #[trigger] gives_last_default(c, merged(c)->Ok_0[i].name, k)
                    && c[k].definition.default == Some(d),
            None => forall|k: int|
                0 <= k < c.len() && (#[trigger] c[k]).definition.name == merged(c)->Ok_0[i].name
                    ==> c[k].definition.default is None,
        },
{
    merged_definition_is_summary(c, i);
    summary_default(c, merged(c)->Ok_0[i].name);
}

/// The limits on a float, or those on the float items of a list.
pub open spec fn float_limits(c: ConstraintsView, items: bool) -> FloatBoundsView {
    if items {
        c.item_floats
    } else {
        c.floats
    }
}

/// Whether every definition of `name` that lists allowed floats lists these bits.
pub open spec fn listed_everywhere(
    c: Seq<Contribution>,
    name: Seq<char>,
    items: bool,
    bits: u64,
) -> bool {
    forall|k: int|
        0 <= k < c.len() && (#[trigger] c[k]).definition.name == name ==> (float_limits(
            c[k].definition.constraints,
            items,
        ).allowed matches Some(a) ==> bits_of(a).contains(bits))
}

/// Whether one of the two zeros is listed wherever allowed floats are.
pub open spec fn zero_is_shared(c: Seq<Contribution>, name: Seq<char>, items: bool) -> bool {
    listed_everywhere(c, name, items, 0) || listed_everywhere(c, name, items, SIGN_BIT)
}

/// Whether the signs of zeros make no difference to a value: it holds no zero, or one of the
/// two zeros is listed wherever allowed floats are.
pub open spec fn zeros_are_settled(c: Seq<Contribution>, name: Seq<char>, v: ValueView) -> bool {
    match v {
        ValueView::Float(f) => float_key(f.number.bits) == 0 ==> zero_is_shared(c, name, false),
        ValueView::ListFloat(s) => forall|i: int|
            0 <= i < s.len() && float_key((#[trigger] s[i]).number.bits) == 0 ==> zero_is_shared(
                c,
                name,
                true,
            ),
        _ => true,
    }
}

proof fn listed_in_summary(c: Seq<Contribution>, name: Seq<char>, items: bool, bits: u64)
    ensures
        summary(c, name) matches Some(m) ==> (listed_everywhere(c, name, items, bits) <==> (
        float_limits(m.constraints, items).allowed matches Some(a) ==> bits_of(a).contains(bits))),
        summary(c, name) is None ==> listed_everywhere(c, name, items, bits),
    decreases c.len(),
{
    summary_has_name(c, name);
    if c.len() > 0 {
        let front = c.drop_last();
        let n = c.len() - 1;
        listed_in_summary(front, name, items, bits);
        let last = float_limits(c[n].definition.constraints, items).allowed;
        let so_far = match summary(front, name) {
            Some(m) => float_limits(m.constraints, items).allowed,
            None => None,
        };
        allowed_floats_together(so_far, last, bits);
        assert forall|k: int| 0 <= k < n implies #[trigger] c[k] == front[k] by {}
        if listed_everywhere(front, name, items, bits) && (c[n].definition.name == name ==> (
        float_limits(c[n].definition.constraints, items).allowed matches Some(a) ==> bits_of(
            a,
        ).contains(bits))) {
            assert forall|k: int|
                0 <= k < c.len() && (#[trigger] c[k]).definition.name == name implies (float_limits(
                c[k].definition.constraints,
                items,
            ).allowed matches Some(a) ==> bits_of(a).contains(bits)) by {
                if k < n {
                    assert(front[k].definition.name == name);
                }
            }
        }
        if listed_everywhere(c, name, items, bits) {
            assert forall|k: int|
                0 <= k < front.len() && (#[trigger] front[k]).definition.name == name implies (
            float_limits(front[k].definition.constraints, items).allowed matches Some(a)
                ==> bits_of(a).contains(bits)) by {
                assert(c[k].definition.name == name);
            }
            assert(c[n].definition.name == name ==> (float_limits(
                c[n].definition.constraints,
                items,
            ).allowed matches Some(a) ==> bits_of(a).contains(bits)));
        }
    }
}

/// Whether every definition of `name` accepts a value.
pub open spec fn all_accept(c: Seq<Contribution>, name: Seq<char>, v: ValueView) -> bool {
    forall|k: int|
        0 <= k < c.len() && (#[trigger] c[k]).definition.name == name ==> accepts(
            c[k].definition.constraints,
            v,
        )
}

proof fn all_accept_step(c: Seq<Contribution>, name: Seq<char>, v: ValueView)
    requires
        c.len() > 0,
    ensures
        all_accept(c, name, v) <==> all_accept(c.drop_last(), name, v) && (
        c.last().definition.name == name ==> accepts(c.last().definition.constraints, v)),
{
    let front = c.drop_last();
    let n = c.len() - 1;
    if all_accept(c, name, v) {
        assert forall|k: int|
            0 <= k < front.len() && (#[trigger] front[k]).definition.name == name implies accepts(
            front[k].definition.constraints,
            v,
        ) by {
            assert(c[k].definition.name == name);
        }
        assert(c[n].definition.name == name ==> accepts(c[n].definition.constraints, v));
    }
    if all_accept(front, name, v) && (c.last().definition.name == name ==> accepts(
        c.last().definition.constraints,
        v,
    )) {
        assert forall|k: int|
            0 <= k < c.len() && (#[trigger] c[k]).definition.name == name implies accepts(
            c[k].definition.constraints,
            v,
        ) by {
            if k < n {
                assert(front[k].definition.name == name);
            }
        }
    }
}

/// Whether the allowed floats, if there are any, hold a zero wherever the value does.
spec fn zeros_listed(c: ConstraintsView, v: ValueView) -> bool {
    match v {
        ValueView::Float(f) => float_key(f.number.bits) == 0 ==> zero_listed(c.floats),
        ValueView::ListFloat(s) => forall|i: int|
            0 <= i < s.len() && float_key((#[trigger] s[i]).number.bits) == 0 ==> zero_listed(
                c.item_floats,
            ),
        _ => true,
    }
}

spec fn zero_listed(b: FloatBoundsView) -> bool {
    b.allowed matches Some(a) ==> bits_of(a).contains(0) || bits_of(a).contains(SIGN_BIT)
}

proof fn accepted_zeros_are_listed(c: ConstraintsView, v: ValueView)
    requires
        accepts(c, v),
    ensures
        zeros_listed(c, v),
{
    match v {
        ValueView::Float(f) => accepted_zero_is_listed(c.floats, f.number.bits),
        ValueView::ListFloat(s) => {
            assert forall|i: int|
                0 <= i < s.len() && float_key((#[trigger] s[i]).number.bits)
                    == 0 implies zero_listed(c.item_floats) by {
                accepted_zero_is_listed(c.item_floats, s[i].number.bits);
            }
        },
        _ => {},
    }
}

proof fn accepted_zero_is_listed(b: FloatBoundsView, bits: u64)
    requires
        float_ok(b, bits),
    ensures
        float_key(bits) == 0 ==> zero_listed(b),
{
    if let Some(allowed) = b.allowed {
        let a = choose|a: u64| #[trigger] bits_of(allowed).contains(a) && float_eq(a, bits);
        assert(bits_of(allowed).contains(a));
        if float_key(bits) == 0 {
            assert(a == 0 || a == SIGN_BIT);
        }
    }
}

proof fn zeros_listed_together(c: ConstraintsView, d: ConstraintsView, v: ValueView)
    requires
        zeros_listed(tightened(c, d), v),
    ensures
        zeros_listed(c, v),
        zeros_settled(c, d, v),
{
    let t = tightened(c, d);
    allowed_floats_together(c.floats.allowed, d.floats.allowed, 0);
    allowed_floats_together(c.floats.allowed, d.floats.allowed, SIGN_BIT);
    allowed_floats_together(c.item_floats.allowed, d.item_floats.allowed, 0);
    allowed_floats_together(c.item_floats.allowed, d.item_floats.allowed, SIGN_BIT);
    match v {
        ValueView::ListFloat(s) => {
            assert forall|i: int|
                0 <= i < s.len() && float_key((#[trigger] s[i]).number.bits)
                    == 0 implies zero_listed(c.item_floats) && zeros_agree(
                c.item_floats.allowed,
                d.item_floats.allowed,
            ) by {
                assert(zero_listed(t.item_floats));
            }
        },
        _ => {},
    }
}

proof fn settled_means_listed(c: Seq<Contribution>, name: Seq<char>, v: ValueView)
    requires
        summary(c, name) is Some,
    ensures
        zeros_are_settled(c, name, v) <==> zeros_listed(summary(c, name)->0.constraints, v),
{
    listed_in_summary(c, name, false, 0);
    listed_in_summary(c, name, false, SIGN_BIT);
    listed_in_summary(c, name, true, 0);
    listed_in_summary(c, name, true, SIGN_BIT);
    let m = summary(c, name)->0.constraints;
    assert(zero_is_shared(c, name, false) <==> zero_listed(m.floats));
    assert(zero_is_shared(c, name, true) <==> zero_listed(m.item_floats));
    match v {
        ValueView::ListFloat(s) => {
            if zeros_are_settled(c, name, v) {
                assert forall|i: int|
                    0 <= i < s.len() && float_key((#[trigger] s[i]).number.bits)
                        == 0 implies zero_listed(m.item_floats) by {
                    assert(zero_is_shared(c, name, true));
                }
            }
        },
        _ => {},
    }
}

proof fn summary_accepts(c: Seq<Contribution>, name: Seq<char>, v: ValueView)
    ensures
        summary(c, name) matches Some(m) ==> (accepts(m.constraints, v) <==> all_accept(
            c,
            name,
            v,
        ) && zeros_are_settled(c, name, v)),
    decreases c.len(),
{
    if c.len() > 0 && summary(c, name) is Some {
        let front = c.drop_last();
        let m = summary(c, name)->0.constraints;
        summary_accepts(front, name, v);
        summary_has_name(front, name);
        all_accept_step(c, name, v);
        settled_means_listed(c, name, v);
        if summary(front, name) is Some {
            settled_means_listed(front, name, v);
        }
        if c.last().definition.name == name {
            let d = c.last().definition.constraints;
            let x = if summary(front, name) is Some {
                summary(front, name)->0.constraints
            } else {
                ConstraintsView::none()
            };
            assert(m == tightened(x, d));
            together_accepts_what_both_accept(x, d, v);
            if accepts(m, v) {
                accepted_zeros_are_listed(m, v);
            }
            if zeros_listed(m, v) {
                zeros_listed_together(x, d, v);
            }
        }
    }
}

/// A merged definition accepts exactly the values that every definition of its name accepts,
/// but for a zero that they allow under different signs.
pub proof fn merged_accepts_what_all_accept(c: Seq<Contribution>, i: int, v: ValueView)
    requires
        merged(c) is Ok,
        0 <= i < merged(c)->Ok_0.len(),
    ensures
        accepts(merged(c)->Ok_0[i].constraints, v) <==> all_accept(
            c,
            merged(c)->Ok_0[i].name,
            v,
        ) && zeros_are_settled(c, merged(c)->Ok_0[i].name, v),
{
    merged_definition_is_summary(c, i);
    summary_accepts(c, merged(c)->Ok_0[i].name, v);
}

/// Whether `x` is defined at `a`, and `y` nowhere up to there.
pub open spec fn defined_first(c: Seq<Contribution>, a: int, x: Seq<char>, y: Seq<char>) -> bool {
    &&& 0 <= a < c.len()
    &&& c[a].definition.name == x
    &&& forall|b: int| 0 <= b <= a ==> (#[trigger] c[b]).definition.name != y
}

/// Merged definitions stand in the order in which their names were first defined.
pub proof fn merged_in_order_of_first_definition(c: Seq<Contribution>, i: int, j: int)
    requires
        merged(c) is Ok,
        0 <= i < j < merged(c)->Ok_0.len(),
    ensures
        exists|a: int|
            #[trigger] defined_first(c, a, merged(c)->Ok_0[i].name, merged(c)->Ok_0[j].name),
    decreases c.len(),
{
    let front = c.drop_last();
    let s = merged(c)->Ok_0;
    let before = merged(front)->Ok_0;
    let key = c.last().definition.name;
    place_facts(named(before), key);
    assert(s[i].name == before[i].name);
    if j < before.len() {
        assert(s[j].name == before[j].name);
        merged_in_order_of_first_definition(front, i, j);
        let a = choose|a: int| #[trigger] defined_first(front, a, s[i].name, s[j].name);
        assert forall|b: int| 0 <= b <= a implies (#[trigger] c[b]).definition.name
            != s[j].name by {
            assert(front[b].definition.name != s[j].name);
        }
        assert(defined_first(c, a, s[i].name, s[j].name));
    } else {
        merged_is_summary_by_name(front, key);
        summary_has_name(front, key);
        every_name_is_merged(front, s[i].name);
        assert(s[j].name == key);
        let a = choose|a: int|
            0 <= a < front.len() && (#[trigger] front[a]).definition.name == s[i].name;
        assert forall|b: int| 0 <= b <= a implies (#[trigger] c[b]).definition.name
            != s[j].name by {
            assert(front[b].definition.name != key);
        }
        assert(defined_first(c, a, s[i].name, s[j].name));
    }
}

/// The definitions of several environment templates come one behind the other, those of each in
/// their own order and with a source that names the environment; those of the job template come
/// behind all of them. A template without definitions adds none.
pub proof fn definitions_come_template_by_template(
    job: JobTemplate,
    a: Seq<EnvironmentTemplate>,
    b: Seq<EnvironmentTemplate>,
    e: EnvironmentTemplate,
    i: int,
)
    ensures
        environment_contributions(a + b) == environment_contributions(a)
            + environment_contributions(b),
        e.parameter_definitions is None ==> environment_contributions(seq![e]).len() == 0,
        e.parameter_definitions is Some ==> ({
            let all = environment_contributions(seq![e]);
            let defs = e.parameter_definitions->0@;
            &&& all.len() == defs.len()
            &&& 0 <= i < defs.len() ==> all[i].definition == defs[i]@ && all[i].source
                == "EnvironmentTemplate '"@ + e.environment.name@ + "'"@
        }),
        all_contributions(job, a).take(environment_contributions(a).len() as int)
            == environment_contributions(a),
        job.parameter_definitions is None ==> all_contributions(job, a)
            == environment_contributions(a),
        job.parameter_definitions is Some ==> ({
            let n = environment_contributions(a).len();
            let all = all_contributions(job, a);
            let defs = job.parameter_definitions->0@;
            &&& all.len() == n + defs.len()
            &&& 0 <= i < defs.len() ==> all[n + i].definition == defs[i]@ && all[n + i].source
                == "JobTemplate"@
        }),
    decreases b.len(),
{
    assert(seq![e].drop_last() =~= Seq::<EnvironmentTemplate>::empty());
    assert(environment_contributions(seq![e].drop_last()) =~= Seq::<Contribution>::empty());
    assert(all_contributions(job, a).take(environment_contributions(a).len() as int)
        =~= environment_contributions(a));
    if job.parameter_definitions is None {
        assert(all_contributions(job, a) =~= environment_contributions(a));
    }
    if b.len() == 0 {
        assert(a + b =~= a);
    } else {
        assert((a + b).drop_last() =~= a + b.drop_last());
        definitions_come_template_by_template(job, a, b.drop_last(), e, i);
    }
    assert(environment_contributions(a + b) =~= environment_contributions(a)
        + environment_contributions(b));
}

/// A definition of a name that was not defined before is taken over behind the others: its type,
/// its default, its object type and its data flow are its own, and so is its source.
pub proof fn new_name_is_taken_over(c: Seq<Contribution>, x: Contribution)
    requires
        merged(c) is Ok,
        forall|k: int| 0 <= k < c.len() ==> (#[trigger] c[k]).definition.name != x.definition.name,
    ensures
        ({
            let s = merged(c)->Ok_0;
            let r = merged(c.push(x));
            let new = r->Ok_0.last();
            &&& r is Ok
            &&& r->Ok_0.len() == s.len() + 1
            &&& r->Ok_0.take(s.len() as int) == s
            &&& new.name == x.definition.name
            &&& new.param_type == x.definition.param_type
            &&& new.default == x.definition.default
            &&& new.object_type == x.definition.object_type
            &&& new.data_flow == x.definition.data_flow
            &&& new.source == x.source
            &&& new.constraints == tightened(ConstraintsView::none(), x.definition.constraints)
        }),
{
    let s = merged(c)->Ok_0;
    let name = x.definition.name;
    assert(c.push(x).drop_last() =~= c);
    place_facts(named(s), name);
    if let Some(i) = place(named(s), name) {
        every_name_is_merged(c, name);
        assert(named(s)[i].0 == s[i].name);
        merged_definition_is_summary(c, i);
        summary_source(c, name);
        let k = choose|k: int|
            #[trigger] defines_last(c, name, k) && c[k].source == summary(c, name)->0.source;
        assert(c[k].definition.name == name);
    }
    assert(merged(c.push(x))->Ok_0.take(s.len() as int) =~= s);
}

/// A definition of a name that was defined before is worked into the merged one, which keeps its
/// place, name and type; a default, an object type and a data flow that it gives take the place
/// of what was there, the source becomes its own, and its constraints are added. The other merged
/// definitions stay as they are. It is refused exactly where its type differs or, for a PATH, it
/// gives another object type or data flow than the one that was given before.
pub proof fn known_name_is_worked_in(c: Seq<Contribution>, x: Contribution, i: int, j: int)
    requires
        merged(c) is Ok,
        0 <= i < merged(c)->Ok_0.len(),
        merged(c)->Ok_0[i].name == x.definition.name,
    ensures
        ({
            let s = merged(c)->Ok_0;
            let r = merged(c.push(x));
            let d = x.definition;
            let was = s[i];
            let is = r->Ok_0[i];
            &&& r is Err <==> was.param_type != d.param_type || (d.param_type
                == JobParameterType::Path && ((was.object_type is Some && d.object_type is Some
                && was.object_type->0 != d.object_type->0) || (was.data_flow is Some
                && d.data_flow is Some && was.data_flow->0 != d.data_flow->0)))
            &&& r is Ok ==> r->Ok_0.len() == s.len()
            &&& r is Ok && 0 <= j < s.len() && j != i ==> r->Ok_0[j] == s[j]
            &&& r is Ok ==> is.name == was.name && is.param_type == was.param_type && is.source
                == x.source
            &&& r is Ok ==> is.default == if d.default is Some {
                d.default
            } else {
                was.default
            }
            &&& r is Ok ==> is.object_type == if d.object_type is Some {
                d.object_type
            } else {
                was.object_type
            }
            &&& r is Ok ==> is.data_flow == if d.data_flow is Some {
                d.data_flow
            } else {
                was.data_flow
            }
            &&& r is Ok ==> is.constraints == tightened(was.constraints, d.constraints)
        }),
{
    let s = merged(c)->Ok_0;
    assert(c.push(x).drop_last() =~= c);
    place_facts(named(s), x.definition.name);
    merged_names_are_distinct(c);
    match place(named(s), x.definition.name) {
        Some(p) => {
            assert(named(s)[p].0 == s[p].name);
            if p < i {
                assert(s[p].name != s[i].name);
            } else if i < p {
                assert(s[i].name != s[p].name);
            }
        },
        None => {
            assert(named(s)[i].0 == s[i].name);
        },
    }
}

/// What is reported of definitions that do not merge is reported of the first of them that
/// contradicts what was merged before, by its name; and both sources are named, that of what was
/// merged before and then its own.
pub proof fn first_contradiction_is_reported(c: Seq<Contribution>, x: Contribution, i: int)
    requires
        merged(c) is Ok,
        0 <= i < merged(c)->Ok_0.len(),
        merged(c)->Ok_0[i].name == x.definition.name,
        merged(c.push(x)) is Err,
    ensures
        ({
            let was = merged(c)->Ok_0[i];
            let d = x.definition;
            let (what, a, b) = if was.param_type != d.param_type {
                ("types"@, was.param_type.spec_str(), d.param_type.spec_str())
            } else if was.object_type is Some && d.object_type is Some && was.object_type
                != d.object_type {
                ("objectType"@, was.object_type->0.spec_str(), d.object_type->0.spec_str())
            } else {
                ("dataFlow"@, was.data_flow->0.spec_str(), d.data_flow->0.spec_str())
            };
            merged(c.push(x))->Err_0 == "Parameter '"@ + d.name + "' has conflicting "@ + what
                + ": '"@ + a + "' in "@ + was.source + " and '"@ + b + "' in "@ + x.source
        }),
{
    known_name_is_worked_in(c, x, i, 0);
    let s = merged(c)->Ok_0;
    assert(c.push(x).drop_last() =~= c);
    place_facts(named(s), x.definition.name);
    merged_names_are_distinct(c);
    let p = place(named(s), x.definition.name)->0;
    assert(named(s)[p].0 == s[p].name);
    if p < i {
        assert(s[p].name != s[i].name);
    } else if i < p {
        assert(s[i].name != s[p].name);
    }
    reveal_strlit("' has conflicting ");
    reveal_strlit("types");
    reveal_strlit("objectType");
    reveal_strlit("dataFlow");
    reveal_strlit(": '");
    reveal_strlit("' has conflicting types: '");
    reveal_strlit("' has conflicting objectType: '");
    reveal_strlit("' has conflicting dataFlow: '");
    assert("' has conflicting types: '"@ =~= "' has conflicting "@ + "types"@ + ": '"@);
    assert("' has conflicting objectType: '"@ =~= "' has conflicting "@ + "objectType"@ + ": '"@);
    assert("' has conflicting dataFlow: '"@ =~= "' has conflicting "@ + "dataFlow"@ + ": '"@);
    let was = s[i];
    let d = x.definition;
    let (what, a, b) = if was.param_type != d.param_type {
        ("types"@, was.param_type.spec_str(), d.param_type.spec_str())
    } else if was.object_type is Some && d.object_type is Some && was.object_type != d.object_type {
        ("objectType"@, was.object_type->0.spec_str(), d.object_type->0.spec_str())
    } else {
        ("dataFlow"@, was.data_flow->0.spec_str(), d.data_flow->0.spec_str())
    };
    assert(merged(c.push(x))->Err_0 =~= "Parameter '"@ + d.name + "' has conflicting "@ + what
        + ": '"@ + a + "' in "@ + was.source + " and '"@ + b + "' in "@ + x.source);
}

/// Definitions that do not merge do not merge with more behind them either, and for the same
/// reason; no definitions merge to none.
pub proof fn contradiction_is_final(c: Seq<Contribution>, more: Seq<Contribution>)
    ensures
        merged(Seq::empty()) == Ok::<Seq<MergedView>, Seq<char>>(Seq::empty()),
        merged(c) is Err ==> merged(c + more) == merged(c),
{
    if merged(c) is Err {
        conflict_stays(c, more);
    }
}

/// Something is to be said against a merged definition exactly where limits contradict each
/// other, a list of allowed values is empty, the default is not among the allowed texts, or no
/// value of its type meets the constraints; and it begins with the name of the parameter.
pub proof fn contradictory_limits_are_reported(m: MergedView)
    ensures
        ({
            let c = m.constraints;
            let r = unsatisfiable(m);
            &&& r is Some <==> {
                ||| c.ints.min is Some && c.ints.max is Some && c.ints.max->0 < c.ints.min->0
                ||| c.floats.min is Some && c.floats.max is Some && float_lt(
                    c.floats.max->0.bits,
                    c.floats.min->0.bits,
                )
                ||| c.length.min is Some && c.length.max is Some && c.length.max->0
                    < c.length.min->0
                ||| c.allowed_texts == Some(Seq::<Seq<char>>::empty())
                ||| c.allowed_texts is Some && m.default is Some && !c.allowed_texts->0.contains(
                    m.default->0,
                )
                ||| c.ints.allowed == Some(Seq::<i64>::empty())
                ||| c.floats.allowed == Some(Seq::<NumberView>::empty())
                ||| !satisfiable(c, m.param_type)
            }
            &&& r is Some ==> ("Parameter '"@ + m.name + "': "@).is_prefix_of(r->0)
        }),
{
    let c = m.constraints;
    if let Some(a) = c.allowed_texts {
        if a.len() == 0 {
            assert(a =~= Seq::<Seq<char>>::empty());
        }
    }
    if let Some(a) = c.ints.allowed {
        if a.len() == 0 {
            assert(a =~= Seq::<i64>::empty());
        }
    }
    if let Some(a) = c.floats.allowed {
        if a.len() == 0 {
            assert(a =~= Seq::<NumberView>::empty());
        }
    }
    reveal_strlit("': ");
    reveal_strlit("': merged INT constraints have no valid range (min ");
    reveal_strlit("': merged FLOAT constraints have no valid range (min ");
    reveal_strlit("': merged ");
    reveal_strlit("': default '");
    reveal_strlit("': merged INT allowedValues have no common values");
    reveal_strlit("': merged FLOAT allowedValues have no common values");
    if let Some(r) = unsatisfiable(m) {
        let head = "Parameter '"@ + m.name + "': "@;
        assert(r.subrange(0, head.len() as int) =~= head);
    }
}

/// Limits that contradict each other are quoted with both their values, the lower one first.
pub proof fn contradictory_limits_are_quoted(m: MergedView)
    ensures
        ({
            let c = m.constraints;
            let ints = c.ints.min is Some && c.ints.max is Some && c.ints.max->0 < c.ints.min->0;
            let floats = c.floats.min is Some && c.floats.max is Some && float_lt(
                c.floats.max->0.bits,
                c.floats.min->0.bits,
            );
            let lengths = c.length.min is Some && c.length.max is Some && c.length.max->0
                < c.length.min->0;
            &&& ints ==> (" (min "@ + int_text(c.ints.min->0 as int) + " > max "@ + int_text(
                c.ints.max->0 as int,
            ) + ")"@).is_suffix_of(unsatisfiable(m)->0)
            &&& !ints && floats ==> (" (min "@ + c.floats.min->0.shown + " > max "@
                + c.floats.max->0.shown + ")"@).is_suffix_of(unsatisfiable(m)->0)
            &&& !ints && !floats && lengths ==> (" (minLength "@ + nat_text(
                c.length.min->0 as nat,
            ) + " > maxLength "@ + nat_text(c.length.max->0 as nat) + ")"@).is_suffix_of(
                unsatisfiable(m)->0,
            )
        }),
{
    let c = m.constraints;
    reveal_strlit(" (min ");
    reveal_strlit(" (minLength ");
    reveal_strlit("': merged INT constraints have no valid range (min ");
    reveal_strlit("': merged INT constraints have no valid range");
    reveal_strlit("': merged FLOAT constraints have no valid range (min ");
    reveal_strlit("': merged FLOAT constraints have no valid range");
    reveal_strlit(" constraints have no valid length (minLength ");
    reveal_strlit(" constraints have no valid length");
    assert("': merged INT constraints have no valid range (min "@
        =~= "': merged INT constraints have no valid range"@ + " (min "@);
    assert("': merged FLOAT constraints have no valid range (min "@
        =~= "': merged FLOAT constraints have no valid range"@ + " (min "@);
    assert(" constraints have no valid length (minLength "@
        =~= " constraints have no valid length"@ + " (minLength "@);
    if let Some(r) = unsatisfiable(m) {
        if c.ints.min is Some && c.ints.max is Some && c.ints.max->0 < c.ints.min->0 {
            let end = " (min "@ + int_text(c.ints.min->0 as int) + " > max "@ + int_text(
                c.ints.max->0 as int,
            ) + ")"@;
            assert(r.subrange(r.len() - end.len(), r.len() as int) =~= end);
        } else if c.floats.min is Some && c.floats.max is Some && float_lt(
            c.floats.max->0.bits,
            c.floats.min->0.bits,
        ) {
            let end = " (min "@ + c.floats.min->0.shown + " > max "@ + c.floats.max->0.shown
                + ")"@;
            assert(r.subrange(r.len() - end.len(), r.len() as int) =~= end);
        } else if c.length.min is Some && c.length.max is Some && c.length.max->0
            < c.length.min->0 {
            let end = " (minLength "@ + nat_text(c.length.min->0 as nat) + " > maxLength "@
                + nat_text(c.length.max->0 as nat) + ")"@;
            assert(r.subrange(r.len() - end.len(), r.len() as int) =~= end);
        }
    }
}

} // verus!
