//! The symbols that a job's parameters give to template expressions.

use vstd::prelude::*;

use crate::params::preprocess::{
    distinct_values, JobParameterValue, JobParameterValues, ParameterView,
};
use crate::params::values::{ExprValue, JobParameterType, ValueView};
use crate::text::{clone_texts, str_eq};

verus! {

/// A name and what it stands for.
#[derive(Debug)]
pub struct Symbol {
    pub name: String,
    pub value: ExprValue,
}

/// Names and what they stand for. What was set last counts.
#[derive(Debug)]
pub struct SymbolTable {
    pub entries: Vec<Symbol>,
}

/// What names stand for after a sequence of assignments.
pub open spec fn assigned(s: Seq<Symbol>) -> Map<Seq<char>, ValueView>
    decreases s.len(),
{
    if s.len() == 0 {
        Map::empty()
    } else {
        assigned(s.drop_last()).insert(s.last().name@, s.last().value@)
    }
}

impl View for SymbolTable {
    type V = Map<Seq<char>, ValueView>;

    open spec fn view(&self) -> Map<Seq<char>, ValueView> {
        assigned(self.entries@)
    }
}

impl SymbolTable {
    /// A table without symbols.
    pub fn new() -> (r: SymbolTable)
        ensures
            r@ == Map::<Seq<char>, ValueView>::empty(),
    {
        SymbolTable { entries: Vec::new() }
    }

    /// Let a name stand for a value.
    pub fn set(&mut self, name: String, value: ExprValue)
        ensures
            final(self)@ == old(self)@.insert(name@, value@),
    {
        let ghost before = self.entries@;
        self.entries.push(Symbol { name, value });
        assert(self.entries@.drop_last() =~= before);
    }

    /// What a name stands for.
    pub fn get(&self, name: &str) -> (r: Option<&ExprValue>)
        ensures
            match r {
                Some(v) => self@.contains_key(name@) && self@[name@] == v@,
                None => !self@.contains_key(name@),
            },
    {
        let ghost all = self.entries@;
        let mut n: usize = self.entries.len();
        assert(all.take(n as int) =~= all);
        while n > 0
            invariant
                n <= self.entries.len(),
                all == self.entries@,
                self@.contains_key(name@) == assigned(all.take(n as int)).contains_key(name@),
                self@.contains_key(name@) ==> self@[name@] == assigned(all.take(n as int))[name@],
            decreases n,
        {
            assert(all.take(n as int).drop_last() =~= all.take(n - 1));
            if str_eq(self.entries[n - 1].name.as_str(), name) {
                return Some(&self.entries[n - 1].value);
            }
            n -= 1;
        }
        None
    }
}

/// Whether values of a type are paths.
pub open spec fn is_path_type(t: JobParameterType) -> bool {
    t == JobParameterType::Path || t == JobParameterType::ListPath
}

/// A value as it stands under `RawParam`: paths are strings there.
pub open spec fn raw_value(p: ParameterView) -> ValueView {
    match p.param_type {
        JobParameterType::Path => match p.value {
            ValueView::Path(s) => ValueView::String(s),
            v => v,
        },
        JobParameterType::ListPath => match p.value {
            ValueView::ListPath(s) => ValueView::ListString(s),
            v => v,
        },
        _ => p.value,
    }
}

/// The name of a parameter's value.
pub open spec fn param_symbol(name: Seq<char>) -> Seq<char> {
    "Param."@ + name
}

/// The name of a parameter's raw value.
pub open spec fn raw_symbol(name: Seq<char>) -> Seq<char> {
    "RawParam."@ + name
}

/// The symbols of parameter values.
pub open spec fn symbols(s: Seq<ParameterView>) -> Map<Seq<char>, ValueView>
    decreases s.len(),
{
    if s.len() == 0 {
        Map::empty()
    } else {
        let before = symbols(s.drop_last());
        let p = s.last();
        let with_param = if is_path_type(p.param_type) {
            before
        } else {
            before.insert(param_symbol(p.name), p.value)
        };
        with_param.insert(raw_symbol(p.name), raw_value(p))
    }
}

fn make_raw(p: &JobParameterValue) -> (v: ExprValue)
    ensures
        v@ == raw_value(p@),
{
    match p.param_type {
        JobParameterType::Path => match &p.value {
            ExprValue::Path { value } => ExprValue::String(value.clone()),
            _ => p.value.copy(),
        },
        JobParameterType::ListPath => match &p.value {
            ExprValue::ListPath(s) => ExprValue::ListString(clone_texts(s)),
            _ => p.value.copy(),
        },
        _ => p.value.copy(),
    }
}

/// Build the symbol table of processed job parameter values.
///
/// The values of PATH and LIST[PATH] parameters stand only under `RawParam`, as strings: what
/// they are under `Param` is known when the paths of a session are.
pub fn build_symbol_table(params: &JobParameterValues) -> (r: SymbolTable)
    ensures
        r@ == symbols(params@),
{
    let ghost all = params@;
    let mut table = SymbolTable::new();
    let mut i: usize = 0;
    assert(all.take(0) =~= Seq::empty());
    while i < params.entries.len()
        invariant
            i <= params.entries.len(),
            all == params@,
            table@ == symbols(all.take(i as int)),
        decreases params.entries.len() - i,
    {
        assert(all.take(i + 1).drop_last() =~= all.take(i as int));
        let p = &params.entries[i];
        let path: bool = match p.param_type {
            JobParameterType::Path | JobParameterType::ListPath => true,
            _ => false,
        };
        if !path {
            let mut name = "Param.".to_owned();
            name.append(p.name.as_str());
            table.set(name, p.value.copy());
        }
        let mut name = "RawParam.".to_owned();
        name.append(p.name.as_str());
        table.set(name, make_raw(p));
        i += 1;
    }
    assert(all.take(all.len() as int) =~= all);
    table
}

proof fn symbol_names_differ(a: Seq<char>, b: Seq<char>)
    ensures
        param_symbol(a) != raw_symbol(b),
        param_symbol(a) == param_symbol(b) ==> a == b,
        raw_symbol(a) == raw_symbol(b) ==> a == b,
{
    reveal_strlit("Param.");
    reveal_strlit("RawParam.");
    assert(param_symbol(a)[0] == 'P');
    assert(raw_symbol(b)[0] == 'R');
    assert(param_symbol(a).skip(6) =~= a);
    assert(param_symbol(b).skip(6) =~= b);
    assert(raw_symbol(a).skip(9) =~= a);
    assert(raw_symbol(b).skip(9) =~= b);
}

proof fn unset_names(s: Seq<ParameterView>, name: Seq<char>)
    requires
        forall|i: int| 0 <= i < s.len() ==> (#[trigger] s[i]).name != name,
    ensures
        !symbols(s).contains_key(param_symbol(name)),
        !symbols(s).contains_key(raw_symbol(name)),
    decreases s.len(),
{
    if s.len() > 0 {
        assert(s[s.len() - 1].name != name);
        assert forall|i: int| 0 <= i < s.drop_last().len() implies (#[trigger] s.drop_last()[i]).name
            != name by {
            assert(s[i].name != name);
        }
        unset_names(s.drop_last(), name);
        symbol_names_differ(name, s.last().name);
        symbol_names_differ(s.last().name, name);
    }
}

/// Every parameter stands under `RawParam` with its raw value, and under `Param` with its
/// value exactly where it is no path.
pub proof fn every_parameter_has_its_symbols(s: Seq<ParameterView>, i: int)
    requires
        distinct_values(s),
        0 <= i < s.len(),
    ensures
        symbols(s).contains_key(raw_symbol(s[i].name)),
        symbols(s)[raw_symbol(s[i].name)] == raw_value(s[i]),
        symbols(s).contains_key(param_symbol(s[i].name)) <==> !is_path_type(s[i].param_type),
        !is_path_type(s[i].param_type) ==> symbols(s)[param_symbol(s[i].name)] == s[i].value,
    decreases s.len(),
{
    let front = s.drop_last();
    let n = s.len() - 1;
    symbol_names_differ(s[i].name, s[n].name);
    symbol_names_differ(s[n].name, s[i].name);
    assert forall|a: int, b: int| 0 <= a < b < front.len() implies (#[trigger] front[a]).name != (
    #[trigger] front[b]).name by {
        assert(s[a].name != s[b].name);
    }
    if i < n {
        assert(s[i].name != s[n].name);
        every_parameter_has_its_symbols(front, i);
    } else {
        assert forall|k: int| 0 <= k < front.len() implies (#[trigger] front[k]).name
            != s[n].name by {
            assert(s[k].name != s[n].name);
        }
        unset_names(front, s[n].name);
    }
}

/// No other symbol is set than those of the parameters.
pub proof fn only_parameters_have_symbols(s: Seq<ParameterView>, name: Seq<char>)
    requires
        symbols(s).contains_key(name),
    ensures
        exists|i: int|
            0 <= i < s.len() && (name == param_symbol((#[trigger] s[i]).name) || name
                == raw_symbol(s[i].name)),
    decreases s.len(),
{
    if s.len() > 0 {
        let n = s.len() - 1;
        if name == param_symbol(s[n].name) || name == raw_symbol(s[n].name) {
        } else {
            let front = s.drop_last();
            only_parameters_have_symbols(front, name);
            let i = choose|i: int|
                0 <= i < front.len() && (name == param_symbol((#[trigger] front[i]).name) || name
                    == raw_symbol(front[i].name));
            assert(s[i] == front[i]);
        }
    }
}

/// A parameter that is no path stands for the same value under `RawParam` and under `Param`:
/// the one that it has. A path stands under `RawParam` alone, as a string or a list of strings
/// with the same texts.
pub proof fn raw_symbol_stands_for_the_value(s: Seq<ParameterView>, i: int)
    requires
        distinct_values(s),
        0 <= i < s.len(),
    ensures
        ({
            let p = s[i];
            let raw = "RawParam."@ + p.name;
            let plain = "Param."@ + p.name;
            let path = p.param_type == JobParameterType::Path || p.param_type
                == JobParameterType::ListPath;
            &&& symbols(s).contains_key(raw)
            &&& !path ==> symbols(s)[raw] == p.value && symbols(s).contains_key(plain)
                && symbols(s)[plain] == p.value
            &&& path ==> !symbols(s).contains_key(plain)
            &&& path && (p.value is String || p.value is ListString) ==> symbols(s)[raw] == p.value
            &&& p.param_type == JobParameterType::Path ==> (p.value matches ValueView::Path(t)
                ==> symbols(s)[raw] == ValueView::String(t))
            &&& p.param_type == JobParameterType::ListPath ==> (p.value matches ValueView::ListPath(
                l,
            ) ==> symbols(s)[raw] == ValueView::ListString(l))
        }),
{
    every_parameter_has_its_symbols(s, i);
}

/// A table tells of a name what it was last set to, and nothing of a name that was never set.
pub proof fn last_assignment_counts(s: Seq<Symbol>, name: Seq<char>, i: int)
    ensures
        assigned(s).contains_key(name) <==> exists|k: int|
            0 <= k < s.len() && (#[trigger] s[k]).name@ == name,
        0 <= i < s.len() && s[i].name@ == name && (forall|k: int|
            i < k < s.len() ==> (#[trigger] s[k]).name@ != name) ==> assigned(s)[name]
            == s[i].value@,
    decreases s.len(),
{
    if s.len() > 0 {
        let front = s.drop_last();
        let n = s.len() - 1;
        last_assignment_counts(front, name, i);
        assert forall|k: int| 0 <= k < n implies #[trigger] front[k] == s[k] by {}
        if s[n].name@ != name {
            if assigned(front).contains_key(name) {
                let k = choose|k: int| 0 <= k < front.len() && (#[trigger] front[k]).name@ == name;
                assert(s[k].name@ == name);
            }
            if exists|k: int| 0 <= k < s.len() && (#[trigger] s[k]).name@ == name {
                let k = choose|k: int| 0 <= k < s.len() && (#[trigger] s[k]).name@ == name;
                assert(front[k].name@ == name);
            }
            if 0 <= i < n && s[i].name@ == name {
                assert(front[i] == s[i]);
                assert(assigned(s)[name] == assigned(front)[name]);
            }
        }
    }
}

} // verus!
