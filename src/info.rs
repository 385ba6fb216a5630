use vstd::prelude::*;
use crate::catalog::{
    text_lt,
    flags_view, lookup, opt_text, values_view, BitFlag, FieldModel, FieldType, ParamModel, Value,
};
use crate::state::MavConnState;

verus! {

/// A bit flag as the parameter views show it.
pub struct BitFlagInfo {
    pub code: u32,
    pub name: String,
}

/// An enumerated value as the parameter views show it.
pub struct ValueInfo {
    pub code: u32,
    pub name: String,
}

/// The value space of a parameter as the views show it.
pub enum ParameterFieldInfo {
    Range { min: crate::numeric::Decimal, max: crate::numeric::Decimal, increment: Option<crate::numeric::Decimal>, units: Option<String> },
    Bitmask { flags: Vec<BitFlagInfo> },
    Values { values: Vec<ValueInfo> },
    Unconstrained,
}

/// A parameter with its name, as handed to the caller.
pub struct ParameterInfo {
    pub name: String,
    pub human_name: String,
    pub documentation: String,
    pub user: String,
    pub field_type: ParameterFieldInfo,
}

impl View for ParameterFieldInfo {
    type V = FieldModel;

    open spec fn view(&self) -> FieldModel {
        match self {
            ParameterFieldInfo::Range { min, max, increment, units } => FieldModel::Range {
                min: *min,
                max: *max,
                increment: *increment,
                units: opt_text(*units),
            },
            ParameterFieldInfo::Bitmask { flags } => FieldModel::Bitmask(flags@.map_values(|f: BitFlagInfo| (f.code, f.name@))),
            ParameterFieldInfo::Values { values } => FieldModel::Values(values@.map_values(|v: ValueInfo| (v.code, v.name@))),
            ParameterFieldInfo::Unconstrained => FieldModel::Unconstrained,
        }
    }
}

impl View for ParameterInfo {
    type V = (Seq<char>, ParamModel);

    open spec fn view(&self) -> (Seq<char>, ParamModel) {
        (self.name@, ParamModel {
            human_name: self.human_name@,
            documentation: self.documentation@,
            user: self.user@,
            field: self.field_type@,
        })
    }
}

fn copy_text(o: &Option<String>) -> (r: Option<String>)
    ensures
        opt_text(*o) == opt_text(r),
{
    match o {
        Some(s) => Some(s.clone()),
        None => None,
    }
}

fn flag_infos(flags: &Vec<BitFlag>) -> (r: Vec<BitFlagInfo>)
    ensures
        r@.map_values(|f: BitFlagInfo| (f.code, f.name@)) == flags_view(flags@),
{
    let mut r: Vec<BitFlagInfo> = Vec::new();
    let mut i: usize = 0;
    while i < flags.len()
        invariant
            i <= flags.len(),
            r@.len() == i,
            forall|j: int| 0 <= j < i ==> (#[trigger] r@[j]).code == flags@[j].code && r@[j].name@ == flags@[j].name@,
        decreases flags.len() - i,
    {
        r.push(BitFlagInfo { code: flags[i].code, name: flags[i].name.clone() });
        i = i + 1;
    }
    assert(r@.map_values(|f: BitFlagInfo| (f.code, f.name@)) =~= flags_view(flags@));
    r
}

fn value_infos(values: &Vec<Value>) -> (r: Vec<ValueInfo>)
    ensures
        r@.map_values(|v: ValueInfo| (v.code, v.name@)) == values_view(values@),
{
    let mut r: Vec<ValueInfo> = Vec::new();
    let mut i: usize = 0;
    while i < values.len()
        invariant
            i <= values.len(),
            r@.len() == i,
            forall|j: int| 0 <= j < i ==> (#[trigger] r@[j]).code == values@[j].code && r@[j].name@ == values@[j].name@,
        decreases values.len() - i,
    {
        r.push(ValueInfo { code: values[i].code, name: values[i].name.clone() });
        i = i + 1;
    }
    assert(r@.map_values(|v: ValueInfo| (v.code, v.name@)) =~= values_view(values@));
    r
}

/// The view of a field type.
pub fn field_info(f: &FieldType) -> (r: ParameterFieldInfo)
    ensures
        r@ == f@,
{
    match f {
        FieldType::Range { min, max, increment, units } => ParameterFieldInfo::Range {
            min: *min,
            max: *max,
            increment: *increment,
            units: copy_text(units),
        },
        FieldType::Bitmask(flags) => ParameterFieldInfo::Bitmask { flags: flag_infos(flags) },
        FieldType::Values(values) => ParameterFieldInfo::Values { values: value_infos(values) },
        FieldType::Unconstrained => ParameterFieldInfo::Unconstrained,
    }
}

/// The catalog's descriptor of `param_name`, with its name, if there is one.
pub fn get_parameter_info(state: &MavConnState, param_name: String) -> (r: Option<ParameterInfo>)
    ensures
        match lookup(state.parameters@, param_name@) {
            Some(p) => r matches Some(info) && info@ == (param_name@, p),
            None => r is None,
        },
{
    match state.parameters.get(param_name.as_str()) {
        Some(p) => Some(ParameterInfo {
            name: param_name,
            human_name: p.human_name.clone(),
            documentation: p.documentation.clone(),
            user: p.user.clone(),
            field_type: field_info(&p.field_type),
        }),
        None => None,
    }
}

/// Every descriptor of the catalog with its name, sorted by name. The
/// result depends on the catalog alone.
pub fn get_all_parameters(state: &MavConnState) -> (r: Vec<ParameterInfo>)
    ensures
        r@.map_values(|i: ParameterInfo| i@) == state.parameters@,
        state.parameters.wf() ==> forall|i: int, j: int| 0 <= i < j < r@.len() ==> text_lt((#[trigger] r@[i]).name@, (#[trigger] r@[j]).name@),
{
    let cat = &state.parameters;
    let mut r: Vec<ParameterInfo> = Vec::new();
    let mut i: usize = 0;
    let n = cat.len();
    while i < n
        invariant
            i <= n == cat@.len(),
            r@.len() == i,
            forall|j: int| 0 <= j < i ==> (#[trigger] r@[j])@ == cat@[j],
        decreases n - i,
    {
        let e = cat.entry(i);
        let p = &e.parameter;
        r.push(ParameterInfo {
            name: e.name.clone(),
            human_name: p.human_name.clone(),
            documentation: p.documentation.clone(),
            user: p.user.clone(),
            field_type: field_info(&p.field_type),
        });
        i = i + 1;
    }
    assert(r@.map_values(|i: ParameterInfo| i@) =~= cat@);
    assert forall|i: int, j: int| state.parameters.wf() && 0 <= i < j < r@.len() implies text_lt((#[trigger] r@[i]).name@, (#[trigger] r@[j]).name@) by {
        assert(r@[i]@.0 == cat@[i].0 && r@[j]@.0 == cat@[j].0);
    }
    r
}

/// Two reads of the whole catalog without a write in between give equal
/// results.
pub proof fn lemma_get_all_repeatable(a: Seq<ParameterInfo>, b: Seq<ParameterInfo>, state: MavConnState)
    requires
        a.map_values(|i: ParameterInfo| i@) == state.parameters@,
        b.map_values(|i: ParameterInfo| i@) == state.parameters@,
    ensures
        a.len() == b.len(),
        forall|j: int| 0 <= j < a.len() ==> (#[trigger] a[j])@ == b[j]@,
{
    let ma = a.map_values(|i: ParameterInfo| i@);
    let mb = b.map_values(|i: ParameterInfo| i@);
    assert(ma.len() == a.len() && mb.len() == b.len());
    assert forall|j: int| 0 <= j < a.len() implies (#[trigger] a[j])@ == b[j]@ by {
        assert(ma[j] == a[j]@);
        assert(mb[j] == b[j]@);
    }
}

} // verus!
