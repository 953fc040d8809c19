use crate::value::{fields_view, value_view, Field, FieldView, Value, ValueView};
use vstd::prelude::*;

verus! {

/// Mathematical model of one default-block field: a name, an optional type
/// annotation and an opaque default expression.
pub struct FieldSpecView {
    pub name: Seq<char>,
    pub ty: Option<Seq<char>>,
    pub value: ValueView,
}

/// Mathematical model of one transient-block field, whose type annotation is
/// mandatory.
pub struct TransientSpecView {
    pub name: Seq<char>,
    pub ty: Seq<char>,
    pub value: ValueView,
}

/// Mathematical model of one mixin block: a name and the field updates it
/// applies.
pub struct MixinDefView {
    pub name: Seq<char>,
    pub fields: Seq<FieldView>,
}

/// Mathematical model of one parsed definition.
pub struct DefinitionView {
    pub ty: Seq<char>,
    pub defaults: Seq<FieldSpecView>,
    pub transients: Option<Seq<TransientSpecView>>,
    pub transform: Option<Seq<char>>,
    pub mixins: Seq<MixinDefView>,
}

/// One default-block field: name, optional type annotation, default value.
#[derive(Debug, PartialEq)]
pub struct FieldSpec {
    pub name: String,
    pub ty: Option<String>,
    pub value: Value,
}

/// One transient-block field: a construction-only input with its mandatory
/// type annotation and default value.
#[derive(Debug, PartialEq)]
pub struct TransientSpec {
    pub name: String,
    pub ty: String,
    pub value: Value,
}

/// One named mixin: a reusable partial set of field updates.
#[derive(Debug, PartialEq)]
pub struct MixinDef {
    pub name: String,
    pub fields: Vec<Field>,
}

/// One parsed factory definition: the target type identifier, its default
/// block, the optional transient block, the optional opaque transform body,
/// and its mixin blocks.
#[derive(Debug, PartialEq)]
pub struct Definition {
    pub ty: String,
    pub defaults: Vec<FieldSpec>,
    pub transients: Option<Vec<TransientSpec>>,
    pub transform: Option<String>,
    pub mixins: Vec<MixinDef>,
}

pub open spec fn field_spec_view(f: FieldSpec) -> FieldSpecView {
    FieldSpecView {
        name: f.name@,
        ty: match f.ty {
            Some(t) => Some(t@),
            None => None,
        },
        value: value_view(f.value),
    }
}

pub open spec fn field_specs_view(fs: Seq<FieldSpec>) -> Seq<FieldSpecView> {
    Seq::new(fs.len(), |i: int| field_spec_view(fs[i]))
}

pub open spec fn transient_spec_view(t: TransientSpec) -> TransientSpecView {
    TransientSpecView { name: t.name@, ty: t.ty@, value: value_view(t.value) }
}

pub open spec fn transient_specs_view(ts: Seq<TransientSpec>) -> Seq<TransientSpecView> {
    Seq::new(ts.len(), |i: int| transient_spec_view(ts[i]))
}

pub open spec fn mixin_def_view(m: MixinDef) -> MixinDefView {
    MixinDefView { name: m.name@, fields: fields_view(m.fields@) }
}

pub open spec fn mixin_defs_view(ms: Seq<MixinDef>) -> Seq<MixinDefView> {
    Seq::new(ms.len(), |i: int| mixin_def_view(ms[i]))
}

pub open spec fn definition_view(d: Definition) -> DefinitionView {
    DefinitionView {
        ty: d.ty@,
        defaults: field_specs_view(d.defaults@),
        transients: match d.transients {
            Some(ts) => Some(transient_specs_view(ts@)),
            None => None,
        },
        transform: match d.transform {
            Some(c) => Some(c@),
            None => None,
        },
        mixins: mixin_defs_view(d.mixins@),
    }
}

impl View for FieldSpec {
    type V = FieldSpecView;

    open spec fn view(&self) -> FieldSpecView {
        field_spec_view(*self)
    }
}

impl View for TransientSpec {
    type V = TransientSpecView;

    open spec fn view(&self) -> TransientSpecView {
        transient_spec_view(*self)
    }
}

impl View for MixinDef {
    type V = MixinDefView;

    open spec fn view(&self) -> MixinDefView {
        mixin_def_view(*self)
    }
}

impl View for Definition {
    type V = DefinitionView;

    open spec fn view(&self) -> DefinitionView {
        definition_view(*self)
    }
}

pub open spec fn definitions_view(ds: Seq<Definition>) -> Seq<DefinitionView> {
    Seq::new(ds.len(), |i: int| ds[i]@)
}

impl Clone for MixinDef {
    #[verifier::loop_isolation(false)]
    fn clone(&self) -> (res: Self)
        ensures
            res@ == self@,
    {
        let mut out: Vec<Field> = Vec::new();
        let mut i: usize = 0;
        while i < self.fields.len()
            invariant
                i <= self.fields@.len(),
                out@.len() == i as int,
                forall|j: int| 0 <= j < i ==> out@[j]@ == self.fields@[j]@,
            decreases self.fields@.len() - i,
        {
            out.push(self.fields[i].clone());
            i = i + 1;
        }
        proof {
            crate::value::lemma_fields_view_congruent(out@, self.fields@);
        }
        MixinDef { name: self.name.clone(), fields: out }
    }
}

/// A transform step needs a fully typed intermediate shape to bind values
/// from, so a definition is invalid exactly when it has a transform step and
/// some default field lacks a type annotation. The diagnostic names the first
/// such field.
#[derive(Debug, PartialEq)]
pub struct ValidateError {
    pub field: String,
}

/// The first default field lacking a type annotation, if any.
pub open spec fn spec_first_untyped(ds: Seq<FieldSpecView>) -> Option<Seq<char>>
    decreases ds.len(),
{
    if ds.len() == 0 {
        None
    } else if ds[0].ty is None {
        Some(ds[0].name)
    } else {
        spec_first_untyped(ds.drop_first())
    }
}

/// The single validation rule: the name of the offending default field, or
/// nothing when the definition is valid.
pub open spec fn spec_validate(d: DefinitionView) -> Option<Seq<char>> {
    if d.transform is Some {
        spec_first_untyped(d.defaults)
    } else {
        None
    }
}

proof fn lemma_first_untyped_at(ds: Seq<FieldSpecView>, i: int)
    requires
        0 <= i < ds.len(),
        forall|j: int| 0 <= j < i ==> #[trigger] ds[j].ty is Some,
        ds[i].ty is None,
    ensures
        spec_first_untyped(ds) == Some(ds[i].name),
    decreases i,
{
    if i > 0 {
        lemma_first_untyped_at(ds.drop_first(), i - 1);
    }
}

proof fn lemma_first_untyped_none(ds: Seq<FieldSpecView>)
    requires
        forall|j: int| 0 <= j < ds.len() ==> #[trigger] ds[j].ty is Some,
    ensures
        spec_first_untyped(ds) is None,
    decreases ds.len(),
{
    if ds.len() > 0 {
        lemma_first_untyped_none(ds.drop_first());
    }
}

/// Check the one definition-time rule of its own: with a transform step
/// present, every default field must carry a type annotation.
#[verifier::loop_isolation(false)]
pub fn validate(def: &Definition) -> (r: Result<(), ValidateError>)
    ensures
        match r {
            Ok(()) => spec_validate(def@) is None,
            Err(e) => spec_validate(def@) == Some(e.field@),
        },
{
    if def.transform.is_none() {
        return Ok(());
    }
    let mut i: usize = 0;
    while i < def.defaults.len()
        invariant
            i <= def.defaults@.len(),
            forall|j: int| 0 <= j < i ==> #[trigger] field_specs_view(def.defaults@)[j].ty
                is Some,
        decreases def.defaults@.len() - i,
    {
        if def.defaults[i].ty.is_none() {
            proof {
                lemma_first_untyped_at(field_specs_view(def.defaults@), i as int);
            }
            return Err(ValidateError { field: def.defaults[i].name.clone() });
        }
        i = i + 1;
    }
    proof {
        lemma_first_untyped_none(field_specs_view(def.defaults@));
    }
    Ok(())
}

} // verus!
