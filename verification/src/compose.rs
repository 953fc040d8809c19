use crate::compile::{
    factory_wf, find_mixin, find_mixin_in, mixin_resolved, CompiledFactory, FactoryView,
};
use crate::definition::{MixinDef, MixinDefView};
use crate::shape::{
    contains_name, lemma_apply_preserves_names, lemma_apply_snoc,
    lemma_same_names_same_contains, lemma_set_preserves_names, lookup, names_of, spec_apply,
    spec_set, Shape,
};
use crate::value::{
    fields_view, lemma_fields_view_index, lemma_fields_view_len, strings_view, Field, FieldView,
};
use vstd::prelude::*;

verus! {

/// What makes one instantiation request fail: a type nobody defined, a mixin
/// reference the definition does not declare, or an override naming a field
/// the intermediate shape does not have. Each names the offending identifier.
#[derive(Debug, PartialEq)]
pub enum CreateError {
    UnknownType(String),
    UnknownMixin(String),
    UnknownField(String),
}

/// Mathematical model of an instantiation error.
pub enum CreateErrorView {
    UnknownType(Seq<char>),
    UnknownMixin(Seq<char>),
    UnknownField(Seq<char>),
}

impl View for CreateError {
    type V = CreateErrorView;

    open spec fn view(&self) -> CreateErrorView {
        match self {
            CreateError::UnknownType(n) => CreateErrorView::UnknownType(n@),
            CreateError::UnknownMixin(n) => CreateErrorView::UnknownMixin(n@),
            CreateError::UnknownField(n) => CreateErrorView::UnknownField(n@),
        }
    }
}

/// Apply the named mixins to the shape, in request order; the first unknown
/// mixin reference is a terminal error.
pub open spec fn spec_apply_mixins(
    ms: Seq<MixinDefView>,
    s: Seq<FieldView>,
    names: Seq<Seq<char>>,
) -> Result<Seq<FieldView>, CreateErrorView>
    decreases names.len(),
{
    if names.len() == 0 {
        Ok(s)
    } else {
        match find_mixin(ms, names[0]) {
            None => Err(CreateErrorView::UnknownMixin(names[0])),
            Some(pairs) => spec_apply_mixins(ms, spec_apply(s, pairs), names.drop_first()),
        }
    }
}

/// Apply the explicit overrides to the shape, in literal order, the last
/// occurrence of a repeated field winning; an override naming a field the
/// shape does not have is a terminal error.
pub open spec fn spec_apply_overrides(s: Seq<FieldView>, ovs: Seq<FieldView>) -> Result<
    Seq<FieldView>,
    CreateErrorView,
>
    decreases ovs.len(),
{
    if ovs.len() == 0 {
        Ok(s)
    } else if !contains_name(s, ovs[0].name) {
        Err(CreateErrorView::UnknownField(ovs[0].name))
    } else {
        spec_apply_overrides(spec_set(s, ovs[0]), ovs.drop_first())
    }
}

/// The composition algorithm: seed the shape from the default constructor,
/// fold the requested mixins over it in order, then apply the explicit
/// overrides, which outrank every mixin.
pub open spec fn spec_compose(
    f: FactoryView,
    mixin_names: Seq<Seq<char>>,
    ovs: Seq<FieldView>,
) -> Result<Seq<FieldView>, CreateErrorView> {
    match spec_apply_mixins(f.mixins, f.seed, mixin_names) {
        Err(e) => Err(e),
        Ok(s) => spec_apply_overrides(s, ovs),
    }
}

/// The final instance taken from a transform step's output: the target's
/// fields in declaration order, each with the value the output binds it to;
/// a field the output does not bind is left out, and no other field — in
/// particular no transient field — reaches the instance.
pub open spec fn spec_restrict(out: Seq<FieldView>, target: Seq<Seq<char>>) -> Seq<FieldView>
    decreases target.len(),
{
    if target.len() == 0 {
        Seq::empty()
    } else {
        match lookup(out, target[0]) {
            Some(v) => seq![FieldView { name: target[0], value: v }] + spec_restrict(
                out,
                target.drop_first(),
            ),
            None => spec_restrict(out, target.drop_first()),
        }
    }
}

/// A successful list of overrides is exactly the update fold.
pub proof fn lemma_apply_overrides_ok(s: Seq<FieldView>, ovs: Seq<FieldView>)
    requires
        spec_apply_overrides(s, ovs) is Ok,
    ensures
        spec_apply_overrides(s, ovs) == Ok::<Seq<FieldView>, CreateErrorView>(spec_apply(s, ovs)),
    decreases ovs.len(),
{
    if ovs.len() > 0 {
        lemma_apply_overrides_ok(spec_set(s, ovs[0]), ovs.drop_first());
    }
}

proof fn lemma_find_mixin_exists(ms: Seq<MixinDefView>, name: Seq<char>)
    requires
        find_mixin(ms, name) is Some,
    ensures
        exists|i: int|
            0 <= i < ms.len() && ms[i].name == name && ms[i].fields == find_mixin(
                ms,
                name,
            ).unwrap(),
    decreases ms.len(),
{
    if ms[0].name == name {
        assert(0 <= 0 < ms.len() && ms[0].name == name && ms[0].fields == find_mixin(
            ms,
            name,
        ).unwrap());
    } else {
        lemma_find_mixin_exists(ms.drop_first(), name);
        let i = choose|i: int|
            0 <= i < ms.drop_first().len() && ms.drop_first()[i].name == name
                && ms.drop_first()[i].fields == find_mixin(ms.drop_first(), name).unwrap();
        assert(ms[i + 1] == ms.drop_first()[i]);
        assert(0 <= i + 1 < ms.len() && ms[i + 1].name == name && ms[i + 1].fields == find_mixin(
            ms,
            name,
        ).unwrap());
    }
}

/// Applying known mixins never changes which names the shape binds.
pub proof fn lemma_apply_mixins_names(
    ms: Seq<MixinDefView>,
    seed: Seq<FieldView>,
    s: Seq<FieldView>,
    names: Seq<Seq<char>>,
)
    requires
        spec_apply_mixins(ms, s, names) is Ok,
        names_of(s) == names_of(seed),
        forall|i: int| 0 <= i < ms.len() ==> mixin_resolved(#[trigger] ms[i], seed),
    ensures
        names_of(spec_apply_mixins(ms, s, names)->Ok_0) == names_of(seed),
    decreases names.len(),
{
    if names.len() > 0 {
        let pairs = find_mixin(ms, names[0]).unwrap();
        lemma_find_mixin_exists(ms, names[0]);
        assert forall|j: int| 0 <= j < pairs.len() implies contains_name(
            s,
            #[trigger] pairs[j].name,
        ) by {
            lemma_same_names_same_contains(s, seed, pairs[j].name);
        }
        lemma_apply_preserves_names(s, pairs);
        lemma_apply_mixins_names(ms, seed, spec_apply(s, pairs), names.drop_first());
    }
}

/// Applying accepted overrides never changes which names the shape binds.
pub proof fn lemma_apply_overrides_names(s: Seq<FieldView>, ovs: Seq<FieldView>)
    requires
        spec_apply_overrides(s, ovs) is Ok,
    ensures
        names_of(spec_apply_overrides(s, ovs)->Ok_0) == names_of(s),
    decreases ovs.len(),
{
    if ovs.len() > 0 {
        lemma_set_preserves_names(s, ovs[0]);
        lemma_apply_overrides_names(spec_set(s, ovs[0]), ovs.drop_first());
    }
}

/// Composition never changes which names the shape binds: the composed shape
/// has exactly the seed's fields.
pub proof fn lemma_compose_names(f: FactoryView, mixin_names: Seq<Seq<char>>, ovs: Seq<FieldView>)
    requires
        factory_wf(f),
        spec_compose(f, mixin_names, ovs) is Ok,
    ensures
        names_of(spec_compose(f, mixin_names, ovs)->Ok_0) == names_of(f.seed),
{
    lemma_apply_mixins_names(f.mixins, f.seed, f.seed, mixin_names);
    let s = spec_apply_mixins(f.mixins, f.seed, mixin_names)->Ok_0;
    lemma_apply_overrides_names(s, ovs);
}

/// The restriction binds only target names.
pub proof fn lemma_restrict_names(out: Seq<FieldView>, target: Seq<Seq<char>>, n: Seq<char>)
    requires
        contains_name(spec_restrict(out, target), n),
    ensures
        target.contains(n),
    decreases target.len(),
{
    if target.len() > 0 {
        match lookup(out, target[0]) {
            Some(v) => {
                let head = FieldView { name: target[0], value: v };
                let rest = spec_restrict(out, target.drop_first());
                assert((seq![head] + rest)[0] == head);
                assert((seq![head] + rest).drop_first() =~= rest);
                if n != target[0] {
                    lemma_restrict_names(out, target.drop_first(), n);
                    assert(target.drop_first().contains(n));
                    let i = choose|i: int|
                        0 <= i < target.drop_first().len() && target.drop_first()[i] == n;
                    assert(target[i + 1] == n);
                } else {
                    assert(target[0] == n);
                }
            },
            None => {
                lemma_restrict_names(out, target.drop_first(), n);
                let i = choose|i: int|
                    0 <= i < target.drop_first().len() && target.drop_first()[i] == n;
                assert(target[i + 1] == n);
            },
        }
    }
}

proof fn lemma_restrict_snoc(out: Seq<FieldView>, target: Seq<Seq<char>>, n: Seq<char>)
    ensures
        spec_restrict(out, target.push(n)) == (match lookup(out, n) {
            Some(v) => spec_restrict(out, target).push(FieldView { name: n, value: v }),
            None => spec_restrict(out, target),
        }),
    decreases target.len(),
{
    if target.len() == 0 {
        assert(target.push(n)[0] == n);
        assert(target.push(n).drop_first() =~= Seq::<Seq<char>>::empty());
        assert(spec_restrict(out, Seq::<Seq<char>>::empty()) == Seq::<FieldView>::empty());
        assert(spec_restrict(out, target) == Seq::<FieldView>::empty());
        match lookup(out, n) {
            Some(v) => {
                assert(spec_restrict(out, target.push(n)) == seq![FieldView { name: n, value: v }]
                    + spec_restrict(out, target.push(n).drop_first()));
                assert(seq![FieldView { name: n, value: v }] + Seq::<FieldView>::empty() =~= Seq::<
                    FieldView,
                >::empty().push(FieldView { name: n, value: v }));
            },
            None => {
                assert(spec_restrict(out, target.push(n)) == spec_restrict(
                    out,
                    target.push(n).drop_first(),
                ));
            },
        }
    } else {
        assert(target.push(n)[0] == target[0]);
        assert(target.push(n).drop_first() =~= target.drop_first().push(n));
        lemma_restrict_snoc(out, target.drop_first(), n);
        match lookup(out, target[0]) {
            Some(v0) => {
                let head = seq![FieldView { name: target[0], value: v0 }];
                assert(spec_restrict(out, target.push(n)) == head + spec_restrict(
                    out,
                    target.drop_first().push(n),
                ));
                assert(spec_restrict(out, target) == head + spec_restrict(
                    out,
                    target.drop_first(),
                ));
                match lookup(out, n) {
                    Some(v) => {
                        assert(head + spec_restrict(out, target.drop_first()).push(
                            FieldView { name: n, value: v },
                        ) =~= (head + spec_restrict(out, target.drop_first())).push(
                            FieldView { name: n, value: v },
                        ));
                    },
                    None => {},
                }
            },
            None => {
                assert(spec_restrict(out, target.push(n)) == spec_restrict(
                    out,
                    target.drop_first().push(n),
                ));
                assert(spec_restrict(out, target) == spec_restrict(out, target.drop_first()));
            },
        }
    }
}

/// Apply a list of field updates to a shape, in order.
#[verifier::loop_isolation(false)]
fn apply_pairs(s: &mut Shape, pairs: &Vec<Field>)
    ensures
        final(s)@ == spec_apply(old(s)@, fields_view(pairs@)),
{
    let ghost pv = fields_view(pairs@);
    proof {
        lemma_fields_view_len(pairs@);
        assert(pv.take(0) =~= Seq::<FieldView>::empty());
    }
    let mut j: usize = 0;
    while j < pairs.len()
        invariant
            j <= pairs@.len(),
            pv.len() == pairs@.len(),
            s@ == spec_apply(old(s)@, pv.take(j as int)),
        decreases pairs@.len() - j,
    {
        proof {
            lemma_fields_view_index(pairs@, j as int);
        }
        s.set(pairs[j].clone());
        proof {
            assert(pv.take(j + 1) =~= pv.take(j as int).push(pv[j as int]));
            lemma_apply_snoc(old(s)@, pv.take(j as int), pv[j as int]);
        }
        j = j + 1;
    }
    proof {
        assert(pv.take(pairs@.len() as int) =~= pv);
    }
}

impl CompiledFactory {
    /// The default constructor: one fresh intermediate shape, every field
    /// holding its default value.
    pub fn default_shape(&self) -> (s: Shape)
        ensures
            s@ == self@.seed,
    {
        self.seed.clone()
    }

    /// Merge the default constructor's shape with the requested mixins, in
    /// order, and then the explicit overrides: the instantiation composer up
    /// to the transform step.
    #[verifier::loop_isolation(false)]
    pub fn compose_shape(&self, mixin_names: &Vec<String>, overrides: &Vec<Field>) -> (r: Result<
        Shape,
        CreateError,
    >)
        ensures
            match r {
                Ok(s) => spec_compose(
                    self@,
                    strings_view(mixin_names@),
                    fields_view(overrides@),
                ) == Ok::<Seq<FieldView>, CreateErrorView>(s@),
                Err(e) => spec_compose(
                    self@,
                    strings_view(mixin_names@),
                    fields_view(overrides@),
                ) == Err::<Seq<FieldView>, CreateErrorView>(e@),
            },
    {
        let ghost f = self@;
        let ghost mnames = strings_view(mixin_names@);
        let ghost ovs = fields_view(overrides@);
        let mut s = self.seed.clone();
        proof {
            assert(mnames.skip(0) =~= mnames);
        }
        let mut i: usize = 0;
        while i < mixin_names.len()
            invariant
                i <= mixin_names@.len(),
                spec_apply_mixins(f.mixins, f.seed, mnames) == spec_apply_mixins(
                    f.mixins,
                    s@,
                    mnames.skip(i as int),
                ),
            decreases mixin_names@.len() - i,
        {
            let name = &mixin_names[i];
            proof {
                assert(mnames.skip(i as int)[0] == mnames[i as int]);
                assert(mnames[i as int] == name@);
            }
            match find_mixin_in(&self.mixins, name) {
                None => {
                    return Err(CreateError::UnknownMixin(name.clone()));
                },
                Some(pairs) => {
                    apply_pairs(&mut s, pairs);
                    proof {
                        assert(mnames.skip(i as int).drop_first() =~= mnames.skip(i + 1));
                    }
                },
            }
            i = i + 1;
        }
        proof {
            assert(mnames.skip(mixin_names@.len() as int) =~= Seq::<Seq<char>>::empty());
            assert(spec_apply_mixins(f.mixins, f.seed, mnames) == Ok::<
                Seq<FieldView>,
                CreateErrorView,
            >(s@));
        }
        let ghost smix = s@;
        proof {
            assert(ovs.skip(0) =~= ovs);
            lemma_fields_view_len(overrides@);
        }
        let mut i: usize = 0;
        while i < overrides.len()
            invariant
                i <= overrides@.len(),
                ovs.len() == overrides@.len(),
                spec_apply_overrides(smix, ovs) == spec_apply_overrides(s@, ovs.skip(i as int)),
            decreases overrides@.len() - i,
        {
            proof {
                lemma_fields_view_index(overrides@, i as int);
                assert(ovs.skip(i as int)[0] == ovs[i as int]);
            }
            let name = &overrides[i].name;
            if !s.contains(name) {
                return Err(CreateError::UnknownField(name.clone()));
            }
            s.set(overrides[i].clone());
            proof {
                assert(ovs.skip(i as int).drop_first() =~= ovs.skip(i + 1));
            }
            i = i + 1;
        }
        proof {
            assert(ovs.skip(overrides@.len() as int) =~= Seq::<FieldView>::empty());
        }
        Ok(s)
    }

    /// Shape the final instance from a transform step's output: the target
    /// type's fields in declaration order, each taken from the output where
    /// it binds one. Construction-only fields never reach the instance.
    #[verifier::loop_isolation(false)]
    pub fn finish(&self, built: &Shape) -> (inst: Shape)
        ensures
            inst@ == spec_restrict(built@, self@.target),
    {
        let ghost target = self@.target;
        let mut fields: Vec<Field> = Vec::new();
        proof {
            assert(fields_view(fields@) =~= Seq::<FieldView>::empty());
            assert(target.take(0) =~= Seq::<Seq<char>>::empty());
        }
        let mut i: usize = 0;
        while i < self.target.len()
            invariant
                i <= self.target@.len(),
                target == strings_view(self.target@),
                fields_view(fields@) == spec_restrict(built@, target.take(i as int)),
            decreases self.target@.len() - i,
        {
            let name = &self.target[i];
            proof {
                assert(target[i as int] == name@);
                assert(target.take(i + 1) =~= target.take(i as int).push(target[i as int]));
                lemma_restrict_snoc(built@, target.take(i as int), target[i as int]);
            }
            match built.get(name) {
                Some(v) => {
                    let fld = Field { name: name.clone(), value: v.clone() };
                    proof {
                        crate::value::lemma_fields_view_push(fields@, fld);
                    }
                    fields.push(fld);
                },
                None => {},
            }
            i = i + 1;
        }
        proof {
            assert(target.take(self.target@.len() as int) =~= target);
        }
        Shape { fields }
    }
}

impl MixinDef {
    /// Apply this mixin: a new shape with exactly this mixin's fields
    /// replaced by its values, every other field carried over unchanged.
    pub fn apply(&self, other: Shape) -> (r: Shape)
        ensures
            r@ == spec_apply(other@, self@.fields),
    {
        let mut s = other;
        apply_pairs(&mut s, &self.fields);
        s
    }
}

} // verus!
