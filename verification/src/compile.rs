use crate::definition::{
    Definition, DefinitionView, FieldSpecView, MixinDef, MixinDefView, TransientSpecView,
    spec_validate,
};
use crate::shape::{contains_name, lemma_contains_exists, names_of, Shape};
use crate::value::{strings_view, Field, FieldView};
use vstd::prelude::*;

verus! {

/// What makes a definition uncompilable, each naming the offending
/// identifier: a default or transient field name declared twice, a mixin name
/// declared twice, or a mixin updating a field that the intermediate shape
/// does not have.
#[derive(Debug, PartialEq)]
pub enum CompileError {
    DuplicateField(String),
    DuplicateMixin(String),
    UnknownMixinField(String),
}

/// Mathematical model of a compile error.
pub enum CompileErrorView {
    DuplicateField(Seq<char>),
    DuplicateMixin(Seq<char>),
    UnknownMixinField(Seq<char>),
}

impl View for CompileError {
    type V = CompileErrorView;

    open spec fn view(&self) -> CompileErrorView {
        match self {
            CompileError::DuplicateField(n) => CompileErrorView::DuplicateField(n@),
            CompileError::DuplicateMixin(n) => CompileErrorView::DuplicateMixin(n@),
            CompileError::UnknownMixinField(n) => CompileErrorView::UnknownMixinField(n@),
        }
    }
}

/// Mathematical model of one compiled factory: the reusable construction
/// artifacts of one definition.
pub struct FactoryView {
    /// The target type identifier.
    pub ty: Seq<char>,
    /// The intermediate shape with every field holding its default value: the
    /// default constructor's result.
    pub seed: Seq<FieldView>,
    /// The names of the target type's own fields, in declaration order.
    pub target: Seq<Seq<char>>,
    /// The names of the construction-only fields, empty without a transform
    /// step.
    pub transients: Seq<Seq<char>>,
    /// The opaque transform body; absence means the identity transform.
    pub transform: Option<Seq<char>>,
    /// The mixin application table.
    pub mixins: Seq<MixinDefView>,
}

/// The reusable construction artifacts compiled from one validated
/// definition: the default constructor's seed shape, the final field list,
/// the transient field list, the opaque transform body, and the mixin table.
#[derive(Debug, PartialEq)]
pub struct CompiledFactory {
    pub ty: String,
    pub seed: Shape,
    pub target: Vec<String>,
    pub transients: Vec<String>,
    pub transform: Option<String>,
    pub mixins: Vec<MixinDef>,
}

impl View for CompiledFactory {
    type V = FactoryView;

    open spec fn view(&self) -> FactoryView {
        FactoryView {
            ty: self.ty@,
            seed: self.seed@,
            target: strings_view(self.target@),
            transients: strings_view(self.transients@),
            transform: match self.transform {
                Some(c) => Some(c@),
                None => None,
            },
            mixins: crate::definition::mixin_defs_view(self.mixins@),
        }
    }
}

/// The default fields as plain name/value rows, in declaration order.
pub open spec fn default_fields(ds: Seq<FieldSpecView>) -> Seq<FieldView> {
    Seq::new(ds.len(), |i: int| FieldView { name: ds[i].name, value: ds[i].value })
}

/// The transient fields as plain name/value rows, in declaration order.
pub open spec fn transient_fields(ts: Seq<TransientSpecView>) -> Seq<FieldView> {
    Seq::new(ts.len(), |i: int| FieldView { name: ts[i].name, value: ts[i].value })
}

/// The construction-only rows a definition contributes to its intermediate
/// shape: its transient fields when a transform step will consume them,
/// nothing otherwise.
pub open spec fn effective_transients(d: DefinitionView) -> Seq<FieldView> {
    if d.transform is Some {
        match d.transients {
            Some(ts) => transient_fields(ts),
            None => Seq::empty(),
        }
    } else {
        Seq::empty()
    }
}

/// Append rows to a shape under construction, rejecting a name that is
/// already bound.
pub open spec fn spec_build_seed(acc: Seq<FieldView>, fs: Seq<FieldView>) -> Result<
    Seq<FieldView>,
    Seq<char>,
>
    decreases fs.len(),
{
    if fs.len() == 0 {
        Ok(acc)
    } else if contains_name(acc, fs[0].name) {
        Err(fs[0].name)
    } else {
        spec_build_seed(acc.push(fs[0]), fs.drop_first())
    }
}

/// The update list of the first mixin carrying `name`, if any.
pub open spec fn find_mixin(ms: Seq<MixinDefView>, name: Seq<char>) -> Option<Seq<FieldView>>
    decreases ms.len(),
{
    if ms.len() == 0 {
        None
    } else if ms[0].name == name {
        Some(ms[0].fields)
    } else {
        find_mixin(ms.drop_first(), name)
    }
}

/// The first update of a mixin naming a field the shape does not have.
pub open spec fn first_unresolved(pairs: Seq<FieldView>, seed: Seq<FieldView>) -> Option<
    Seq<char>,
>
    decreases pairs.len(),
{
    if pairs.len() == 0 {
        None
    } else if !contains_name(seed, pairs[0].name) {
        Some(pairs[0].name)
    } else {
        first_unresolved(pairs.drop_first(), seed)
    }
}

/// Gather the mixin table, rejecting a repeated mixin name and any mixin
/// field that does not resolve within the intermediate shape.
pub open spec fn spec_check_mixins(
    acc: Seq<MixinDefView>,
    ms: Seq<MixinDefView>,
    seed: Seq<FieldView>,
) -> Result<Seq<MixinDefView>, CompileErrorView>
    decreases ms.len(),
{
    if ms.len() == 0 {
        Ok(acc)
    } else if find_mixin(acc, ms[0].name) is Some {
        Err(CompileErrorView::DuplicateMixin(ms[0].name))
    } else {
        match first_unresolved(ms[0].fields, seed) {
            Some(n) => Err(CompileErrorView::UnknownMixinField(n)),
            None => spec_check_mixins(acc.push(ms[0]), ms.drop_first(), seed),
        }
    }
}

/// What compiling one validated definition yields: the factory's artifacts,
/// or the first compile error.
pub open spec fn spec_compile(d: DefinitionView) -> Result<FactoryView, CompileErrorView> {
    match spec_build_seed(Seq::empty(), default_fields(d.defaults)) {
        Err(n) => Err(CompileErrorView::DuplicateField(n)),
        Ok(s0) => match spec_build_seed(s0, effective_transients(d)) {
            Err(n) => Err(CompileErrorView::DuplicateField(n)),
            Ok(seed) => match spec_check_mixins(Seq::empty(), d.mixins, seed) {
                Err(e) => Err(e),
                Ok(ms) => Ok(
                    FactoryView {
                        ty: d.ty,
                        seed,
                        target: names_of(default_fields(d.defaults)),
                        transients: names_of(effective_transients(d)),
                        transform: d.transform,
                        mixins: ms,
                    },
                ),
            },
        },
    }
}

/// Every update of the mixin resolves within the shape.
pub open spec fn mixin_resolved(m: MixinDefView, seed: Seq<FieldView>) -> bool {
    forall|j: int| 0 <= j < m.fields.len() ==> contains_name(seed, #[trigger] m.fields[j].name)
}

/// What holds of every compiled factory: its seed shape is exactly the target
/// fields followed by the transient fields, without repeated names; without a
/// transform step there are no transient fields; and every mixin resolves
/// within the seed shape.
pub open spec fn factory_wf(f: FactoryView) -> bool {
    &&& names_of(f.seed) == f.target + f.transients
    &&& names_of(f.seed).no_duplicates()
    &&& f.transform is None ==> f.transients.len() == 0
    &&& forall|i: int| 0 <= i < f.mixins.len() ==> mixin_resolved(#[trigger] f.mixins[i], f.seed)
}

proof fn lemma_build_seed_ok(acc: Seq<FieldView>, fs: Seq<FieldView>)
    requires
        spec_build_seed(acc, fs) is Ok,
        names_of(acc).no_duplicates(),
    ensures
        spec_build_seed(acc, fs) == Ok::<Seq<FieldView>, Seq<char>>(acc + fs),
        names_of(acc + fs).no_duplicates(),
    decreases fs.len(),
{
    if fs.len() == 0 {
        assert(acc + fs =~= acc);
    } else {
        let acc1 = acc.push(fs[0]);
        assert(names_of(acc1) =~= names_of(acc).push(fs[0].name));
        lemma_contains_exists(acc, fs[0].name);
        assert forall|p: int, q: int|
            0 <= p < q < names_of(acc1).len() implies names_of(acc1)[p] != names_of(
            acc1,
        )[q] by {
            if q < names_of(acc).len() {
                assert(names_of(acc)[p] != names_of(acc)[q]);
            } else {
                assert(names_of(acc1)[q] == fs[0].name);
                assert(names_of(acc)[p] == acc[p].name);
            }
        }
        lemma_build_seed_ok(acc1, fs.drop_first());
        assert(acc1 + fs.drop_first() =~= acc + fs);
    }
}

proof fn lemma_first_unresolved_none(pairs: Seq<FieldView>, seed: Seq<FieldView>)
    requires
        first_unresolved(pairs, seed) is None,
    ensures
        forall|j: int| 0 <= j < pairs.len() ==> contains_name(seed, #[trigger] pairs[j].name),
    decreases pairs.len(),
{
    if pairs.len() > 0 {
        lemma_first_unresolved_none(pairs.drop_first(), seed);
        assert forall|j: int| 0 <= j < pairs.len() implies contains_name(
            seed,
            #[trigger] pairs[j].name,
        ) by {
            if j > 0 {
                assert(pairs.drop_first()[j - 1] == pairs[j]);
            }
        }
    }
}

proof fn lemma_check_mixins_ok(acc: Seq<MixinDefView>, ms: Seq<MixinDefView>, seed: Seq<FieldView>)
    requires
        spec_check_mixins(acc, ms, seed) is Ok,
        forall|i: int| 0 <= i < acc.len() ==> mixin_resolved(#[trigger] acc[i], seed),
    ensures
        spec_check_mixins(acc, ms, seed) == Ok::<Seq<MixinDefView>, CompileErrorView>(acc + ms),
        forall|i: int| 0 <= i < (acc + ms).len() ==> mixin_resolved(#[trigger] (acc + ms)[i], seed),
    decreases ms.len(),
{
    if ms.len() == 0 {
        assert(acc + ms =~= acc);
    } else {
        lemma_first_unresolved_none(ms[0].fields, seed);
        let acc1 = acc.push(ms[0]);
        assert forall|i: int| 0 <= i < acc1.len() implies mixin_resolved(
            #[trigger] acc1[i],
            seed,
        ) by {
            if i < acc.len() {
                assert(mixin_resolved(acc[i], seed));
            }
        }
        lemma_check_mixins_ok(acc1, ms.drop_first(), seed);
        assert(acc1 + ms.drop_first() =~= acc + ms);
    }
}

/// A factory that compiles is well formed.
pub proof fn lemma_compile_wf(d: DefinitionView, f: FactoryView)
    requires
        spec_compile(d) == Ok::<FactoryView, CompileErrorView>(f),
    ensures
        factory_wf(f),
{
    let dfields = default_fields(d.defaults);
    let tfields = effective_transients(d);
    let s0 = spec_build_seed(Seq::empty(), dfields);
    assert(names_of(Seq::<FieldView>::empty()) =~= Seq::<Seq<char>>::empty());
    lemma_build_seed_ok(Seq::empty(), dfields);
    assert(s0 == Ok::<Seq<FieldView>, Seq<char>>(Seq::empty() + dfields));
    assert(Seq::empty() + dfields =~= dfields);
    lemma_build_seed_ok(dfields, tfields);
    let seed = dfields + tfields;
    assert(f.seed == seed);
    assert(names_of(seed) =~= names_of(dfields) + names_of(tfields));
    lemma_check_mixins_ok(Seq::empty(), d.mixins, seed);
    assert(Seq::empty() + d.mixins =~= d.mixins);
    if d.transform is None {
        assert(names_of(tfields).len() == 0);
    }
}

proof fn lemma_find_mixin_at(ms: Seq<MixinDefView>, name: Seq<char>, i: int)
    requires
        0 <= i < ms.len(),
        forall|j: int| 0 <= j < i ==> ms[j].name != name,
        ms[i].name == name,
    ensures
        find_mixin(ms, name) == Some(ms[i].fields),
    decreases i,
{
    if i > 0 {
        lemma_find_mixin_at(ms.drop_first(), name, i - 1);
    }
}

proof fn lemma_find_mixin_none(ms: Seq<MixinDefView>, name: Seq<char>)
    requires
        forall|j: int| 0 <= j < ms.len() ==> ms[j].name != name,
    ensures
        find_mixin(ms, name) is None,
    decreases ms.len(),
{
    if ms.len() > 0 {
        lemma_find_mixin_none(ms.drop_first(), name);
    }
}

/// The update list of the first mixin in `ms` carrying `name`, if any.
#[verifier::loop_isolation(false)]
pub(crate) fn find_mixin_in<'a>(ms: &'a Vec<MixinDef>, name: &String) -> (r: Option<
    &'a Vec<Field>,
>)
    ensures
        match r {
            Some(fs) => find_mixin(crate::definition::mixin_defs_view(ms@), name@) == Some(
                crate::value::fields_view(fs@),
            ),
            None => find_mixin(crate::definition::mixin_defs_view(ms@), name@) is None,
        },
{
    let ghost msv = crate::definition::mixin_defs_view(ms@);
    let mut k: usize = 0;
    while k < ms.len()
        invariant
            k <= ms@.len(),
            forall|j: int| 0 <= j < k ==> msv[j].name != name@,
        decreases ms@.len() - k,
    {
        if ms[k].name == *name {
            proof {
                lemma_find_mixin_at(msv, name@, k as int);
            }
            return Some(&ms[k].fields);
        }
        k = k + 1;
    }
    proof {
        lemma_find_mixin_none(msv, name@);
    }
    None
}

/// Compile one validated definition into its reusable construction artifacts.
#[verifier::loop_isolation(false)]
pub fn compile(def: &Definition) -> (r: Result<CompiledFactory, CompileError>)
    requires
        spec_validate(def@) is None,
    ensures
        match r {
            Ok(f) => spec_compile(def@) == Ok::<FactoryView, CompileErrorView>(f@)
                && factory_wf(f@),
            Err(e) => spec_compile(def@) == Err::<FactoryView, CompileErrorView>(e@),
        },
{
    let ghost d = def@;
    let ghost dfields = default_fields(d.defaults);
    let mut seed = Shape::new();
    let mut target: Vec<String> = Vec::new();
    proof {
        assert(dfields.skip(0) =~= dfields);
        assert(strings_view(target@) =~= names_of(seed@));
    }
    let mut i: usize = 0;
    while i < def.defaults.len()
        invariant
            i <= def.defaults@.len(),
            spec_build_seed(Seq::empty(), dfields) == spec_build_seed(
                seed@,
                dfields.skip(i as int),
            ),
            strings_view(target@) == names_of(seed@),
        decreases def.defaults@.len() - i,
    {
        let name = &def.defaults[i].name;
        proof {
            assert(dfields.skip(i as int)[0] == dfields[i as int]);
            assert(dfields[i as int].name == name@);
        }
        if seed.contains(name) {
            proof {
                assert(spec_build_seed(Seq::empty(), dfields) == Err::<Seq<FieldView>, Seq<char>>(
                    name@,
                ));
            }
            return Err(CompileError::DuplicateField(name.clone()));
        }
        let f = Field { name: name.clone(), value: def.defaults[i].value.clone() };
        proof {
            assert(f@ == dfields[i as int]);
            lemma_contains_exists(seed@, f@.name);
            crate::shape::lemma_set_absent(seed@, f@);
        }
        let ghost pre = seed@;
        seed.set(f);
        let cloned_name = name.clone();
        let ghost pret = target@;
        target.push(cloned_name);
        proof {
            assert(seed@ == pre.push(dfields[i as int]));
            assert forall|j: int| 0 <= j < seed@.len() implies strings_view(target@)[j]
                == names_of(seed@)[j] by {
                if j < pre.len() {
                    assert(target@[j] == pret[j]);
                    assert(strings_view(pret)[j] == names_of(pre)[j]);
                    assert(seed@[j] == pre[j]);
                } else {
                    assert(target@[j]@ == name@);
                    assert(seed@[j] == dfields[i as int]);
                }
            }
            assert(target@.len() == pret.len() + 1);
            assert(strings_view(pret).len() == names_of(pre).len());
            assert(strings_view(target@) =~= names_of(seed@));
            assert(dfields.skip(i as int).drop_first() =~= dfields.skip(i + 1));
        }
        i = i + 1;
    }
    proof {
        assert(dfields.skip(def.defaults@.len() as int) =~= Seq::<FieldView>::empty());
        assert(spec_build_seed(Seq::empty(), dfields) == Ok::<Seq<FieldView>, Seq<char>>(seed@));
        assert(names_of(Seq::<FieldView>::empty()) =~= Seq::<Seq<char>>::empty());
        lemma_build_seed_ok(Seq::empty(), dfields);
        assert(Seq::empty() + dfields =~= dfields);
        assert(seed@ == dfields);
    }
    let ghost tfields = effective_transients(d);
    let mut transients: Vec<String> = Vec::new();
    if def.transform.is_some() {
        match &def.transients {
            Some(trs) => {
                proof {
                    assert(tfields == transient_fields(d.transients.unwrap()));
                    assert(tfields.skip(0) =~= tfields);
                    assert(strings_view(transients@) =~= names_of(tfields.take(0)));
                }
                let mut k: usize = 0;
                while k < trs.len()
                    invariant
                        k <= trs@.len(),
                        tfields == transient_fields(
                            crate::definition::transient_specs_view(trs@),
                        ),
                        tfields.len() == trs@.len(),
                        spec_build_seed(dfields, tfields) == spec_build_seed(
                            seed@,
                            tfields.skip(k as int),
                        ),
                        strings_view(transients@) == names_of(tfields.take(k as int)),
                    decreases trs@.len() - k,
                {
                    let name = &trs[k].name;
                    proof {
                        assert(tfields.skip(k as int)[0] == tfields[k as int]);
                        assert(tfields[k as int].name == name@);
                    }
                    if seed.contains(name) {
                        proof {
                            assert(spec_build_seed(dfields, tfields) == Err::<
                                Seq<FieldView>,
                                Seq<char>,
                            >(name@));
                        }
                        return Err(CompileError::DuplicateField(name.clone()));
                    }
                    let f = Field { name: name.clone(), value: trs[k].value.clone() };
                    proof {
                        assert(f@ == tfields[k as int]);
                        lemma_contains_exists(seed@, f@.name);
                        crate::shape::lemma_set_absent(seed@, f@);
                    }
                    let ghost pre = seed@;
                    seed.set(f);
                    let cloned_name = name.clone();
                    let ghost pret = transients@;
                    transients.push(cloned_name);
                    proof {
                        assert(seed@ == pre.push(tfields[k as int]));
                        assert(tfields.take(k + 1) =~= tfields.take(k as int).push(
                            tfields[k as int],
                        ));
                        assert forall|j: int| 0 <= j < k + 1 implies strings_view(
                            transients@,
                        )[j] == names_of(tfields.take(k + 1))[j] by {
                            if j < k {
                                assert(transients@[j] == pret[j]);
                                assert(strings_view(pret)[j] == names_of(
                                    tfields.take(k as int),
                                )[j]);
                                assert(tfields.take(k as int)[j] == tfields[j]);
                                assert(tfields.take(k + 1)[j] == tfields[j]);
                            } else {
                                assert(transients@[j]@ == name@);
                            }
                        }
                        assert(strings_view(transients@) =~= names_of(tfields.take(k + 1)));
                        assert(tfields.skip(k as int).drop_first() =~= tfields.skip(k + 1));
                    }
                    k = k + 1;
                }
                proof {
                    assert(tfields.skip(trs@.len() as int) =~= Seq::<FieldView>::empty());
                    assert(tfields.take(trs@.len() as int) =~= tfields);
                }
            },
            None => {
                proof {
                    assert(tfields =~= Seq::<FieldView>::empty());
                    assert(strings_view(transients@) =~= names_of(tfields));
                }
            },
        }
    } else {
        proof {
            assert(tfields =~= Seq::<FieldView>::empty());
            assert(strings_view(transients@) =~= names_of(tfields));
        }
    }
    proof {
        assert(spec_build_seed(dfields, tfields) == Ok::<Seq<FieldView>, Seq<char>>(seed@));
        assert(strings_view(transients@) == names_of(tfields));
        lemma_build_seed_ok(dfields, tfields);
        assert(seed@ == dfields + tfields);
    }
    let mut mixins: Vec<MixinDef> = Vec::new();
    proof {
        assert(crate::definition::mixin_defs_view(mixins@) =~= Seq::<MixinDefView>::empty());
        assert(d.mixins.skip(0) =~= d.mixins);
    }
    let mut i: usize = 0;
    while i < def.mixins.len()
        invariant
            i <= def.mixins@.len(),
            spec_check_mixins(Seq::empty(), d.mixins, seed@) == spec_check_mixins(
                crate::definition::mixin_defs_view(mixins@),
                d.mixins.skip(i as int),
                seed@,
            ),
            seed@ == dfields + tfields,
        decreases def.mixins@.len() - i,
    {
        let m = &def.mixins[i];
        let ghost acc = crate::definition::mixin_defs_view(mixins@);
        proof {
            assert(d.mixins.skip(i as int)[0] == d.mixins[i as int]);
            assert(d.mixins[i as int] == m@);
        }
        if find_mixin_in(&mixins, &m.name).is_some() {
            proof {
                assert(spec_check_mixins(Seq::empty(), d.mixins, seed@)
                    == Err::<Seq<MixinDefView>, CompileErrorView>(
                    CompileErrorView::DuplicateMixin(m.name@),
                ));
            }
            return Err(CompileError::DuplicateMixin(m.name.clone()));
        }
        let ghost pairs = m@.fields;
        proof {
            assert(pairs == crate::value::fields_view(m.fields@));
            crate::value::lemma_fields_view_len(m.fields@);
            assert(pairs.skip(0) =~= pairs);
        }
        let mut j: usize = 0;
        while j < m.fields.len()
            invariant
                j <= m.fields@.len(),
                pairs.len() == m.fields@.len(),
                first_unresolved(pairs, seed@) == first_unresolved(pairs.skip(j as int), seed@),
            decreases m.fields@.len() - j,
        {
            proof {
                crate::value::lemma_fields_view_index(m.fields@, j as int);
                assert(pairs.skip(j as int)[0] == pairs[j as int]);
            }
            let fname = &m.fields[j].name;
            if !seed.contains(fname) {
                proof {
                    assert(first_unresolved(pairs, seed@) == Some(fname@));
                    assert(spec_check_mixins(Seq::empty(), d.mixins, seed@)
                        == Err::<Seq<MixinDefView>, CompileErrorView>(
                        CompileErrorView::UnknownMixinField(fname@),
                    ));
                }
                return Err(CompileError::UnknownMixinField(fname.clone()));
            }
            proof {
                assert(pairs.skip(j as int).drop_first() =~= pairs.skip(j + 1));
            }
            j = j + 1;
        }
        proof {
            assert(pairs.skip(m.fields@.len() as int) =~= Seq::<FieldView>::empty());
            assert(first_unresolved(pairs, seed@) is None);
        }
        let cloned = m.clone();
        mixins.push(cloned);
        proof {
            assert(crate::definition::mixin_defs_view(mixins@) =~= acc.push(m@));
            assert(d.mixins.skip(i as int).drop_first() =~= d.mixins.skip(i + 1));
        }
        i = i + 1;
    }
    proof {
        assert(d.mixins.skip(def.mixins@.len() as int) =~= Seq::<MixinDefView>::empty());
        assert(spec_check_mixins(Seq::empty(), d.mixins, seed@) == Ok::<
            Seq<MixinDefView>,
            CompileErrorView,
        >(crate::definition::mixin_defs_view(mixins@)));
    }
    let fact = CompiledFactory {
        ty: def.ty.clone(),
        seed,
        target,
        transients,
        transform: match &def.transform {
            Some(c) => Some(c.clone()),
            None => None,
        },
        mixins,
    };
    proof {
        assert(names_of(dfields) =~= names_of(default_fields(d.defaults)));
        assert(spec_compile(d) == Ok::<FactoryView, CompileErrorView>(fact@));
        lemma_compile_wf(d, fact@);
    }
    Ok(fact)
}

} // verus!
