use crate::compile::{find_mixin, FactoryView};
use crate::compose::{
    lemma_apply_overrides_ok, spec_apply_mixins, spec_apply_overrides, spec_compose,
    CreateErrorView,
};
use crate::shape::{last_set, lemma_lookup_apply, lookup, spec_apply};
use crate::value::FieldView;
use vstd::prelude::*;

verus! {

/// Identity composition: a request with no mixins and no overrides composes
/// exactly the default constructor's shape, so the transform step receives
/// it unchanged.
pub proof fn lemma_identity_composition(f: FactoryView)
    ensures
        spec_compose(f, Seq::empty(), Seq::empty()) == Ok::<Seq<FieldView>, CreateErrorView>(
            f.seed,
        ),
{
    assert(spec_apply_mixins(f.mixins, f.seed, Seq::empty()) == Ok::<
        Seq<FieldView>,
        CreateErrorView,
    >(f.seed));
    assert(spec_apply_overrides(f.seed, Seq::empty()) == Ok::<Seq<FieldView>, CreateErrorView>(
        f.seed,
    ));
}

/// Mixin order sensitivity: when two declared mixins both set a field, the
/// one requested later wins, whichever order they are requested in.
pub proof fn lemma_mixin_order(f: FactoryView, a: Seq<char>, b: Seq<char>, fname: Seq<char>)
    requires
        find_mixin(f.mixins, a) is Some,
        find_mixin(f.mixins, b) is Some,
        last_set(find_mixin(f.mixins, a)->0, fname) is Some,
        last_set(find_mixin(f.mixins, b)->0, fname) is Some,
    ensures
        spec_compose(f, seq![a, b], Seq::empty()) is Ok,
        lookup(spec_compose(f, seq![a, b], Seq::empty())->Ok_0, fname) == last_set(
            find_mixin(f.mixins, b)->0,
            fname,
        ),
        spec_compose(f, seq![b, a], Seq::empty()) is Ok,
        lookup(spec_compose(f, seq![b, a], Seq::empty())->Ok_0, fname) == last_set(
            find_mixin(f.mixins, a)->0,
            fname,
        ),
{
    lemma_two_mixins(f, a, b, fname);
    lemma_two_mixins(f, b, a, fname);
}

proof fn lemma_two_mixins(f: FactoryView, x: Seq<char>, y: Seq<char>, fname: Seq<char>)
    requires
        find_mixin(f.mixins, x) is Some,
        find_mixin(f.mixins, y) is Some,
        last_set(find_mixin(f.mixins, y)->0, fname) is Some,
    ensures
        spec_compose(f, seq![x, y], Seq::empty()) is Ok,
        lookup(spec_compose(f, seq![x, y], Seq::empty())->Ok_0, fname) == last_set(
            find_mixin(f.mixins, y)->0,
            fname,
        ),
{
    let px = find_mixin(f.mixins, x)->0;
    let py = find_mixin(f.mixins, y)->0;
    let names = seq![x, y];
    assert(names[0] == x);
    assert(names.drop_first() =~= seq![y]);
    assert(seq![y][0] == y);
    assert(seq![y].drop_first() =~= Seq::<Seq<char>>::empty());
    let s1 = spec_apply(f.seed, px);
    let s2 = spec_apply(s1, py);
    assert(spec_apply_mixins(f.mixins, f.seed, names) == spec_apply_mixins(
        f.mixins,
        s1,
        seq![y],
    ));
    assert(spec_apply_mixins(f.mixins, s1, seq![y]) == spec_apply_mixins(
        f.mixins,
        s2,
        Seq::empty(),
    ));
    assert(spec_apply_mixins(f.mixins, s2, Seq::empty()) == Ok::<Seq<FieldView>, CreateErrorView>(
        s2,
    ));
    assert(spec_apply_overrides(s2, Seq::empty()) == Ok::<Seq<FieldView>, CreateErrorView>(s2));
    lemma_lookup_apply(s1, py, fname);
}

/// Override precedence: an explicit override outranks every requested mixin;
/// when the same field is overridden more than once, the last occurrence
/// wins.
pub proof fn lemma_override_precedence(
    f: FactoryView,
    mixin_names: Seq<Seq<char>>,
    ovs: Seq<FieldView>,
    fname: Seq<char>,
)
    requires
        spec_compose(f, mixin_names, ovs) is Ok,
        last_set(ovs, fname) is Some,
    ensures
        lookup(spec_compose(f, mixin_names, ovs)->Ok_0, fname) == last_set(ovs, fname),
{
    let s = spec_apply_mixins(f.mixins, f.seed, mixin_names)->Ok_0;
    lemma_apply_overrides_ok(s, ovs);
    lemma_lookup_apply(s, ovs, fname);
}

proof fn lemma_apply_mixins_untouched(
    ms: Seq<crate::definition::MixinDefView>,
    s: Seq<FieldView>,
    names: Seq<Seq<char>>,
    fname: Seq<char>,
)
    requires
        spec_apply_mixins(ms, s, names) is Ok,
        forall|i: int|
            0 <= i < names.len() ==> last_set(find_mixin(ms, #[trigger] names[i])->0, fname)
                is None,
    ensures
        lookup(spec_apply_mixins(ms, s, names)->Ok_0, fname) == lookup(s, fname),
    decreases names.len(),
{
    if names.len() > 0 {
        let pairs = find_mixin(ms, names[0])->0;
        lemma_lookup_apply(s, pairs, fname);
        assert forall|i: int|
            0 <= i < names.drop_first().len() implies last_set(
            find_mixin(ms, #[trigger] names.drop_first()[i])->0,
            fname,
        ) is None by {
            assert(names.drop_first()[i] == names[i + 1]);
        }
        lemma_apply_mixins_untouched(ms, spec_apply(s, pairs), names.drop_first(), fname);
    }
}

/// Untouched-field preservation: a field that no requested mixin sets and no
/// override names keeps its default value through the whole composition.
pub proof fn lemma_untouched_field(
    f: FactoryView,
    mixin_names: Seq<Seq<char>>,
    ovs: Seq<FieldView>,
    fname: Seq<char>,
)
    requires
        spec_compose(f, mixin_names, ovs) is Ok,
        forall|i: int|
            0 <= i < mixin_names.len() ==> last_set(
                find_mixin(f.mixins, #[trigger] mixin_names[i])->0,
                fname,
            ) is None,
        last_set(ovs, fname) is None,
    ensures
        lookup(spec_compose(f, mixin_names, ovs)->Ok_0, fname) == lookup(f.seed, fname),
{
    lemma_apply_mixins_untouched(f.mixins, f.seed, mixin_names, fname);
    let s = spec_apply_mixins(f.mixins, f.seed, mixin_names)->Ok_0;
    lemma_apply_overrides_ok(s, ovs);
    lemma_lookup_apply(s, ovs, fname);
}

} // verus!
