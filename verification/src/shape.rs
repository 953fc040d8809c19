use crate::value::{
    field_view, fields_view, lemma_fields_view_congruent, lemma_fields_view_index,
    lemma_fields_view_len, Field, FieldView, Value, ValueView,
};
use vstd::prelude::*;

verus! {

/// An ordered record from field names to opaque values: the intermediate
/// construction shape that defaults, mixins and overrides are merged into.
/// Updating an existing name overwrites its value in place; a new name is
/// appended at the end.
#[derive(Debug, PartialEq)]
pub struct Shape {
    pub fields: Vec<Field>,
}

impl View for Shape {
    type V = Seq<FieldView>;

    open spec fn view(&self) -> Seq<FieldView> {
        fields_view(self.fields@)
    }
}

/// The value bound to `name`: the first field carrying that name, if any.
pub open spec fn lookup(fs: Seq<FieldView>, name: Seq<char>) -> Option<ValueView>
    decreases fs.len(),
{
    if fs.len() == 0 {
        None
    } else if fs[0].name == name {
        Some(fs[0].value)
    } else {
        lookup(fs.drop_first(), name)
    }
}

pub open spec fn contains_name(fs: Seq<FieldView>, name: Seq<char>) -> bool {
    lookup(fs, name) is Some
}

pub open spec fn names_of(fs: Seq<FieldView>) -> Seq<Seq<char>> {
    Seq::new(fs.len(), |i: int| fs[i].name)
}

/// Overwrite-on-duplicate-key update: replace the first field named like `f`
/// in place, or append `f` when the name is absent.
pub open spec fn spec_set(fs: Seq<FieldView>, f: FieldView) -> Seq<FieldView>
    decreases fs.len(),
{
    if fs.len() == 0 {
        seq![f]
    } else if fs[0].name == f.name {
        seq![f] + fs.drop_first()
    } else {
        seq![fs[0]] + spec_set(fs.drop_first(), f)
    }
}

/// Apply a list of field updates in order, each by `spec_set`.
pub open spec fn spec_apply(fs: Seq<FieldView>, pairs: Seq<FieldView>) -> Seq<FieldView>
    decreases pairs.len(),
{
    if pairs.len() == 0 {
        fs
    } else {
        spec_apply(spec_set(fs, pairs[0]), pairs.drop_first())
    }
}

/// The value that a list of updates leaves bound to `name`: the last update
/// naming it, if any.
pub open spec fn last_set(pairs: Seq<FieldView>, name: Seq<char>) -> Option<ValueView>
    decreases pairs.len(),
{
    if pairs.len() == 0 {
        None
    } else {
        match last_set(pairs.drop_first(), name) {
            Some(v) => Some(v),
            None => if pairs[0].name == name {
                Some(pairs[0].value)
            } else {
                None
            },
        }
    }
}

pub proof fn lemma_lookup_at(fs: Seq<FieldView>, name: Seq<char>, i: int)
    requires
        0 <= i < fs.len(),
        forall|j: int| 0 <= j < i ==> fs[j].name != name,
        fs[i].name == name,
    ensures
        lookup(fs, name) == Some(fs[i].value),
    decreases i,
{
    if i > 0 {
        lemma_lookup_at(fs.drop_first(), name, i - 1);
    }
}

pub proof fn lemma_lookup_none(fs: Seq<FieldView>, name: Seq<char>)
    requires
        forall|j: int| 0 <= j < fs.len() ==> fs[j].name != name,
    ensures
        lookup(fs, name) is None,
    decreases fs.len(),
{
    if fs.len() > 0 {
        lemma_lookup_none(fs.drop_first(), name);
    }
}

/// A record binds a name exactly when some field carries it.
pub proof fn lemma_contains_exists(fs: Seq<FieldView>, name: Seq<char>)
    ensures
        contains_name(fs, name) <==> exists|i: int| 0 <= i < fs.len() && fs[i].name == name,
    decreases fs.len(),
{
    if fs.len() > 0 {
        lemma_contains_exists(fs.drop_first(), name);
        if fs[0].name == name {
            assert(0 <= 0 < fs.len() && fs[0].name == name);
        } else {
            if contains_name(fs, name) {
                let i = choose|i: int|
                    0 <= i < fs.drop_first().len() && fs.drop_first()[i].name == name;
                assert(fs[i + 1] == fs.drop_first()[i]);
                assert(0 <= i + 1 < fs.len() && fs[i + 1].name == name);
            }
            if exists|i: int| 0 <= i < fs.len() && fs[i].name == name {
                let i = choose|i: int| 0 <= i < fs.len() && fs[i].name == name;
                assert(i != 0);
                assert(fs.drop_first()[i - 1] == fs[i]);
                assert(contains_name(fs.drop_first(), name));
            }
        }
    }
}

/// How one update changes every lookup: the updated name reads back the new
/// value and every other name is untouched.
pub proof fn lemma_lookup_set(fs: Seq<FieldView>, f: FieldView, m: Seq<char>)
    ensures
        lookup(spec_set(fs, f), m) == if m == f.name {
            Some(f.value)
        } else {
            lookup(fs, m)
        },
    decreases fs.len(),
{
    if fs.len() == 0 {
        let ss = seq![f];
        assert(spec_set(fs, f) == ss);
        assert(ss[0] == f);
        assert(ss.drop_first() =~= Seq::<FieldView>::empty());
        if m == f.name {
            assert(lookup(ss, m) == Some(f.value));
        } else {
            assert(lookup(ss, m) == lookup(Seq::<FieldView>::empty(), m));
            assert(lookup(ss, m) is None);
            assert(lookup(fs, m) is None);
        }
    } else if fs[0].name == f.name {
        let ss = seq![f] + fs.drop_first();
        assert(spec_set(fs, f) == ss);
        assert(ss[0] == f);
        assert(ss.len() == fs.len());
        assert(ss.drop_first() =~= fs.drop_first());
        if m == f.name {
            assert(lookup(ss, m) == Some(f.value));
        } else {
            assert(lookup(ss, m) == lookup(fs.drop_first(), m));
            assert(lookup(fs, m) == lookup(fs.drop_first(), m));
        }
    } else {
        lemma_lookup_set(fs.drop_first(), f, m);
        let rest = spec_set(fs.drop_first(), f);
        let ss = seq![fs[0]] + rest;
        assert(spec_set(fs, f) == ss);
        assert(ss[0] == fs[0]);
        assert(ss.len() == 1 + rest.len());
        assert(ss.drop_first() =~= rest);
        if m == fs[0].name {
            assert(lookup(ss, m) == Some(fs[0].value));
            assert(lookup(fs, m) == Some(fs[0].value));
        } else {
            assert(lookup(ss, m) == lookup(rest, m));
            assert(lookup(fs, m) == lookup(fs.drop_first(), m));
        }
    }
}

/// Updating a name that the record already binds leaves its name row unchanged.
pub proof fn lemma_set_preserves_names(fs: Seq<FieldView>, f: FieldView)
    requires
        contains_name(fs, f.name),
    ensures
        names_of(spec_set(fs, f)) == names_of(fs),
    decreases fs.len(),
{
    if fs.len() > 0 {
        if fs[0].name == f.name {
            assert(names_of(seq![f] + fs.drop_first()) =~= names_of(fs));
        } else {
            lemma_set_preserves_names(fs.drop_first(), f);
            let rest = spec_set(fs.drop_first(), f);
            let lhs = seq![fs[0]] + rest;
            assert(names_of(rest).len() == rest.len());
            assert(names_of(fs.drop_first()).len() == fs.drop_first().len());
            assert(rest.len() == fs.len() - 1);
            assert forall|i: int| 0 <= i < fs.len() implies names_of(lhs)[i] == names_of(
                fs,
            )[i] by {
                if i == 0 {
                    assert(lhs[0] == fs[0]);
                } else {
                    assert(lhs[i] == rest[i - 1]);
                    assert(names_of(rest)[i - 1] == names_of(fs.drop_first())[i - 1]);
                    assert(names_of(rest)[i - 1] == rest[i - 1].name);
                    assert(names_of(fs.drop_first())[i - 1] == fs.drop_first()[i - 1].name);
                    assert(fs.drop_first()[i - 1] == fs[i]);
                }
            }
            assert(names_of(lhs) =~= names_of(fs));
        }
    }
}

pub proof fn lemma_apply_snoc(fs: Seq<FieldView>, pairs: Seq<FieldView>, p: FieldView)
    ensures
        spec_apply(fs, pairs.push(p)) == spec_set(spec_apply(fs, pairs), p),
    decreases pairs.len(),
{
    if pairs.len() == 0 {
        assert(pairs.push(p)[0] == p);
        assert(pairs.push(p).drop_first() =~= Seq::<FieldView>::empty());
        assert(spec_apply(fs, pairs.push(p)) == spec_apply(
            spec_set(fs, p),
            Seq::<FieldView>::empty(),
        ));
        assert(spec_apply(spec_set(fs, p), Seq::<FieldView>::empty()) == spec_set(fs, p));
        assert(spec_apply(fs, pairs) == fs);
    } else {
        assert(pairs.push(p)[0] == pairs[0]);
        assert(pairs.push(p).drop_first() =~= pairs.drop_first().push(p));
        assert(spec_apply(fs, pairs.push(p)) == spec_apply(
            spec_set(fs, pairs[0]),
            pairs.drop_first().push(p),
        ));
        lemma_apply_snoc(spec_set(fs, pairs[0]), pairs.drop_first(), p);
        assert(spec_apply(fs, pairs) == spec_apply(spec_set(fs, pairs[0]), pairs.drop_first()));
    }
}

/// How a list of updates changes every lookup: a name set by some update reads
/// back the last value it was set to, every other name is untouched.
pub proof fn lemma_lookup_apply(fs: Seq<FieldView>, pairs: Seq<FieldView>, m: Seq<char>)
    ensures
        lookup(spec_apply(fs, pairs), m) == match last_set(pairs, m) {
            Some(v) => Some(v),
            None => lookup(fs, m),
        },
    decreases pairs.len(),
{
    if pairs.len() > 0 {
        lemma_lookup_set(fs, pairs[0], m);
        lemma_lookup_apply(spec_set(fs, pairs[0]), pairs.drop_first(), m);
    }
}

/// Updates that only touch names the record already binds keep its name row.
pub proof fn lemma_apply_preserves_names(fs: Seq<FieldView>, pairs: Seq<FieldView>)
    requires
        forall|i: int| 0 <= i < pairs.len() ==> contains_name(fs, #[trigger] pairs[i].name),
    ensures
        names_of(spec_apply(fs, pairs)) == names_of(fs),
    decreases pairs.len(),
{
    if pairs.len() > 0 {
        lemma_set_preserves_names(fs, pairs[0]);
        let fs1 = spec_set(fs, pairs[0]);
        assert forall|i: int| 0 <= i < pairs.drop_first().len() implies contains_name(
            fs1,
            #[trigger] pairs.drop_first()[i].name,
        ) by {
            assert(pairs.drop_first()[i] == pairs[i + 1]);
            lemma_lookup_set(fs, pairs[0], pairs[i + 1].name);
        }
        lemma_lookup_apply(fs, pairs, pairs[0].name);
        lemma_apply_preserves_names(fs1, pairs.drop_first());
    }
}

/// Two records with the same name row bind the same names.
pub proof fn lemma_same_names_same_contains(a: Seq<FieldView>, b: Seq<FieldView>, m: Seq<char>)
    requires
        names_of(a) == names_of(b),
    ensures
        contains_name(a, m) == contains_name(b, m),
{
    lemma_contains_exists(a, m);
    lemma_contains_exists(b, m);
    assert(names_of(a).len() == a.len());
    assert(names_of(b).len() == b.len());
    assert(a.len() == b.len());
    assert forall|i: int| 0 <= i < a.len() && a[i].name == m implies b[i].name == m by {
        assert(names_of(a)[i] == names_of(b)[i]);
    }
    assert forall|i: int| 0 <= i < b.len() && b[i].name == m implies a[i].name == m by {
        assert(names_of(a)[i] == names_of(b)[i]);
    }
}

proof fn lemma_set_found(fs: Seq<FieldView>, f: FieldView, i: int)
    requires
        0 <= i < fs.len(),
        forall|j: int| 0 <= j < i ==> fs[j].name != f.name,
        fs[i].name == f.name,
    ensures
        spec_set(fs, f) == fs.update(i, f),
    decreases i,
{
    if i == 0 {
        assert(seq![f] + fs.drop_first() =~= fs.update(0, f));
    } else {
        lemma_set_found(fs.drop_first(), f, i - 1);
        assert(seq![fs[0]] + fs.drop_first().update(i - 1, f) =~= fs.update(i, f));
    }
}

pub proof fn lemma_set_absent(fs: Seq<FieldView>, f: FieldView)
    requires
        forall|j: int| 0 <= j < fs.len() ==> fs[j].name != f.name,
    ensures
        spec_set(fs, f) == fs.push(f),
    decreases fs.len(),
{
    if fs.len() == 0 {
        assert(seq![f] =~= fs.push(f));
    } else {
        lemma_set_absent(fs.drop_first(), f);
        assert(seq![fs[0]] + fs.drop_first().push(f) =~= fs.push(f));
    }
}

impl Shape {
    /// An empty record.
    pub fn new() -> (s: Shape)
        ensures
            s@ == Seq::<FieldView>::empty(),
    {
        Shape { fields: Vec::new() }
    }

    pub fn len(&self) -> (n: usize)
        ensures
            n == self@.len(),
    {
        proof {
            lemma_fields_view_len(self.fields@);
        }
        self.fields.len()
    }

    pub fn field_at(&self, i: usize) -> (f: &Field)
        requires
            i < self@.len(),
        ensures
            f@ == self@[i as int],
    {
        proof {
            lemma_fields_view_len(self.fields@);
            lemma_fields_view_index(self.fields@, i as int);
        }
        &self.fields[i]
    }

    /// Read the value bound to `name`, if the record binds it.
    #[verifier::loop_isolation(false)]
    pub fn get(&self, name: &String) -> (r: Option<&Value>)
        ensures
            match r {
                Some(v) => lookup(self@, name@) == Some(v@),
                None => lookup(self@, name@) is None,
            },
    {
        let mut i: usize = 0;
        proof {
            lemma_fields_view_len(self.fields@);
        }
        while i < self.fields.len()
            invariant
                i <= self.fields@.len(),
                forall|j: int| 0 <= j < i ==> self@[j].name != name@,
            decreases self.fields@.len() - i,
        {
            proof {
                lemma_fields_view_index(self.fields@, i as int);
            }
            if self.fields[i].name == *name {
                proof {
                    lemma_lookup_at(self@, name@, i as int);
                }
                return Some(&self.fields[i].value);
            }
            i = i + 1;
        }
        proof {
            lemma_lookup_none(self@, name@);
        }
        None
    }

    pub fn contains(&self, name: &String) -> (b: bool)
        ensures
            b == contains_name(self@, name@),
    {
        self.get(name).is_some()
    }

    /// Bind `f.name` to `f.value`: overwrite in place when present, append
    /// otherwise.
    #[verifier::loop_isolation(false)]
    pub fn set(&mut self, f: Field)
        ensures
            final(self)@ == spec_set(old(self)@, f@),
    {
        let mut i: usize = 0;
        proof {
            lemma_fields_view_len(self.fields@);
        }
        while i < self.fields.len()
            invariant
                i <= self.fields@.len(),
                *self == *old(self),
                forall|j: int| 0 <= j < i ==> self@[j].name != f@.name,
            decreases self.fields@.len() - i,
        {
            proof {
                lemma_fields_view_index(self.fields@, i as int);
            }
            if self.fields[i].name == f.name {
                proof {
                    lemma_set_found(self@, f@, i as int);
                }
                let ghost old_fields = self.fields@;
                self.fields[i] = f;
                proof {
                    assert forall|k: int| 0 <= k < old_fields.len() implies field_view(
                        old_fields.update(i as int, f)[k],
                    ) == fields_view(old_fields).update(i as int, field_view(f))[k] by {
                        lemma_fields_view_index(old_fields, k);
                    }
                    lemma_fields_view_len(old_fields);
                    lemma_fields_view_len(old_fields.update(i as int, f));
                    assert forall|k: int| 0 <= k < old_fields.len() implies fields_view(
                        old_fields.update(i as int, f),
                    )[k] == fields_view(old_fields).update(i as int, field_view(f))[k] by {
                        lemma_fields_view_index(old_fields.update(i as int, f), k);
                        lemma_fields_view_index(old_fields, k);
                    }
                    assert(fields_view(old_fields.update(i as int, f)) =~= fields_view(
                        old_fields,
                    ).update(i as int, field_view(f)));
                }
                return ;
            }
            i = i + 1;
        }
        proof {
            lemma_set_absent(self@, f@);
        }
        let ghost old_fields = self.fields@;
        self.fields.push(f);
        proof {
            lemma_fields_view_len(old_fields);
            lemma_fields_view_len(old_fields.push(f));
            assert forall|k: int| 0 <= k < old_fields.push(f).len() implies fields_view(
                old_fields.push(f),
            )[k] == fields_view(old_fields).push(field_view(f))[k] by {
                lemma_fields_view_index(old_fields.push(f), k);
                if k < old_fields.len() {
                    lemma_fields_view_index(old_fields, k);
                }
            }
            assert(fields_view(old_fields.push(f)) =~= fields_view(old_fields).push(
                field_view(f),
            ));
        }
    }
}

impl Clone for Shape {
    #[verifier::loop_isolation(false)]
    fn clone(&self) -> (res: Self)
        ensures
            res@ == self@,
    {
        let mut out: Vec<Field> = Vec::new();
        let mut i: usize = 0;
        while i < self.fields.len()
            invariant
                i <= self.fields@.len(),
                out@.len() == i as int,
                forall|j: int| 0 <= j < i ==> out@[j]@ == self.fields@[j]@,
            decreases self.fields@.len() - i,
        {
            out.push(self.fields[i].clone());
            i = i + 1;
        }
        proof {
            lemma_fields_view_congruent(out@, self.fields@);
        }
        Shape { fields: out }
    }
}

} // verus!
