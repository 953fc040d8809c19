use vstd::prelude::*;

verus! {

/// Mathematical model of an opaque field value.
pub enum ValueView {
    Bool(bool),
    Int(u64),
    Text(Seq<char>),
    List(Seq<ValueView>),
    Record(Seq<FieldView>),
}

/// Mathematical model of a named field paired with its value.
pub struct FieldView {
    pub name: Seq<char>,
    pub value: ValueView,
}

/// An opaque value-expression payload. The engine carries these values from a
/// definition into composed instances but never interprets them.
#[derive(Debug, PartialEq)]
pub enum Value {
    Bool(bool),
    Int(u64),
    Text(String),
    List(Vec<Value>),
    Record(Vec<Field>),
}

/// A named field holding one value, the building block of composed records.
#[derive(Debug, PartialEq)]
pub struct Field {
    pub name: String,
    pub value: Value,
}

pub open spec fn value_view(v: Value) -> ValueView
    decreases v,
{
    match v {
        Value::Bool(b) => ValueView::Bool(b),
        Value::Int(i) => ValueView::Int(i),
        Value::Text(s) => ValueView::Text(s@),
        Value::List(vs) => {
            proof {
                assert(decreases_to!(vs => vs@));
            }
            ValueView::List(values_view(vs@))
        },
        Value::Record(fs) => {
            proof {
                assert(decreases_to!(fs => fs@));
            }
            ValueView::Record(fields_view(fs@))
        },
    }
}

pub open spec fn values_view(vs: Seq<Value>) -> Seq<ValueView>
    decreases vs,
{
    if vs.len() == 0 {
        Seq::empty()
    } else {
        seq![value_view(vs[0])] + values_view(vs.drop_first())
    }
}

pub open spec fn field_view(f: Field) -> FieldView
    decreases f,
{
    FieldView { name: f.name@, value: value_view(f.value) }
}

pub open spec fn fields_view(fs: Seq<Field>) -> Seq<FieldView>
    decreases fs,
{
    if fs.len() == 0 {
        Seq::empty()
    } else {
        seq![field_view(fs[0])] + fields_view(fs.drop_first())
    }
}

/// The views of a sequence of names.
pub open spec fn strings_view(ss: Seq<String>) -> Seq<Seq<char>> {
    Seq::new(ss.len(), |i: int| ss[i]@)
}

impl View for Value {
    type V = ValueView;

    open spec fn view(&self) -> ValueView {
        value_view(*self)
    }
}

impl View for Field {
    type V = FieldView;

    open spec fn view(&self) -> FieldView {
        field_view(*self)
    }
}

pub proof fn lemma_values_view_len(vs: Seq<Value>)
    ensures
        values_view(vs).len() == vs.len(),
    decreases vs,
{
    if vs.len() > 0 {
        lemma_values_view_len(vs.drop_first());
    }
}

pub proof fn lemma_values_view_index(vs: Seq<Value>, i: int)
    requires
        0 <= i < vs.len(),
    ensures
        values_view(vs).len() == vs.len(),
        values_view(vs)[i] == value_view(vs[i]),
    decreases vs,
{
    lemma_values_view_len(vs);
    if i > 0 {
        lemma_values_view_index(vs.drop_first(), i - 1);
    }
}

pub proof fn lemma_fields_view_len(fs: Seq<Field>)
    ensures
        fields_view(fs).len() == fs.len(),
    decreases fs,
{
    if fs.len() > 0 {
        lemma_fields_view_len(fs.drop_first());
    }
}

pub proof fn lemma_fields_view_index(fs: Seq<Field>, i: int)
    requires
        0 <= i < fs.len(),
    ensures
        fields_view(fs).len() == fs.len(),
        fields_view(fs)[i] == field_view(fs[i]),
    decreases fs,
{
    lemma_fields_view_len(fs);
    if i > 0 {
        lemma_fields_view_index(fs.drop_first(), i - 1);
    }
}

pub proof fn lemma_fields_view_push(fs: Seq<Field>, f: Field)
    ensures
        fields_view(fs.push(f)) == fields_view(fs).push(field_view(f)),
{
    let whole = fs.push(f);
    lemma_fields_view_len(whole);
    lemma_fields_view_len(fs);
    assert forall|k: int| 0 <= k < whole.len() implies fields_view(whole)[k] == fields_view(
        fs,
    ).push(field_view(f))[k] by {
        lemma_fields_view_index(whole, k);
        if k < fs.len() {
            lemma_fields_view_index(fs, k);
        }
    }
    assert(fields_view(whole) =~= fields_view(fs).push(field_view(f)));
}

/// Two field sequences whose elements agree in view have the same view.
pub proof fn lemma_fields_view_congruent(a: Seq<Field>, b: Seq<Field>)
    requires
        a.len() == b.len(),
        forall|i: int| 0 <= i < a.len() ==> field_view(a[i]) == field_view(b[i]),
    ensures
        fields_view(a) == fields_view(b),
{
    lemma_fields_view_len(a);
    lemma_fields_view_len(b);
    assert forall|i: int| 0 <= i < a.len() implies fields_view(a)[i] == fields_view(b)[i] by {
        lemma_fields_view_index(a, i);
        lemma_fields_view_index(b, i);
    }
    assert(fields_view(a) =~= fields_view(b));
}

impl Clone for Value {
    #[verifier::loop_isolation(false)]
    fn clone(&self) -> (res: Self)
        ensures
            res@ == self@,
        decreases self,
    {
        match self {
            Value::Bool(b) => Value::Bool(*b),
            Value::Int(i) => Value::Int(*i),
            Value::Text(s) => Value::Text(s.clone()),
            Value::List(vs) => {
                let mut out: Vec<Value> = Vec::new();
                let mut i: usize = 0;
                while i < vs.len()
                    invariant
                        i <= vs.len(),
                        out@.len() == i as int,
                        forall|j: int| 0 <= j < i ==> out@[j]@ == vs@[j]@,
                    decreases vs.len() - i,
                {
                    proof {
                        assert(decreases_to!(vs@ => vs@[i as int]));
                        assert(decreases_to!(*vs => vs@));
                        assert(decreases_to!(*self => *vs));
                    }
                    out.push(vs[i].clone());
                    i = i + 1;
                }
                let res = Value::List(out);
                proof {
                    assert forall|k: int| 0 <= k < vs@.len() implies value_view(out@[k])
                        == value_view(vs@[k]) by {}
                    assert forall|k: int| 0 <= k < vs@.len() implies values_view(out@)[k]
                        == values_view(vs@)[k] by {
                        lemma_values_view_index(out@, k);
                        lemma_values_view_index(vs@, k);
                    }
                    lemma_values_view_len(out@);
                    lemma_values_view_len(vs@);
                    assert(values_view(out@) =~= values_view(vs@));
                }
                res
            },
            Value::Record(fs) => {
                let mut out: Vec<Field> = Vec::new();
                let mut i: usize = 0;
                while i < fs.len()
                    invariant
                        i <= fs.len(),
                        out@.len() == i as int,
                        forall|j: int| 0 <= j < i ==> out@[j]@ == fs@[j]@,
                    decreases fs.len() - i,
                {
                    proof {
                        assert(decreases_to!(fs@ => fs@[i as int]));
                        assert(decreases_to!(*fs => fs@));
                        assert(decreases_to!(*self => *fs));
                    }
                    out.push(fs[i].clone());
                    i = i + 1;
                }
                let res = Value::Record(out);
                proof {
                    lemma_fields_view_congruent(out@, fs@);
                }
                res
            },
        }
    }
}

impl Clone for Field {
    fn clone(&self) -> (res: Self)
        ensures
            res@ == self@,
        decreases self,
    {
        Field { name: self.name.clone(), value: self.value.clone() }
    }
}

} // verus!
