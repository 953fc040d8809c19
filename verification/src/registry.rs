use crate::compile::{
    compile, factory_wf, spec_compile, CompileError, CompileErrorView, CompiledFactory,
    FactoryView,
};
use crate::compose::{
    lemma_compose_names, lemma_restrict_names, spec_compose, spec_restrict, CreateError,
    CreateErrorView,
};
use crate::definition::{definitions_view, spec_validate, validate, DefinitionView, ValidateError};
use crate::parser::{
    parse, parse_request, spec_parse_definitions, spec_parse_request, ParseError,
};
use crate::shape::{contains_name, lemma_contains_exists, names_of, Shape};
use crate::token::{tokens_view, Token, TokenView};
use crate::value::{fields_view, strings_view, Field, FieldView};
use crate::Builder;
use vstd::prelude::*;

verus! {

/// What makes one `define` call fail: a malformed token source, an invalid
/// definition, an uncompilable definition, or a target type registered twice.
/// Registration is all or nothing: a failed call leaves the registry as it
/// was.
#[derive(Debug, PartialEq)]
pub enum DefineError {
    Parse(ParseError),
    Invalid(ValidateError),
    Compile(CompileError),
    DuplicateType(String),
}

/// Mathematical model of a definition-time error.
pub enum DefineErrorView {
    Parse(ParseError),
    Invalid(Seq<char>),
    Compile(CompileErrorView),
    DuplicateType(Seq<char>),
}

impl View for DefineError {
    type V = DefineErrorView;

    open spec fn view(&self) -> DefineErrorView {
        match self {
            DefineError::Parse(e) => DefineErrorView::Parse(*e),
            DefineError::Invalid(e) => DefineErrorView::Invalid(e.field@),
            DefineError::Compile(e) => DefineErrorView::Compile(e@),
            DefineError::DuplicateType(n) => DefineErrorView::DuplicateType(n@),
        }
    }
}

/// What makes a request in token form fail: it does not parse, or the
/// instantiation it asks for does.
#[derive(Debug, PartialEq)]
pub enum RequestError {
    Parse(ParseError),
    Create(CreateError),
}

/// Mathematical model of a token-form request error.
pub enum RequestErrorView {
    Parse(ParseError),
    Create(CreateErrorView),
}

impl View for RequestError {
    type V = RequestErrorView;

    open spec fn view(&self) -> RequestErrorView {
        match self {
            RequestError::Parse(e) => RequestErrorView::Parse(*e),
            RequestError::Create(e) => RequestErrorView::Create(e@),
        }
    }
}

/// The artifacts of the first factory registered for `ty`, if any.
pub open spec fn find_factory(rs: Seq<FactoryView>, ty: Seq<char>) -> Option<FactoryView>
    decreases rs.len(),
{
    if rs.len() == 0 {
        None
    } else if rs[0].ty == ty {
        Some(rs[0])
    } else {
        find_factory(rs.drop_first(), ty)
    }
}

/// Validate, compile and register each definition in turn; duplicate
/// registration of a target type is rejected.
pub open spec fn spec_register_all(rs: Seq<FactoryView>, defs: Seq<DefinitionView>) -> Result<
    Seq<FactoryView>,
    DefineErrorView,
>
    decreases defs.len(),
{
    if defs.len() == 0 {
        Ok(rs)
    } else if spec_validate(defs[0]) is Some {
        Err(DefineErrorView::Invalid(spec_validate(defs[0])->0))
    } else {
        match spec_compile(defs[0]) {
            Err(ce) => Err(DefineErrorView::Compile(ce)),
            Ok(f) => {
                if find_factory(rs, f.ty) is Some {
                    Err(DefineErrorView::DuplicateType(f.ty))
                } else {
                    spec_register_all(rs.push(f), defs.drop_first())
                }
            },
        }
    }
}

/// What one `define` call does to the registry: parse the token source, then
/// register every definition it holds, or fail without registering any.
pub open spec fn spec_define(rs: Seq<FactoryView>, ts: Seq<TokenView>) -> Result<
    Seq<FactoryView>,
    DefineErrorView,
> {
    match spec_parse_definitions(ts, 0) {
        Err(pe) => Err(DefineErrorView::Parse(pe)),
        Ok((defs, _)) => spec_register_all(rs, defs),
    }
}

/// What `create` looked up and composed: the factory for the requested type
/// and the composed intermediate shape, or the first error.
pub open spec fn spec_create_shape(
    rs: Seq<FactoryView>,
    ty: Seq<char>,
    mixin_names: Seq<Seq<char>>,
    ovs: Seq<FieldView>,
) -> Result<(FactoryView, Seq<FieldView>), CreateErrorView> {
    match find_factory(rs, ty) {
        None => Err(CreateErrorView::UnknownType(ty)),
        Some(f) => match spec_compose(f, mixin_names, ovs) {
            Err(e) => Err(e),
            Ok(s) => Ok((f, s)),
        },
    }
}

/// What holds of every produced instance: with no transform step it is the
/// composed intermediate shape itself, field for field; with one it is the
/// transform output taken at the target's own fields, so a transient field
/// never appears on it, and it binds no name outside the target's fields.
pub open spec fn instance_ok(f: FactoryView, s: Seq<FieldView>, inst: Seq<FieldView>) -> bool {
    &&& (f.transform is None ==> inst == s)
    &&& (f.transform is Some ==> exists|bout: Seq<FieldView>|
        inst == spec_restrict(bout, f.target))
    &&& (forall|t: Seq<char>| f.transients.contains(t) ==> !contains_name(inst, t))
    &&& (forall|n: Seq<char>| contains_name(inst, n) ==> f.target.contains(n))
}

/// A well-formed factory keeps its target and transient names apart.
proof fn lemma_wf_transient_not_target(f: FactoryView, t: Seq<char>)
    requires
        factory_wf(f),
        f.transients.contains(t),
    ensures
        !f.target.contains(t),
{
    if f.target.contains(t) {
        let p = choose|p: int| 0 <= p < f.target.len() && f.target[p] == t;
        let q = choose|q: int| 0 <= q < f.transients.len() && f.transients[q] == t;
        let ns = names_of(f.seed);
        assert(ns[p] == t);
        assert(ns[f.target.len() + q] == t);
        assert(false);
    }
}

spec fn factories_view(fs: Seq<CompiledFactory>) -> Seq<FactoryView> {
    Seq::new(fs.len(), |i: int| fs[i]@)
}

proof fn lemma_find_factory_at(rs: Seq<FactoryView>, ty: Seq<char>, i: int)
    requires
        0 <= i < rs.len(),
        forall|j: int| 0 <= j < i ==> rs[j].ty != ty,
        rs[i].ty == ty,
    ensures
        find_factory(rs, ty) == Some(rs[i]),
    decreases i,
{
    if i > 0 {
        lemma_find_factory_at(rs.drop_first(), ty, i - 1);
    }
}

proof fn lemma_find_factory_none(rs: Seq<FactoryView>, ty: Seq<char>)
    requires
        forall|j: int| 0 <= j < rs.len() ==> rs[j].ty != ty,
    ensures
        find_factory(rs, ty) is None,
    decreases rs.len(),
{
    if rs.len() > 0 {
        lemma_find_factory_none(rs.drop_first(), ty);
    }
}

/// The ambient registry: one compiled factory per registered target type.
/// Factories are immutable once registered and every instantiation composes
/// fresh values from them.
pub struct Registry {
    factories: Vec<CompiledFactory>,
}

impl View for Registry {
    type V = Seq<FactoryView>;

    closed spec fn view(&self) -> Seq<FactoryView> {
        factories_view(self.factories@)
    }
}

impl Registry {
    /// Every registered factory is well formed; `new` establishes this and
    /// `define` preserves it.
    pub open spec fn wf(&self) -> bool {
        forall|i: int| 0 <= i < self@.len() ==> factory_wf(#[trigger] self@[i])
    }

    /// An empty registry.
    pub fn new() -> (r: Registry)
        ensures
            r@ == Seq::<FactoryView>::empty(),
            r.wf(),
    {
        let r = Registry { factories: Vec::new() };
        proof {
            assert(factories_view(r.factories@) =~= Seq::<FactoryView>::empty());
        }
        r
    }

    fn find(&self, ty: &String) -> (r: Option<&CompiledFactory>)
        ensures
            match r {
                Some(f) => find_factory(self@, ty@) == Some(f@),
                None => find_factory(self@, ty@) is None,
            },
    {
        let ghost rs = self@;
        let mut i: usize = 0;
        while i < self.factories.len()
            invariant
                i <= self.factories@.len(),
                rs == factories_view(self.factories@),
                rs.len() == self.factories@.len(),
                forall|j: int| 0 <= j < i ==> rs[j].ty != ty@,
            decreases self.factories@.len() - i,
        {
            if self.factories[i].ty == *ty {
                proof {
                    lemma_find_factory_at(rs, ty@, i as int);
                }
                return Some(&self.factories[i]);
            }
            i = i + 1;
        }
        proof {
            lemma_find_factory_none(rs, ty@);
        }
        None
    }

    /// Register the factories that a definition source declares: parse it,
    /// then validate, compile and register each definition in order. A failed
    /// call reports the first error and leaves the registry unchanged.
    #[verifier::loop_isolation(false)]
    pub fn define(&mut self, tokens: &Vec<Token>) -> (r: Result<(), DefineError>)
        requires
            old(self).wf(),
        ensures
            final(self).wf(),
            match r {
                Ok(()) => spec_define(old(self)@, tokens_view(tokens@)) == Ok::<
                    Seq<FactoryView>,
                    DefineErrorView,
                >(final(self)@),
                Err(e) => spec_define(old(self)@, tokens_view(tokens@)) == Err::<
                    Seq<FactoryView>,
                    DefineErrorView,
                >(e@) && final(self)@ == old(self)@,
            },
    {
        let defs = match parse(tokens) {
            Ok(ds) => ds,
            Err(e) => {
                return Err(DefineError::Parse(e));
            },
        };
        let ghost dvs = definitions_view(defs@);
        let ghost orig = self.factories@;
        proof {
            assert(dvs.skip(0) =~= dvs);
        }
        let orig_len = self.factories.len();
        let mut i: usize = 0;
        while i < defs.len()
            invariant
                i <= defs@.len(),
                orig_len == orig.len(),
                self.factories@.len() >= orig_len,
                self.factories@.take(orig_len as int) == orig,
                spec_register_all(factories_view(orig), dvs) == spec_register_all(
                    self@,
                    dvs.skip(i as int),
                ),
                self.wf(),
            decreases defs@.len() - i,
        {
            let def = &defs[i];
            proof {
                assert(dvs.skip(i as int)[0] == dvs[i as int]);
                assert(dvs[i as int] == def@);
            }
            match validate(def) {
                Err(e) => {
                    self.factories.truncate(orig_len);
                    proof {
                        assert(self.factories@ =~= orig);
                        assert(factories_view(self.factories@) =~= factories_view(orig));
                    }
                    return Err(DefineError::Invalid(e));
                },
                Ok(()) => {},
            }
            let fact = match compile(def) {
                Err(e) => {
                    self.factories.truncate(orig_len);
                    proof {
                        assert(self.factories@ =~= orig);
                        assert(factories_view(self.factories@) =~= factories_view(orig));
                    }
                    return Err(DefineError::Compile(e));
                },
                Ok(f) => f,
            };
            if self.find(&fact.ty).is_some() {
                let name = fact.ty.clone();
                self.factories.truncate(orig_len);
                proof {
                    assert(self.factories@ =~= orig);
                    assert(factories_view(self.factories@) =~= factories_view(orig));
                }
                return Err(DefineError::DuplicateType(name));
            }
            let ghost pre = self.factories@;
            self.factories.push(fact);
            proof {
                assert(factories_view(self.factories@) =~= factories_view(pre).push(
                    self.factories@.last()@,
                ));
                assert(self.factories@.take(orig_len as int) =~= pre.take(orig_len as int));
                assert(dvs.skip(i as int).drop_first() =~= dvs.skip(i + 1));
            }
            i = i + 1;
        }
        proof {
            assert(dvs.skip(defs@.len() as int) =~= Seq::<DefinitionView>::empty());
        }
        Ok(())
    }

    /// Produce one instance of the requested type: compose the defaults, the
    /// named mixins in order and the explicit overrides, then run the
    /// transform step — the identity when the definition declared none.
    pub fn create<B: Builder>(
        &self,
        ty: &String,
        mixin_names: &Vec<String>,
        overrides: &Vec<Field>,
        builder: &B,
    ) -> (r: Result<Shape, CreateError>)
        requires
            self.wf(),
        ensures
            ({
                let outcome = spec_create_shape(
                    self@,
                    ty@,
                    strings_view(mixin_names@),
                    fields_view(overrides@),
                );
                match r {
                    Err(e) => outcome == Err::<(FactoryView, Seq<FieldView>), CreateErrorView>(
                        e@,
                    ),
                    Ok(inst) => outcome is Ok && instance_ok(
                        outcome->Ok_0.0,
                        outcome->Ok_0.1,
                        inst@,
                    ),
                }
            }),
    {
        let fact = match self.find(ty) {
            None => {
                return Err(CreateError::UnknownType(ty.clone()));
            },
            Some(f) => f,
        };
        let ghost f = fact@;
        let ghost mnames = strings_view(mixin_names@);
        let ghost ovs = fields_view(overrides@);
        proof {
            assert(find_factory(self@, ty@) == Some(f));
            assert(exists|i: int| 0 <= i < self@.len() && self@[i] == f) by {
                lemma_find_factory_index(self@, ty@);
            }
            let i = choose|i: int| 0 <= i < self@.len() && self@[i] == f;
            assert(factory_wf(self@[i]));
        }
        let s = match fact.compose_shape(mixin_names, overrides) {
            Err(e) => {
                return Err(e);
            },
            Ok(s) => s,
        };
        proof {
            lemma_compose_names(f, mnames, ovs);
        }
        if fact.transform.is_some() {
            let built = builder.build(s);
            let inst = fact.finish(&built);
            proof {
                assert(inst@ == spec_restrict(built@, f.target));
                assert forall|t: Seq<char>| f.transients.contains(t) implies !contains_name(
                    inst@,
                    t,
                ) by {
                    lemma_wf_transient_not_target(f, t);
                    if contains_name(inst@, t) {
                        lemma_restrict_names(built@, f.target, t);
                    }
                }
                assert forall|n: Seq<char>| contains_name(inst@, n) implies f.target.contains(
                    n,
                ) by {
                    lemma_restrict_names(built@, f.target, n);
                }
            }
            Ok(inst)
        } else {
            proof {
                let names = names_of(f.seed);
                assert(names == f.target + f.transients);
                assert(f.transients.len() == 0);
                assert(names =~= f.target);
                assert forall|n: Seq<char>| contains_name(s@, n) implies f.target.contains(
                    n,
                ) by {
                    lemma_contains_exists(s@, n);
                    let i = choose|i: int| 0 <= i < s@.len() && s@[i].name == n;
                    assert(names_of(s@)[i] == n);
                    assert(f.target[i] == n);
                }
            }
            Ok(s)
        }
    }

    /// Produce exactly `count` instances, each independently composed from
    /// the same request, in call order. A count of zero asks for no
    /// composition and yields the empty sequence.
    #[verifier::loop_isolation(false)]
    pub fn create_many<B: Builder>(
        &self,
        ty: &String,
        count: usize,
        mixin_names: &Vec<String>,
        overrides: &Vec<Field>,
        builder: &B,
    ) -> (r: Result<Vec<Shape>, CreateError>)
        requires
            self.wf(),
        ensures
            ({
                let outcome = spec_create_shape(
                    self@,
                    ty@,
                    strings_view(mixin_names@),
                    fields_view(overrides@),
                );
                match r {
                    Err(e) => outcome == Err::<(FactoryView, Seq<FieldView>), CreateErrorView>(
                        e@,
                    ) && count > 0,
                    Ok(insts) => insts@.len() == count && (count > 0 ==> outcome is Ok)
                        && forall|k: int|
                        0 <= k < count ==> instance_ok(
                            outcome->Ok_0.0,
                            outcome->Ok_0.1,
                            #[trigger] insts@[k]@,
                        ),
                }
            }),
    {
        let mut out: Vec<Shape> = Vec::new();
        let ghost outcome = spec_create_shape(
            self@,
            ty@,
            strings_view(mixin_names@),
            fields_view(overrides@),
        );
        let mut k: usize = 0;
        while k < count
            invariant
                k <= count,
                out@.len() == k,
                k > 0 ==> outcome is Ok,
                forall|j: int|
                    0 <= j < k ==> instance_ok(outcome->Ok_0.0, outcome->Ok_0.1, #[trigger] out@[j]@),
            decreases count - k,
        {
            match self.create(ty, mixin_names, overrides, builder) {
                Err(e) => {
                    return Err(e);
                },
                Ok(inst) => {
                    out.push(inst);
                },
            }
            k = k + 1;
        }
        Ok(out)
    }

    /// Produce one instance from a request in token form: the target type,
    /// `':' mixin` references in order, then `field ':' value` overrides.
    pub fn create_from_tokens<B: Builder>(&self, tokens: &Vec<Token>, builder: &B) -> (r: Result<
        Shape,
        RequestError,
    >)
        requires
            self.wf(),
        ensures
            ({
                match spec_parse_request(tokens_view(tokens@)) {
                    Err(pe) => r matches Err(e) && e@ == RequestErrorView::Parse(pe),
                    Ok(req) => {
                        let outcome = spec_create_shape(self@, req.ty, req.mixins, req.overrides);
                        match outcome {
                            Err(ce) => r matches Err(e) && e@ == RequestErrorView::Create(ce),
                            Ok((f, s)) => r matches Ok(inst) && instance_ok(f, s, inst@),
                        }
                    },
                }
            }),
    {
        let req = match parse_request(tokens) {
            Err(e) => {
                return Err(RequestError::Parse(e));
            },
            Ok(req) => req,
        };
        match self.create(&req.ty, &req.mixins, &req.overrides, builder) {
            Err(e) => Err(RequestError::Create(e)),
            Ok(inst) => Ok(inst),
        }
    }

    /// Produce exactly `count` instances from a request in token form, each
    /// independently composed; the request is parsed even when `count` is
    /// zero and asks for no composition.
    pub fn create_many_from_tokens<B: Builder>(
        &self,
        count: usize,
        tokens: &Vec<Token>,
        builder: &B,
    ) -> (r: Result<Vec<Shape>, RequestError>)
        requires
            self.wf(),
        ensures
            ({
                match spec_parse_request(tokens_view(tokens@)) {
                    Err(pe) => r matches Err(e) && e@ == RequestErrorView::Parse(pe),
                    Ok(req) => {
                        let outcome = spec_create_shape(self@, req.ty, req.mixins, req.overrides);
                        match r {
                            Err(e) => (exists|ce: CreateErrorView|
                                e@ == RequestErrorView::Create(ce) && outcome == Err::<
                                    (FactoryView, Seq<FieldView>),
                                    CreateErrorView,
                                >(ce)) && count > 0,
                            Ok(insts) => insts@.len() == count && (count > 0 ==> outcome is Ok)
                                && forall|k: int|
                                0 <= k < count ==> instance_ok(
                                    outcome->Ok_0.0,
                                    outcome->Ok_0.1,
                                    #[trigger] insts@[k]@,
                                ),
                        }
                    },
                }
            }),
    {
        let req = match parse_request(tokens) {
            Err(e) => {
                return Err(RequestError::Parse(e));
            },
            Ok(req) => req,
        };
        match self.create_many(&req.ty, count, &req.mixins, &req.overrides, builder) {
            Err(e) => Err(RequestError::Create(e)),
            Ok(insts) => Ok(insts),
        }
    }
}

proof fn lemma_find_factory_index(rs: Seq<FactoryView>, ty: Seq<char>)
    requires
        find_factory(rs, ty) is Some,
    ensures
        exists|i: int| 0 <= i < rs.len() && rs[i] == find_factory(rs, ty)->0,
    decreases rs.len(),
{
    if rs.len() > 0 && rs[0].ty != ty {
        lemma_find_factory_index(rs.drop_first(), ty);
        let i = choose|i: int|
            0 <= i < rs.drop_first().len() && rs.drop_first()[i] == find_factory(
                rs.drop_first(),
                ty,
            )->0;
        assert(rs[i + 1] == rs.drop_first()[i]);
        assert(0 <= i + 1 < rs.len() && rs[i + 1] == find_factory(rs, ty)->0);
    }
}

} // verus!
