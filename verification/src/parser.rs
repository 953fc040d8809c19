use crate::definition::{
    field_spec_view, field_specs_view, mixin_def_view, mixin_defs_view, transient_spec_view,
    transient_specs_view, Definition, DefinitionView, FieldSpec, FieldSpecView, MixinDef,
    MixinDefView, TransientSpec, TransientSpecView,
};
use crate::definition::definitions_view;
use crate::token::{tokens_view, Token, TokenView};
use crate::value::{field_view, fields_view, Field, FieldView};
use vstd::prelude::*;

verus! {

/// What went wrong while parsing, by kind.
#[derive(Debug, PartialEq, Eq, Structural, Clone, Copy)]
pub enum ParseErrorKind {
    UnexpectedEnd,
    ExpectedIdent,
    ExpectedComma,
    ExpectedColon,
    ExpectedEquals,
    ExpectedValue,
    ExpectedType,
    ExpectedCode,
    ExpectedOpenBrace,
    UnknownBlockKey,
    DuplicateDefault,
    DuplicateTransient,
    DuplicateTransform,
    MissingDefault,
}

/// A terminal parse error carrying the index of the offending token; the end
/// of the token source counts as index `len`.
#[derive(Debug, PartialEq, Eq, Structural, Clone, Copy)]
pub struct ParseError {
    pub kind: ParseErrorKind,
    pub pos: usize,
}

pub open spec fn opt_str_view(o: Option<String>) -> Option<Seq<char>> {
    match o {
        Some(s) => Some(s@),
        None => None,
    }
}

/// The blocks gathered so far while parsing one definition body.
pub struct PartsView {
    pub defaults: Option<Seq<FieldSpecView>>,
    pub transients: Option<Seq<TransientSpecView>>,
    pub transform: Option<Seq<char>>,
    pub mixins: Seq<MixinDefView>,
}

pub struct Parts {
    pub defaults: Option<Vec<FieldSpec>>,
    pub transients: Option<Vec<TransientSpec>>,
    pub transform: Option<String>,
    pub mixins: Vec<MixinDef>,
}

impl View for Parts {
    type V = PartsView;

    open spec fn view(&self) -> PartsView {
        PartsView {
            defaults: match self.defaults {
                Some(ds) => Some(field_specs_view(ds@)),
                None => None,
            },
            transients: match self.transients {
                Some(ts) => Some(transient_specs_view(ts@)),
                None => None,
            },
            transform: opt_str_view(self.transform),
            mixins: mixin_defs_view(self.mixins@),
        }
    }
}

pub open spec fn parse_err<T>(kind: ParseErrorKind, pos: int) -> Result<T, ParseError> {
    Err(ParseError { kind, pos: pos as usize })
}

/// The fields of a `default` block body, from just after its opening brace up
/// to and including its closing brace: `(id (':' type)? '=' expr ','?)* '}'`.
pub open spec fn spec_parse_field_specs(ts: Seq<TokenView>, i: int) -> Result<
    (Seq<FieldSpecView>, int),
    ParseError,
>
    decreases ts.len() - i,
{
    if i >= ts.len() {
        parse_err(ParseErrorKind::UnexpectedEnd, ts.len() as int)
    } else {
        match ts[i] {
            TokenView::CloseBrace => Ok((Seq::empty(), i + 1)),
            TokenView::Ident(name) => {
                if i + 1 < ts.len() && ts[i + 1] is Colon {
                    if i + 2 >= ts.len() {
                        parse_err(ParseErrorKind::UnexpectedEnd, ts.len() as int)
                    } else {
                        match ts[i + 2] {
                            TokenView::Ident(tyname) => spec_field_tail(
                                ts,
                                name,
                                Some(tyname),
                                i + 3,
                            ),
                            _ => parse_err(ParseErrorKind::ExpectedType, i + 2),
                        }
                    }
                } else {
                    spec_field_tail(ts, name, None, i + 1)
                }
            },
            _ => parse_err(ParseErrorKind::ExpectedIdent, i),
        }
    }
}

/// The remainder of one default field after its name and optional type:
/// `'=' expr ','?`, then the rest of the block.
pub open spec fn spec_field_tail(
    ts: Seq<TokenView>,
    name: Seq<char>,
    ty: Option<Seq<char>>,
    j: int,
) -> Result<(Seq<FieldSpecView>, int), ParseError>
    decreases ts.len() - j,
{
    if j >= ts.len() {
        parse_err(ParseErrorKind::UnexpectedEnd, ts.len() as int)
    } else if !(ts[j] is Equals) {
        parse_err(ParseErrorKind::ExpectedEquals, j)
    } else if j + 1 >= ts.len() {
        parse_err(ParseErrorKind::UnexpectedEnd, ts.len() as int)
    } else {
        match ts[j + 1] {
            TokenView::Lit(v) => {
                let k = if j + 2 < ts.len() && ts[j + 2] is Comma {
                    j + 3
                } else {
                    j + 2
                };
                match spec_parse_field_specs(ts, k) {
                    Ok((rest, end)) => Ok(
                        (seq![FieldSpecView { name, ty, value: v }] + rest, end),
                    ),
                    Err(e) => Err(e),
                }
            },
            _ => parse_err(ParseErrorKind::ExpectedValue, j + 1),
        }
    }
}

/// The fields of a `transient` block body; the type annotation is mandatory:
/// `(id ':' type '=' expr ','?)* '}'`.
pub open spec fn spec_parse_transient_specs(ts: Seq<TokenView>, i: int) -> Result<
    (Seq<TransientSpecView>, int),
    ParseError,
>
    decreases ts.len() - i,
{
    if i >= ts.len() {
        parse_err(ParseErrorKind::UnexpectedEnd, ts.len() as int)
    } else {
        match ts[i] {
            TokenView::CloseBrace => Ok((Seq::empty(), i + 1)),
            TokenView::Ident(name) => {
                if i + 1 >= ts.len() {
                    parse_err(ParseErrorKind::UnexpectedEnd, ts.len() as int)
                } else if !(ts[i + 1] is Colon) {
                    parse_err(ParseErrorKind::ExpectedColon, i + 1)
                } else if i + 2 >= ts.len() {
                    parse_err(ParseErrorKind::UnexpectedEnd, ts.len() as int)
                } else {
                    match ts[i + 2] {
                        TokenView::Ident(tyname) => spec_transient_tail(ts, name, tyname, i + 3),
                        _ => parse_err(ParseErrorKind::ExpectedType, i + 2),
                    }
                }
            },
            _ => parse_err(ParseErrorKind::ExpectedIdent, i),
        }
    }
}

/// The remainder of one transient field after its name and type.
pub open spec fn spec_transient_tail(
    ts: Seq<TokenView>,
    name: Seq<char>,
    ty: Seq<char>,
    j: int,
) -> Result<(Seq<TransientSpecView>, int), ParseError>
    decreases ts.len() - j,
{
    if j >= ts.len() {
        parse_err(ParseErrorKind::UnexpectedEnd, ts.len() as int)
    } else if !(ts[j] is Equals) {
        parse_err(ParseErrorKind::ExpectedEquals, j)
    } else if j + 1 >= ts.len() {
        parse_err(ParseErrorKind::UnexpectedEnd, ts.len() as int)
    } else {
        match ts[j + 1] {
            TokenView::Lit(v) => {
                let k = if j + 2 < ts.len() && ts[j + 2] is Comma {
                    j + 3
                } else {
                    j + 2
                };
                match spec_parse_transient_specs(ts, k) {
                    Ok((rest, end)) => Ok(
                        (seq![TransientSpecView { name, ty, value: v }] + rest, end),
                    ),
                    Err(e) => Err(e),
                }
            },
            _ => parse_err(ParseErrorKind::ExpectedValue, j + 1),
        }
    }
}

/// The pairs of a `mixin` block body: `(id '=' expr ','?)* '}'`; a mixin
/// field inherits its type from the default or transient field it updates.
pub open spec fn spec_parse_pairs(ts: Seq<TokenView>, i: int) -> Result<
    (Seq<FieldView>, int),
    ParseError,
>
    decreases ts.len() - i,
{
    if i >= ts.len() {
        parse_err(ParseErrorKind::UnexpectedEnd, ts.len() as int)
    } else {
        match ts[i] {
            TokenView::CloseBrace => Ok((Seq::empty(), i + 1)),
            TokenView::Ident(name) => {
                if i + 1 >= ts.len() {
                    parse_err(ParseErrorKind::UnexpectedEnd, ts.len() as int)
                } else if !(ts[i + 1] is Equals) {
                    parse_err(ParseErrorKind::ExpectedEquals, i + 1)
                } else if i + 2 >= ts.len() {
                    parse_err(ParseErrorKind::UnexpectedEnd, ts.len() as int)
                } else {
                    match ts[i + 2] {
                        TokenView::Lit(v) => {
                            let k = if i + 3 < ts.len() && ts[i + 3] is Comma {
                                i + 4
                            } else {
                                i + 3
                            };
                            match spec_parse_pairs(ts, k) {
                                Ok((rest, end)) => Ok(
                                    (seq![FieldView { name, value: v }] + rest, end),
                                ),
                                Err(e) => Err(e),
                            }
                        },
                        _ => parse_err(ParseErrorKind::ExpectedValue, i + 2),
                    }
                }
            },
            _ => parse_err(ParseErrorKind::ExpectedIdent, i),
        }
    }
}

/// The block list of one definition body, gathering blocks into `parts` until
/// the closing brace. Block kinds form a closed set; an unknown block key is
/// rejected, and a repeated `default`, `transient` or `transform` block, or a
/// missing `default` block, is a terminal error.
pub open spec fn spec_parse_blocks(ts: Seq<TokenView>, i: int, parts: PartsView) -> Result<
    (PartsView, int),
    ParseError,
>
    decreases ts.len() - i,
{
    if i >= ts.len() {
        parse_err(ParseErrorKind::UnexpectedEnd, ts.len() as int)
    } else {
        match ts[i] {
            TokenView::CloseBrace => {
                if parts.defaults is None {
                    parse_err(ParseErrorKind::MissingDefault, i)
                } else {
                    Ok((parts, i + 1))
                }
            },
            TokenView::Ident(key) => {
                if key == "default"@ {
                    if parts.defaults is Some {
                        parse_err(ParseErrorKind::DuplicateDefault, i)
                    } else if i + 1 >= ts.len() {
                        parse_err(ParseErrorKind::UnexpectedEnd, ts.len() as int)
                    } else if !(ts[i + 1] is OpenBrace) {
                        parse_err(ParseErrorKind::ExpectedOpenBrace, i + 1)
                    } else {
                        match spec_parse_field_specs(ts, i + 2) {
                            Err(e) => Err(e),
                            Ok((ds, j)) => {
                                if i + 2 < j <= ts.len() {
                                    spec_parse_blocks(
                                        ts,
                                        j,
                                        PartsView { defaults: Some(ds), ..parts },
                                    )
                                } else {
                                    parse_err(ParseErrorKind::UnexpectedEnd, ts.len() as int)
                                }
                            },
                        }
                    }
                } else if key == "transient"@ {
                    if parts.transients is Some {
                        parse_err(ParseErrorKind::DuplicateTransient, i)
                    } else if i + 1 >= ts.len() {
                        parse_err(ParseErrorKind::UnexpectedEnd, ts.len() as int)
                    } else if !(ts[i + 1] is OpenBrace) {
                        parse_err(ParseErrorKind::ExpectedOpenBrace, i + 1)
                    } else {
                        match spec_parse_transient_specs(ts, i + 2) {
                            Err(e) => Err(e),
                            Ok((trs, j)) => {
                                if i + 2 < j <= ts.len() {
                                    spec_parse_blocks(
                                        ts,
                                        j,
                                        PartsView { transients: Some(trs), ..parts },
                                    )
                                } else {
                                    parse_err(ParseErrorKind::UnexpectedEnd, ts.len() as int)
                                }
                            },
                        }
                    }
                } else if key == "transform"@ {
                    if parts.transform is Some {
                        parse_err(ParseErrorKind::DuplicateTransform, i)
                    } else if i + 1 >= ts.len() {
                        parse_err(ParseErrorKind::UnexpectedEnd, ts.len() as int)
                    } else {
                        match ts[i + 1] {
                            TokenView::Code(c) => spec_parse_blocks(
                                ts,
                                i + 2,
                                PartsView { transform: Some(c), ..parts },
                            ),
                            _ => parse_err(ParseErrorKind::ExpectedCode, i + 1),
                        }
                    }
                } else if key == "mixin"@ {
                    if i + 1 >= ts.len() {
                        parse_err(ParseErrorKind::UnexpectedEnd, ts.len() as int)
                    } else {
                        match ts[i + 1] {
                            TokenView::Ident(mname) => {
                                if i + 2 >= ts.len() {
                                    parse_err(ParseErrorKind::UnexpectedEnd, ts.len() as int)
                                } else if !(ts[i + 2] is OpenBrace) {
                                    parse_err(ParseErrorKind::ExpectedOpenBrace, i + 2)
                                } else {
                                    match spec_parse_pairs(ts, i + 3) {
                                        Err(e) => Err(e),
                                        Ok((pairs, j)) => {
                                            if i + 3 < j <= ts.len() {
                                                spec_parse_blocks(
                                                    ts,
                                                    j,
                                                    PartsView {
                                                        mixins: parts.mixins.push(
                                                            MixinDefView { name: mname, fields: pairs },
                                                        ),
                                                        ..parts
                                                    },
                                                )
                                            } else {
                                                parse_err(ParseErrorKind::UnexpectedEnd, ts.len() as int)
                                            }
                                        },
                                    }
                                }
                            },
                            _ => parse_err(ParseErrorKind::ExpectedIdent, i + 1),
                        }
                    }
                } else {
                    parse_err(ParseErrorKind::UnknownBlockKey, i)
                }
            },
            _ => parse_err(ParseErrorKind::ExpectedIdent, i),
        }
    }
}

/// One definition: `type_id ',' '{' block* '}'`.
pub open spec fn spec_parse_definition(ts: Seq<TokenView>, i: int) -> Result<
    (DefinitionView, int),
    ParseError,
>
    decreases ts.len() - i,
{
    if i >= ts.len() {
        parse_err(ParseErrorKind::UnexpectedEnd, ts.len() as int)
    } else {
        match ts[i] {
            TokenView::Ident(ty) => {
                if i + 1 >= ts.len() {
                    parse_err(ParseErrorKind::UnexpectedEnd, ts.len() as int)
                } else if !(ts[i + 1] is Comma) {
                    parse_err(ParseErrorKind::ExpectedComma, i + 1)
                } else if i + 2 >= ts.len() {
                    parse_err(ParseErrorKind::UnexpectedEnd, ts.len() as int)
                } else if !(ts[i + 2] is OpenBrace) {
                    parse_err(ParseErrorKind::ExpectedOpenBrace, i + 2)
                } else {
                    match spec_parse_blocks(
                        ts,
                        i + 3,
                        PartsView {
                            defaults: None,
                            transients: None,
                            transform: None,
                            mixins: Seq::empty(),
                        },
                    ) {
                        Err(e) => Err(e),
                        Ok((parts, j)) => match parts.defaults {
                            Some(ds) => Ok(
                                (
                                    DefinitionView {
                                        ty,
                                        defaults: ds,
                                        transients: parts.transients,
                                        transform: parts.transform,
                                        mixins: parts.mixins,
                                    },
                                    j,
                                ),
                            ),
                            None => parse_err(ParseErrorKind::MissingDefault, ts.len() as int),
                        },
                    }
                }
            },
            _ => parse_err(ParseErrorKind::ExpectedIdent, i),
        }
    }
}

/// A whole token source: definitions back to back, to the end of the input.
pub open spec fn spec_parse_definitions(ts: Seq<TokenView>, i: int) -> Result<
    (Seq<DefinitionView>, int),
    ParseError,
>
    decreases ts.len() - i,
{
    if i >= ts.len() {
        Ok((Seq::empty(), i))
    } else {
        match spec_parse_definition(ts, i) {
            Err(e) => Err(e),
            Ok((d, j)) => {
                if i < j <= ts.len() {
                    match spec_parse_definitions(ts, j) {
                        Err(e) => Err(e),
                        Ok((rest, end)) => Ok((seq![d] + rest, end)),
                    }
                } else {
                    parse_err(ParseErrorKind::UnexpectedEnd, ts.len() as int)
                }
            },
        }
    }
}

proof fn lemma_field_specs_prepend(head: FieldSpec, rest: Seq<FieldSpec>)
    ensures
        field_specs_view(rest.insert(0, head)) == seq![field_spec_view(head)]
            + field_specs_view(rest),
{
    assert(field_specs_view(rest.insert(0, head)) =~= seq![field_spec_view(head)]
        + field_specs_view(rest));
}

proof fn lemma_transient_specs_prepend(head: TransientSpec, rest: Seq<TransientSpec>)
    ensures
        transient_specs_view(rest.insert(0, head)) == seq![transient_spec_view(head)]
            + transient_specs_view(rest),
{
    assert(transient_specs_view(rest.insert(0, head)) =~= seq![transient_spec_view(head)]
        + transient_specs_view(rest));
}

proof fn lemma_fields_prepend(head: Field, rest: Seq<Field>)
    ensures
        fields_view(rest.insert(0, head)) == seq![field_view(head)] + fields_view(rest),
{
    let whole = rest.insert(0, head);
    assert(whole.len() == rest.len() + 1);
    assert(whole[0] == head);
    assert(whole.drop_first() =~= rest);
}

proof fn lemma_definitions_prepend(head: Definition, rest: Seq<Definition>)
    ensures
        definitions_view(rest.insert(0, head)) == seq![head@] + definitions_view(rest),
{
    assert(definitions_view(rest.insert(0, head)) =~= seq![head@] + definitions_view(rest));
}

fn parse_field_specs(tokens: &Vec<Token>, i: usize) -> (r: Result<
    (Vec<FieldSpec>, usize),
    ParseError,
>)
    requires
        i <= tokens@.len(),
    ensures
        ({
            let s = spec_parse_field_specs(tokens_view(tokens@), i as int);
            match r {
                Ok((fs, j)) => s == Ok::<(Seq<FieldSpecView>, int), ParseError>(
                    (field_specs_view(fs@), j as int),
                ) && i < j <= tokens@.len(),
                Err(e) => s == Err::<(Seq<FieldSpecView>, int), ParseError>(e),
            }
        }),
    decreases tokens@.len() - i,
{
    let n = tokens.len();
    if i >= n {
        return Err(ParseError { kind: ParseErrorKind::UnexpectedEnd, pos: n });
    }
    match &tokens[i] {
        Token::CloseBrace => {
            proof {
                assert(field_specs_view(Seq::<FieldSpec>::empty()) =~= Seq::<
                    FieldSpecView,
                >::empty());
            }
            Ok((Vec::new(), i + 1))
        },
        Token::Ident(name) => {
            let typed = i + 1 < n && matches!(&tokens[i + 1], Token::Colon);
            if typed {
                if i + 2 >= n {
                    return Err(ParseError { kind: ParseErrorKind::UnexpectedEnd, pos: n });
                }
                match &tokens[i + 2] {
                    Token::Ident(tyname) => parse_field_tail(
                        tokens,
                        name,
                        Some(tyname.clone()),
                        i + 3,
                    ),
                    _ => Err(ParseError { kind: ParseErrorKind::ExpectedType, pos: i + 2 }),
                }
            } else {
                parse_field_tail(tokens, name, None, i + 1)
            }
        },
        _ => Err(ParseError { kind: ParseErrorKind::ExpectedIdent, pos: i }),
    }
}

fn parse_field_tail(tokens: &Vec<Token>, name: &String, ty: Option<String>, j: usize) -> (r:
    Result<(Vec<FieldSpec>, usize), ParseError>)
    requires
        j <= tokens@.len(),
    ensures
        ({
            let s = spec_field_tail(tokens_view(tokens@), name@, opt_str_view(ty), j as int);
            match r {
                Ok((fs, end)) => s == Ok::<(Seq<FieldSpecView>, int), ParseError>(
                    (field_specs_view(fs@), end as int),
                ) && j < end <= tokens@.len(),
                Err(e) => s == Err::<(Seq<FieldSpecView>, int), ParseError>(e),
            }
        }),
    decreases tokens@.len() - j,
{
    let n = tokens.len();
    if j >= n {
        return Err(ParseError { kind: ParseErrorKind::UnexpectedEnd, pos: n });
    }
    if !matches!(&tokens[j], Token::Equals) {
        return Err(ParseError { kind: ParseErrorKind::ExpectedEquals, pos: j });
    }
    if j + 1 >= n {
        return Err(ParseError { kind: ParseErrorKind::UnexpectedEnd, pos: n });
    }
    match &tokens[j + 1] {
        Token::Lit(v) => {
            let k = if j + 2 < n && matches!(&tokens[j + 2], Token::Comma) {
                j + 3
            } else {
                j + 2
            };
            match parse_field_specs(tokens, k) {
                Ok((mut rest, end)) => {
                    let head = FieldSpec { name: name.clone(), ty, value: v.clone() };
                    proof {
                        lemma_field_specs_prepend(head, rest@);
                    }
                    rest.insert(0, head);
                    Ok((rest, end))
                },
                Err(e) => Err(e),
            }
        },
        _ => Err(ParseError { kind: ParseErrorKind::ExpectedValue, pos: j + 1 }),
    }
}

fn parse_transient_specs(tokens: &Vec<Token>, i: usize) -> (r: Result<
    (Vec<TransientSpec>, usize),
    ParseError,
>)
    requires
        i <= tokens@.len(),
    ensures
        ({
            let s = spec_parse_transient_specs(tokens_view(tokens@), i as int);
            match r {
                Ok((trs, j)) => s == Ok::<(Seq<TransientSpecView>, int), ParseError>(
                    (transient_specs_view(trs@), j as int),
                ) && i < j <= tokens@.len(),
                Err(e) => s == Err::<(Seq<TransientSpecView>, int), ParseError>(e),
            }
        }),
    decreases tokens@.len() - i,
{
    let n = tokens.len();
    if i >= n {
        return Err(ParseError { kind: ParseErrorKind::UnexpectedEnd, pos: n });
    }
    match &tokens[i] {
        Token::CloseBrace => {
            proof {
                assert(transient_specs_view(Seq::<TransientSpec>::empty()) =~= Seq::<
                    TransientSpecView,
                >::empty());
            }
            Ok((Vec::new(), i + 1))
        },
        Token::Ident(name) => {
            if i + 1 >= n {
                return Err(ParseError { kind: ParseErrorKind::UnexpectedEnd, pos: n });
            }
            if !matches!(&tokens[i + 1], Token::Colon) {
                return Err(ParseError { kind: ParseErrorKind::ExpectedColon, pos: i + 1 });
            }
            if i + 2 >= n {
                return Err(ParseError { kind: ParseErrorKind::UnexpectedEnd, pos: n });
            }
            match &tokens[i + 2] {
                Token::Ident(tyname) => parse_transient_tail(tokens, name, tyname, i + 3),
                _ => Err(ParseError { kind: ParseErrorKind::ExpectedType, pos: i + 2 }),
            }
        },
        _ => Err(ParseError { kind: ParseErrorKind::ExpectedIdent, pos: i }),
    }
}

fn parse_transient_tail(tokens: &Vec<Token>, name: &String, ty: &String, j: usize) -> (r: Result<
    (Vec<TransientSpec>, usize),
    ParseError,
>)
    requires
        j <= tokens@.len(),
    ensures
        ({
            let s = spec_transient_tail(tokens_view(tokens@), name@, ty@, j as int);
            match r {
                Ok((trs, end)) => s == Ok::<(Seq<TransientSpecView>, int), ParseError>(
                    (transient_specs_view(trs@), end as int),
                ) && j < end <= tokens@.len(),
                Err(e) => s == Err::<(Seq<TransientSpecView>, int), ParseError>(e),
            }
        }),
    decreases tokens@.len() - j,
{
    let n = tokens.len();
    if j >= n {
        return Err(ParseError { kind: ParseErrorKind::UnexpectedEnd, pos: n });
    }
    if !matches!(&tokens[j], Token::Equals) {
        return Err(ParseError { kind: ParseErrorKind::ExpectedEquals, pos: j });
    }
    if j + 1 >= n {
        return Err(ParseError { kind: ParseErrorKind::UnexpectedEnd, pos: n });
    }
    match &tokens[j + 1] {
        Token::Lit(v) => {
            let k = if j + 2 < n && matches!(&tokens[j + 2], Token::Comma) {
                j + 3
            } else {
                j + 2
            };
            match parse_transient_specs(tokens, k) {
                Ok((mut rest, end)) => {
                    let head = TransientSpec {
                        name: name.clone(),
                        ty: ty.clone(),
                        value: v.clone(),
                    };
                    proof {
                        lemma_transient_specs_prepend(head, rest@);
                    }
                    rest.insert(0, head);
                    Ok((rest, end))
                },
                Err(e) => Err(e),
            }
        },
        _ => Err(ParseError { kind: ParseErrorKind::ExpectedValue, pos: j + 1 }),
    }
}

fn parse_pairs(tokens: &Vec<Token>, i: usize) -> (r: Result<(Vec<Field>, usize), ParseError>)
    requires
        i <= tokens@.len(),
    ensures
        ({
            let s = spec_parse_pairs(tokens_view(tokens@), i as int);
            match r {
                Ok((fs, j)) => s == Ok::<(Seq<FieldView>, int), ParseError>(
                    (fields_view(fs@), j as int),
                ) && i < j <= tokens@.len(),
                Err(e) => s == Err::<(Seq<FieldView>, int), ParseError>(e),
            }
        }),
    decreases tokens@.len() - i,
{
    let n = tokens.len();
    if i >= n {
        return Err(ParseError { kind: ParseErrorKind::UnexpectedEnd, pos: n });
    }
    match &tokens[i] {
        Token::CloseBrace => Ok((Vec::new(), i + 1)),
        Token::Ident(name) => {
            if i + 1 >= n {
                return Err(ParseError { kind: ParseErrorKind::UnexpectedEnd, pos: n });
            }
            if !matches!(&tokens[i + 1], Token::Equals) {
                return Err(ParseError { kind: ParseErrorKind::ExpectedEquals, pos: i + 1 });
            }
            if i + 2 >= n {
                return Err(ParseError { kind: ParseErrorKind::UnexpectedEnd, pos: n });
            }
            match &tokens[i + 2] {
                Token::Lit(v) => {
                    let k = if i + 3 < n && matches!(&tokens[i + 3], Token::Comma) {
                        i + 4
                    } else {
                        i + 3
                    };
                    match parse_pairs(tokens, k) {
                        Ok((mut rest, end)) => {
                            let head = Field { name: name.clone(), value: v.clone() };
                            proof {
                                lemma_fields_prepend(head, rest@);
                            }
                            rest.insert(0, head);
                            Ok((rest, end))
                        },
                        Err(e) => Err(e),
                    }
                },
                _ => Err(ParseError { kind: ParseErrorKind::ExpectedValue, pos: i + 2 }),
            }
        },
        _ => Err(ParseError { kind: ParseErrorKind::ExpectedIdent, pos: i }),
    }
}

fn parse_blocks(tokens: &Vec<Token>, i: usize, parts: Parts) -> (r: Result<
    (Parts, usize),
    ParseError,
>)
    requires
        i <= tokens@.len(),
    ensures
        ({
            let s = spec_parse_blocks(tokens_view(tokens@), i as int, parts@);
            match r {
                Ok((out, j)) => s == Ok::<(PartsView, int), ParseError>((out@, j as int)) && i
                    < j <= tokens@.len(),
                Err(e) => s == Err::<(PartsView, int), ParseError>(e),
            }
        }),
    decreases tokens@.len() - i,
{
    let n = tokens.len();
    if i >= n {
        return Err(ParseError { kind: ParseErrorKind::UnexpectedEnd, pos: n });
    }
    match &tokens[i] {
        Token::CloseBrace => {
            if parts.defaults.is_none() {
                Err(ParseError { kind: ParseErrorKind::MissingDefault, pos: i })
            } else {
                Ok((parts, i + 1))
            }
        },
        Token::Ident(key) => {
            let kw_default: String = "default".to_owned();
            let kw_transient: String = "transient".to_owned();
            let kw_transform: String = "transform".to_owned();
            let kw_mixin: String = "mixin".to_owned();
            if *key == kw_default {
                if parts.defaults.is_some() {
                    return Err(ParseError { kind: ParseErrorKind::DuplicateDefault, pos: i });
                }
                if i + 1 >= n {
                    return Err(ParseError { kind: ParseErrorKind::UnexpectedEnd, pos: n });
                }
                if !matches!(&tokens[i + 1], Token::OpenBrace) {
                    return Err(
                        ParseError { kind: ParseErrorKind::ExpectedOpenBrace, pos: i + 1 },
                    );
                }
                match parse_field_specs(tokens, i + 2) {
                    Err(e) => Err(e),
                    Ok((ds, j)) => parse_blocks(
                        tokens,
                        j,
                        Parts { defaults: Some(ds), ..parts },
                    ),
                }
            } else if *key == kw_transient {
                if parts.transients.is_some() {
                    return Err(ParseError { kind: ParseErrorKind::DuplicateTransient, pos: i });
                }
                if i + 1 >= n {
                    return Err(ParseError { kind: ParseErrorKind::UnexpectedEnd, pos: n });
                }
                if !matches!(&tokens[i + 1], Token::OpenBrace) {
                    return Err(
                        ParseError { kind: ParseErrorKind::ExpectedOpenBrace, pos: i + 1 },
                    );
                }
                match parse_transient_specs(tokens, i + 2) {
                    Err(e) => Err(e),
                    Ok((trs, j)) => parse_blocks(
                        tokens,
                        j,
                        Parts { transients: Some(trs), ..parts },
                    ),
                }
            } else if *key == kw_transform {
                if parts.transform.is_some() {
                    return Err(ParseError { kind: ParseErrorKind::DuplicateTransform, pos: i });
                }
                if i + 1 >= n {
                    return Err(ParseError { kind: ParseErrorKind::UnexpectedEnd, pos: n });
                }
                match &tokens[i + 1] {
                    Token::Code(c) => parse_blocks(
                        tokens,
                        i + 2,
                        Parts { transform: Some(c.clone()), ..parts },
                    ),
                    _ => Err(ParseError { kind: ParseErrorKind::ExpectedCode, pos: i + 1 }),
                }
            } else if *key == kw_mixin {
                if i + 1 >= n {
                    return Err(ParseError { kind: ParseErrorKind::UnexpectedEnd, pos: n });
                }
                match &tokens[i + 1] {
                    Token::Ident(mname) => {
                        if i + 2 >= n {
                            return Err(
                                ParseError { kind: ParseErrorKind::UnexpectedEnd, pos: n },
                            );
                        }
                        if !matches!(&tokens[i + 2], Token::OpenBrace) {
                            return Err(
                                ParseError { kind: ParseErrorKind::ExpectedOpenBrace, pos: i + 2 },
                            );
                        }
                        match parse_pairs(tokens, i + 3) {
                            Err(e) => Err(e),
                            Ok((pairs, j)) => {
                                let mut parts = parts;
                                let ghost old_mixins = parts.mixins@;
                                parts.mixins.push(
                                    MixinDef { name: mname.clone(), fields: pairs },
                                );
                                proof {
                                    assert(mixin_defs_view(parts.mixins@) =~= mixin_defs_view(
                                        old_mixins,
                                    ).push(mixin_def_view(parts.mixins@.last())));
                                }
                                parse_blocks(tokens, j, parts)
                            },
                        }
                    },
                    _ => Err(ParseError { kind: ParseErrorKind::ExpectedIdent, pos: i + 1 }),
                }
            } else {
                Err(ParseError { kind: ParseErrorKind::UnknownBlockKey, pos: i })
            }
        },
        _ => Err(ParseError { kind: ParseErrorKind::ExpectedIdent, pos: i }),
    }
}

fn parse_definition(tokens: &Vec<Token>, i: usize) -> (r: Result<(Definition, usize), ParseError>)
    requires
        i <= tokens@.len(),
    ensures
        ({
            let s = spec_parse_definition(tokens_view(tokens@), i as int);
            match r {
                Ok((d, j)) => s == Ok::<(DefinitionView, int), ParseError>((d@, j as int)) && i
                    < j <= tokens@.len(),
                Err(e) => s == Err::<(DefinitionView, int), ParseError>(e),
            }
        }),
    decreases tokens@.len() - i,
{
    let n = tokens.len();
    if i >= n {
        return Err(ParseError { kind: ParseErrorKind::UnexpectedEnd, pos: n });
    }
    match &tokens[i] {
        Token::Ident(ty) => {
            if i + 1 >= n {
                return Err(ParseError { kind: ParseErrorKind::UnexpectedEnd, pos: n });
            }
            if !matches!(&tokens[i + 1], Token::Comma) {
                return Err(ParseError { kind: ParseErrorKind::ExpectedComma, pos: i + 1 });
            }
            if i + 2 >= n {
                return Err(ParseError { kind: ParseErrorKind::UnexpectedEnd, pos: n });
            }
            if !matches!(&tokens[i + 2], Token::OpenBrace) {
                return Err(ParseError { kind: ParseErrorKind::ExpectedOpenBrace, pos: i + 2 });
            }
            let start = Parts { defaults: None, transients: None, transform: None, mixins: Vec::new() };
            proof {
                assert(mixin_defs_view(Seq::<MixinDef>::empty()) =~= Seq::<MixinDefView>::empty());
            }
            match parse_blocks(tokens, i + 3, start) {
                Err(e) => Err(e),
                Ok((parts, j)) => match parts.defaults {
                    Some(ds) => Ok(
                        (
                            Definition {
                                ty: ty.clone(),
                                defaults: ds,
                                transients: parts.transients,
                                transform: parts.transform,
                                mixins: parts.mixins,
                            },
                            j,
                        ),
                    ),
                    None => Err(ParseError { kind: ParseErrorKind::MissingDefault, pos: n }),
                },
            }
        },
        _ => Err(ParseError { kind: ParseErrorKind::ExpectedIdent, pos: i }),
    }
}

fn parse_definitions(tokens: &Vec<Token>, i: usize) -> (r: Result<
    (Vec<Definition>, usize),
    ParseError,
>)
    requires
        i <= tokens@.len(),
    ensures
        ({
            let s = spec_parse_definitions(tokens_view(tokens@), i as int);
            match r {
                Ok((ds, j)) => s == Ok::<(Seq<DefinitionView>, int), ParseError>(
                    (definitions_view(ds@), j as int),
                ) && i <= j <= tokens@.len(),
                Err(e) => s == Err::<(Seq<DefinitionView>, int), ParseError>(e),
            }
        }),
    decreases tokens@.len() - i,
{
    let n = tokens.len();
    if i >= n {
        proof {
            assert(definitions_view(Seq::<Definition>::empty()) =~= Seq::<
                DefinitionView,
            >::empty());
        }
        return Ok((Vec::new(), i));
    }
    match parse_definition(tokens, i) {
        Err(e) => Err(e),
        Ok((d, j)) => match parse_definitions(tokens, j) {
            Err(e) => Err(e),
            Ok((mut rest, end)) => {
                proof {
                    lemma_definitions_prepend(d, rest@);
                }
                rest.insert(0, d);
                Ok((rest, end))
            },
        },
    }
}

/// Mathematical model of one instantiation request.
pub struct RequestView {
    pub ty: Seq<char>,
    pub mixins: Seq<Seq<char>>,
    pub overrides: Seq<FieldView>,
}

/// One parsed instantiation request: the target type identifier, the ordered
/// mixin references, and the ordered explicit field overrides.
#[derive(Debug, PartialEq)]
pub struct Request {
    pub ty: String,
    pub mixins: Vec<String>,
    pub overrides: Vec<Field>,
}

impl View for Request {
    type V = RequestView;

    open spec fn view(&self) -> RequestView {
        RequestView {
            ty: self.ty@,
            mixins: crate::value::strings_view(self.mixins@),
            overrides: fields_view(self.overrides@),
        }
    }
}

/// The mixin references of a request: `(':' id ','?)*`, ending before the
/// first token that does not start one.
pub open spec fn spec_parse_mixin_refs(ts: Seq<TokenView>, i: int) -> Result<
    (Seq<Seq<char>>, int),
    ParseError,
>
    decreases ts.len() - i,
{
    if i >= ts.len() {
        Ok((Seq::empty(), i))
    } else {
        match ts[i] {
            TokenView::Colon => {
                if i + 1 >= ts.len() {
                    parse_err(ParseErrorKind::UnexpectedEnd, ts.len() as int)
                } else {
                    match ts[i + 1] {
                        TokenView::Ident(m) => {
                            let k = if i + 2 < ts.len() && ts[i + 2] is Comma {
                                i + 3
                            } else {
                                i + 2
                            };
                            match spec_parse_mixin_refs(ts, k) {
                                Ok((rest, end)) => Ok((seq![m] + rest, end)),
                                Err(e) => Err(e),
                            }
                        },
                        _ => parse_err(ParseErrorKind::ExpectedIdent, i + 1),
                    }
                }
            },
            _ => Ok((Seq::empty(), i)),
        }
    }
}

/// The explicit overrides of a request: `(id ':' expr ','?)*`, to the end of
/// the input.
pub open spec fn spec_parse_override_pairs(ts: Seq<TokenView>, i: int) -> Result<
    (Seq<FieldView>, int),
    ParseError,
>
    decreases ts.len() - i,
{
    if i >= ts.len() {
        Ok((Seq::empty(), i))
    } else {
        match ts[i] {
            TokenView::Ident(name) => {
                if i + 1 >= ts.len() {
                    parse_err(ParseErrorKind::UnexpectedEnd, ts.len() as int)
                } else if !(ts[i + 1] is Colon) {
                    parse_err(ParseErrorKind::ExpectedColon, i + 1)
                } else if i + 2 >= ts.len() {
                    parse_err(ParseErrorKind::UnexpectedEnd, ts.len() as int)
                } else {
                    match ts[i + 2] {
                        TokenView::Lit(v) => {
                            let k = if i + 3 < ts.len() && ts[i + 3] is Comma {
                                i + 4
                            } else {
                                i + 3
                            };
                            match spec_parse_override_pairs(ts, k) {
                                Ok((rest, end)) => Ok(
                                    (seq![FieldView { name, value: v }] + rest, end),
                                ),
                                Err(e) => Err(e),
                            }
                        },
                        _ => parse_err(ParseErrorKind::ExpectedValue, i + 2),
                    }
                }
            },
            _ => parse_err(ParseErrorKind::ExpectedIdent, i),
        }
    }
}

/// One whole instantiation request:
/// `type_id ','? (':' mixin ','?)* (field ':' expr ','?)*`.
pub open spec fn spec_parse_request(ts: Seq<TokenView>) -> Result<RequestView, ParseError> {
    if ts.len() == 0 {
        parse_err(ParseErrorKind::UnexpectedEnd, 0)
    } else {
        match ts[0] {
            TokenView::Ident(ty) => {
                let i: int = if 1 < ts.len() && ts[1] is Comma {
                    2
                } else {
                    1
                };
                match spec_parse_mixin_refs(ts, i) {
                    Err(e) => Err(e),
                    Ok((ms, j)) => match spec_parse_override_pairs(ts, j) {
                        Err(e) => Err(e),
                        Ok((ovs, _end)) => Ok(RequestView { ty, mixins: ms, overrides: ovs }),
                    },
                }
            },
            _ => parse_err(ParseErrorKind::ExpectedIdent, 0),
        }
    }
}

proof fn lemma_strings_prepend(head: String, rest: Seq<String>)
    ensures
        crate::value::strings_view(rest.insert(0, head)) == seq![head@]
            + crate::value::strings_view(rest),
{
    assert(crate::value::strings_view(rest.insert(0, head)) =~= seq![head@]
        + crate::value::strings_view(rest));
}

fn parse_mixin_refs(tokens: &Vec<Token>, i: usize) -> (r: Result<(Vec<String>, usize), ParseError>)
    requires
        i <= tokens@.len(),
    ensures
        ({
            let s = spec_parse_mixin_refs(tokens_view(tokens@), i as int);
            match r {
                Ok((ms, j)) => s == Ok::<(Seq<Seq<char>>, int), ParseError>(
                    (crate::value::strings_view(ms@), j as int),
                ) && i <= j <= tokens@.len(),
                Err(e) => s == Err::<(Seq<Seq<char>>, int), ParseError>(e),
            }
        }),
    decreases tokens@.len() - i,
{
    let n = tokens.len();
    if i >= n {
        proof {
            assert(crate::value::strings_view(Seq::<String>::empty()) =~= Seq::<
                Seq<char>,
            >::empty());
        }
        return Ok((Vec::new(), i));
    }
    match &tokens[i] {
        Token::Colon => {
            if i + 1 >= n {
                return Err(ParseError { kind: ParseErrorKind::UnexpectedEnd, pos: n });
            }
            match &tokens[i + 1] {
                Token::Ident(m) => {
                    let k = if i + 2 < n && matches!(&tokens[i + 2], Token::Comma) {
                        i + 3
                    } else {
                        i + 2
                    };
                    match parse_mixin_refs(tokens, k) {
                        Ok((mut rest, end)) => {
                            let head = m.clone();
                            proof {
                                lemma_strings_prepend(head, rest@);
                            }
                            rest.insert(0, head);
                            Ok((rest, end))
                        },
                        Err(e) => Err(e),
                    }
                },
                _ => Err(ParseError { kind: ParseErrorKind::ExpectedIdent, pos: i + 1 }),
            }
        },
        _ => {
            proof {
                assert(crate::value::strings_view(Seq::<String>::empty()) =~= Seq::<
                    Seq<char>,
                >::empty());
            }
            Ok((Vec::new(), i))
        },
    }
}

fn parse_override_pairs(tokens: &Vec<Token>, i: usize) -> (r: Result<
    (Vec<Field>, usize),
    ParseError,
>)
    requires
        i <= tokens@.len(),
    ensures
        ({
            let s = spec_parse_override_pairs(tokens_view(tokens@), i as int);
            match r {
                Ok((fs, j)) => s == Ok::<(Seq<FieldView>, int), ParseError>(
                    (fields_view(fs@), j as int),
                ) && i <= j <= tokens@.len(),
                Err(e) => s == Err::<(Seq<FieldView>, int), ParseError>(e),
            }
        }),
    decreases tokens@.len() - i,
{
    let n = tokens.len();
    if i >= n {
        return Ok((Vec::new(), i));
    }
    match &tokens[i] {
        Token::Ident(name) => {
            if i + 1 >= n {
                return Err(ParseError { kind: ParseErrorKind::UnexpectedEnd, pos: n });
            }
            if !matches!(&tokens[i + 1], Token::Colon) {
                return Err(ParseError { kind: ParseErrorKind::ExpectedColon, pos: i + 1 });
            }
            if i + 2 >= n {
                return Err(ParseError { kind: ParseErrorKind::UnexpectedEnd, pos: n });
            }
            match &tokens[i + 2] {
                Token::Lit(v) => {
                    let k = if i + 3 < n && matches!(&tokens[i + 3], Token::Comma) {
                        i + 4
                    } else {
                        i + 3
                    };
                    match parse_override_pairs(tokens, k) {
                        Ok((mut rest, end)) => {
                            let head = Field { name: name.clone(), value: v.clone() };
                            proof {
                                lemma_fields_prepend(head, rest@);
                            }
                            rest.insert(0, head);
                            Ok((rest, end))
                        },
                        Err(e) => Err(e),
                    }
                },
                _ => Err(ParseError { kind: ParseErrorKind::ExpectedValue, pos: i + 2 }),
            }
        },
        _ => Err(ParseError { kind: ParseErrorKind::ExpectedIdent, pos: i }),
    }
}

/// Parse one instantiation request from its token form: the target type,
/// `':' mixin` references in order, then `field ':' value` overrides.
pub fn parse_request(tokens: &Vec<Token>) -> (r: Result<Request, ParseError>)
    ensures
        ({
            let s = spec_parse_request(tokens_view(tokens@));
            match r {
                Ok(req) => s == Ok::<RequestView, ParseError>(req@),
                Err(e) => s == Err::<RequestView, ParseError>(e),
            }
        }),
{
    let n = tokens.len();
    if n == 0 {
        return Err(ParseError { kind: ParseErrorKind::UnexpectedEnd, pos: 0 });
    }
    match &tokens[0] {
        Token::Ident(ty) => {
            let i: usize = if 1 < n && matches!(&tokens[1], Token::Comma) {
                2
            } else {
                1
            };
            match parse_mixin_refs(tokens, i) {
                Err(e) => Err(e),
                Ok((ms, j)) => match parse_override_pairs(tokens, j) {
                    Err(e) => Err(e),
                    Ok((ovs, _end)) => Ok(
                        Request { ty: ty.clone(), mixins: ms, overrides: ovs },
                    ),
                },
            }
        },
        _ => Err(ParseError { kind: ParseErrorKind::ExpectedIdent, pos: 0 }),
    }
}

/// Parse a whole token source into its definitions, or report the first
/// malformed place.
pub fn parse(tokens: &Vec<Token>) -> (r: Result<Vec<Definition>, ParseError>)
    ensures
        ({
            let s = spec_parse_definitions(tokens_view(tokens@), 0);
            match r {
                Ok(ds) => s is Ok && s.unwrap().0 == definitions_view(ds@),
                Err(e) => s == Err::<(Seq<DefinitionView>, int), ParseError>(e),
            }
        }),
{
    match parse_definitions(tokens, 0) {
        Ok((ds, _end)) => Ok(ds),
        Err(e) => Err(e),
    }
}

} // verus!
