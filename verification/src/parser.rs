//! The rule parser: from the bytes of a rule source to the rules it
//! declares.
//!
//! A rule source is a list of items separated by commas. An item declares a
//! context with its rule chain (`Create: requires(name).excludes(id)`), a
//! context by its bare name, or a directive (`suffix = "Form"`). What each
//! function accepts is stated by the `spec fn` beside it.

use vstd::prelude::*;
use vstd::string::StringSliceAdditionalSpecFns;
use crate::error::{ParseError, ParseErrorKind};
use crate::lexer::{
    lemma_token_bounds, next_token, text_of, token_at, token_text, Lexeme, Token, TokenKind,
};
use crate::progress::{
    lemma_arg_advance, lemma_call_advance, lemma_group_advance, lemma_item_advance,
    lemma_span_bounds,
};
use crate::model::{
    Classification, Context, ContextModel, FieldGroup, FieldRef, GroupModel, RefModel, RuleSet,
    RuleSetModel, TypeExpr, TypeModel,
};
use crate::rust_syntax::{
    decode_literal, literal_value, option_tail, read_type_tail, tail_is_option, tail_view,
    type_tail,
};
use crate::text::{bytes_eq, copy_text, lemma_views_concat, option_view, views};

verus! {

/// What a parsing step makes of the source from a position on: a value and
/// the position after it, or an error and its position.
pub enum Parsed<T> {
    Done { value: T, next: int },
    Fail { kind: ParseErrorKind, at: int },
}

/// Whether the outcome of a step is what the grammar gives, the value taken
/// by its view.
pub open spec fn agrees<T: View>(r: Result<(T, usize), ParseError>, p: Parsed<T::V>) -> bool {
    match r {
        Ok((v, n)) => p == (Parsed::Done { value: v@, next: n as int }),
        Err(e) => p == (Parsed::Fail::<T::V> { kind: e.kind, at: e.position as int }),
    }
}

/// Whether the outcome of a step is what the grammar gives, each element of
/// the list taken by its view.
pub open spec fn agrees_list<T: View>(r: Result<(Vec<T>, usize), ParseError>, p: Parsed<Seq<T::V>>)
    -> bool {
    match r {
        Ok((v, n)) => p == (Parsed::Done { value: views(v@), next: n as int }),
        Err(e) => p == (Parsed::Fail::<Seq<T::V>> { kind: e.kind, at: e.position as int }),
    }
}

/// Whether the outcome of a step is what the grammar gives.
pub open spec fn agrees_plain<T>(r: Result<(T, usize), ParseError>, p: Parsed<T>) -> bool {
    match r {
        Ok((v, n)) => p == (Parsed::Done { value: v, next: n as int }),
        Err(e) => p == (Parsed::Fail::<T> { kind: e.kind, at: e.position as int }),
    }
}

/// Whether the outcome of a step that finds a position is what the grammar
/// gives.
pub open spec fn agrees_extent(r: Result<(usize, usize), ParseError>, p: Parsed<int>) -> bool {
    match r {
        Ok((end, n)) => p == (Parsed::Done { value: end as int, next: n as int }),
        Err(e) => p == (Parsed::Fail::<int> { kind: e.kind, at: e.position as int }),
    }
}

/// Whether a successful step ended after `pos` and inside the source.
pub open spec fn advances<T>(r: Result<(T, usize), ParseError>, pos: usize, len: usize) -> bool {
    r matches Ok((_, next)) ==> pos < next <= len
}

/// A list of names up to its closing parenthesis, the opening one already
/// read: names separated by commas, a comma after the last one allowed.
pub open spec fn names_from(src: Seq<u8>, pos: int, acc: Seq<Seq<u8>>) -> Parsed<Seq<Seq<u8>>>
    decreases src.len() - pos,
{
    let t = token_at(src, pos);
    if t.kind == TokenKind::CloseParen {
        Parsed::Done { value: acc, next: t.end }
    } else if t.kind == TokenKind::Word {
        let grown = acc.push(token_text(src, t));
        let u = token_at(src, t.end);
        if u.kind == TokenKind::Comma {
            proof {
                lemma_token_bounds(src, pos);
                lemma_token_bounds(src, t.end);
            }
            names_from(src, u.end, grown)
        } else if u.kind == TokenKind::CloseParen {
            Parsed::Done { value: grown, next: u.end }
        } else {
            Parsed::Fail { kind: ParseErrorKind::Malformed, at: u.start }
        }
    } else {
        Parsed::Fail { kind: ParseErrorKind::Malformed, at: t.start }
    }
}

/// Parses a list of names up to its closing parenthesis.
pub fn parse_name_list(src: &[u8], pos: usize) -> (r: Result<(Vec<Vec<u8>>, usize), ParseError>)
    requires
        pos <= src.len(),
    ensures
        agrees_list(r, names_from(src@, pos as int, Seq::empty())),
        advances(r, pos, src.len()),
{
    let mut names: Vec<Vec<u8>> = Vec::new();
    let mut at: usize = pos;
    assert(views(names@) =~= Seq::<Seq<u8>>::empty());
    loop
        invariant
            pos <= at <= src.len(),
            names_from(src@, pos as int, Seq::empty()) == names_from(
                src@,
                at as int,
                views(names@),
            ),
        decreases src.len() - at,
    {
        let t = next_token(src, at);
        match t.kind {
            TokenKind::CloseParen => {
                return Ok((names, t.end));
            },
            TokenKind::Word => {
                let ghost before = names@;
                names.push(copy_text(text_of(src, t)));
                assert(views(names@) =~= views(before).push(token_text(src@, t@)));
                let u = next_token(src, t.end);
                match u.kind {
                    TokenKind::Comma => {
                        at = u.end;
                    },
                    TokenKind::CloseParen => {
                        return Ok((names, u.end));
                    },
                    _ => {
                        return Err(
                            ParseError { kind: ParseErrorKind::Malformed, position: u.start },
                        );
                    },
                }
            },
            _ => {
                return Err(ParseError { kind: ParseErrorKind::Malformed, position: t.start });
            },
        }
    }
}

/// Whether a token of this kind opens a nested part of a span.
pub open spec fn opens(kind: TokenKind, angles: bool) -> bool {
    kind == TokenKind::OpenParen || kind == TokenKind::OpenBracket || kind == TokenKind::OpenBrace
        || (angles && kind == TokenKind::Less)
}

/// Whether a token of this kind closes a nested part of a span.
pub open spec fn closes(kind: TokenKind, angles: bool) -> bool {
    kind == TokenKind::CloseParen || kind == TokenKind::CloseBracket || kind
        == TokenKind::CloseBrace || (angles && kind == TokenKind::Greater)
}

/// The extent of an opaque span of tokens: it ends before the first comma or
/// closing delimiter that is not nested inside the span. The value is the
/// end of the last token of the span (`last` where it has none), and the
/// next position is that of the token that ended it. With `angles`, `<` and
/// `>` nest like brackets.
pub open spec fn span_from(src: Seq<u8>, pos: int, depth: nat, angles: bool, last: int) -> Parsed<
    int,
>
    decreases src.len() - pos,
{
    let t = token_at(src, pos);
    if t.kind == TokenKind::End || t.kind == TokenKind::Unterminated {
        Parsed::Fail { kind: ParseErrorKind::Malformed, at: t.start }
    } else {
        proof {
            lemma_token_bounds(src, pos);
        }
        if opens(t.kind, angles) {
            span_from(src, t.end, depth + 1, angles, t.end)
        } else if closes(t.kind, angles) {
            if depth == 0 {
                Parsed::Done { value: last, next: pos }
            } else {
                span_from(src, t.end, (depth - 1) as nat, angles, t.end)
            }
        } else if t.kind == TokenKind::Comma && depth == 0 {
            Parsed::Done { value: last, next: pos }
        } else {
            span_from(src, t.end, depth, angles, t.end)
        }
    }
}

fn is_opener(kind: TokenKind, angles: bool) -> (r: bool)
    ensures
        r == opens(kind, angles),
{
    match kind {
        TokenKind::OpenParen => true,
        TokenKind::OpenBracket => true,
        TokenKind::OpenBrace => true,
        TokenKind::Less => angles,
        _ => false,
    }
}

fn is_closer(kind: TokenKind, angles: bool) -> (r: bool)
    ensures
        r == closes(kind, angles),
{
    match kind {
        TokenKind::CloseParen => true,
        TokenKind::CloseBracket => true,
        TokenKind::CloseBrace => true,
        TokenKind::Greater => angles,
        _ => false,
    }
}

/// Finds the extent of an opaque span of tokens that starts at `pos`.
pub fn scan_span(src: &[u8], pos: usize, angles: bool) -> (r: Result<(usize, usize), ParseError>)
    requires
        pos <= src.len(),
    ensures
        agrees_extent(r, span_from(src@, pos as int, 0, angles, token_at(src@, pos as int).start)),
        r matches Ok((end, next)) ==> pos <= next <= src.len() && token_at(src@, pos as int).start
            <= end <= src.len() && (token_at(src@, pos as int).start < end ==> pos < next && end
            <= next),
{
    let first = next_token(src, pos);
    let mut last: usize = first.start;
    let mut depth: usize = 0;
    let mut at: usize = pos;
    loop
        invariant
            pos <= at <= src.len(),
            first@ == token_at(src@, pos as int),
            first.start <= last <= src.len(),
            at == pos || last <= at,
            at == pos ==> last == first.start,
            depth <= at - pos,
            span_from(src@, pos as int, 0, angles, first.start as int) == span_from(
                src@,
                at as int,
                depth as nat,
                angles,
                last as int,
            ),
        decreases src.len() - at,
    {
        let t = next_token(src, at);
        if t.kind == TokenKind::End || t.kind == TokenKind::Unterminated {
            return Err(ParseError { kind: ParseErrorKind::Malformed, position: t.start });
        }
        if is_opener(t.kind, angles) {
            depth = depth + 1;
        } else if is_closer(t.kind, angles) {
            if depth == 0 {
                return Ok((last, at));
            }
            depth = depth - 1;
        } else if t.kind == TokenKind::Comma && depth == 0 {
            return Ok((last, at));
        }
        last = t.end;
        at = t.end;
    }
}

/// The reference that a name with a type override makes, given what the
/// type's text ends in; none where the text is not a type.
pub open spec fn typed_model(name: Seq<u8>, text: Seq<u8>, tail: Option<Option<Seq<u8>>>)
    -> Option<RefModel> {
    match tail {
        None => None,
        Some(_) => Some(
            RefModel::Typed { name, ty: TypeModel { text, optional: tail_is_option(tail) } },
        ),
    }
}

/// Makes the reference of a name with a type override, given what the
/// type's text ends in.
pub fn typed_ref(name: Vec<u8>, text: Vec<u8>, tail: &Option<Option<Vec<u8>>>) -> (r: Option<
    FieldRef,
>)
    ensures
        option_view(r) == typed_model(name@, text@, tail_view(*tail)),
{
    match tail {
        None => None,
        Some(_) => {
            let optional = option_tail(tail);
            Some(FieldRef::Typed { name, ty: TypeExpr { text, optional } })
        },
    }
}

/// A type override for the field `name`, the word `as` already read: the
/// tokens up to the comma or parenthesis that ends the argument, which must
/// be a Rust type.
#[verifier::opaque]
pub open spec fn typed_at(src: Seq<u8>, pos: int, name: Seq<u8>) -> Parsed<RefModel> {
    let first = token_at(src, pos);
    match span_from(src, pos, 0, true, first.start) {
        Parsed::Fail { kind, at } => Parsed::Fail { kind, at },
        Parsed::Done { value: end, next } => if end <= first.start {
            Parsed::Fail { kind: ParseErrorKind::Malformed, at: first.start }
        } else {
            let text = src.subrange(first.start, end);
            match typed_model(name, text, type_tail(text)) {
                Some(r) => Parsed::Done { value: r, next },
                None => Parsed::Fail { kind: ParseErrorKind::Malformed, at: first.start },
            }
        },
    }
}

/// Parses a type override for the field `name`.
pub fn parse_typed(src: &[u8], pos: usize, name: Vec<u8>) -> (r: Result<
    (FieldRef, usize),
    ParseError,
>)
    requires
        pos <= src.len(),
    ensures
        agrees(r, typed_at(src@, pos as int, name@)),
        advances(r, pos, src.len()),
{
    proof {
        reveal(typed_at);
    }
    let first = next_token(src, pos);
    let (end, next) = scan_span(src, pos, true)?;
    if end <= first.start {
        return Err(ParseError { kind: ParseErrorKind::Malformed, position: first.start });
    }
    let text = copy_text(vstd::slice::slice_subrange(src, first.start, end));
    let tail = read_type_tail(text.as_slice());
    match typed_ref(name, text, &tail) {
        Some(r) => Ok((r, next)),
        None => Err(ParseError { kind: ParseErrorKind::Malformed, position: first.start }),
    }
}

/// The exceptions of a reference, the dot already read: the word `except`
/// and a list of names in parentheses.
#[verifier::opaque]
pub open spec fn exceptions_at(src: Seq<u8>, pos: int) -> Parsed<Seq<Seq<u8>>> {
    let w = token_at(src, pos);
    if w.kind == TokenKind::Word && token_text(src, w) == "except".spec_bytes() {
        let x = token_at(src, w.end);
        if x.kind == TokenKind::OpenParen {
            names_from(src, x.end, Seq::empty())
        } else {
            Parsed::Fail { kind: ParseErrorKind::Malformed, at: x.start }
        }
    } else {
        Parsed::Fail { kind: ParseErrorKind::Malformed, at: w.start }
    }
}

/// Parses the exceptions of a reference.
pub fn parse_exceptions(src: &[u8], pos: usize) -> (r: Result<(Vec<Vec<u8>>, usize), ParseError>)
    requires
        pos <= src.len(),
    ensures
        agrees_list(r, exceptions_at(src@, pos as int)),
        advances(r, pos, src.len()),
{
    proof {
        reveal(exceptions_at);
    }
    let w = next_token(src, pos);
    if w.kind == TokenKind::Word && bytes_eq(text_of(src, w), "except".as_bytes()) {
        let x = next_token(src, w.end);
        if x.kind == TokenKind::OpenParen {
            parse_name_list(src, x.end)
        } else {
            Err(ParseError { kind: ParseErrorKind::Malformed, position: x.start })
        }
    } else {
        Err(ParseError { kind: ParseErrorKind::Malformed, position: w.start })
    }
}

/// A wildcard, `all_fields` and its opening parenthesis already read. The
/// names in the parentheses are its exceptions, unless an `except` call
/// follows: then the names of that call are.
#[verifier::opaque]
pub open spec fn wildcard_at(src: Seq<u8>, pos: int) -> Parsed<RefModel> {
    match names_from(src, pos, Seq::empty()) {
        Parsed::Fail { kind, at } => Parsed::Fail { kind, at },
        Parsed::Done { value: inner, next } => {
            let d = token_at(src, next);
            if d.kind == TokenKind::Dot {
                match exceptions_at(src, d.end) {
                    Parsed::Fail { kind, at } => Parsed::Fail { kind, at },
                    Parsed::Done { value: outer, next: after } => Parsed::Done {
                        value: RefModel::AllFields { except: outer },
                        next: after,
                    },
                }
            } else {
                Parsed::Done { value: RefModel::AllFields { except: inner }, next }
            }
        },
    }
}

/// Parses a wildcard.
pub fn parse_wildcard(src: &[u8], pos: usize) -> (r: Result<(FieldRef, usize), ParseError>)
    requires
        pos <= src.len(),
    ensures
        agrees(r, wildcard_at(src@, pos as int)),
        advances(r, pos, src.len()),
{
    proof {
        reveal(wildcard_at);
    }
    let (inner, next) = parse_name_list(src, pos)?;
    let d = next_token(src, next);
    if d.kind == TokenKind::Dot {
        let (outer, after) = parse_exceptions(src, d.end)?;
        Ok((FieldRef::AllFields { except: outer }, after))
    } else {
        Ok((FieldRef::AllFields { except: inner }, next))
    }
}

/// One argument of a call: a field name, a field name with a type override,
/// a wildcard, or a group with exceptions.
#[verifier::opaque]
pub open spec fn arg_at(src: Seq<u8>, pos: int) -> Parsed<RefModel> {
    let t = token_at(src, pos);
    if t.kind != TokenKind::Word {
        Parsed::Fail { kind: ParseErrorKind::Malformed, at: t.start }
    } else {
        let name = token_text(src, t);
        let u = token_at(src, t.end);
        if u.kind == TokenKind::Word && token_text(src, u) == "as".spec_bytes() {
            typed_at(src, u.end, name)
        } else if u.kind == TokenKind::OpenParen {
            if name == "all_fields".spec_bytes() {
                wildcard_at(src, u.end)
            } else {
                Parsed::Fail { kind: ParseErrorKind::Malformed, at: t.start }
            }
        } else if u.kind == TokenKind::Dot {
            match exceptions_at(src, u.end) {
                Parsed::Fail { kind, at } => Parsed::Fail { kind, at },
                Parsed::Done { value: except, next } => Parsed::Done {
                    value: RefModel::Group { name, except, position: t.start as usize },
                    next,
                },
            }
        } else {
            Parsed::Done { value: RefModel::Field { name }, next: t.end }
        }
    }
}

/// Parses one argument of a call.
pub fn parse_field_ref(src: &[u8], pos: usize) -> (r: Result<(FieldRef, usize), ParseError>)
    requires
        pos <= src.len(),
    ensures
        agrees(r, arg_at(src@, pos as int)),
        advances(r, pos, src.len()),
{
    proof {
        reveal(arg_at);
    }
    let t = next_token(src, pos);
    if t.kind != TokenKind::Word {
        return Err(ParseError { kind: ParseErrorKind::Malformed, position: t.start });
    }
    let name = copy_text(text_of(src, t));
    let u = next_token(src, t.end);
    if u.kind == TokenKind::Word && bytes_eq(text_of(src, u), "as".as_bytes()) {
        parse_typed(src, u.end, name)
    } else if u.kind == TokenKind::OpenParen {
        if bytes_eq(name.as_slice(), "all_fields".as_bytes()) {
            parse_wildcard(src, u.end)
        } else {
            Err(ParseError { kind: ParseErrorKind::Malformed, position: t.start })
        }
    } else if u.kind == TokenKind::Dot {
        let (except, next) = parse_exceptions(src, u.end)?;
        Ok((FieldRef::Group { name, except, position: t.start }, next))
    } else {
        Ok((FieldRef::Field { name }, t.end))
    }
}

/// The arguments of a call up to its closing parenthesis, the opening one
/// already read: arguments separated by commas, a comma after the last one
/// allowed.
pub open spec fn args_from(src: Seq<u8>, pos: int, acc: Seq<RefModel>) -> Parsed<Seq<RefModel>>
    decreases src.len() - pos,
{
    let t = token_at(src, pos);
    if t.kind == TokenKind::CloseParen {
        Parsed::Done { value: acc, next: t.end }
    } else {
        match arg_at(src, pos) {
            Parsed::Fail { kind, at } => Parsed::Fail { kind, at },
            Parsed::Done { value: arg, next } => {
                let grown = acc.push(arg);
                let u = token_at(src, next);
                if u.kind == TokenKind::Comma {
                    proof {
                        lemma_token_bounds(src, pos);
                        lemma_arg_advance(src, pos);
                        lemma_token_bounds(src, next);
                    }
                    args_from(src, u.end, grown)
                } else if u.kind == TokenKind::CloseParen {
                    Parsed::Done { value: grown, next: u.end }
                } else {
                    Parsed::Fail { kind: ParseErrorKind::Malformed, at: u.start }
                }
            },
        }
    }
}

/// Parses the arguments of a call up to its closing parenthesis.
pub fn parse_field_list(src: &[u8], pos: usize) -> (r: Result<(Vec<FieldRef>, usize), ParseError>)
    requires
        pos <= src.len(),
    ensures
        agrees_list(r, args_from(src@, pos as int, Seq::empty())),
        advances(r, pos, src.len()),
{
    let mut args: Vec<FieldRef> = Vec::new();
    let mut at: usize = pos;
    assert(views(args@) =~= Seq::<RefModel>::empty());
    loop
        invariant
            pos <= at <= src.len(),
            args_from(src@, pos as int, Seq::empty()) == args_from(src@, at as int, views(args@)),
        decreases src.len() - at,
    {
        let t = next_token(src, at);
        if t.kind == TokenKind::CloseParen {
            return Ok((args, t.end));
        }
        let (arg, next) = parse_field_ref(src, at)?;
        let ghost before = args@;
        args.push(arg);
        assert(views(args@) =~= views(before).push(args@.last()@));
        let u = next_token(src, next);
        match u.kind {
            TokenKind::Comma => {
                at = u.end;
            },
            TokenKind::CloseParen => {
                return Ok((args, u.end));
            },
            _ => {
                return Err(ParseError { kind: ParseErrorKind::Malformed, position: u.start });
            },
        }
    }
}

/// The fate that a word of the rule language names.
pub open spec fn behavior_word(word: Seq<u8>) -> Option<Classification> {
    if word == "required".spec_bytes() {
        Some(Classification::Required)
    } else if word == "optional".spec_bytes() {
        Some(Classification::Optional)
    } else if word == "exclude".spec_bytes() {
        Some(Classification::Excluded)
    } else {
        None
    }
}

/// Reads the fate that a word of the rule language names.
pub fn read_behavior(word: &[u8]) -> (r: Option<Classification>)
    ensures
        r == behavior_word(word@),
{
    if bytes_eq(word, "required".as_bytes()) {
        Some(Classification::Required)
    } else if bytes_eq(word, "optional".as_bytes()) {
        Some(Classification::Optional)
    } else if bytes_eq(word, "exclude".as_bytes()) {
        Some(Classification::Excluded)
    } else {
        None
    }
}

/// The fate that the arguments of a `default` call name: there must be one
/// argument, a plain name, and the name must be a fate.
pub open spec fn default_of(args: Seq<RefModel>) -> Option<Classification> {
    if args.len() == 1 {
        match args[0] {
            RefModel::Field { name } => behavior_word(name),
            _ => None,
        }
    } else {
        None
    }
}

/// Whether a word names a call of the rule language.
pub open spec fn is_call_name(word: Seq<u8>) -> bool {
    word == "requires".spec_bytes() || word == "optional".spec_bytes() || word
        == "excludes".spec_bytes() || word == "default".spec_bytes()
}

/// A context after a call: `requires`, `optional` and `excludes` add their
/// arguments to the list they name, and `default` sets the context's
/// default. None where the arguments of `default` name no fate.
pub open spec fn after_call(ctx: ContextModel, call: Seq<u8>, args: Seq<RefModel>) -> Option<
    ContextModel,
> {
    if call == "requires".spec_bytes() {
        Some(ContextModel { required: ctx.required + args, ..ctx })
    } else if call == "optional".spec_bytes() {
        Some(ContextModel { optional: ctx.optional + args, ..ctx })
    } else if call == "excludes".spec_bytes() {
        Some(ContextModel { excluded: ctx.excluded + args, ..ctx })
    } else {
        match default_of(args) {
            Some(c) => Some(ContextModel { default_behavior: Some(c), ..ctx }),
            None => None,
        }
    }
}

/// Applies a call to a context.
pub fn apply_call(ctx: Context, call: &[u8], args: Vec<FieldRef>) -> (r: Option<Context>)
    ensures
        option_view(r) == after_call(ctx@, call@, views(args@)),
{
    let mut ctx = ctx;
    let mut args = args;
    proof {
        lemma_views_concat(ctx.required@, args@);
        lemma_views_concat(ctx.optional@, args@);
        lemma_views_concat(ctx.excluded@, args@);
    }
    if bytes_eq(call, "requires".as_bytes()) {
        ctx.required.append(&mut args);
        Some(ctx)
    } else if bytes_eq(call, "optional".as_bytes()) {
        ctx.optional.append(&mut args);
        Some(ctx)
    } else if bytes_eq(call, "excludes".as_bytes()) {
        ctx.excluded.append(&mut args);
        Some(ctx)
    } else {
        if args.len() != 1 {
            return None;
        }
        let fate = match &args[0] {
            FieldRef::Field { name } => read_behavior(name.as_slice()),
            _ => None,
        };
        match fate {
            Some(c) => {
                ctx.default_behavior = Some(c);
                Some(ctx)
            },
            None => None,
        }
    }
}

/// One call of a rule chain, applied to a context: a call name, and its
/// arguments in parentheses.
#[verifier::opaque]
pub open spec fn call_at(src: Seq<u8>, pos: int, ctx: ContextModel) -> Parsed<ContextModel> {
    let t = token_at(src, pos);
    if t.kind != TokenKind::Word {
        Parsed::Fail { kind: ParseErrorKind::Malformed, at: t.start }
    } else {
        let u = token_at(src, t.end);
        if u.kind != TokenKind::OpenParen {
            Parsed::Fail { kind: ParseErrorKind::Malformed, at: u.start }
        } else if !is_call_name(token_text(src, t)) {
            Parsed::Fail { kind: ParseErrorKind::UnknownCall, at: t.start }
        } else {
            match args_from(src, u.end, Seq::empty()) {
                Parsed::Fail { kind, at } => Parsed::Fail { kind, at },
                Parsed::Done { value: args, next } => match after_call(
                    ctx,
                    token_text(src, t),
                    args,
                ) {
                    Some(c) => Parsed::Done { value: c, next },
                    None => Parsed::Fail { kind: ParseErrorKind::InvalidValue, at: t.start },
                },
            }
        }
    }
}

/// Parses one call of a rule chain and applies it to the context.
pub fn parse_function_call(src: &[u8], pos: usize, ctx: Context) -> (r: Result<
    (Context, usize),
    ParseError,
>)
    requires
        pos <= src.len(),
    ensures
        agrees(r, call_at(src@, pos as int, ctx@)),
        advances(r, pos, src.len()),
{
    proof {
        reveal(call_at);
    }
    let t = next_token(src, pos);
    if t.kind != TokenKind::Word {
        return Err(ParseError { kind: ParseErrorKind::Malformed, position: t.start });
    }
    let u = next_token(src, t.end);
    if u.kind != TokenKind::OpenParen {
        return Err(ParseError { kind: ParseErrorKind::Malformed, position: u.start });
    }
    let call = text_of(src, t);
    let known = bytes_eq(call, "requires".as_bytes()) || bytes_eq(call, "optional".as_bytes())
        || bytes_eq(call, "excludes".as_bytes()) || bytes_eq(call, "default".as_bytes());
    if !known {
        return Err(ParseError { kind: ParseErrorKind::UnknownCall, position: t.start });
    }
    let (args, next) = parse_field_list(src, u.end)?;
    match apply_call(ctx, call, args) {
        Some(c) => Ok((c, next)),
        None => Err(ParseError { kind: ParseErrorKind::InvalidValue, position: t.start }),
    }
}

/// A rule chain applied to a context: calls joined by dots. The context
/// ends where the chain ends.
pub open spec fn chain_from(src: Seq<u8>, pos: int, ctx: ContextModel) -> Parsed<ContextModel>
    decreases src.len() - pos,
{
    match call_at(src, pos, ctx) {
        Parsed::Fail { kind, at } => Parsed::Fail { kind, at },
        Parsed::Done { value: c, next } => {
            let d = token_at(src, next);
            if d.kind == TokenKind::Dot {
                proof {
                    lemma_token_bounds(src, pos);
                    lemma_call_advance(src, pos, ctx);
                    lemma_token_bounds(src, next);
                }
                chain_from(src, d.end, c)
            } else {
                Parsed::Done { value: ContextModel { end_position: next as usize, ..c }, next }
            }
        },
    }
}

/// Parses a rule chain and applies it to the context.
pub fn parse_method_chain(src: &[u8], pos: usize, ctx: Context) -> (r: Result<
    (Context, usize),
    ParseError,
>)
    requires
        pos <= src.len(),
    ensures
        agrees(r, chain_from(src@, pos as int, ctx@)),
        advances(r, pos, src.len()),
{
    let ghost initial = ctx@;
    let mut current = ctx;
    let mut at: usize = pos;
    loop
        invariant
            pos <= at <= src.len(),
            initial == ctx@,
            chain_from(src@, pos as int, initial) == chain_from(src@, at as int, current@),
        decreases src.len() - at,
    {
        let (c, next) = parse_function_call(src, at, current)?;
        let d = next_token(src, next);
        if d.kind == TokenKind::Dot {
            current = c;
            at = d.end;
        } else {
            let mut done = c;
            done.end_position = next;
            return Ok((done, next));
        }
    }
}

/// A context that has a name and nothing else.
pub open spec fn empty_context(name: Seq<u8>, has_chain: bool, end: int) -> ContextModel {
    ContextModel {
        name,
        required: Seq::empty(),
        optional: Seq::empty(),
        excluded: Seq::empty(),
        default_behavior: None,
        has_chain,
        end_position: end as usize,
    }
}

/// Makes a context that has a name and nothing else.
pub fn new_context(name: Vec<u8>, has_chain: bool, end: usize) -> (r: Context)
    ensures
        r@ == empty_context(name@, has_chain, end as int),
{
    let ctx = Context {
        name,
        required: Vec::new(),
        optional: Vec::new(),
        excluded: Vec::new(),
        default_behavior: None,
        has_chain,
        end_position: end,
    };
    assert(ctx@.required =~= Seq::<RefModel>::empty());
    assert(ctx@.optional =~= Seq::<RefModel>::empty());
    assert(ctx@.excluded =~= Seq::<RefModel>::empty());
    ctx
}

/// Parses the rule chain of the context `context_name`.
pub fn parse_fluent_expr(context_name: Vec<u8>, src: &[u8], pos: usize) -> (r: Result<
    (Context, usize),
    ParseError,
>)
    requires
        pos <= src.len(),
    ensures
        agrees(r, chain_from(src@, pos as int, empty_context(context_name@, true, pos as int))),
        advances(r, pos, src.len()),
{
    parse_method_chain(src, pos, new_context(context_name, true, pos))
}

/// What a string literal gives, from the value that was read from it: the
/// value, or an error at the literal where it has none.
pub open spec fn decoded_model(value: Option<Seq<u8>>, t: Lexeme) -> Parsed<Seq<u8>> {
    match value {
        Some(v) => Parsed::Done { value: v, next: t.end },
        None => Parsed::Fail { kind: ParseErrorKind::InvalidValue, at: t.start },
    }
}

/// Decides what a string literal gives, from the value that was read from
/// it.
pub fn decoded(value: Option<Vec<u8>>, t: Token) -> (r: Result<(Vec<u8>, usize), ParseError>)
    ensures
        agrees(r, decoded_model(option_view(value), t@)),
{
    match value {
        Some(v) => Ok((v, t.end)),
        None => Err(ParseError { kind: ParseErrorKind::InvalidValue, position: t.start }),
    }
}

/// A string value: one string literal, taken by its value.
#[verifier::opaque]
pub open spec fn string_at(src: Seq<u8>, pos: int) -> Parsed<Seq<u8>> {
    let t = token_at(src, pos);
    if t.kind == TokenKind::Text {
        decoded_model(literal_value(token_text(src, t)), t)
    } else {
        Parsed::Fail { kind: ParseErrorKind::InvalidValue, at: t.start }
    }
}

/// Parses a string value.
pub fn parse_string(src: &[u8], pos: usize) -> (r: Result<(Vec<u8>, usize), ParseError>)
    requires
        pos <= src.len(),
    ensures
        agrees(r, string_at(src@, pos as int)),
        advances(r, pos, src.len()),
{
    proof {
        reveal(string_at);
    }
    let t = next_token(src, pos);
    if t.kind == TokenKind::Text {
        decoded(decode_literal(text_of(src, t)), t)
    } else {
        Err(ParseError { kind: ParseErrorKind::InvalidValue, position: t.start })
    }
}

/// A fate as the value of a directive: one of the three words, bare or as a
/// string literal.
#[verifier::opaque]
pub open spec fn behavior_at(src: Seq<u8>, pos: int) -> Parsed<Classification> {
    let t = token_at(src, pos);
    if t.kind == TokenKind::Word {
        match behavior_word(token_text(src, t)) {
            Some(c) => Parsed::Done { value: c, next: t.end },
            None => Parsed::Fail { kind: ParseErrorKind::InvalidValue, at: t.start },
        }
    } else {
        match string_at(src, pos) {
            Parsed::Fail { kind, at } => Parsed::Fail { kind, at },
            Parsed::Done { value, next } => match behavior_word(value) {
                Some(c) => Parsed::Done { value: c, next },
                None => Parsed::Fail { kind: ParseErrorKind::InvalidValue, at: t.start },
            },
        }
    }
}

/// Parses a fate as the value of a directive.
pub fn parse_behavior(src: &[u8], pos: usize) -> (r: Result<(Classification, usize), ParseError>)
    requires
        pos <= src.len(),
    ensures
        agrees_plain(r, behavior_at(src@, pos as int)),
        advances(r, pos, src.len()),
{
    proof {
        reveal(behavior_at);
    }
    let t = next_token(src, pos);
    if t.kind == TokenKind::Word {
        match read_behavior(text_of(src, t)) {
            Some(c) => Ok((c, t.end)),
            None => Err(ParseError { kind: ParseErrorKind::InvalidValue, position: t.start }),
        }
    } else {
        let (value, next) = parse_string(src, pos)?;
        match read_behavior(value.as_slice()) {
            Some(c) => Ok((c, next)),
            None => Err(ParseError { kind: ParseErrorKind::InvalidValue, position: t.start }),
        }
    }
}

/// A switch as the value of a directive: `true` or `false`.
#[verifier::opaque]
pub open spec fn flag_at(src: Seq<u8>, pos: int) -> Parsed<bool> {
    let t = token_at(src, pos);
    if t.kind == TokenKind::Word && token_text(src, t) == "true".spec_bytes() {
        Parsed::Done { value: true, next: t.end }
    } else if t.kind == TokenKind::Word && token_text(src, t) == "false".spec_bytes() {
        Parsed::Done { value: false, next: t.end }
    } else {
        Parsed::Fail { kind: ParseErrorKind::InvalidValue, at: t.start }
    }
}

/// Parses a switch as the value of a directive.
pub fn parse_flag(src: &[u8], pos: usize) -> (r: Result<(bool, usize), ParseError>)
    requires
        pos <= src.len(),
    ensures
        agrees_plain(r, flag_at(src@, pos as int)),
        advances(r, pos, src.len()),
{
    proof {
        reveal(flag_at);
    }
    let t = next_token(src, pos);
    if t.kind == TokenKind::Word && bytes_eq(text_of(src, t), "true".as_bytes()) {
        Ok((true, t.end))
    } else if t.kind == TokenKind::Word && bytes_eq(text_of(src, t), "false".as_bytes()) {
        Ok((false, t.end))
    } else {
        Err(ParseError { kind: ParseErrorKind::InvalidValue, position: t.start })
    }
}

/// Whether a reference may be a member of a group: a plain name or a
/// wildcard.
pub open spec fn is_member(r: RefModel) -> bool {
    r is Field || r is AllFields
}

/// Whether every reference of the list may be a member of a group.
pub open spec fn all_members(refs: Seq<RefModel>) -> bool {
    forall|i: int| 0 <= i < refs.len() ==> is_member(#[trigger] refs[i])
}

/// Checks that every reference of the list may be a member of a group.
pub fn check_members(refs: &Vec<FieldRef>) -> (r: bool)
    ensures
        r == all_members(views(refs@)),
{
    let mut i: usize = 0;
    while i < refs.len()
        invariant
            i <= refs.len(),
            forall|j: int| 0 <= j < i ==> is_member(#[trigger] views(refs@)[j]),
        decreases refs.len() - i,
    {
        let allowed = match &refs[i] {
            FieldRef::Field { .. } => true,
            FieldRef::AllFields { .. } => true,
            _ => false,
        };
        if !allowed {
            assert(!is_member(views(refs@)[i as int]));
            return false;
        }
        i = i + 1;
    }
    true
}

/// The definition of one group: its name, and its members in parentheses.
/// A member is a plain name or a wildcard.
#[verifier::opaque]
pub open spec fn group_at(src: Seq<u8>, pos: int) -> Parsed<GroupModel> {
    let t = token_at(src, pos);
    if t.kind != TokenKind::Word {
        Parsed::Fail { kind: ParseErrorKind::InvalidValue, at: t.start }
    } else {
        let u = token_at(src, t.end);
        if u.kind != TokenKind::OpenParen {
            Parsed::Fail { kind: ParseErrorKind::InvalidValue, at: u.start }
        } else {
            match args_from(src, u.end, Seq::empty()) {
                Parsed::Fail { kind, at } => Parsed::Fail { kind, at },
                Parsed::Done { value: members, next } => if all_members(members) {
                    Parsed::Done {
                        value: GroupModel { name: token_text(src, t), members },
                        next,
                    }
                } else {
                    Parsed::Fail { kind: ParseErrorKind::InvalidValue, at: t.start }
                },
            }
        }
    }
}

/// Parses the definition of one group.
pub fn parse_single_group(src: &[u8], pos: usize) -> (r: Result<(FieldGroup, usize), ParseError>)
    requires
        pos <= src.len(),
    ensures
        agrees(r, group_at(src@, pos as int)),
        advances(r, pos, src.len()),
{
    proof {
        reveal(group_at);
    }
    let t = next_token(src, pos);
    if t.kind != TokenKind::Word {
        return Err(ParseError { kind: ParseErrorKind::InvalidValue, position: t.start });
    }
    let u = next_token(src, t.end);
    if u.kind != TokenKind::OpenParen {
        return Err(ParseError { kind: ParseErrorKind::InvalidValue, position: u.start });
    }
    let (members, next) = parse_field_list(src, u.end)?;
    if check_members(&members) {
        Ok((FieldGroup { name: copy_text(text_of(src, t)), members }, next))
    } else {
        Err(ParseError { kind: ParseErrorKind::InvalidValue, position: t.start })
    }
}

/// Group definitions up to the closing parenthesis of their list, the
/// opening one already read.
pub open spec fn groups_from(src: Seq<u8>, pos: int, acc: Seq<GroupModel>) -> Parsed<
    Seq<GroupModel>,
>
    decreases src.len() - pos,
{
    let t = token_at(src, pos);
    if t.kind == TokenKind::CloseParen {
        Parsed::Done { value: acc, next: t.end }
    } else {
        match group_at(src, pos) {
            Parsed::Fail { kind, at } => Parsed::Fail { kind, at },
            Parsed::Done { value: group, next } => {
                let grown = acc.push(group);
                let u = token_at(src, next);
                if u.kind == TokenKind::Comma {
                    proof {
                        lemma_token_bounds(src, pos);
                        lemma_group_advance(src, pos);
                        lemma_token_bounds(src, next);
                    }
                    groups_from(src, u.end, grown)
                } else if u.kind == TokenKind::CloseParen {
                    Parsed::Done { value: grown, next: u.end }
                } else {
                    Parsed::Fail { kind: ParseErrorKind::Malformed, at: u.start }
                }
            },
        }
    }
}

/// The value of the `groups` directive: one group definition, or a list of
/// them in parentheses.
pub open spec fn groups_at(src: Seq<u8>, pos: int) -> Parsed<Seq<GroupModel>> {
    let t = token_at(src, pos);
    if t.kind == TokenKind::OpenParen {
        groups_from(src, t.end, Seq::empty())
    } else {
        match group_at(src, pos) {
            Parsed::Fail { kind, at } => Parsed::Fail { kind, at },
            Parsed::Done { value: group, next } => Parsed::Done { value: seq![group], next },
        }
    }
}

/// Parses the value of the `groups` directive.
pub fn parse_groups_expression(src: &[u8], pos: usize) -> (r: Result<
    (Vec<FieldGroup>, usize),
    ParseError,
>)
    requires
        pos <= src.len(),
    ensures
        agrees_list(r, groups_at(src@, pos as int)),
        advances(r, pos, src.len()),
{
    let mut groups: Vec<FieldGroup> = Vec::new();
    assert(views(groups@) =~= Seq::<GroupModel>::empty());
    let open = next_token(src, pos);
    if open.kind != TokenKind::OpenParen {
        let (group, next) = parse_single_group(src, pos)?;
        groups.push(group);
        assert(views(groups@) =~= seq![groups@.last()@]);
        return Ok((groups, next));
    }
    let mut at: usize = open.end;
    loop
        invariant
            pos < open.end <= at <= src.len(),
            groups_at(src@, pos as int) == groups_from(src@, at as int, views(groups@)),
        decreases src.len() - at,
    {
        let t = next_token(src, at);
        if t.kind == TokenKind::CloseParen {
            return Ok((groups, t.end));
        }
        let (group, next) = parse_single_group(src, at)?;
        let ghost before = groups@;
        groups.push(group);
        assert(views(groups@) =~= views(before).push(groups@.last()@));
        let u = next_token(src, next);
        match u.kind {
            TokenKind::Comma => {
                at = u.end;
            },
            TokenKind::CloseParen => {
                return Ok((groups, u.end));
            },
            _ => {
                return Err(ParseError { kind: ParseErrorKind::Malformed, position: u.start });
            },
        }
    }
}

/// Tags up to the closing bracket of their list, the opening one already
/// read. A tag is a span of tokens that is not empty, taken as the bytes of
/// the source from its first token to its last.
pub open spec fn tags_from(src: Seq<u8>, pos: int, acc: Seq<Seq<u8>>) -> Parsed<Seq<Seq<u8>>>
    decreases src.len() - pos,
{
    let t = token_at(src, pos);
    if t.kind == TokenKind::CloseBracket {
        Parsed::Done { value: acc, next: t.end }
    } else {
        match span_from(src, pos, 0, false, t.start) {
            Parsed::Fail { kind, at } => Parsed::Fail { kind, at },
            Parsed::Done { value: end, next } => if end <= t.start {
                Parsed::Fail { kind: ParseErrorKind::Malformed, at: t.start }
            } else {
                let grown = acc.push(src.subrange(t.start, end));
                let u = token_at(src, next);
                if u.kind == TokenKind::Comma {
                    proof {
                        lemma_token_bounds(src, pos);
                        lemma_span_bounds(src, pos, 0, false, t.start);
                        lemma_token_bounds(src, next);
                    }
                    tags_from(src, u.end, grown)
                } else if u.kind == TokenKind::CloseBracket {
                    Parsed::Done { value: grown, next: u.end }
                } else {
                    Parsed::Fail { kind: ParseErrorKind::Malformed, at: u.start }
                }
            },
        }
    }
}

/// The value of a directive that lists tags: the tags in square brackets.
pub open spec fn tags_at(src: Seq<u8>, pos: int) -> Parsed<Seq<Seq<u8>>> {
    let t = token_at(src, pos);
    if t.kind == TokenKind::OpenBracket {
        tags_from(src, t.end, Seq::empty())
    } else {
        Parsed::Fail { kind: ParseErrorKind::InvalidValue, at: t.start }
    }
}

/// Parses the value of a directive that lists tags.
pub fn parse_tag_list(src: &[u8], pos: usize) -> (r: Result<(Vec<Vec<u8>>, usize), ParseError>)
    requires
        pos <= src.len(),
    ensures
        agrees_list(r, tags_at(src@, pos as int)),
        advances(r, pos, src.len()),
{
    let open = next_token(src, pos);
    if open.kind != TokenKind::OpenBracket {
        return Err(ParseError { kind: ParseErrorKind::InvalidValue, position: open.start });
    }
    let mut tags: Vec<Vec<u8>> = Vec::new();
    assert(views(tags@) =~= Seq::<Seq<u8>>::empty());
    let mut at: usize = open.end;
    loop
        invariant
            pos < open.end <= at <= src.len(),
            tags_at(src@, pos as int) == tags_from(src@, at as int, views(tags@)),
        decreases src.len() - at,
    {
        let t = next_token(src, at);
        if t.kind == TokenKind::CloseBracket {
            return Ok((tags, t.end));
        }
        let (end, next) = scan_span(src, at, false)?;
        if end <= t.start {
            return Err(ParseError { kind: ParseErrorKind::Malformed, position: t.start });
        }
        let ghost before = tags@;
        tags.push(copy_text(vstd::slice::slice_subrange(src, t.start, end)));
        assert(views(tags@) =~= views(before).push(src@.subrange(t.start as int, end as int)));
        let u = next_token(src, next);
        match u.kind {
            TokenKind::Comma => {
                at = u.end;
            },
            TokenKind::CloseBracket => {
                return Ok((tags, u.end));
            },
            _ => {
                return Err(ParseError { kind: ParseErrorKind::Malformed, position: u.start });
            },
        }
    }
}

/// Whether a word is the key of a directive.
pub open spec fn is_directive_key(key: Seq<u8>) -> bool {
    key == "prefix".spec_bytes() || key == "suffix".spec_bytes() || key == "default".spec_bytes()
        || key == "groups".spec_bytes() || key == "build_base".spec_bytes() || key
        == "optional_base".spec_bytes() || key == "optional_attrs".spec_bytes() || key
        == "required_attrs".spec_bytes()
}

/// The rules after a directive with the given key, its value starting at
/// `pos`. A directive replaces what an earlier one with the same key set.
#[verifier::opaque]
pub open spec fn directive_at(
    src: Seq<u8>,
    pos: int,
    key: Seq<u8>,
    key_at: int,
    rules: RuleSetModel,
) -> Parsed<RuleSetModel> {
    if key == "prefix".spec_bytes() {
        match string_at(src, pos) {
            Parsed::Fail { kind, at } => Parsed::Fail { kind, at },
            Parsed::Done { value, next } => Parsed::Done {
                value: RuleSetModel { prefix: Some(value), ..rules },
                next,
            },
        }
    } else if key == "suffix".spec_bytes() {
        match string_at(src, pos) {
            Parsed::Fail { kind, at } => Parsed::Fail { kind, at },
            Parsed::Done { value, next } => Parsed::Done {
                value: RuleSetModel { suffix: Some(value), ..rules },
                next,
            },
        }
    } else if key == "default".spec_bytes() {
        match behavior_at(src, pos) {
            Parsed::Fail { kind, at } => Parsed::Fail { kind, at },
            Parsed::Done { value, next } => Parsed::Done {
                value: RuleSetModel { global_default: Some(value), ..rules },
                next,
            },
        }
    } else if key == "groups".spec_bytes() {
        match groups_at(src, pos) {
            Parsed::Fail { kind, at } => Parsed::Fail { kind, at },
            Parsed::Done { value, next } => Parsed::Done {
                value: RuleSetModel { groups: value, ..rules },
                next,
            },
        }
    } else if key == "build_base".spec_bytes() {
        match flag_at(src, pos) {
            Parsed::Fail { kind, at } => Parsed::Fail { kind, at },
            Parsed::Done { value, next } => Parsed::Done {
                value: RuleSetModel { build_base: value, ..rules },
                next,
            },
        }
    } else if key == "optional_base".spec_bytes() {
        match flag_at(src, pos) {
            Parsed::Fail { kind, at } => Parsed::Fail { kind, at },
            Parsed::Done { value, next } => Parsed::Done {
                value: RuleSetModel { optional_base: value, ..rules },
                next,
            },
        }
    } else if key == "optional_attrs".spec_bytes() {
        match tags_at(src, pos) {
            Parsed::Fail { kind, at } => Parsed::Fail { kind, at },
            Parsed::Done { value, next } => Parsed::Done {
                value: RuleSetModel { optional_attrs: value, ..rules },
                next,
            },
        }
    } else if key == "required_attrs".spec_bytes() {
        match tags_at(src, pos) {
            Parsed::Fail { kind, at } => Parsed::Fail { kind, at },
            Parsed::Done { value, next } => Parsed::Done {
                value: RuleSetModel { required_attrs: value, ..rules },
                next,
            },
        }
    } else {
        Parsed::Fail { kind: ParseErrorKind::UnknownDirective, at: key_at }
    }
}

/// Parses the value of the directive with the given key and applies it to
/// the rules.
pub fn parse_directive(src: &[u8], pos: usize, key: &[u8], key_at: usize, rules: RuleSet) -> (r:
    Result<(RuleSet, usize), ParseError>)
    requires
        pos <= src.len(),
    ensures
        agrees(r, directive_at(src@, pos as int, key@, key_at as int, rules@)),
        advances(r, pos, src.len()),
{
    proof {
        reveal(directive_at);
    }
    let mut rules = rules;
    if bytes_eq(key, "prefix".as_bytes()) {
        let (value, next) = parse_string(src, pos)?;
        rules.prefix = Some(value);
        Ok((rules, next))
    } else if bytes_eq(key, "suffix".as_bytes()) {
        let (value, next) = parse_string(src, pos)?;
        rules.suffix = Some(value);
        Ok((rules, next))
    } else if bytes_eq(key, "default".as_bytes()) {
        let (value, next) = parse_behavior(src, pos)?;
        rules.global_default = Some(value);
        Ok((rules, next))
    } else if bytes_eq(key, "groups".as_bytes()) {
        let (value, next) = parse_groups_expression(src, pos)?;
        rules.groups = value;
        Ok((rules, next))
    } else if bytes_eq(key, "build_base".as_bytes()) {
        let (value, next) = parse_flag(src, pos)?;
        rules.build_base = value;
        Ok((rules, next))
    } else if bytes_eq(key, "optional_base".as_bytes()) {
        let (value, next) = parse_flag(src, pos)?;
        rules.optional_base = value;
        Ok((rules, next))
    } else if bytes_eq(key, "optional_attrs".as_bytes()) {
        let (value, next) = parse_tag_list(src, pos)?;
        rules.optional_attrs = value;
        Ok((rules, next))
    } else if bytes_eq(key, "required_attrs".as_bytes()) {
        let (value, next) = parse_tag_list(src, pos)?;
        rules.required_attrs = value;
        Ok((rules, next))
    } else {
        Err(ParseError { kind: ParseErrorKind::UnknownDirective, position: key_at })
    }
}

/// The rules after the declaration of the context `name`, its rule chain
/// starting at `pos`.
#[verifier::opaque]
pub open spec fn context_at(src: Seq<u8>, pos: int, name: Seq<u8>, rules: RuleSetModel) -> Parsed<
    RuleSetModel,
> {
    match chain_from(src, pos, empty_context(name, true, pos)) {
        Parsed::Fail { kind, at } => Parsed::Fail { kind, at },
        Parsed::Done { value: ctx, next } => Parsed::Done {
            value: RuleSetModel { contexts: rules.contexts.push(ctx), ..rules },
            next,
        },
    }
}

/// Parses the rule chain of the context `name` and adds the context to the
/// rules.
pub fn parse_context_expr(src: &[u8], pos: usize, name: Vec<u8>, rules: RuleSet) -> (r: Result<
    (RuleSet, usize),
    ParseError,
>)
    requires
        pos <= src.len(),
    ensures
        agrees(r, context_at(src@, pos as int, name@, rules@)),
        advances(r, pos, src.len()),
{
    proof {
        reveal(context_at);
    }
    let mut rules = rules;
    let (ctx, next) = parse_fluent_expr(name, src, pos)?;
    let ghost before = rules.contexts@;
    rules.contexts.push(ctx);
    assert(views(rules.contexts@) =~= views(before).push(rules.contexts@.last()@));
    Ok((rules, next))
}

/// The rules after a prefix or suffix of the older surface, where each may
/// be set once.
pub open spec fn affix_at(src: Seq<u8>, pos: int, key: Seq<u8>, key_at: int, rules: RuleSetModel)
    -> Parsed<RuleSetModel> {
    let taken = if key == "prefix".spec_bytes() {
        rules.prefix is Some
    } else {
        rules.suffix is Some
    };
    if taken {
        Parsed::Fail { kind: ParseErrorKind::InvalidValue, at: key_at }
    } else {
        directive_at(src, pos, key, key_at, rules)
    }
}

/// The rules after one item. In the current surface an item is a context
/// with its chain after a colon, a directive after an equals sign, or a
/// bare context name. In the older surface a chain follows an equals sign,
/// and the only directives are `prefix` and `suffix`.
#[verifier::opaque]
pub open spec fn item_at(src: Seq<u8>, pos: int, rules: RuleSetModel, older: bool) -> Parsed<
    RuleSetModel,
> {
    let t = token_at(src, pos);
    if t.kind != TokenKind::Word {
        Parsed::Fail { kind: ParseErrorKind::Malformed, at: t.start }
    } else {
        let name = token_text(src, t);
        let u = token_at(src, t.end);
        if u.kind == TokenKind::Colon && !older {
            context_at(src, u.end, name, rules)
        } else if u.kind == TokenKind::Equals {
            if !older {
                directive_at(src, u.end, name, t.start, rules)
            } else if name == "prefix".spec_bytes() || name == "suffix".spec_bytes() {
                affix_at(src, u.end, name, t.start, rules)
            } else {
                context_at(src, u.end, name, rules)
            }
        } else {
            Parsed::Done {
                value: RuleSetModel {
                    contexts: rules.contexts.push(empty_context(name, false, t.end)),
                    ..rules
                },
                next: t.end,
            }
        }
    }
}

/// Parses one item and applies it to the rules.
pub fn parse_item(src: &[u8], pos: usize, rules: RuleSet, older: bool) -> (r: Result<
    (RuleSet, usize),
    ParseError,
>)
    requires
        pos <= src.len(),
    ensures
        agrees(r, item_at(src@, pos as int, rules@, older)),
        advances(r, pos, src.len()),
{
    proof {
        reveal(item_at);
    }
    let t = next_token(src, pos);
    if t.kind != TokenKind::Word {
        return Err(ParseError { kind: ParseErrorKind::Malformed, position: t.start });
    }
    let name = text_of(src, t);
    let u = next_token(src, t.end);
    if u.kind == TokenKind::Colon && !older {
        parse_context_expr(src, u.end, copy_text(name), rules)
    } else if u.kind == TokenKind::Equals {
        if !older {
            parse_directive(src, u.end, name, t.start, rules)
        } else if bytes_eq(name, "prefix".as_bytes()) {
            if rules.prefix.is_some() {
                Err(ParseError { kind: ParseErrorKind::InvalidValue, position: t.start })
            } else {
                parse_directive(src, u.end, name, t.start, rules)
            }
        } else if bytes_eq(name, "suffix".as_bytes()) {
            if rules.suffix.is_some() {
                Err(ParseError { kind: ParseErrorKind::InvalidValue, position: t.start })
            } else {
                parse_directive(src, u.end, name, t.start, rules)
            }
        } else {
            parse_context_expr(src, u.end, copy_text(name), rules)
        }
    } else {
        let mut rules = rules;
        let ghost before = rules.contexts@;
        rules.contexts.push(new_context(copy_text(name), false, t.end));
        assert(views(rules.contexts@) =~= views(before).push(rules.contexts@.last()@));
        Ok((rules, t.end))
    }
}

/// The rules after the items from `pos` to the end of the source: items
/// separated by commas, a comma after the last one allowed.
pub open spec fn items_from(src: Seq<u8>, pos: int, rules: RuleSetModel, older: bool) -> Parsed<
    RuleSetModel,
>
    decreases src.len() - pos,
{
    let t = token_at(src, pos);
    if t.kind == TokenKind::End {
        Parsed::Done { value: rules, next: t.start }
    } else {
        match item_at(src, pos, rules, older) {
            Parsed::Fail { kind, at } => Parsed::Fail { kind, at },
            Parsed::Done { value: after, next } => {
                let u = token_at(src, next);
                if u.kind == TokenKind::Comma {
                    proof {
                        lemma_token_bounds(src, pos);
                        lemma_item_advance(src, pos, rules, older);
                        lemma_token_bounds(src, next);
                    }
                    items_from(src, u.end, after, older)
                } else if u.kind == TokenKind::End {
                    Parsed::Done { value: after, next: u.start }
                } else {
                    Parsed::Fail { kind: ParseErrorKind::Malformed, at: u.start }
                }
            },
        }
    }
}

/// The rules that declare nothing: no prefix or suffix, the entity record
/// emitted as it is.
pub open spec fn empty_rules() -> RuleSetModel {
    RuleSetModel {
        contexts: Seq::empty(),
        groups: Seq::empty(),
        global_default: None,
        prefix: None,
        suffix: None,
        build_base: true,
        optional_base: false,
        optional_attrs: Seq::empty(),
        required_attrs: Seq::empty(),
    }
}

/// What a rule source declares: the rules after all its items, which must
/// declare a context; else the first error in it.
pub open spec fn rule_source(src: Seq<u8>, older: bool) -> Result<RuleSetModel, ParseError> {
    match items_from(src, 0, empty_rules(), older) {
        Parsed::Fail { kind, at } => Err(ParseError { kind, position: at as usize }),
        Parsed::Done { value: rules, next } => if rules.contexts.len() == 0 {
            Err(ParseError { kind: ParseErrorKind::NoContexts, position: 0 })
        } else {
            Ok(rules)
        },
    }
}

/// The view of parsed rules inside a result.
pub open spec fn rules_view(r: Result<RuleSet, ParseError>) -> Result<RuleSetModel, ParseError> {
    match r {
        Ok(rules) => Ok(rules@),
        Err(e) => Err(e),
    }
}

impl RuleSet {
    /// The rules that declare nothing.
    pub fn new() -> (r: RuleSet)
        ensures
            r@ == empty_rules(),
    {
        let rules = RuleSet {
            contexts: Vec::new(),
            groups: Vec::new(),
            global_default: None,
            prefix: None,
            suffix: None,
            build_base: true,
            optional_base: false,
            optional_attrs: Vec::new(),
            required_attrs: Vec::new(),
        };
        assert(rules@.contexts =~= Seq::<ContextModel>::empty());
        assert(rules@.groups =~= Seq::<GroupModel>::empty());
        assert(rules@.optional_attrs =~= Seq::<Seq<u8>>::empty());
        assert(rules@.required_attrs =~= Seq::<Seq<u8>>::empty());
        rules
    }

    /// Parses a rule source of the older surface: contexts by their bare
    /// names or with a chain after an equals sign, and the directives
    /// `prefix` and `suffix`, each at most once.
    pub fn from_args(source: &[u8]) -> (r: Result<RuleSet, ParseError>)
        ensures
            rules_view(r) == rule_source(source@, true),
    {
        parse_items(source, true)
    }
}

fn parse_items(source: &[u8], older: bool) -> (r: Result<RuleSet, ParseError>)
    ensures
        rules_view(r) == rule_source(source@, older),
{
    let mut rules = RuleSet::new();
    let mut at: usize = 0;
    loop
        invariant
            at <= source.len(),
            items_from(source@, 0, empty_rules(), older) == items_from(
                source@,
                at as int,
                rules@,
                older,
            ),
        decreases source.len() - at,
    {
        let t = next_token(source, at);
        if t.kind == TokenKind::End {
            return with_contexts(rules);
        }
        let (after, next) = parse_item(source, at, rules, older)?;
        rules = after;
        let u = next_token(source, next);
        match u.kind {
            TokenKind::Comma => {
                at = u.end;
            },
            TokenKind::End => {
                return with_contexts(rules);
            },
            _ => {
                return Err(ParseError { kind: ParseErrorKind::Malformed, position: u.start });
            },
        }
    }
}

/// Accepts the rules if they declare a context.
fn with_contexts(rules: RuleSet) -> (r: Result<RuleSet, ParseError>)
    ensures
        rules@.contexts.len() == 0 ==> r == Err::<RuleSet, ParseError>(
            ParseError { kind: ParseErrorKind::NoContexts, position: 0 },
        ),
        rules@.contexts.len() != 0 ==> r == Ok::<RuleSet, ParseError>(rules),
{
    if rules.contexts.len() == 0 {
        Err(ParseError { kind: ParseErrorKind::NoContexts, position: 0 })
    } else {
        Ok(rules)
    }
}

/// Parses a rule source: contexts with their chains after a colon, bare
/// context names, and directives after an equals sign.
pub fn parse_mixed_args(source: &[u8]) -> (r: Result<RuleSet, ParseError>)
    ensures
        rules_view(r) == rule_source(source@, false),
{
    parse_items(source, false)
}

} // verus!
