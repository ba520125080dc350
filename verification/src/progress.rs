//! Every parsing step that succeeds ends after the position it started at
//! and inside the source. The recursive definitions of the grammar rest on
//! this for their termination.

use vstd::prelude::*;
use crate::lexer::{lemma_token_bounds, token_at, token_text, TokenKind};
use crate::model::{ContextModel, GroupModel, RefModel, RuleSetModel};
use crate::parser::{
    arg_at, args_from, behavior_at, call_at, chain_from, context_at, directive_at, empty_context,
    exceptions_at, flag_at, group_at, groups_at, groups_from, item_at, names_from, span_from,
    string_at, tags_at, tags_from, typed_at, wildcard_at, Parsed,
};

verus! {

/// A list of names that was read ends after the position it started at.
pub proof fn lemma_names_advance(src: Seq<u8>, pos: int, acc: Seq<Seq<u8>>)
    ensures
        names_from(src, pos, acc) matches Parsed::Done { next, .. } ==> 0 <= pos < next <= src.len(),
    decreases src.len() - pos,
{
    lemma_token_bounds(src, pos);
    let t = token_at(src, pos);
    if t.kind == TokenKind::Word {
        lemma_token_bounds(src, t.end);
        let u = token_at(src, t.end);
        if u.kind == TokenKind::Comma {
            lemma_names_advance(src, u.end, acc.push(token_text(src, t)));
        }
    }
}

/// A span ends inside the source, and a span that holds a token ends after
/// the position it started at.
pub proof fn lemma_span_bounds(src: Seq<u8>, pos: int, depth: nat, angles: bool, last: int)
    ensures
        span_from(src, pos, depth, angles, last) matches Parsed::Done { value, next } ==> 0
            <= pos <= next <= src.len() && (value == last || pos < next),
    decreases src.len() - pos,
{
    lemma_token_bounds(src, pos);
    let t = token_at(src, pos);
    if t.kind != TokenKind::End && t.kind != TokenKind::Unterminated {
        lemma_span_bounds(src, t.end, depth + 1, angles, t.end);
        lemma_span_bounds(src, t.end, depth, angles, t.end);
        if depth > 0 {
            lemma_span_bounds(src, t.end, (depth - 1) as nat, angles, t.end);
        }
    }
}

/// A type override that was read ends after the position it started at.
pub proof fn lemma_typed_advance(src: Seq<u8>, pos: int, name: Seq<u8>)
    ensures
        typed_at(src, pos, name) matches Parsed::Done { next, .. } ==> 0 <= pos < next <= src.len(),
{
    reveal(typed_at);
    lemma_span_bounds(src, pos, 0, true, token_at(src, pos).start);
}

/// Exceptions that were read end after the position they started at.
pub proof fn lemma_exceptions_advance(src: Seq<u8>, pos: int)
    ensures
        exceptions_at(src, pos) matches Parsed::Done { next, .. } ==> 0 <= pos < next <= src.len(),
{
    reveal(exceptions_at);
    lemma_token_bounds(src, pos);
    let w = token_at(src, pos);
    if w.kind == TokenKind::Word {
        lemma_token_bounds(src, w.end);
        let x = token_at(src, w.end);
        if x.kind == TokenKind::OpenParen {
            lemma_names_advance(src, x.end, Seq::empty());
        }
    }
}

/// A wildcard that was read ends after the position it started at.
pub proof fn lemma_wildcard_advance(src: Seq<u8>, pos: int)
    ensures
        wildcard_at(src, pos) matches Parsed::Done { next, .. } ==> 0 <= pos < next <= src.len(),
{
    reveal(wildcard_at);
    lemma_names_advance(src, pos, Seq::empty());
    if let Parsed::Done { value, next } = names_from(src, pos, Seq::empty()) {
        lemma_token_bounds(src, next);
        let d = token_at(src, next);
        if d.kind == TokenKind::Dot {
            lemma_exceptions_advance(src, d.end);
        }
    }
}

/// An argument that was read ends after the position it started at.
pub proof fn lemma_arg_advance(src: Seq<u8>, pos: int)
    ensures
        arg_at(src, pos) matches Parsed::Done { next, .. } ==> 0 <= pos < next <= src.len(),
{
    reveal(arg_at);
    lemma_token_bounds(src, pos);
    let t = token_at(src, pos);
    if t.kind == TokenKind::Word {
        lemma_token_bounds(src, t.end);
        let u = token_at(src, t.end);
        if u.kind != TokenKind::End {
            lemma_typed_advance(src, u.end, token_text(src, t));
            lemma_wildcard_advance(src, u.end);
            lemma_exceptions_advance(src, u.end);
        }
    }
}

/// A list of arguments that was read ends after the position it started at.
pub proof fn lemma_args_advance(src: Seq<u8>, pos: int, acc: Seq<RefModel>)
    ensures
        args_from(src, pos, acc) matches Parsed::Done { next, .. } ==> 0 <= pos < next <= src.len(),
    decreases src.len() - pos,
{
    lemma_token_bounds(src, pos);
    let t = token_at(src, pos);
    if t.kind != TokenKind::CloseParen {
        lemma_arg_advance(src, pos);
        if let Parsed::Done { value, next } = arg_at(src, pos) {
            lemma_token_bounds(src, next);
            let u = token_at(src, next);
            if u.kind == TokenKind::Comma {
                lemma_args_advance(src, u.end, acc.push(value));
            }
        }
    }
}

/// A call that was read ends after the position it started at.
pub proof fn lemma_call_advance(src: Seq<u8>, pos: int, ctx: ContextModel)
    ensures
        call_at(src, pos, ctx) matches Parsed::Done { next, .. } ==> 0 <= pos < next <= src.len(),
{
    reveal(call_at);
    lemma_token_bounds(src, pos);
    let t = token_at(src, pos);
    if t.kind == TokenKind::Word {
        lemma_token_bounds(src, t.end);
        let u = token_at(src, t.end);
        if u.kind == TokenKind::OpenParen {
            lemma_args_advance(src, u.end, Seq::empty());
        }
    }
}

/// A rule chain that was read ends after the position it started at.
pub proof fn lemma_chain_advance(src: Seq<u8>, pos: int, ctx: ContextModel)
    ensures
        chain_from(src, pos, ctx) matches Parsed::Done { next, .. } ==> 0 <= pos < next <= src.len(),
    decreases src.len() - pos,
{
    lemma_call_advance(src, pos, ctx);
    if let Parsed::Done { value, next } = call_at(src, pos, ctx) {
        lemma_token_bounds(src, next);
        let d = token_at(src, next);
        if d.kind == TokenKind::Dot {
            lemma_chain_advance(src, d.end, value);
        }
    }
}

/// A group definition that was read ends after the position it started at.
pub proof fn lemma_group_advance(src: Seq<u8>, pos: int)
    ensures
        group_at(src, pos) matches Parsed::Done { next, .. } ==> 0 <= pos < next <= src.len(),
{
    reveal(group_at);
    lemma_token_bounds(src, pos);
    let t = token_at(src, pos);
    if t.kind == TokenKind::Word {
        lemma_token_bounds(src, t.end);
        let u = token_at(src, t.end);
        if u.kind == TokenKind::OpenParen {
            lemma_args_advance(src, u.end, Seq::empty());
        }
    }
}

/// A list of group definitions that was read ends after the position it
/// started at.
pub proof fn lemma_groups_from_advance(src: Seq<u8>, pos: int, acc: Seq<GroupModel>)
    ensures
        groups_from(src, pos, acc) matches Parsed::Done { next, .. } ==> 0 <= pos < next <= src.len(),
    decreases src.len() - pos,
{
    lemma_token_bounds(src, pos);
    let t = token_at(src, pos);
    if t.kind != TokenKind::CloseParen {
        lemma_group_advance(src, pos);
        if let Parsed::Done { value, next } = group_at(src, pos) {
            lemma_token_bounds(src, next);
            let u = token_at(src, next);
            if u.kind == TokenKind::Comma {
                lemma_groups_from_advance(src, u.end, acc.push(value));
            }
        }
    }
}

/// The value of a `groups` directive that was read ends after the position
/// it started at.
pub proof fn lemma_groups_advance(src: Seq<u8>, pos: int)
    ensures
        groups_at(src, pos) matches Parsed::Done { next, .. } ==> 0 <= pos < next <= src.len(),
{
    lemma_token_bounds(src, pos);
    let t = token_at(src, pos);
    if t.kind == TokenKind::OpenParen {
        lemma_groups_from_advance(src, t.end, Seq::empty());
    } else {
        lemma_group_advance(src, pos);
    }
}

/// A list of tags that was read ends after the position it started at.
pub proof fn lemma_tags_from_advance(src: Seq<u8>, pos: int, acc: Seq<Seq<u8>>)
    ensures
        tags_from(src, pos, acc) matches Parsed::Done { next, .. } ==> 0 <= pos < next <= src.len(),
    decreases src.len() - pos,
{
    lemma_token_bounds(src, pos);
    let t = token_at(src, pos);
    if t.kind != TokenKind::CloseBracket {
        lemma_span_bounds(src, pos, 0, false, t.start);
        if let Parsed::Done { value, next } = span_from(src, pos, 0, false, t.start) {
            if value > t.start {
                lemma_token_bounds(src, next);
                let u = token_at(src, next);
                if u.kind == TokenKind::Comma {
                    lemma_tags_from_advance(src, u.end, acc.push(src.subrange(t.start, value)));
                }
            }
        }
    }
}

/// The value of a tag directive that was read ends after the position it
/// started at.
pub proof fn lemma_tags_advance(src: Seq<u8>, pos: int)
    ensures
        tags_at(src, pos) matches Parsed::Done { next, .. } ==> 0 <= pos < next <= src.len(),
{
    lemma_token_bounds(src, pos);
    let t = token_at(src, pos);
    if t.kind == TokenKind::OpenBracket {
        lemma_tags_from_advance(src, t.end, Seq::empty());
    }
}

/// A string, a fate or a switch that was read ends after the position it
/// started at.
pub proof fn lemma_values_advance(src: Seq<u8>, pos: int)
    ensures
        string_at(src, pos) matches Parsed::Done { next, .. } ==> 0 <= pos < next <= src.len(),
        behavior_at(src, pos) matches Parsed::Done { next, .. } ==> 0 <= pos < next <= src.len(),
        flag_at(src, pos) matches Parsed::Done { next, .. } ==> 0 <= pos < next <= src.len(),
{
    reveal(string_at);
    reveal(behavior_at);
    reveal(flag_at);
    lemma_token_bounds(src, pos);
}

/// A directive value that was read ends after the position it started at.
pub proof fn lemma_directive_advance(
    src: Seq<u8>,
    pos: int,
    key: Seq<u8>,
    key_at: int,
    rules: RuleSetModel,
)
    ensures
        directive_at(src, pos, key, key_at, rules) matches Parsed::Done { next, .. } ==> 0 <= pos
            < next <= src.len(),
{
    reveal(directive_at);
    lemma_values_advance(src, pos);
    lemma_groups_advance(src, pos);
    lemma_tags_advance(src, pos);
}

/// A context declaration that was read ends after the position it started
/// at.
pub proof fn lemma_context_advance(src: Seq<u8>, pos: int, name: Seq<u8>, rules: RuleSetModel)
    ensures
        context_at(src, pos, name, rules) matches Parsed::Done { next, .. } ==> 0 <= pos
            < next <= src.len(),
{
    reveal(context_at);
    lemma_chain_advance(src, pos, empty_context(name, true, pos));
}

/// An item that was read ends after the position it started at.
pub proof fn lemma_item_advance(src: Seq<u8>, pos: int, rules: RuleSetModel, older: bool)
    ensures
        item_at(src, pos, rules, older) matches Parsed::Done { next, .. } ==> 0 <= pos
            < next <= src.len(),
{
    reveal(item_at);
    lemma_token_bounds(src, pos);
    let t = token_at(src, pos);
    if t.kind == TokenKind::Word {
        lemma_token_bounds(src, t.end);
        let u = token_at(src, t.end);
        if u.kind != TokenKind::End {
            lemma_context_advance(src, u.end, token_text(src, t), rules);
            lemma_directive_advance(src, u.end, token_text(src, t), t.start, rules);
        }
    }
}

} // verus!
