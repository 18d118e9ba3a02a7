//! Laws of the library, stated and proved over the models that the public
//! contracts use.
use vstd::prelude::*;

use crate::ast::SpecExpr;
use crate::parser::parse_spec;
use crate::parser::parse_statement_spec;
use crate::parser::parse_ternary_spec;
use crate::parser::parse_bool_spec;
use crate::parser::parse_compare_spec;
use crate::parser::parse_additive_spec;
use crate::parser::parse_factor_spec;
use crate::parser::parse_call_spec;
use crate::parser::scope_parse;
use crate::parser::to_variable_name_spec;
use crate::session::prepare_spec;
use crate::session::SpecOutcome;
use crate::text::normalize_spec;

verus! {

/// Short and long namespace spellings compile to textually identical storage
/// keys: a name written `t.`, `v.`, `q.` or `c.` resolves to the same key as
/// its long form, and a long form is left as it stands, so reads and writes
/// through either spelling observe the same storage slot.
pub proof fn lemma_alias_resolution(name: Seq<char>)
    ensures
        to_variable_name_spec(seq!['t', '.'] + name) == seq!['t', 'e', 'm', 'p', '.'] + name,
        to_variable_name_spec(seq!['v', '.'] + name) == seq!['v', 'a', 'r', 'i', 'a', 'b', 'l', 'e', '.']
            + name,
        to_variable_name_spec(seq!['q', '.'] + name) == seq!['q', 'u', 'e', 'r', 'y', '.'] + name,
        to_variable_name_spec(seq!['c', '.'] + name) == seq!['c', 'o', 'n', 't', 'e', 'x', 't', '.']
            + name,
        to_variable_name_spec(seq!['t', 'e', 'm', 'p', '.'] + name) == seq!['t', 'e', 'm', 'p', '.']
            + name,
        to_variable_name_spec(seq!['v', 'a', 'r', 'i', 'a', 'b', 'l', 'e', '.'] + name) == seq![
            'v',
            'a',
            'r',
            'i',
            'a',
            'b',
            'l',
            'e',
            '.',
        ] + name,
        to_variable_name_spec(seq!['q', 'u', 'e', 'r', 'y', '.'] + name) == seq!['q', 'u', 'e', 'r', 'y', '.']
            + name,
        to_variable_name_spec(seq!['c', 'o', 'n', 't', 'e', 'x', 't', '.'] + name) == seq![
            'c',
            'o',
            'n',
            't',
            'e',
            'x',
            't',
            '.',
        ] + name,
{
    assert((seq!['t', '.'] + name).subrange(1, (seq!['t', '.'] + name).len() as int) =~= seq!['.']
        + name);
    assert(seq!['t', 'e', 'm', 'p'] + (seq!['.'] + name) =~= seq!['t', 'e', 'm', 'p', '.'] + name);
    assert((seq!['v', '.'] + name).subrange(1, (seq!['v', '.'] + name).len() as int) =~= seq!['.']
        + name);
    assert(seq!['v', 'a', 'r', 'i', 'a', 'b', 'l', 'e'] + (seq!['.'] + name) =~= seq![
        'v',
        'a',
        'r',
        'i',
        'a',
        'b',
        'l',
        'e',
        '.',
    ] + name);
    assert((seq!['q', '.'] + name).subrange(1, (seq!['q', '.'] + name).len() as int) =~= seq!['.']
        + name);
    assert(seq!['q', 'u', 'e', 'r', 'y'] + (seq!['.'] + name) =~= seq!['q', 'u', 'e', 'r', 'y', '.']
        + name);
    assert((seq!['c', '.'] + name).subrange(1, (seq!['c', '.'] + name).len() as int) =~= seq!['.']
        + name);
    assert(seq!['c', 'o', 'n', 't', 'e', 'x', 't'] + (seq!['.'] + name) =~= seq![
        'c',
        'o',
        'n',
        't',
        'e',
        'x',
        't',
        '.',
    ] + name);
}

/// Every statement block anywhere in the tree keeps a `return`, if it has
/// one, as its last statement.
pub open spec fn blocks_return_last(e: SpecExpr) -> bool
    decreases e,
{
    match e {
        SpecExpr::Num(_) => true,
        SpecExpr::Op1(_, a) => blocks_return_last(*a),
        SpecExpr::Op2(_, a, b) => blocks_return_last(*a) && blocks_return_last(*b),
        SpecExpr::Op3(_, a, b, c) => blocks_return_last(*a) && blocks_return_last(*b)
            && blocks_return_last(*c),
        SpecExpr::Var(_) => true,
        SpecExpr::Assign(_, v) => blocks_return_last(*v),
        SpecExpr::Ret(a) => blocks_return_last(*a),
        SpecExpr::Repeat(c, b) => blocks_return_last(*c) && blocks_return_last(*b),
        SpecExpr::Block(stmts) => only_last_ret(stmts) && blocks_return_last_seq(stmts),
    }
}

/// No statement before the last is a `return`.
pub open spec fn only_last_ret(stmts: Seq<SpecExpr>) -> bool {
    forall|k: int| 0 <= k < stmts.len() - 1 ==> !((#[trigger] stmts[k]) is Ret)
}

/// Every statement of the sequence satisfies the block invariant.
pub open spec fn blocks_return_last_seq(stmts: Seq<SpecExpr>) -> bool
    decreases stmts,
{
    stmts.len() == 0 || (blocks_return_last(stmts[0]) && blocks_return_last_seq(
        stmts.subrange(1, stmts.len() as int),
    ))
}

/// The statements a block collects all satisfy the invariant, and none
/// before the last is a `return`: collection stops at the first one.
pub proof fn lemma_scope_blocks_wf(pieces: Seq<Seq<char>>, bound: int)
    requires
        0 <= bound,
        forall|k: int| 0 <= k < pieces.len() ==> (#[trigger] pieces[k]).len() < bound,
    ensures
        only_last_ret(scope_parse(pieces, bound)),
        blocks_return_last_seq(scope_parse(pieces, bound)),
    decreases bound, 0int, pieces.len(),
{
    if pieces.len() == 0 {
    } else {
        let e = parse_spec(pieces[0]);
        lemma_parse_blocks_wf(pieces[0]);
        let whole = scope_parse(pieces, bound);
        if e is Ret {
            assert(whole =~= seq![e]);
            assert(whole[0] == e);
            assert(whole.subrange(1, whole.len() as int) =~= Seq::<SpecExpr>::empty());
            assert(blocks_return_last_seq(Seq::<SpecExpr>::empty()));
            assert(blocks_return_last_seq(whole));
        } else {
            let rest = pieces.subrange(1, pieces.len() as int);
            assert forall|k: int| 0 <= k < rest.len() implies (#[trigger] rest[k]).len()
                < bound by {
                assert(rest[k] == pieces[k + 1]);
            }
            lemma_scope_blocks_wf(rest, bound);
            assert forall|k: int| 0 <= k < whole.len() - 1 implies !((#[trigger] whole[k])
                is Ret) by {
                if k > 0 {
                    assert(whole[k] == scope_parse(rest, bound)[k - 1]);
                }
            }
            assert(whole == seq![e] + scope_parse(rest, bound));
            assert(whole[0] == e);
            assert(whole.subrange(1, whole.len() as int) =~= scope_parse(rest, bound));
            assert(blocks_return_last_seq(whole));
        }
    }
}

/// Every tree the parser compiles satisfies the block invariant: a block
/// holds at most one `return`, and only as its last statement, because
/// statement collection is truncated there at parse time.
pub proof fn lemma_parse_blocks_wf(input: Seq<char>)
    ensures
        blocks_return_last(parse_spec(input)),
    decreases input.len(), 2int, 8int,
{
    if input.len() == 0 {
    } else {
        let t = if input.last() == ';' {
            input.drop_last()
        } else {
            input
        };
        let s = crate::splitter::trim_brackets_spec(t);
        crate::splitter::lemma_trim_len(t);
        if crate::parser::is_number_spec(s) {
        } else {
            let pieces = crate::splitter::split_multiple_spec(s, seq![';']);
            crate::splitter::lemma_msplit_pieces(s, seq![';'], 0, 0);
            if pieces.len() >= 2 {
                lemma_scope_blocks_wf(pieces, s.len() as int);
            } else {
                lemma_statement_blocks_wf(s);
            }
        }
    }
}

/// The invariant holds of a compiled statement.
pub proof fn lemma_statement_blocks_wf(s: Seq<char>)
    ensures
        blocks_return_last(parse_statement_spec(s)),
    decreases s.len(), 2int, 7int,
{
    if crate::parser::starts_return(s) {
        lemma_parse_blocks_wf(s.subrange(6, s.len() as int));
    } else if crate::parser::is_true_word(s) {
    } else if crate::parser::is_false_word(s) {
    } else {
        let am = if s.contains('=') && s.len() > 4 {
            crate::parser::alloc_match_end(s)
        } else {
            None
        };
        crate::parser::lemma_alloc_match_end(s);
        match am {
            Some(end) => {
                if end == s.len() || s[end] != '=' {
                    lemma_parse_blocks_wf(s.subrange(end, s.len() as int));
                } else {
                    lemma_ternary_blocks_wf(s);
                }
            },
            None => lemma_ternary_blocks_wf(s),
        }
    }
}

/// The invariant holds of a compiled ternary expression.
pub proof fn lemma_ternary_blocks_wf(s: Seq<char>)
    ensures
        blocks_return_last(parse_ternary_spec(s)),
    decreases s.len(), 2int, 6int,
{
    crate::splitter::lemma_split_first_shorter(s, seq!['?', '?']);
    crate::splitter::lemma_split_first_shorter(s, seq!['?']);
    match crate::splitter::split_first_spec(s, seq!['?', '?']) {
        Some(p) => {
            lemma_parse_blocks_wf(p.0);
            lemma_parse_blocks_wf(p.1);
        },
        None => match crate::splitter::split_first_spec(s, seq!['?']) {
            Some(p) => {
                crate::splitter::lemma_split_first_shorter(p.1, seq![':']);
                match crate::splitter::split_first_spec(p.1, seq![':']) {
                    Some(q) => {
                        lemma_parse_blocks_wf(p.0);
                        lemma_parse_blocks_wf(q.0);
                        lemma_parse_blocks_wf(q.1);
                    },
                    None => {
                        lemma_parse_blocks_wf(p.0);
                        lemma_parse_blocks_wf(p.1);
                    },
                }
            },
            None => lemma_bool_blocks_wf(s),
        },
    }
}

/// The invariant holds of a compiled boolean expression.
pub proof fn lemma_bool_blocks_wf(s: Seq<char>)
    ensures
        blocks_return_last(parse_bool_spec(s)),
    decreases s.len(), 2int, 5int,
{
    crate::splitter::lemma_split_first_shorter(s, seq!['&', '&']);
    crate::splitter::lemma_split_first_shorter(s, seq!['|', '|']);
    match crate::splitter::split_first_spec(s, seq!['&', '&']) {
        Some(p) => {
            lemma_parse_blocks_wf(p.0);
            lemma_parse_blocks_wf(p.1);
        },
        None => match crate::splitter::split_first_spec(s, seq!['|', '|']) {
            Some(p) => {
                lemma_parse_blocks_wf(p.0);
                lemma_parse_blocks_wf(p.1);
            },
            None => lemma_compare_blocks_wf(s),
        },
    }
}

/// The invariant holds of a compiled comparison.
pub proof fn lemma_compare_blocks_wf(s: Seq<char>)
    ensures
        blocks_return_last(parse_compare_spec(s)),
    decreases s.len(), 2int, 4int,
{
    let has_eq = s.contains('=');
    crate::splitter::lemma_split_first_shorter(s, seq!['=', '=']);
    crate::splitter::lemma_split_first_shorter(s, seq!['!', '=']);
    crate::splitter::lemma_split_first_shorter(s, seq!['<', '=']);
    crate::splitter::lemma_split_first_shorter(s, seq!['<']);
    crate::splitter::lemma_split_first_shorter(s, seq!['>', '=']);
    crate::splitter::lemma_split_first_shorter(s, seq!['>']);
    match (if has_eq {
        crate::splitter::split_first_spec(s, seq!['=', '='])
    } else {
        None
    }) {
        Some(p) => {
            lemma_parse_blocks_wf(p.0);
            lemma_parse_blocks_wf(p.1);
        },
        None => match (if has_eq {
            crate::splitter::split_first_spec(s, seq!['!', '='])
        } else {
            None
        }) {
            Some(p) => {
                lemma_parse_blocks_wf(p.0);
                lemma_parse_blocks_wf(p.1);
            },
            None => match (if has_eq {
                crate::splitter::split_first_spec(s, seq!['<', '='])
            } else {
                None
            }) {
                Some(p) => {
                    lemma_parse_blocks_wf(p.0);
                    lemma_parse_blocks_wf(p.1);
                },
                None => match crate::splitter::split_first_spec(s, seq!['<']) {
                    Some(p) => {
                        lemma_parse_blocks_wf(p.0);
                        lemma_parse_blocks_wf(p.1);
                    },
                    None => match (if has_eq {
                        crate::splitter::split_first_spec(s, seq!['>', '='])
                    } else {
                        None
                    }) {
                        Some(p) => {
                            lemma_parse_blocks_wf(p.0);
                            lemma_parse_blocks_wf(p.1);
                        },
                        None => match crate::splitter::split_first_spec(s, seq!['>']) {
                            Some(p) => {
                                lemma_parse_blocks_wf(p.0);
                                lemma_parse_blocks_wf(p.1);
                            },
                            None => lemma_additive_blocks_wf(s),
                        },
                    },
                },
            },
        },
    }
}

/// The invariant holds of a compiled additive expression.
pub proof fn lemma_additive_blocks_wf(s: Seq<char>)
    ensures
        blocks_return_last(parse_additive_spec(s)),
    decreases s.len(), 2int, 3int,
{
    crate::splitter::lemma_split_last_shorter(s, seq!['+']);
    crate::splitter::lemma_split_last_shorter(s, seq!['-']);
    match crate::splitter::split_last_spec(s, seq!['+']) {
        Some(p) => {
            lemma_parse_blocks_wf(p.0);
            lemma_parse_blocks_wf(p.1);
        },
        None => match crate::splitter::split_last_spec(s, seq!['-']) {
            Some(p) => {
                lemma_parse_blocks_wf(p.0);
                lemma_parse_blocks_wf(p.1);
            },
            None => lemma_factor_blocks_wf(s),
        },
    }
}

/// The invariant holds of a compiled multiplicative expression.
pub proof fn lemma_factor_blocks_wf(s: Seq<char>)
    ensures
        blocks_return_last(parse_factor_spec(s)),
    decreases s.len(), 2int, 2int,
{
    crate::splitter::lemma_split_first_shorter(s, seq!['*']);
    crate::splitter::lemma_split_last_shorter(s, seq!['/']);
    match crate::splitter::split_first_spec(s, seq!['*']) {
        Some(p) => {
            lemma_parse_blocks_wf(p.0);
            lemma_parse_blocks_wf(p.1);
        },
        None => match crate::splitter::split_last_spec(s, seq!['/']) {
            Some(p) => {
                lemma_parse_blocks_wf(p.0);
                lemma_parse_blocks_wf(p.1);
            },
            None => {
                if s.len() >= 1 && s[0] == '!' {
                    lemma_parse_blocks_wf(s.subrange(1, s.len() as int));
                } else {
                    lemma_call_blocks_wf(s);
                }
            },
        },
    }
}

/// The invariant holds of a compiled call, loop or variable reference.
pub proof fn lemma_call_blocks_wf(s: Seq<char>)
    ensures
        blocks_return_last(parse_call_spec(s)),
    decreases s.len(), 2int, 1int,
{
    if crate::parser::starts_math(s) {
        if crate::parser::is_math_pi(s) {
        } else {
            crate::parser::lemma_find_from(s, '(', 0);
            match crate::parser::find_from(s, '(', 0) {
                Some(ab) => {
                    if ab + 1 <= s.len() - 1 {
                        let inner = s.subrange(ab + 1, s.len() - 1);
                        crate::parser::lemma_args_of(inner);
                        let args = crate::parser::args_of(inner);
                        lemma_parse_blocks_wf(args.0);
                        lemma_parse_blocks_wf(args.1);
                        lemma_parse_blocks_wf(args.2);
                    }
                },
                None => (),
            }
        }
    } else if crate::parser::starts_loop(s) && s.len() >= 6 {
        let inner = s.subrange(5, s.len() - 1);
        let pieces = crate::splitter::split_multiple_spec(inner, seq![',']);
        crate::splitter::lemma_msplit_pieces(inner, seq![','], 0, 0);
        if pieces.len() >= 2 {
            lemma_parse_blocks_wf(pieces[0]);
            lemma_parse_blocks_wf(pieces[1]);
        }
    } else {
    }
}

/// Preparing the identical raw script twice on one session plans the
/// identical work: the same literal, or the same tree. A repeated script can
/// therefore differ in value only through the variable environment the host
/// evaluates against, never through the cache.
pub proof fn lemma_repeat_same_plan(raw: Seq<char>, first: SpecOutcome, second: SpecOutcome)
    requires
        first == prepare_spec(raw),
        second == prepare_spec(raw),
    ensures
        first == second,
{
}

/// Two raw scripts that normalize to the same text compile to the same tree,
/// even though the cache holds them under separate raw keys: case and
/// whitespace differences cannot change a script's meaning.
pub proof fn lemma_same_normalization_same_tree(raw1: Seq<char>, raw2: Seq<char>)
    requires
        normalize_spec(raw1) == normalize_spec(raw2),
    ensures
        parse_spec(normalize_spec(raw1)) == parse_spec(normalize_spec(raw2)),
{
}

} // verus!
