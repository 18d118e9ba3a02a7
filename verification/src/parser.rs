//! The recursive-descent parser: a normalized script string becomes an
//! expression tree directly, by substring splitting, without a token stream.
//! The grammar is the fixed precedence ladder of `parse_spec`.
use vstd::prelude::*;

use crate::ast::Expression;
use crate::ast::OperationType;
use crate::ast::SpecExpr;
use crate::text::copy_text;
use crate::text::exec_is_digit;
use crate::text::exec_is_word_char;
use crate::text::is_digit_char;
use crate::text::is_word_char;
use crate::text::subvec;

verus! {

/// The end of the run of digits that begins at `j` and may reach `end`.
pub open spec fn digit_run_end(s: Seq<char>, j: int, end: int) -> int
    decreases end - j,
{
    if j < 0 || j >= end || end > s.len() {
        j
    } else if is_digit_char(s[j]) {
        digit_run_end(s, j + 1, end)
    } else {
        j
    }
}

/// Digits, optionally followed by a point and more digits, filling
/// `start .. end` entirely.
pub open spec fn number_core(s: Seq<char>, start: int, end: int) -> bool {
    let j = digit_run_end(s, start, end);
    &&& j > start
    &&& (j == end || (j < end && s[j] == '.' && j + 1 < end && digit_run_end(s, j + 1, end) == end))
}

/// The numeric-literal pattern: an optional sign, digits, an optional
/// fractional part, an optional trailing unit marker `f`.
pub open spec fn is_number_spec(s: Seq<char>) -> bool {
    let start = if s.len() > 0 && s[0] == '-' {
        1int
    } else {
        0int
    };
    let end = if s.len() > start && s[s.len() - 1] == 'f' {
        s.len() - 1
    } else {
        s.len() as int
    };
    number_core(s, start, end)
}

/// The text with every unit marker `f` removed.
pub open spec fn strip_f_spec(s: Seq<char>) -> Seq<char>
    decreases s.len(),
{
    if s.len() == 0 {
        Seq::empty()
    } else {
        let rest = strip_f_spec(s.drop_last());
        if s.last() == 'f' {
            rest
        } else {
            rest.push(s.last())
        }
    }
}

/// Whether the text matches the numeric-literal pattern.
pub fn is_string_number(s: &Vec<char>) -> (r: bool)
    ensures
        r == is_number_spec(s@),
{
    let n = s.len();
    let start: usize = if n > 0 && s[0] == '-' {
        1
    } else {
        0
    };
    let end: usize = if n > start && s[n - 1] == 'f' {
        n - 1
    } else {
        n
    };
    let mut j: usize = start;
    while j < end && exec_is_digit(s[j])
        invariant
            start <= j <= end <= n,
            n == s@.len(),
            digit_run_end(s@, start as int, end as int) == digit_run_end(s@, j as int, end as int),
        decreases end - j,
    {
        j += 1;
    }
    assert(digit_run_end(s@, j as int, end as int) == j);
    if j == start {
        return false;
    }
    if j == end {
        return true;
    }
    if s[j] != '.' || j + 1 >= end {
        return false;
    }
    let mut k: usize = j + 1;
    while k < end && exec_is_digit(s[k])
        invariant
            j + 1 <= k <= end <= n,
            n == s@.len(),
            digit_run_end(s@, j + 1, end as int) == digit_run_end(s@, k as int, end as int),
        decreases end - k,
    {
        k += 1;
    }
    assert(digit_run_end(s@, k as int, end as int) == k);
    k == end
}

/// Removes every unit marker `f` from a numeric literal's text.
pub fn strip_f(s: &Vec<char>) -> (r: Vec<char>)
    ensures
        r@ == strip_f_spec(s@),
{
    let mut out: Vec<char> = Vec::new();
    let mut i: usize = 0;
    while i < s.len()
        invariant
            i <= s@.len(),
            out@ == strip_f_spec(s@.take(i as int)),
        decreases s.len() - i,
    {
        proof {
            assert(s@.take(i + 1).drop_last() =~= s@.take(i as int));
            assert(s@.take(i + 1).last() == s@[i as int]);
        }
        if s[i] != 'f' {
            out.push(s[i]);
        }
        i += 1;
    }
    proof {
        assert(s@.take(s@.len() as int) =~= s@);
    }
    out
}

/// Resolves a one-letter namespace alias at the start of a variable name:
/// `q.` to `query.`, `v.` to `variable.`, `t.` to `temp.`, `c.` to
/// `context.`; any other name is unchanged.
pub open spec fn to_variable_name_spec(s: Seq<char>) -> Seq<char> {
    if s.len() >= 2 && s[1] == '.' {
        if s[0] == 'q' {
            seq!['q', 'u', 'e', 'r', 'y'] + s.subrange(1, s.len() as int)
        } else if s[0] == 'v' {
            seq!['v', 'a', 'r', 'i', 'a', 'b', 'l', 'e'] + s.subrange(1, s.len() as int)
        } else if s[0] == 't' {
            seq!['t', 'e', 'm', 'p'] + s.subrange(1, s.len() as int)
        } else if s[0] == 'c' {
            seq!['c', 'o', 'n', 't', 'e', 'x', 't'] + s.subrange(1, s.len() as int)
        } else {
            s
        }
    } else {
        s
    }
}

/// Resolves a namespace alias, leaving every other name unchanged.
pub fn to_variable_name(s: &Vec<char>) -> (r: Vec<char>)
    ensures
        r@ == to_variable_name_spec(s@),
{
    if s.len() >= 2 && s[1] == '.' {
        let c = s[0];
        if c == 'q' || c == 'v' || c == 't' || c == 'c' {
            let mut out: Vec<char> = Vec::new();
            if c == 'q' {
                out.push('q');
                out.push('u');
                out.push('e');
                out.push('r');
                out.push('y');
            } else if c == 'v' {
                out.push('v');
                out.push('a');
                out.push('r');
                out.push('i');
                out.push('a');
                out.push('b');
                out.push('l');
                out.push('e');
            } else if c == 't' {
                out.push('t');
                out.push('e');
                out.push('m');
                out.push('p');
            } else {
                out.push('c');
                out.push('o');
                out.push('n');
                out.push('t');
                out.push('e');
                out.push('x');
                out.push('t');
            }
            let mut tail = subvec(s, 1, s.len());
            out.append(&mut tail);
            proof {
                assert(out@ =~= to_variable_name_spec(s@));
            }
            out
        } else {
            copy_text(s)
        }
    } else {
        copy_text(s)
    }
}

/// The end of the run of word characters that begins at `j`.
pub open spec fn word_run_end(s: Seq<char>, j: int) -> int
    decreases s.len() - j,
{
    if j < 0 || j >= s.len() {
        j
    } else if is_word_char(s[j]) {
        word_run_end(s, j + 1)
    } else {
        j
    }
}

/// The length of the assignment namespace prefix at the start of the text
/// (`temp.`, `variable.`, `t.` or `v.`), or zero if none stands there. Only
/// these four forms may be assigned to.
pub open spec fn alloc_prefix_len(s: Seq<char>) -> int {
    if s.len() >= 5 && s[0] == 't' && s[1] == 'e' && s[2] == 'm' && s[3] == 'p' && s[4] == '.' {
        5
    } else if s.len() >= 9 && s[0] == 'v' && s[1] == 'a' && s[2] == 'r' && s[3] == 'i' && s[4]
        == 'a' && s[5] == 'b' && s[6] == 'l' && s[7] == 'e' && s[8] == '.' {
        9
    } else if s.len() >= 2 && s[0] == 't' && s[1] == '.' {
        2
    } else if s.len() >= 2 && s[0] == 'v' && s[1] == '.' {
        2
    } else {
        0
    }
}

/// Where the assignment target ends, one past its `=`: the text must open
/// with a namespace prefix, a nonempty identifier, and an equals sign.
pub open spec fn alloc_match_end(s: Seq<char>) -> Option<int> {
    let p = alloc_prefix_len(s);
    if p > 0 {
        let w = word_run_end(s, p);
        if w > p && w < s.len() && s[w] == '=' {
            Some(w + 1)
        } else {
            None
        }
    } else {
        None
    }
}

/// A word run neither moves backward nor leaves the text.
pub proof fn lemma_word_run_end(s: Seq<char>, j: int)
    requires
        0 <= j <= s.len(),
    ensures
        j <= word_run_end(s, j) <= s.len(),
    decreases s.len() - j,
{
    if j < s.len() && is_word_char(s[j]) {
        lemma_word_run_end(s, j + 1);
    }
}

/// A matched assignment target ends after position four and within the text.
pub proof fn lemma_alloc_match_end(s: Seq<char>)
    ensures
        alloc_match_end(s) matches Some(e) ==> 4 <= e <= s.len(),
{
    if alloc_prefix_len(s) > 0 {
        lemma_word_run_end(s, alloc_prefix_len(s));
    }
}

/// Finds the assignment target at the start of the text, returning the
/// position one past its `=`.
pub fn alloc_match(s: &Vec<char>) -> (r: Option<usize>)
    ensures
        match r {
            Some(e) => alloc_match_end(s@) == Some(e as int),
            None => alloc_match_end(s@) is None,
        },
{
    let n = s.len();
    let p: usize = if n >= 5 && s[0] == 't' && s[1] == 'e' && s[2] == 'm' && s[3] == 'p' && s[4]
        == '.' {
        5
    } else if n >= 9 && s[0] == 'v' && s[1] == 'a' && s[2] == 'r' && s[3] == 'i' && s[4] == 'a'
        && s[5] == 'b' && s[6] == 'l' && s[7] == 'e' && s[8] == '.' {
        9
    } else if n >= 2 && s[0] == 't' && s[1] == '.' {
        2
    } else if n >= 2 && s[0] == 'v' && s[1] == '.' {
        2
    } else {
        0
    };
    if p == 0 {
        return None;
    }
    assert(p == alloc_prefix_len(s@));
    let mut w: usize = p;
    while w < n && exec_is_word_char(s[w])
        invariant
            p <= w <= n,
            n == s@.len(),
            word_run_end(s@, p as int) == word_run_end(s@, w as int),
        decreases n - w,
    {
        w += 1;
    }
    assert(word_run_end(s@, w as int) == w);
    if w > p && w < n && s[w] == '=' {
        Some(w + 1)
    } else {
        None
    }
}

/// Whether the text holds an equals sign anywhere.
pub fn contains_eq(s: &Vec<char>) -> (r: bool)
    ensures
        r == s@.contains('='),
{
    let mut i: usize = 0;
    while i < s.len()
        invariant
            i <= s@.len(),
            forall|j: int| 0 <= j < i ==> s@[j] != '=',
        decreases s.len() - i,
    {
        if s[i] == '=' {
            return true;
        }
        i += 1;
    }
    false
}

/// The first position of `c` at or after `j`, ignoring nesting.
pub open spec fn find_from(s: Seq<char>, c: char, j: int) -> Option<int>
    decreases s.len() - j,
{
    if j < 0 || j >= s.len() {
        None
    } else if s[j] == c {
        Some(j)
    } else {
        find_from(s, c, j + 1)
    }
}

/// Finds the first occurrence of `c`, ignoring nesting.
pub fn find_char(s: &Vec<char>, c: char) -> (r: Option<usize>)
    ensures
        match r {
            Some(i) => find_from(s@, c, 0) == Some(i as int),
            None => find_from(s@, c, 0) is None,
        },
{
    let mut i: usize = 0;
    while i < s.len()
        invariant
            i <= s@.len(),
            find_from(s@, c, 0) == find_from(s@, c, i as int),
        decreases s.len() - i,
    {
        if s[i] == c {
            return Some(i);
        }
        i += 1;
    }
    None
}

/// A found position carries its character and no earlier occurrence.
pub proof fn lemma_find_from(s: Seq<char>, c: char, j: int)
    ensures
        find_from(s, c, j) matches Some(i) ==> j <= i < s.len() && s[i] == c && forall|k: int|
            j <= k < i ==> s[k] != c,
    decreases s.len() - j,
{
    if j < 0 || j >= s.len() {
    } else if s[j] == c {
    } else {
        lemma_find_from(s, c, j + 1);
    }
}

/// The text of the zero literal, to which empty and malformed fragments fall.
pub open spec fn zero_text() -> Seq<char> {
    seq!['0']
}

/// The text of the one literal, the value of `true`.
pub open spec fn one_text() -> Seq<char> {
    seq!['1']
}

/// The text of the circle constant, as the shortest decimal that converts
/// back to the same double-precision value.
pub open spec fn pi_text() -> Seq<char> {
    seq!['3', '.', '1', '4', '1', '5', '9', '2', '6', '5', '3', '5', '8', '9', '7', '9', '3']
}

/// The operation and arity a math-library function name stands for.
pub open spec fn math_kind(m: Seq<char>) -> Option<(OperationType, int)> {
    if m.len() == 2 && m[0] == 'l' && m[1] == 'n' {
        Some((OperationType::Ln, 1))
    } else if m.len() == 3 && m[0] == 'a' && m[1] == 'b' && m[2] == 's' {
        Some((OperationType::Abs, 1))
    } else if m.len() == 3 && m[0] == 's' && m[1] == 'i' && m[2] == 'n' {
        Some((OperationType::Sin, 1))
    } else if m.len() == 3 && m[0] == 'c' && m[1] == 'o' && m[2] == 's' {
        Some((OperationType::Cos, 1))
    } else if m.len() == 3 && m[0] == 'e' && m[1] == 'x' && m[2] == 'p' {
        Some((OperationType::Exp, 1))
    } else if m.len() == 3 && m[0] == 'p' && m[1] == 'o' && m[2] == 'w' {
        Some((OperationType::Pow, 2))
    } else if m.len() == 3 && m[0] == 'm' && m[1] == 'o' && m[2] == 'd' {
        Some((OperationType::Modulo, 2))
    } else if m.len() == 3 && m[0] == 'm' && m[1] == 'i' && m[2] == 'n' {
        Some((OperationType::Min, 2))
    } else if m.len() == 3 && m[0] == 'm' && m[1] == 'a' && m[2] == 'x' {
        Some((OperationType::Max, 2))
    } else if m.len() == 4 && m[0] == 's' && m[1] == 'q' && m[2] == 'r' && m[3] == 't' {
        Some((OperationType::Sqrt, 1))
    } else if m.len() == 4 && m[0] == 'c' && m[1] == 'e' && m[2] == 'i' && m[3] == 'l' {
        Some((OperationType::Ceil, 1))
    } else if m.len() == 4 && m[0] == 'l' && m[1] == 'e' && m[2] == 'r' && m[3] == 'p' {
        Some((OperationType::Lerp, 3))
    } else if m.len() == 4 && m[0] == 'a' && m[1] == 's' && m[2] == 'i' && m[3] == 'n' {
        Some((OperationType::Asin, 1))
    } else if m.len() == 4 && m[0] == 'a' && m[1] == 'c' && m[2] == 'o' && m[3] == 's' {
        Some((OperationType::Acos, 1))
    } else if m.len() == 4 && m[0] == 'a' && m[1] == 't' && m[2] == 'a' && m[3] == 'n' {
        Some((OperationType::Atan, 1))
    } else if m.len() == 5 && m[0] == 'r' && m[1] == 'o' && m[2] == 'u' && m[3] == 'n' && m[4]
        == 'd' {
        Some((OperationType::Round, 1))
    } else if m.len() == 5 && m[0] == 't' && m[1] == 'r' && m[2] == 'u' && m[3] == 'n' && m[4]
        == 'c' {
        Some((OperationType::Trunc, 1))
    } else if m.len() == 5 && m[0] == 'f' && m[1] == 'l' && m[2] == 'o' && m[3] == 'o' && m[4]
        == 'r' {
        Some((OperationType::Floor, 1))
    } else if m.len() == 5 && m[0] == 'c' && m[1] == 'l' && m[2] == 'a' && m[3] == 'm' && m[4]
        == 'p' {
        Some((OperationType::Clamp, 3))
    } else if m.len() == 5 && m[0] == 'a' && m[1] == 't' && m[2] == 'a' && m[3] == 'n' && m[4]
        == '2' {
        Some((OperationType::Atan2, 2))
    } else if m.len() == 6 && m[0] == 'r' && m[1] == 'a' && m[2] == 'n' && m[3] == 'd' && m[4]
        == 'o' && m[5] == 'm' {
        Some((OperationType::Random, 2))
    } else if m.len() == 8 && m[0] == 'd' && m[1] == 'i' && m[2] == 'e' && m[3] == '_' && m[4]
        == 'r' && m[5] == 'o' && m[6] == 'l' && m[7] == 'l' {
        Some((OperationType::Dieroll, 3))
    } else if m.len() == 10 && m[0] == 'l' && m[1] == 'e' && m[2] == 'r' && m[3] == 'p' && m[4]
        == 'r' && m[5] == 'o' && m[6] == 't' && m[7] == 'a' && m[8] == 't' && m[9] == 'e' {
        Some((OperationType::Lerprotate, 3))
    } else if m.len() == 13 && m[0] == 'h' && m[1] == 'e' && m[2] == 'r' && m[3] == 'm' && m[4]
        == 'i' && m[5] == 't' && m[6] == 'e' && m[7] == '_' && m[8] == 'b' && m[9] == 'l' && m[10]
        == 'e' && m[11] == 'n' && m[12] == 'd' {
        Some((OperationType::HermiteBlend, 1))
    } else if m.len() == 14 && m[0] == 'r' && m[1] == 'a' && m[2] == 'n' && m[3] == 'd' && m[4]
        == 'o' && m[5] == 'm' && m[6] == '_' && m[7] == 'i' && m[8] == 'n' && m[9] == 't' && m[10]
        == 'e' && m[11] == 'g' && m[12] == 'e' && m[13] == 'r' {
        Some((OperationType::RandomInt, 2))
    } else if m.len() == 16 && m[0] == 'd' && m[1] == 'i' && m[2] == 'e' && m[3] == '_' && m[4]
        == 'r' && m[5] == 'o' && m[6] == 'l' && m[7] == 'l' && m[8] == '_' && m[9] == 'i' && m[10]
        == 'n' && m[11] == 't' && m[12] == 'e' && m[13] == 'g' && m[14] == 'e' && m[15] == 'r' {
        Some((OperationType::DierollInt, 3))
    } else {
        None
    }
}

/// The text starts with `return`.
pub open spec fn starts_return(s: Seq<char>) -> bool {
    s.len() >= 6 && s[0] == 'r' && s[1] == 'e' && s[2] == 't' && s[3] == 'u' && s[4] == 'r' && s[5]
        == 'n'
}

/// The text is exactly `true`.
pub open spec fn is_true_word(s: Seq<char>) -> bool {
    s.len() == 4 && s[0] == 't' && s[1] == 'r' && s[2] == 'u' && s[3] == 'e'
}

/// The text is exactly `false`.
pub open spec fn is_false_word(s: Seq<char>) -> bool {
    s.len() == 5 && s[0] == 'f' && s[1] == 'a' && s[2] == 'l' && s[3] == 's' && s[4] == 'e'
}

/// The text starts with `math.`.
pub open spec fn starts_math(s: Seq<char>) -> bool {
    s.len() >= 5 && s[0] == 'm' && s[1] == 'a' && s[2] == 't' && s[3] == 'h' && s[4] == '.'
}

/// The text is exactly `math.pi`.
pub open spec fn is_math_pi(s: Seq<char>) -> bool {
    s.len() == 7 && starts_math(s) && s[5] == 'p' && s[6] == 'i'
}

/// The text starts with `loop(`.
pub open spec fn starts_loop(s: Seq<char>) -> bool {
    s.len() >= 5 && s[0] == 'l' && s[1] == 'o' && s[2] == 'o' && s[3] == 'p' && s[4] == '('
}

/// What a normalized fragment compiles to. This precedence ladder, from
/// loosest to tightest binding, is the grammar: empty text is the zero
/// literal; one trailing statement separator and fully enclosing brackets are
/// stripped; a numeric literal stands for itself; several statements become a
/// block; then statements, operators by precedence, math calls, loops, and
/// finally a variable reference.
pub open spec fn parse_spec(input: Seq<char>) -> SpecExpr
    decreases input.len(), 2int, 8int,
{
    if input.len() == 0 {
        SpecExpr::Num(zero_text())
    } else {
        let t = if input.last() == ';' {
            input.drop_last()
        } else {
            input
        };
        let s = crate::splitter::trim_brackets_spec(t);
        proof {
            crate::splitter::lemma_trim_len(t);
        }
        if is_number_spec(s) {
            SpecExpr::Num(strip_f_spec(s))
        } else {
            let pieces = crate::splitter::split_multiple_spec(s, seq![';']);
            proof {
                crate::splitter::lemma_msplit_pieces(s, seq![';'], 0, 0);
            }
            if pieces.len() >= 2 {
                SpecExpr::Block(scope_parse(pieces, s.len() as int))
            } else {
                parse_statement_spec(s)
            }
        }
    }
}

/// The statements of a block, each compiled in order, the collection stopping
/// at the first `return`.
pub open spec fn scope_parse(pieces: Seq<Seq<char>>, bound: int) -> Seq<SpecExpr>
    decreases bound, 0int, pieces.len()
        when 0 <= bound && (forall|k: int| 0 <= k < pieces.len() ==> (#[trigger] pieces[k]).len()
            < bound)
{
    if pieces.len() == 0 {
        Seq::empty()
    } else {
        let e = parse_spec(pieces[0]);
        if e is Ret {
            seq![e]
        } else {
            seq![e] + scope_parse(pieces.subrange(1, pieces.len() as int), bound)
        }
    }
}

/// A single statement: a `return`, a boolean keyword, an assignment to one of
/// the four writable namespace forms, or an operator expression.
pub open spec fn parse_statement_spec(s: Seq<char>) -> SpecExpr
    decreases s.len(), 2int, 7int,
{
    if starts_return(s) {
        SpecExpr::Ret(Box::new(parse_spec(s.subrange(6, s.len() as int))))
    } else if is_true_word(s) {
        SpecExpr::Num(one_text())
    } else if is_false_word(s) {
        SpecExpr::Num(zero_text())
    } else {
        let am = if s.contains('=') && s.len() > 4 {
            alloc_match_end(s)
        } else {
            None
        };
        proof {
            lemma_alloc_match_end(s);
        }
        match am {
            Some(end) => {
                if end == s.len() || s[end] != '=' {
                    SpecExpr::Assign(
                        to_variable_name_spec(s.subrange(0, end - 1)),
                        Box::new(parse_spec(s.subrange(end, s.len() as int))),
                    )
                } else {
                    parse_ternary_spec(s)
                }
            },
            None => parse_ternary_spec(s),
        }
    }
}

/// The operator ladder begins with null coalescing and the ternary forms.
pub open spec fn parse_ternary_spec(s: Seq<char>) -> SpecExpr
    decreases s.len(), 2int, 6int,
{
    proof {
        crate::splitter::lemma_split_first_shorter(s, seq!['?', '?']);
        crate::splitter::lemma_split_first_shorter(s, seq!['?']);
    }
    match crate::splitter::split_first_spec(s, seq!['?', '?']) {
        Some(p) => SpecExpr::Op2(
            OperationType::NullCoalescing,
            Box::new(parse_spec(p.0)),
            Box::new(parse_spec(p.1)),
        ),
        None => match crate::splitter::split_first_spec(s, seq!['?']) {
            Some(p) => {
                proof {
                    crate::splitter::lemma_split_first_shorter(p.1, seq![':']);
                }
                match crate::splitter::split_first_spec(p.1, seq![':']) {
                    Some(q) => SpecExpr::Op3(
                        OperationType::Ternary,
                        Box::new(parse_spec(p.0)),
                        Box::new(parse_spec(q.0)),
                        Box::new(parse_spec(q.1)),
                    ),
                    None => SpecExpr::Op2(
                        OperationType::Ternary,
                        Box::new(parse_spec(p.0)),
                        Box::new(parse_spec(p.1)),
                    ),
                }
            },
            None => parse_bool_spec(s),
        },
    }
}

/// The boolean operators.
pub open spec fn parse_bool_spec(s: Seq<char>) -> SpecExpr
    decreases s.len(), 2int, 5int,
{
    proof {
        crate::splitter::lemma_split_first_shorter(s, seq!['&', '&']);
        crate::splitter::lemma_split_first_shorter(s, seq!['|', '|']);
    }
    match crate::splitter::split_first_spec(s, seq!['&', '&']) {
        Some(p) => SpecExpr::Op2(
            OperationType::And,
            Box::new(parse_spec(p.0)),
            Box::new(parse_spec(p.1)),
        ),
        None => match crate::splitter::split_first_spec(s, seq!['|', '|']) {
            Some(p) => SpecExpr::Op2(
                OperationType::Or,
                Box::new(parse_spec(p.0)),
                Box::new(parse_spec(p.1)),
            ),
            None => parse_compare_spec(s),
        },
    }
}

/// The comparison operators. The two-character comparisons that contain an
/// equals sign are only tried when one occurs somewhere in the fragment.
pub open spec fn parse_compare_spec(s: Seq<char>) -> SpecExpr
    decreases s.len(), 2int, 4int,
{
    let has_eq = s.contains('=');
    proof {
        crate::splitter::lemma_split_first_shorter(s, seq!['=', '=']);
        crate::splitter::lemma_split_first_shorter(s, seq!['!', '=']);
        crate::splitter::lemma_split_first_shorter(s, seq!['<', '=']);
        crate::splitter::lemma_split_first_shorter(s, seq!['<']);
        crate::splitter::lemma_split_first_shorter(s, seq!['>', '=']);
        crate::splitter::lemma_split_first_shorter(s, seq!['>']);
    }
    match (if has_eq {
        crate::splitter::split_first_spec(s, seq!['=', '='])
    } else {
        None
    }) {
        Some(p) => SpecExpr::Op2(
            OperationType::Equal,
            Box::new(parse_spec(p.0)),
            Box::new(parse_spec(p.1)),
        ),
        None => match (if has_eq {
            crate::splitter::split_first_spec(s, seq!['!', '='])
        } else {
            None
        }) {
            Some(p) => SpecExpr::Op2(
                OperationType::Unequal,
                Box::new(parse_spec(p.0)),
                Box::new(parse_spec(p.1)),
            ),
            None => match (if has_eq {
                crate::splitter::split_first_spec(s, seq!['<', '='])
            } else {
                None
            }) {
                Some(p) => SpecExpr::Op2(
                    OperationType::SmallerEqual,
                    Box::new(parse_spec(p.0)),
                    Box::new(parse_spec(p.1)),
                ),
                None => match crate::splitter::split_first_spec(s, seq!['<']) {
                    Some(p) => SpecExpr::Op2(
                        OperationType::Smaller,
                        Box::new(parse_spec(p.0)),
                        Box::new(parse_spec(p.1)),
                    ),
                    None => match (if has_eq {
                        crate::splitter::split_first_spec(s, seq!['>', '='])
                    } else {
                        None
                    }) {
                        Some(p) => SpecExpr::Op2(
                            OperationType::LargerEqual,
                            Box::new(parse_spec(p.0)),
                            Box::new(parse_spec(p.1)),
                        ),
                        None => match crate::splitter::split_first_spec(s, seq!['>']) {
                            Some(p) => SpecExpr::Op2(
                                OperationType::Larger,
                                Box::new(parse_spec(p.0)),
                                Box::new(parse_spec(p.1)),
                            ),
                            None => parse_additive_spec(s),
                        },
                    },
                },
            },
        },
    }
}

/// The additive operators, split on their last top-level occurrence for left
/// associativity; an empty left operand of `-` is a unary negation.
pub open spec fn parse_additive_spec(s: Seq<char>) -> SpecExpr
    decreases s.len(), 2int, 3int,
{
    proof {
        crate::splitter::lemma_split_last_shorter(s, seq!['+']);
        crate::splitter::lemma_split_last_shorter(s, seq!['-']);
    }
    match crate::splitter::split_last_spec(s, seq!['+']) {
        Some(p) => SpecExpr::Op2(
            OperationType::Add,
            Box::new(parse_spec(p.0)),
            Box::new(parse_spec(p.1)),
        ),
        None => match crate::splitter::split_last_spec(s, seq!['-']) {
            Some(p) => {
                if p.0.len() == 0 {
                    SpecExpr::Op1(OperationType::Invert, Box::new(parse_spec(p.1)))
                } else {
                    SpecExpr::Op2(
                        OperationType::Subtract,
                        Box::new(parse_spec(p.0)),
                        Box::new(parse_spec(p.1)),
                    )
                }
            },
            None => parse_factor_spec(s),
        },
    }
}

/// The multiplicative operators (`/` splits on its last occurrence for left
/// associativity) and the boolean-negation prefix.
pub open spec fn parse_factor_spec(s: Seq<char>) -> SpecExpr
    decreases s.len(), 2int, 2int,
{
    proof {
        crate::splitter::lemma_split_first_shorter(s, seq!['*']);
        crate::splitter::lemma_split_last_shorter(s, seq!['/']);
    }
    match crate::splitter::split_first_spec(s, seq!['*']) {
        Some(p) => SpecExpr::Op2(
            OperationType::Multiply,
            Box::new(parse_spec(p.0)),
            Box::new(parse_spec(p.1)),
        ),
        None => match crate::splitter::split_last_spec(s, seq!['/']) {
            Some(p) => SpecExpr::Op2(
                OperationType::Divide,
                Box::new(parse_spec(p.0)),
                Box::new(parse_spec(p.1)),
            ),
            None => {
                if s.len() >= 1 && s[0] == '!' {
                    SpecExpr::Op1(
                        OperationType::Negate,
                        Box::new(parse_spec(s.subrange(1, s.len() as int))),
                    )
                } else {
                    parse_call_spec(s)
                }
            },
        },
    }
}

/// The first two argument pieces of a call and the remainder: arguments are
/// comma-split at the top level, a third argument absorbing everything after
/// the second comma.
pub open spec fn args_of(inner: Seq<char>) -> (Seq<char>, Seq<char>, Seq<char>) {
    match crate::splitter::split_first_spec(inner, seq![',']) {
        Some(p) => match crate::splitter::split_first_spec(p.1, seq![',']) {
            Some(q) => (p.0, q.0, q.1),
            None => (p.0, p.1, Seq::empty()),
        },
        None => (inner, Seq::empty(), Seq::empty()),
    }
}

/// Every argument piece is shorter than the argument text plus one.
pub proof fn lemma_args_of(inner: Seq<char>)
    ensures
        args_of(inner).0.len() <= inner.len(),
        args_of(inner).1.len() <= inner.len(),
        args_of(inner).2.len() <= inner.len(),
{
    crate::splitter::lemma_split_first_shorter(inner, seq![',']);
    match crate::splitter::split_first_spec(inner, seq![',']) {
        Some(p) => {
            crate::splitter::lemma_split_first_shorter(p.1, seq![',']);
        },
        None => (),
    }
}

/// A math-library call, a bounded loop, or — for anything else — a variable
/// reference. A malformed call (no argument list, an unknown name, or a
/// dangling opening parenthesis) yields the zero literal; a loop with fewer
/// than two pieces falls through to the variable reference.
pub open spec fn parse_call_spec(s: Seq<char>) -> SpecExpr
    decreases s.len(), 2int, 1int,
{
    if starts_math(s) {
        if is_math_pi(s) {
            SpecExpr::Num(pi_text())
        } else {
            proof {
                lemma_find_from(s, '(', 0);
            }
            match find_from(s, '(', 0) {
                Some(ab) => {
                    if ab + 1 <= s.len() - 1 {
                        let name = s.subrange(5, ab);
                        let inner = s.subrange(ab + 1, s.len() - 1);
                        proof {
                            lemma_args_of(inner);
                        }
                        let args = args_of(inner);
                        match math_kind(name) {
                            Some((op, arity)) => {
                                if arity == 1 {
                                    SpecExpr::Op1(op, Box::new(parse_spec(args.0)))
                                } else if arity == 2 {
                                    SpecExpr::Op2(
                                        op,
                                        Box::new(parse_spec(args.0)),
                                        Box::new(parse_spec(args.1)),
                                    )
                                } else {
                                    SpecExpr::Op3(
                                        op,
                                        Box::new(parse_spec(args.0)),
                                        Box::new(parse_spec(args.1)),
                                        Box::new(parse_spec(args.2)),
                                    )
                                }
                            },
                            None => SpecExpr::Num(zero_text()),
                        }
                    } else {
                        SpecExpr::Num(zero_text())
                    }
                },
                None => SpecExpr::Num(zero_text()),
            }
        }
    } else if starts_loop(s) && s.len() >= 6 {
        let inner = s.subrange(5, s.len() - 1);
        let pieces = crate::splitter::split_multiple_spec(inner, seq![',']);
        proof {
            crate::splitter::lemma_msplit_pieces(inner, seq![','], 0, 0);
        }
        if pieces.len() >= 2 {
            SpecExpr::Repeat(Box::new(parse_spec(pieces[0])), Box::new(parse_spec(pieces[1])))
        } else {
            SpecExpr::Var(to_variable_name_spec(s))
        }
    } else {
        SpecExpr::Var(to_variable_name_spec(s))
    }
}

/// A one-character operator token.
fn op_chars_1(a: char) -> (r: Vec<char>)
    ensures
        r@ == seq![a],
{
    let mut v: Vec<char> = Vec::new();
    v.push(a);
    proof {
        assert(v@ =~= seq![a]);
    }
    v
}

/// A two-character operator token.
fn op_chars_2(a: char, b: char) -> (r: Vec<char>)
    ensures
        r@ == seq![a, b],
{
    let mut v: Vec<char> = Vec::new();
    v.push(a);
    v.push(b);
    proof {
        assert(v@ =~= seq![a, b]);
    }
    v
}

/// The text of the zero literal.
fn zero_chars() -> (r: Vec<char>)
    ensures
        r@ == zero_text(),
{
    op_chars_1('0')
}

/// The text of the one literal.
fn one_chars() -> (r: Vec<char>)
    ensures
        r@ == one_text(),
{
    op_chars_1('1')
}

/// The text of the circle constant.
fn pi_chars() -> (r: Vec<char>)
    ensures
        r@ == pi_text(),
{
    let mut v: Vec<char> = Vec::new();
    v.push('3');
    v.push('.');
    v.push('1');
    v.push('4');
    v.push('1');
    v.push('5');
    v.push('9');
    v.push('2');
    v.push('6');
    v.push('5');
    v.push('3');
    v.push('5');
    v.push('8');
    v.push('9');
    v.push('7');
    v.push('9');
    v.push('3');
    proof {
        assert(v@ =~= pi_text());
    }
    v
}

/// Maps a math-library function name to its operation and arity.
fn exec_math_kind(m: &Vec<char>) -> (r: Option<(OperationType, usize)>)
    ensures
        match r {
            Some(p) => math_kind(m@) == Some((p.0, p.1 as int)),
            None => math_kind(m@) is None,
        },
{
    let n = m.len();
    if n == 2 && m[0] == 'l' && m[1] == 'n' {
        Some((OperationType::Ln, 1))
    } else if n == 3 && m[0] == 'a' && m[1] == 'b' && m[2] == 's' {
        Some((OperationType::Abs, 1))
    } else if n == 3 && m[0] == 's' && m[1] == 'i' && m[2] == 'n' {
        Some((OperationType::Sin, 1))
    } else if n == 3 && m[0] == 'c' && m[1] == 'o' && m[2] == 's' {
        Some((OperationType::Cos, 1))
    } else if n == 3 && m[0] == 'e' && m[1] == 'x' && m[2] == 'p' {
        Some((OperationType::Exp, 1))
    } else if n == 3 && m[0] == 'p' && m[1] == 'o' && m[2] == 'w' {
        Some((OperationType::Pow, 2))
    } else if n == 3 && m[0] == 'm' && m[1] == 'o' && m[2] == 'd' {
        Some((OperationType::Modulo, 2))
    } else if n == 3 && m[0] == 'm' && m[1] == 'i' && m[2] == 'n' {
        Some((OperationType::Min, 2))
    } else if n == 3 && m[0] == 'm' && m[1] == 'a' && m[2] == 'x' {
        Some((OperationType::Max, 2))
    } else if n == 4 && m[0] == 's' && m[1] == 'q' && m[2] == 'r' && m[3] == 't' {
        Some((OperationType::Sqrt, 1))
    } else if n == 4 && m[0] == 'c' && m[1] == 'e' && m[2] == 'i' && m[3] == 'l' {
        Some((OperationType::Ceil, 1))
    } else if n == 4 && m[0] == 'l' && m[1] == 'e' && m[2] == 'r' && m[3] == 'p' {
        Some((OperationType::Lerp, 3))
    } else if n == 4 && m[0] == 'a' && m[1] == 's' && m[2] == 'i' && m[3] == 'n' {
        Some((OperationType::Asin, 1))
    } else if n == 4 && m[0] == 'a' && m[1] == 'c' && m[2] == 'o' && m[3] == 's' {
        Some((OperationType::Acos, 1))
    } else if n == 4 && m[0] == 'a' && m[1] == 't' && m[2] == 'a' && m[3] == 'n' {
        Some((OperationType::Atan, 1))
    } else if n == 5 && m[0] == 'r' && m[1] == 'o' && m[2] == 'u' && m[3] == 'n' && m[4] == 'd' {
        Some((OperationType::Round, 1))
    } else if n == 5 && m[0] == 't' && m[1] == 'r' && m[2] == 'u' && m[3] == 'n' && m[4] == 'c' {
        Some((OperationType::Trunc, 1))
    } else if n == 5 && m[0] == 'f' && m[1] == 'l' && m[2] == 'o' && m[3] == 'o' && m[4] == 'r' {
        Some((OperationType::Floor, 1))
    } else if n == 5 && m[0] == 'c' && m[1] == 'l' && m[2] == 'a' && m[3] == 'm' && m[4] == 'p' {
        Some((OperationType::Clamp, 3))
    } else if n == 5 && m[0] == 'a' && m[1] == 't' && m[2] == 'a' && m[3] == 'n' && m[4] == '2' {
        Some((OperationType::Atan2, 2))
    } else if n == 6 && m[0] == 'r' && m[1] == 'a' && m[2] == 'n' && m[3] == 'd' && m[4] == 'o'
        && m[5] == 'm' {
        Some((OperationType::Random, 2))
    } else if n == 8 && m[0] == 'd' && m[1] == 'i' && m[2] == 'e' && m[3] == '_' && m[4] == 'r'
        && m[5] == 'o' && m[6] == 'l' && m[7] == 'l' {
        Some((OperationType::Dieroll, 3))
    } else if n == 10 && m[0] == 'l' && m[1] == 'e' && m[2] == 'r' && m[3] == 'p' && m[4] == 'r'
        && m[5] == 'o' && m[6] == 't' && m[7] == 'a' && m[8] == 't' && m[9] == 'e' {
        Some((OperationType::Lerprotate, 3))
    } else if n == 13 && m[0] == 'h' && m[1] == 'e' && m[2] == 'r' && m[3] == 'm' && m[4] == 'i'
        && m[5] == 't' && m[6] == 'e' && m[7] == '_' && m[8] == 'b' && m[9] == 'l' && m[10] == 'e'
        && m[11] == 'n' && m[12] == 'd' {
        Some((OperationType::HermiteBlend, 1))
    } else if n == 14 && m[0] == 'r' && m[1] == 'a' && m[2] == 'n' && m[3] == 'd' && m[4] == 'o'
        && m[5] == 'm' && m[6] == '_' && m[7] == 'i' && m[8] == 'n' && m[9] == 't' && m[10] == 'e'
        && m[11] == 'g' && m[12] == 'e' && m[13] == 'r' {
        Some((OperationType::RandomInt, 2))
    } else if n == 16 && m[0] == 'd' && m[1] == 'i' && m[2] == 'e' && m[3] == '_' && m[4] == 'r'
        && m[5] == 'o' && m[6] == 'l' && m[7] == 'l' && m[8] == '_' && m[9] == 'i' && m[10] == 'n'
        && m[11] == 't' && m[12] == 'e' && m[13] == 'g' && m[14] == 'e' && m[15] == 'r' {
        Some((OperationType::DierollInt, 3))
    } else {
        None
    }
}

/// Compiles a normalized fragment into an expression tree, by the precedence
/// ladder of `parse_spec`.
pub fn parse_string_slice(input: &Vec<char>) -> (r: Expression)
    ensures
        r@ == parse_spec(input@),
    decreases input@.len(), 2int, 8int,
{
    let n = input.len();
    if n == 0 {
        return Expression::Number(zero_chars());
    }
    let t = if input[n - 1] == ';' {
        subvec(input, 0, n - 1)
    } else {
        copy_text(input)
    };
    proof {
        if input@.last() == ';' {
            assert(input@.drop_last() =~= input@.subrange(0, n - 1));
        }
        crate::splitter::lemma_trim_len(t@);
    }
    let s = crate::splitter::trim_brackets(&t);
    if is_string_number(&s) {
        return Expression::Number(strip_f(&s));
    }
    let semi = op_chars_1(';');
    let pieces = crate::splitter::split_string_multiple(&s, &semi);
    let ghost ps = crate::splitter::views_of(pieces@);
    if pieces.len() >= 2 {
        proof {
            crate::splitter::lemma_msplit_pieces(s@, seq![';'], 0, 0);
            assert forall|k: int| 0 <= k < ps.len() implies (#[trigger] ps[k]).len()
                < s@.len() as int by {
                assert(ps[k] == pieces@[k]@);
            }
        }
        let ghost bound = s@.len() as int;
        let mut out: Vec<Expression> = Vec::new();
        let mut i: usize = 0;
        proof {
            assert(ps.subrange(0, ps.len() as int) =~= ps);
            assert(crate::ast::view_seq(out@) + scope_parse(ps, bound) =~= scope_parse(ps, bound));
        }
        while i < pieces.len()
            invariant
                i <= pieces@.len(),
                ps == crate::splitter::views_of(pieces@),
                ps.len() == pieces@.len(),
                0 <= bound <= input@.len(),
                pieces@.len() >= 2,
                input@.len() >= 1,
                t@ == (if input@.last() == ';' {
                    input@.drop_last()
                } else {
                    input@
                }),
                s@ == crate::splitter::trim_brackets_spec(t@),
                !is_number_spec(s@),
                ps == crate::splitter::split_multiple_spec(s@, seq![';']),
                bound == s@.len() as int,
                forall|k: int| 0 <= k < ps.len() ==> (#[trigger] ps[k]).len() < bound,
                scope_parse(ps, bound) == crate::ast::view_seq(out@) + scope_parse(
                    ps.subrange(i as int, ps.len() as int),
                    bound,
                ),
            decreases pieces.len() - i,
        {
            let ghost suffix = ps.subrange(i as int, ps.len() as int);
            proof {
                assert(ps[i as int] == pieces@[i as int]@);
                assert forall|k: int| 0 <= k < suffix.len() implies (#[trigger] suffix[k]).len()
                    < bound by {
                    assert(suffix[k] == ps[i + k]);
                }
                assert(suffix[0] == ps[i as int]);
            }
            let e = parse_string_slice(&pieces[i]);
            let is_ret = matches!(e, Expression::ReturnStatement(_));
            proof {
                match e {
                    Expression::ReturnStatement(_) => assert(e@ is Ret),
                    _ => assert(!(e@ is Ret)),
                }
                crate::ast::lemma_view_seq_push(out@, e);
                assert(scope_parse(suffix, bound) == (if e@ is Ret {
                    seq![e@]
                } else {
                    seq![e@] + scope_parse(suffix.subrange(1, suffix.len() as int), bound)
                }));
            }
            let ghost out_before = out@;
            out.push(e);
            if is_ret {
                proof {
                    assert(crate::ast::view_seq(out@) =~= crate::ast::view_seq(out_before) + seq![
                        e@,
                    ]);
                    assert(scope_parse(ps, bound) == crate::ast::view_seq(out@));
                }
                let result = Expression::Scope(out);
                proof {
                    assert(result@ == parse_spec(input@));
                }
                return result;
            }
            proof {
                assert(suffix.subrange(1, suffix.len() as int) =~= ps.subrange(
                    i + 1,
                    ps.len() as int,
                ));
                assert(crate::ast::view_seq(out_before) + scope_parse(suffix, bound)
                    =~= crate::ast::view_seq(out@) + scope_parse(
                    ps.subrange(i + 1, ps.len() as int),
                    bound,
                ));
            }
            i += 1;
        }
        proof {
            assert(ps.subrange(ps.len() as int, ps.len() as int) =~= Seq::<Seq<char>>::empty());
            assert(crate::ast::view_seq(out@) + scope_parse(
                Seq::<Seq<char>>::empty(),
                bound,
            ) =~= crate::ast::view_seq(out@));
        }
        return Expression::Scope(out);
    }
    parse_statement(&s)
}

/// A single statement: a `return`, a boolean keyword, an assignment, or an
/// operator expression.
fn parse_statement(s: &Vec<char>) -> (r: Expression)
    ensures
        r@ == parse_statement_spec(s@),
    decreases s@.len(), 2int, 7int,
{
    let n = s.len();
    if n >= 6 && s[0] == 'r' && s[1] == 'e' && s[2] == 't' && s[3] == 'u' && s[4] == 'r' && s[5]
        == 'n' {
        let rest = subvec(s, 6, n);
        return Expression::ReturnStatement(Box::new(parse_string_slice(&rest)));
    }
    if n == 4 && s[0] == 't' && s[1] == 'r' && s[2] == 'u' && s[3] == 'e' {
        return Expression::Number(one_chars());
    }
    if n == 5 && s[0] == 'f' && s[1] == 'a' && s[2] == 'l' && s[3] == 's' && s[4] == 'e' {
        return Expression::Number(zero_chars());
    }
    let has_eq = contains_eq(s);
    if has_eq && n > 4 {
        match alloc_match(s) {
            Some(end) => {
                proof {
                    lemma_alloc_match_end(s@);
                }
                if end == n || s[end] != '=' {
                    let name = subvec(s, 0, end - 1);
                    let target = to_variable_name(&name);
                    let rhs = subvec(s, end, n);
                    return Expression::Allocation(
                        target,
                        Box::new(parse_string_slice(&rhs)),
                    );
                }
                return parse_ternary(s);
            },
            None => {
                return parse_ternary(s);
            },
        }
    }
    parse_ternary(s)
}

/// Null coalescing and the two ternary forms.
fn parse_ternary(s: &Vec<char>) -> (r: Expression)
    ensures
        r@ == parse_ternary_spec(s@),
    decreases s@.len(), 2int, 6int,
{
    proof {
        crate::splitter::lemma_split_first_shorter(s@, seq!['?', '?']);
        crate::splitter::lemma_split_first_shorter(s@, seq!['?']);
    }
    let qq = op_chars_2('?', '?');
    match crate::splitter::split_string(s, &qq) {
        Some(p) => {
            let a = parse_string_slice(&p.0);
            let b = parse_string_slice(&p.1);
            return Expression::Operation2(
                OperationType::NullCoalescing,
                Box::new(a),
                Box::new(b),
            );
        },
        None => {},
    }
    let q = op_chars_1('?');
    match crate::splitter::split_string(s, &q) {
        Some(p) => {
            proof {
                crate::splitter::lemma_split_first_shorter(p.1@, seq![':']);
            }
            let colon = op_chars_1(':');
            match crate::splitter::split_string(&p.1, &colon) {
                Some(q2) => {
                    let a = parse_string_slice(&p.0);
                    let b = parse_string_slice(&q2.0);
                    let c = parse_string_slice(&q2.1);
                    return Expression::Operation3(
                        OperationType::Ternary,
                        Box::new(a),
                        Box::new(b),
                        Box::new(c),
                    );
                },
                None => {
                    let a = parse_string_slice(&p.0);
                    let b = parse_string_slice(&p.1);
                    return Expression::Operation2(
                        OperationType::Ternary,
                        Box::new(a),
                        Box::new(b),
                    );
                },
            }
        },
        None => {},
    }
    parse_bool(s)
}

/// The boolean operators.
fn parse_bool(s: &Vec<char>) -> (r: Expression)
    ensures
        r@ == parse_bool_spec(s@),
    decreases s@.len(), 2int, 5int,
{
    proof {
        crate::splitter::lemma_split_first_shorter(s@, seq!['&', '&']);
        crate::splitter::lemma_split_first_shorter(s@, seq!['|', '|']);
    }
    let amp = op_chars_2('&', '&');
    match crate::splitter::split_string(s, &amp) {
        Some(p) => {
            let a = parse_string_slice(&p.0);
            let b = parse_string_slice(&p.1);
            return Expression::Operation2(OperationType::And, Box::new(a), Box::new(b));
        },
        None => {},
    }
    let bar = op_chars_2('|', '|');
    match crate::splitter::split_string(s, &bar) {
        Some(p) => {
            let a = parse_string_slice(&p.0);
            let b = parse_string_slice(&p.1);
            return Expression::Operation2(OperationType::Or, Box::new(a), Box::new(b));
        },
        None => {},
    }
    parse_compare(s)
}

/// The comparison operators, the equality family only tried when an equals
/// sign occurs in the fragment.
fn parse_compare(s: &Vec<char>) -> (r: Expression)
    ensures
        r@ == parse_compare_spec(s@),
    decreases s@.len(), 2int, 4int,
{
    proof {
        crate::splitter::lemma_split_first_shorter(s@, seq!['=', '=']);
        crate::splitter::lemma_split_first_shorter(s@, seq!['!', '=']);
        crate::splitter::lemma_split_first_shorter(s@, seq!['<', '=']);
        crate::splitter::lemma_split_first_shorter(s@, seq!['<']);
        crate::splitter::lemma_split_first_shorter(s@, seq!['>', '=']);
        crate::splitter::lemma_split_first_shorter(s@, seq!['>']);
    }
    let has_eq = contains_eq(s);
    if has_eq {
        let eq = op_chars_2('=', '=');
        match crate::splitter::split_string(s, &eq) {
            Some(p) => {
                let a = parse_string_slice(&p.0);
                let b = parse_string_slice(&p.1);
                return Expression::Operation2(OperationType::Equal, Box::new(a), Box::new(b));
            },
            None => {},
        }
        let ne = op_chars_2('!', '=');
        match crate::splitter::split_string(s, &ne) {
            Some(p) => {
                let a = parse_string_slice(&p.0);
                let b = parse_string_slice(&p.1);
                return Expression::Operation2(OperationType::Unequal, Box::new(a), Box::new(b));
            },
            None => {},
        }
        let le = op_chars_2('<', '=');
        match crate::splitter::split_string(s, &le) {
            Some(p) => {
                let a = parse_string_slice(&p.0);
                let b = parse_string_slice(&p.1);
                return Expression::Operation2(
                    OperationType::SmallerEqual,
                    Box::new(a),
                    Box::new(b),
                );
            },
            None => {},
        }
    }
    let lt = op_chars_1('<');
    match crate::splitter::split_string(s, &lt) {
        Some(p) => {
            let a = parse_string_slice(&p.0);
            let b = parse_string_slice(&p.1);
            return Expression::Operation2(OperationType::Smaller, Box::new(a), Box::new(b));
        },
        None => {},
    }
    if has_eq {
        let ge = op_chars_2('>', '=');
        match crate::splitter::split_string(s, &ge) {
            Some(p) => {
                let a = parse_string_slice(&p.0);
                let b = parse_string_slice(&p.1);
                return Expression::Operation2(
                    OperationType::LargerEqual,
                    Box::new(a),
                    Box::new(b),
                );
            },
            None => {},
        }
    }
    let gt = op_chars_1('>');
    match crate::splitter::split_string(s, &gt) {
        Some(p) => {
            let a = parse_string_slice(&p.0);
            let b = parse_string_slice(&p.1);
            return Expression::Operation2(OperationType::Larger, Box::new(a), Box::new(b));
        },
        None => {},
    }
    parse_additive(s)
}

/// The additive operators, split on their last occurrence; an empty left
/// operand of `-` is a unary negation.
fn parse_additive(s: &Vec<char>) -> (r: Expression)
    ensures
        r@ == parse_additive_spec(s@),
    decreases s@.len(), 2int, 3int,
{
    proof {
        crate::splitter::lemma_split_last_shorter(s@, seq!['+']);
        crate::splitter::lemma_split_last_shorter(s@, seq!['-']);
    }
    let plus = op_chars_1('+');
    match crate::splitter::split_string_reverse(s, &plus) {
        Some(p) => {
            let a = parse_string_slice(&p.0);
            let b = parse_string_slice(&p.1);
            return Expression::Operation2(OperationType::Add, Box::new(a), Box::new(b));
        },
        None => {},
    }
    let minus = op_chars_1('-');
    match crate::splitter::split_string_reverse(s, &minus) {
        Some(p) => {
            if p.0.len() == 0 {
                let b = parse_string_slice(&p.1);
                return Expression::Operation1(OperationType::Invert, Box::new(b));
            }
            let a = parse_string_slice(&p.0);
            let b = parse_string_slice(&p.1);
            return Expression::Operation2(OperationType::Subtract, Box::new(a), Box::new(b));
        },
        None => {},
    }
    parse_factor(s)
}

/// The multiplicative operators and the boolean-negation prefix.
fn parse_factor(s: &Vec<char>) -> (r: Expression)
    ensures
        r@ == parse_factor_spec(s@),
    decreases s@.len(), 2int, 2int,
{
    proof {
        crate::splitter::lemma_split_first_shorter(s@, seq!['*']);
        crate::splitter::lemma_split_last_shorter(s@, seq!['/']);
    }
    let star = op_chars_1('*');
    match crate::splitter::split_string(s, &star) {
        Some(p) => {
            let a = parse_string_slice(&p.0);
            let b = parse_string_slice(&p.1);
            return Expression::Operation2(OperationType::Multiply, Box::new(a), Box::new(b));
        },
        None => {},
    }
    let slash = op_chars_1('/');
    match crate::splitter::split_string_reverse(s, &slash) {
        Some(p) => {
            let a = parse_string_slice(&p.0);
            let b = parse_string_slice(&p.1);
            return Expression::Operation2(OperationType::Divide, Box::new(a), Box::new(b));
        },
        None => {},
    }
    if s.len() >= 1 && s[0] == '!' {
        let rest = subvec(s, 1, s.len());
        let b = parse_string_slice(&rest);
        return Expression::Operation1(OperationType::Negate, Box::new(b));
    }
    parse_call(s)
}

/// A math-library call, a bounded loop, or a variable reference.
fn parse_call(s: &Vec<char>) -> (r: Expression)
    ensures
        r@ == parse_call_spec(s@),
    decreases s@.len(), 2int, 1int,
{
    let n = s.len();
    if n >= 5 && s[0] == 'm' && s[1] == 'a' && s[2] == 't' && s[3] == 'h' && s[4] == '.' {
        if n == 7 && s[5] == 'p' && s[6] == 'i' {
            return Expression::Number(pi_chars());
        }
        match find_char(s, '(') {
            Some(ab) => {
                proof {
                    lemma_find_from(s@, '(', 0);
                }
                assert(ab >= 5);
                if ab + 1 <= n - 1 {
                    let name = subvec(s, 5, ab);
                    let inner = subvec(s, ab + 1, n - 1);
                    proof {
                        lemma_args_of(inner@);
                    }
                    let comma = op_chars_1(',');
                    let first = crate::splitter::split_string(&inner, &comma);
                    let args: (Vec<char>, Vec<char>, Vec<char>) = match first {
                        Some(p) => {
                            match crate::splitter::split_string(&p.1, &comma) {
                                Some(q) => (p.0, q.0, q.1),
                                None => (p.0, p.1, Vec::new()),
                            }
                        },
                        None => (copy_text(&inner), Vec::new(), Vec::new()),
                    };
                    proof {
                        assert((args.0@, args.1@, args.2@) == args_of(inner@));
                    }
                    match exec_math_kind(&name) {
                        Some(ok) => {
                            if ok.1 == 1 {
                                let a = parse_string_slice(&args.0);
                                return Expression::Operation1(ok.0, Box::new(a));
                            } else if ok.1 == 2 {
                                let a = parse_string_slice(&args.0);
                                let b = parse_string_slice(&args.1);
                                return Expression::Operation2(ok.0, Box::new(a), Box::new(b));
                            } else {
                                let a = parse_string_slice(&args.0);
                                let b = parse_string_slice(&args.1);
                                let c = parse_string_slice(&args.2);
                                return Expression::Operation3(
                                    ok.0,
                                    Box::new(a),
                                    Box::new(b),
                                    Box::new(c),
                                );
                            }
                        },
                        None => {
                            return Expression::Number(zero_chars());
                        },
                    }
                } else {
                    return Expression::Number(zero_chars());
                }
            },
            None => {
                return Expression::Number(zero_chars());
            },
        }
    }
    if n >= 6 && s[0] == 'l' && s[1] == 'o' && s[2] == 'o' && s[3] == 'p' && s[4] == '(' {
        let inner = subvec(s, 5, n - 1);
        let comma = op_chars_1(',');
        let pieces = crate::splitter::split_string_multiple(&inner, &comma);
        proof {
            crate::splitter::lemma_msplit_pieces(inner@, seq![','], 0, 0);
        }
        if pieces.len() >= 2 {
            proof {
                assert(crate::splitter::views_of(pieces@)[0] == pieces@[0]@);
                assert(crate::splitter::views_of(pieces@)[1] == pieces@[1]@);
            }
            let c0 = parse_string_slice(&pieces[0]);
            let b0 = parse_string_slice(&pieces[1]);
            return Expression::Loop(Box::new(c0), Box::new(b0));
        }
        return Expression::Variable(to_variable_name(s));
    }
    Expression::Variable(to_variable_name(s))
}

} // verus!
