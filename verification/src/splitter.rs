//! Bracket-aware splitting: locating operator occurrences at nesting depth
//! zero, scanning forward (first occurrence), backward (last occurrence, with
//! the unary-minus disambiguation), or everywhere (statement and argument
//! separators), and trimming fully enclosing bracket pairs.
use vstd::prelude::*;

use crate::text::is_close_bracket;
use crate::text::is_open_bracket;
use crate::text::subvec;

verus! {

/// How a character changes the nesting level in a left-to-right scan.
pub open spec fn level_delta(c: char) -> int {
    if is_open_bracket(c) {
        1
    } else if is_close_bracket(c) {
        -1
    } else {
        0
    }
}

/// The nesting level just before position `i` in a left-to-right scan.
pub open spec fn level_at(s: Seq<char>, i: int) -> int
    decreases i,
{
    if i <= 0 || i > s.len() {
        0
    } else {
        level_at(s, i - 1) + level_delta(s[i - 1])
    }
}

/// The nesting level seen by a right-to-left scan when it reaches position
/// `i`: closing brackets to the right of `i` raise it, opening brackets lower
/// it. On text with unmatched brackets this differs from `level_at`.
pub open spec fn rlevel_at(s: Seq<char>, i: int) -> int
    decreases s.len() - i,
{
    if i + 1 >= s.len() || i + 1 < 0 {
        0
    } else {
        rlevel_at(s, i + 1) - level_delta(s[i + 1])
    }
}

/// The operator `op` stands at position `i` of `s`.
pub open spec fn op_match_at(s: Seq<char>, op: Seq<char>, i: int) -> bool {
    0 <= i && i + op.len() <= s.len() && s.subrange(i, i + op.len() as int) == op
}

/// A top-level occurrence of `op` at `i` in a left-to-right scan: the position
/// is not a bracket, stands at nesting level zero, and the operator matches.
pub open spec fn is_split_at(s: Seq<char>, op: Seq<char>, i: int) -> bool {
    &&& op.len() >= 1
    &&& 0 <= i < s.len()
    &&& !is_open_bracket(s[i])
    &&& !is_close_bracket(s[i])
    &&& level_at(s, i) == 0
    &&& op_match_at(s, op, i)
}

/// The first split position at or after `j`, if any.
pub open spec fn first_split_from(s: Seq<char>, op: Seq<char>, j: int) -> Option<int>
    decreases s.len() - j,
{
    if j < 0 || j >= s.len() {
        None
    } else if is_split_at(s, op, j) {
        Some(j)
    } else {
        first_split_from(s, op, j + 1)
    }
}

/// What splitting on the first top-level occurrence returns.
pub open spec fn split_first_spec(s: Seq<char>, op: Seq<char>) -> Option<(Seq<char>, Seq<char>)> {
    match first_split_from(s, op, 0) {
        Some(i) => Some((s.subrange(0, i), s.subrange(i + op.len() as int, s.len() as int))),
        None => None,
    }
}

/// An operator character for the unary-minus disambiguation: a top-level `-`
/// directly preceded by one of these is a sign, not a subtraction.
pub open spec fn is_op_char(c: char) -> bool {
    c == '+' || c == '*' || c == '/' || c == '<' || c == '>' || c == '=' || c == '|' || c == '&'
        || c == '?' || c == ':'
}

/// A top-level occurrence of `op` at `i` acceptable to the right-to-left scan:
/// level zero in the reverse sense, and, when the operator is `-`, the
/// preceding character must not itself be an operator (so `2*-5` keeps its
/// unary minus).
pub open spec fn is_rsplit_at(s: Seq<char>, op: Seq<char>, i: int) -> bool {
    &&& op.len() >= 1
    &&& 0 <= i < s.len()
    &&& !is_open_bracket(s[i])
    &&& !is_close_bracket(s[i])
    &&& rlevel_at(s, i) == 0
    &&& op_match_at(s, op, i)
    &&& (op == seq!['-'] ==> i == 0 || !is_op_char(s[i - 1]))
}

/// The last acceptable split position at or before `j`, if any.
pub open spec fn last_split_from(s: Seq<char>, op: Seq<char>, j: int) -> Option<int>
    decreases j + 1,
{
    if j < 0 || j >= s.len() {
        None
    } else if is_rsplit_at(s, op, j) {
        Some(j)
    } else {
        last_split_from(s, op, j - 1)
    }
}

/// What splitting on the last acceptable top-level occurrence returns.
pub open spec fn split_last_spec(s: Seq<char>, op: Seq<char>) -> Option<(Seq<char>, Seq<char>)> {
    match last_split_from(s, op, s.len() - 1) {
        Some(i) => Some((s.subrange(0, i), s.subrange(i + op.len() as int, s.len() as int))),
        None => None,
    }
}

/// The pieces of `s` cut at every top-level occurrence of `op` at or after
/// `j`, the current piece having begun at `start`.
pub open spec fn msplit_from(s: Seq<char>, op: Seq<char>, j: int, start: int) -> Seq<Seq<char>>
    decreases s.len() - j,
{
    if j < 0 || j >= s.len() {
        seq![s.subrange(start, s.len() as int)]
    } else if op.len() >= 1 && is_split_at(s, op, j) && start <= j {
        seq![s.subrange(start, j)] + msplit_from(s, op, j + op.len(), j + op.len())
    } else {
        msplit_from(s, op, j + 1, start)
    }
}

/// What splitting at every top-level occurrence returns: always at least one
/// piece; a text without top-level occurrences comes back whole.
pub open spec fn split_multiple_spec(s: Seq<char>, op: Seq<char>) -> Seq<Seq<char>> {
    msplit_from(s, op, 0, 0)
}

/// The views of a vector of character vectors.
pub open spec fn views_of(s: Seq<Vec<char>>) -> Seq<Seq<char>> {
    s.map_values(|p: Vec<char>| p@)
}

/// A split position found by the forward search really is one, and lies at or
/// after the start of the search.
pub proof fn lemma_first_split_from(s: Seq<char>, op: Seq<char>, j: int)
    ensures
        first_split_from(s, op, j) matches Some(i) ==> j <= i && is_split_at(s, op, i),
    decreases s.len() - j,
{
    if j < 0 || j >= s.len() {
    } else if is_split_at(s, op, j) {
    } else {
        lemma_first_split_from(s, op, j + 1);
    }
}

/// A split position found by the backward search really is one.
pub proof fn lemma_last_split_from(s: Seq<char>, op: Seq<char>, j: int)
    ensures
        last_split_from(s, op, j) matches Some(i) ==> i <= j && is_rsplit_at(s, op, i),
    decreases j + 1,
{
    if j < 0 || j >= s.len() {
    } else if is_rsplit_at(s, op, j) {
    } else {
        lemma_last_split_from(s, op, j - 1);
    }
}

/// Both halves of a first-occurrence split are strictly shorter than the
/// whole, and they reassemble it around the operator.
pub proof fn lemma_split_first_shorter(s: Seq<char>, op: Seq<char>)
    ensures
        split_first_spec(s, op) matches Some(p) ==> p.0.len() < s.len() && p.1.len() < s.len()
            && p.0.len() + op.len() + p.1.len() == s.len(),
{
    lemma_first_split_from(s, op, 0);
}

/// Both halves of a last-occurrence split are strictly shorter than the
/// whole, and they reassemble it around the operator.
pub proof fn lemma_split_last_shorter(s: Seq<char>, op: Seq<char>)
    ensures
        split_last_spec(s, op) matches Some(p) ==> p.0.len() < s.len() && p.1.len() < s.len()
            && p.0.len() + op.len() + p.1.len() == s.len(),
{
    lemma_last_split_from(s, op, s.len() - 1);
}

/// Splitting at every occurrence yields at least one piece; a single piece is
/// the whole remainder, and two or more pieces are each strictly shorter than
/// the text they were cut from.
pub proof fn lemma_msplit_pieces(s: Seq<char>, op: Seq<char>, j: int, start: int)
    requires
        0 <= start <= s.len(),
        start <= j,
    ensures
        msplit_from(s, op, j, start).len() >= 1,
        msplit_from(s, op, j, start).len() == 1 ==> msplit_from(s, op, j, start) == seq![
            s.subrange(start, s.len() as int),
        ],
        msplit_from(s, op, j, start).len() >= 2 ==> forall|k: int|
            0 <= k < msplit_from(s, op, j, start).len() ==> (#[trigger] msplit_from(
                s,
                op,
                j,
                start,
            )[k]).len() <= s.len() - start - op.len(),
    decreases s.len() - j,
{
    if j < 0 || j >= s.len() {
    } else if op.len() >= 1 && is_split_at(s, op, j) && start <= j {
        lemma_msplit_pieces(s, op, j + op.len() as int, j + op.len() as int);
        let ps = msplit_from(s, op, j, start);
        let rest = msplit_from(s, op, j + op.len() as int, j + op.len() as int);
        assert(ps[0] == s.subrange(start, j));
        assert forall|k: int| 0 <= k < ps.len() && ps.len() >= 2 implies (#[trigger] ps[k]).len()
            <= s.len() - start - op.len() by {
            if k == 0 {
            } else {
                assert(ps[k] == rest[k - 1]);
                if rest.len() == 1 {
                    assert(rest[0] == s.subrange(j + op.len() as int, s.len() as int));
                } else {
                }
            }
        }
    } else {
        lemma_msplit_pieces(s, op, j + 1, start);
    }
}

/// Whether the operator matches at position `i`.
pub fn op_matches(s: &Vec<char>, c: &Vec<char>, i: usize) -> (r: bool)
    requires
        i <= s@.len(),
    ensures
        r == op_match_at(s@, c@, i as int),
{
    let n = s.len();
    if c.len() > n - i {
        return false;
    }
    let mut k: usize = 0;
    while k < c.len()
        invariant
            k <= c@.len(),
            n == s@.len(),
            i + c@.len() <= n,
            forall|m: int| 0 <= m < k ==> s@[i + m] == c@[m],
        decreases c.len() - k,
    {
        assert(i + k < s@.len());
        let idx = i + k;
        if s[idx] != c[k] {
            proof {
                assert(s@.subrange(i as int, i + c@.len())[k as int] == s@[i + k]);
            }
            return false;
        }
        k += 1;
    }
    proof {
        assert(s@.subrange(i as int, i + c@.len()) =~= c@);
    }
    true
}

/// Splits `s` around the first top-level occurrence of the operator `c`.
pub fn split_string(s: &Vec<char>, c: &Vec<char>) -> (r: Option<(Vec<char>, Vec<char>)>)
    ensures
        ({
            let sp = split_first_spec(s@, c@);
            match r {
                Some(p) => sp == Some((p.0@, p.1@)),
                None => sp is None,
            }
        }),
{
    let mut level: i128 = 0;
    let mut i: usize = 0;
    while i < s.len()
        invariant
            i <= s@.len(),
            level == level_at(s@, i as int),
            -(i as int) <= level <= i as int,
            first_split_from(s@, c@, 0) == first_split_from(s@, c@, i as int),
        decreases s.len() - i,
    {
        let ch = s[i];
        proof {
            assert(level_at(s@, i + 1) == level_at(s@, i as int) + level_delta(s@[i as int]));
        }
        if ch == '(' || ch == '{' {
            level = level + 1;
        } else if ch == ')' || ch == '}' {
            level = level - 1;
        } else if level == 0 && c.len() >= 1 && op_matches(s, c, i) {
            assert(is_split_at(s@, c@, i as int));
            let left = subvec(s, 0, i);
            let right = subvec(s, i + c.len(), s.len());
            return Some((left, right));
        }
        assert(!is_split_at(s@, c@, i as int));
        i += 1;
    }
    None
}

/// Splits `s` around the last acceptable top-level occurrence of the operator
/// `c`, scanning right to left; for `-` a candidate directly preceded by an
/// operator character is passed over, so that a sign is not taken for a
/// subtraction.
pub fn split_string_reverse(s: &Vec<char>, c: &Vec<char>) -> (r: Option<(Vec<char>, Vec<char>)>)
    ensures
        ({
            let sp = split_last_spec(s@, c@);
            match r {
                Some(p) => sp == Some((p.0@, p.1@)),
                None => sp is None,
            }
        }),
{
    let is_minus = c.len() == 1 && c[0] == '-';
    proof {
        if c@.len() == 1 && c@[0] == '-' {
            assert(c@ =~= seq!['-']);
        }
    }
    let mut level: i128 = 0;
    let n = s.len();
    let mut i: usize = n;
    while i > 0
        invariant
            i <= n,
            n == s@.len(),
            level == rlevel_at(s@, i as int - 1),
            -((n - i) as int) <= level <= (n - i) as int,
            is_minus == (c@ == seq!['-']),
            last_split_from(s@, c@, s@.len() as int - 1) == last_split_from(s@, c@, i as int - 1),
        decreases i,
    {
        let j = i - 1;
        let ch = s[j];
        proof {
            assert(rlevel_at(s@, j - 1) == rlevel_at(s@, j as int) - level_delta(s@[j as int]));
        }
        if ch == '(' || ch == '{' {
            level = level - 1;
        } else if ch == ')' || ch == '}' {
            level = level + 1;
        } else if level == 0 && c.len() >= 1 && op_matches(s, c, j) {
            let minus_ok = !is_minus || j == 0 || !exec_is_op_char(s[j - 1]);
            if minus_ok {
                assert(is_rsplit_at(s@, c@, j as int));
                let left = subvec(s, 0, j);
                let right = subvec(s, j + c.len(), s.len());
                return Some((left, right));
            }
        }
        assert(!is_rsplit_at(s@, c@, j as int));
        i = j;
    }
    None
}

/// Whether `ch` is one of the operator characters of the unary-minus rule.
pub fn exec_is_op_char(ch: char) -> (r: bool)
    ensures
        r == is_op_char(ch),
{
    ch == '+' || ch == '*' || ch == '/' || ch == '<' || ch == '>' || ch == '=' || ch == '|' || ch
        == '&' || ch == '?' || ch == ':'
}

/// Splits `s` at every top-level occurrence of the operator `c`; text without
/// a top-level occurrence comes back as the single piece.
pub fn split_string_multiple(s: &Vec<char>, c: &Vec<char>) -> (r: Vec<Vec<char>>)
    ensures
        views_of(r@) == split_multiple_spec(s@, c@),
{
    let mut pieces: Vec<Vec<char>> = Vec::new();
    let mut level: i128 = 0;
    let mut last_split: usize = 0;
    let mut i: usize = 0;
    while i < s.len()
        invariant
            i <= s@.len(),
            last_split <= s@.len(),
            level == level_at(s@, i as int),
            -(i as int) <= level <= i as int,
            split_multiple_spec(s@, c@) == views_of(pieces@) + (if last_split <= i {
                msplit_from(s@, c@, i as int, last_split as int)
            } else {
                msplit_from(s@, c@, last_split as int, last_split as int)
            }),
        decreases s.len() - i,
    {
        let ch = s[i];
        proof {
            assert(level_at(s@, i + 1) == level_at(s@, i as int) + level_delta(s@[i as int]));
        }
        if ch == '(' || ch == '{' {
            level = level + 1;
        } else if ch == ')' || ch == '}' {
            level = level + (-1);
        } else if level == 0 && c.len() >= 1 && last_split <= i && op_matches(s, c, i) {
            assert(is_split_at(s@, c@, i as int));
            let piece = subvec(s, last_split, i);
            proof {
                assert(views_of(pieces@.push(piece)) =~= views_of(pieces@).push(piece@));
                assert(views_of(pieces@).push(piece@) + msplit_from(
                    s@,
                    c@,
                    i + c@.len(),
                    i + c@.len(),
                ) =~= views_of(pieces@) + (seq![piece@] + msplit_from(
                    s@,
                    c@,
                    i + c@.len(),
                    i + c@.len(),
                )));
            }
            pieces.push(piece);
            last_split = i + c.len();
        } else {
            assert(!(c@.len() >= 1 && is_split_at(s@, c@, i as int) && last_split <= i));
        }
        i += 1;
    }
    let tail = subvec(s, last_split, s.len());
    proof {
        assert(views_of(pieces@.push(tail)) =~= views_of(pieces@).push(tail@));
        assert(views_of(pieces@) + seq![tail@] =~= views_of(pieces@).push(tail@));
    }
    pieces.push(tail);
    pieces
}

/// The text is a bracket pair enclosing the whole fragment: it begins and ends
/// with a matching pair and the nesting never returns to depth zero strictly
/// inside it.
pub open spec fn can_trim_spec(s: Seq<char>) -> bool {
    &&& s.len() >= 2
    &&& ((s[0] == '(' && s[s.len() - 1] == ')') || (s[0] == '{' && s[s.len() - 1] == '}'))
    &&& forall|i: int| 2 <= i <= s.len() - 1 ==> level_at(s, i) != 0
}

/// Whether one enclosing bracket pair may be removed.
pub fn can_trim_brackets(s: &Vec<char>) -> (r: bool)
    ensures
        r == can_trim_spec(s@),
{
    let n = s.len();
    if n < 2 {
        return false;
    }
    let first = s[0];
    let last = s[n - 1];
    if !((first == '(' && last == ')') || (first == '{' && last == '}')) {
        return false;
    }
    let mut level: i128 = 1;
    let mut i: usize = 1;
    proof {
        assert(level_at(s@, 1) == level_at(s@, 0) + level_delta(s@[0]));
    }
    while i < n - 1
        invariant
            1 <= i <= n - 1,
            n == s@.len(),
            2 <= n,
            s@[0] == '(' || s@[0] == '{',
            level == level_at(s@, i as int),
            -(i as int) <= level <= i as int,
            forall|k: int| 2 <= k <= i ==> level_at(s@, k) != 0,
        decreases n - i,
    {
        let ch = s[i];
        proof {
            assert(level_at(s@, i + 1) == level_at(s@, i as int) + level_delta(s@[i as int]));
        }
        if ch == '(' || ch == '{' {
            level = level + 1;
        } else if ch == ')' || ch == '}' {
            level = level - 1;
        }
        if level == 0 {
            return false;
        }
        i += 1;
    }
    true
}

/// The fragment with every fully enclosing bracket pair removed.
pub open spec fn trim_brackets_spec(s: Seq<char>) -> Seq<char>
    decreases s.len(),
{
    if can_trim_spec(s) {
        trim_brackets_spec(s.subrange(1, s.len() - 1))
    } else {
        s
    }
}

/// Trimming never lengthens the fragment.
pub proof fn lemma_trim_len(s: Seq<char>)
    ensures
        trim_brackets_spec(s).len() <= s.len(),
    decreases s.len(),
{
    if can_trim_spec(s) {
        lemma_trim_len(s.subrange(1, s.len() - 1));
    }
}

/// Removes fully enclosing bracket pairs, innermost last.
pub fn trim_brackets(s: &Vec<char>) -> (r: Vec<char>)
    ensures
        r@ == trim_brackets_spec(s@),
    decreases s@.len(),
{
    if can_trim_brackets(s) {
        let inner = subvec(s, 1, s.len() - 1);
        trim_brackets(&inner)
    } else {
        subvec(s, 0, s.len())
    }
}

} // verus!
