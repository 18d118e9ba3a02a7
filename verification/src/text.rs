//! Character classes and small text utilities shared by the splitter and the
//! parser. Scripts are handled as sequences of `char`.
use vstd::prelude::*;

verus! {

/// A character that opens a nesting group.
pub open spec fn is_open_bracket(c: char) -> bool {
    c == '(' || c == '{'
}

/// A character that closes a nesting group.
pub open spec fn is_close_bracket(c: char) -> bool {
    c == ')' || c == '}'
}

/// A decimal digit.
pub open spec fn is_digit_char(c: char) -> bool {
    48 <= c as u32 && c as u32 <= 57
}

/// A word character: a digit, a letter, or an underscore.
pub open spec fn is_word_char(c: char) -> bool {
    is_digit_char(c) || (97 <= c as u32 && c as u32 <= 122) || (65 <= c as u32 && c as u32 <= 90)
        || c == '_'
}

/// The lower-case form of an upper-case ASCII letter; other characters are
/// unchanged.
pub open spec fn lower_char(c: char) -> char {
    if 65 <= c as u32 && c as u32 <= 90 {
        ((c as u32 + 32) as u8) as char
    } else {
        c
    }
}

/// Normalization of a raw script: every space removed, every ASCII letter
/// lower-cased.
pub open spec fn normalize_spec(s: Seq<char>) -> Seq<char>
    decreases s.len(),
{
    if s.len() == 0 {
        Seq::empty()
    } else {
        let rest = normalize_spec(s.drop_last());
        if s.last() == ' ' {
            rest
        } else {
            rest.push(lower_char(s.last()))
        }
    }
}

pub fn exec_is_digit(c: char) -> (r: bool)
    ensures
        r == is_digit_char(c),
{
    let u = c as u32;
    48 <= u && u <= 57
}

pub fn exec_is_word_char(c: char) -> (r: bool)
    ensures
        r == is_word_char(c),
{
    let u = c as u32;
    (48 <= u && u <= 57) || (97 <= u && u <= 122) || (65 <= u && u <= 90) || c == '_'
}

pub fn exec_lower_char(c: char) -> (r: char)
    ensures
        r == lower_char(c),
{
    let u = c as u32;
    if 65 <= u && u <= 90 {
        ((u + 32) as u8) as char
    } else {
        c
    }
}

/// Strips spaces and lower-cases a raw script.
pub fn normalize(s: &Vec<char>) -> (r: Vec<char>)
    ensures
        r@ == normalize_spec(s@),
{
    let mut out: Vec<char> = Vec::new();
    let mut i: usize = 0;
    while i < s.len()
        invariant
            i <= s.len(),
            out@ == normalize_spec(s@.take(i as int)),
        decreases s.len() - i,
    {
        let c = s[i];
        proof {
            assert(s@.take(i + 1).drop_last() =~= s@.take(i as int));
            assert(s@.take(i + 1).last() == s@[i as int]);
        }
        if c != ' ' {
            out.push(exec_lower_char(c));
        }
        i += 1;
    }
    proof {
        assert(s@.take(s@.len() as int) =~= s@);
    }
    out
}

/// A copy of the characters of `s` in positions `a` to `b`.
pub fn subvec(s: &Vec<char>, a: usize, b: usize) -> (r: Vec<char>)
    requires
        a <= b <= s@.len(),
    ensures
        r@ == s@.subrange(a as int, b as int),
{
    let mut out: Vec<char> = Vec::new();
    let mut i: usize = a;
    while i < b
        invariant
            a <= i <= b <= s@.len(),
            out@ == s@.subrange(a as int, i as int),
        decreases b - i,
    {
        out.push(s[i]);
        proof {
            assert(s@.subrange(a as int, i + 1) =~= s@.subrange(a as int, i as int).push(
                s@[i as int],
            ));
        }
        i += 1;
    }
    out
}

/// A copy of the whole text.
pub fn copy_text(t: &Vec<char>) -> (r: Vec<char>)
    ensures
        r@ == t@,
{
    let r = subvec(t, 0, t.len());
    proof {
        assert(t@.subrange(0, t@.len() as int) =~= t@);
    }
    r
}

/// Whether two character vectors hold the same text.
pub fn text_eq(a: &Vec<char>, b: &Vec<char>) -> (r: bool)
    ensures
        r == (a@ == b@),
{
    if a.len() != b.len() {
        return false;
    }
    let mut i: usize = 0;
    while i < a.len()
        invariant
            i <= a@.len(),
            a@.len() == b@.len(),
            forall|j: int| 0 <= j < i ==> a@[j] == b@[j],
        decreases a.len() - i,
    {
        if a[i] != b[i] {
            return false;
        }
        i += 1;
    }
    proof {
        assert(a@ =~= b@);
    }
    true
}

} // verus!
