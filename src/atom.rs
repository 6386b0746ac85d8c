use vstd::prelude::*;
use crate::class::{CharCls, ClassView, Quantifier};
use vstd::slice::slice_subrange;

verus! {

/// The first index at or after `i` where `p` holds `c`, or `p.len()` if there is none.
pub open spec fn find_from(p: Seq<char>, c: char, i: nat) -> nat
    decreases p.len() - i,
{
    if i < p.len() {
        if p[i as int] == c {
            i
        } else {
            find_from(p, c, i + 1)
        }
    } else {
        p.len()
    }
}

/// The class at the start of the pattern `p`, and how many characters spell it.
pub open spec fn class_of(p: Seq<char>) -> (ClassView, nat)
    recommends
        p.len() > 0,
{
    let end = find_from(p, ']', 0);
    if p.len() >= 2 && p[0] == '\\' && p[1] == 'd' {
        (ClassView::Digit, 2)
    } else if p.len() >= 2 && p[0] == '\\' && p[1] == 'w' {
        (ClassView::AlphaNumeric, 2)
    } else if p[0] == '[' && end < p.len() {
        if p[1] == '^' {
            (ClassView::NegGroup(p.subrange(2, end as int)), end + 1)
        } else {
            (ClassView::PosGroup(p.subrange(1, end as int)), end + 1)
        }
    } else {
        (ClassView::Literal(p[0]), 1)
    }
}

/// The quantifier at the start of `p`, and how many characters spell it.
pub open spec fn quantifier_of(p: Seq<char>) -> (Quantifier, nat) {
    if p.len() == 0 {
        (Quantifier::One, 0)
    } else if p[0] == '+' {
        (Quantifier::OneOrMore, 1)
    } else if p[0] == '*' {
        (Quantifier::ZeroOrMore, 1)
    } else if p[0] == '?' {
        (Quantifier::ZeroOrOne, 1)
    } else {
        (Quantifier::One, 0)
    }
}

/// Whether `c` stands for a position, not for a class.
pub open spec fn is_anchor(c: char) -> bool {
    c == '^' || c == '$'
}

/// How many characters the class at `p[pos..]` and its quantifier span together.
pub open spec fn unit_len(p: Seq<char>, pos: nat) -> nat {
    let rest = p.subrange(pos as int, p.len() as int);
    let n = class_of(rest).1;
    n + quantifier_of(rest.subrange(n as int, rest.len() as int)).1
}

/// Whether the atom that starts at `p[pos..]` has the class `cls`.
pub open spec fn same_class_at(p: Seq<char>, cls: ClassView, pos: nat) -> bool {
    pos < p.len() && !is_anchor(p[pos as int]) && class_of(p.subrange(pos as int, p.len() as int)).0
        == cls
}

/// Where a one-or-more run of `cls` that has reached `pos` stops: each following
/// atom of the same class is taken in, with its own quantifier dropped.
pub open spec fn absorb(p: Seq<char>, cls: ClassView, pos: nat) -> nat
    decreases p.len() - pos,
{
    if same_class_at(p, cls, pos) && unit_len(p, pos) > 0 {
        absorb(p, cls, pos + unit_len(p, pos))
    } else {
        pos
    }
}

/// The atom at the start of `p`: its class, its quantifier and how many characters
/// of the pattern it spans.
pub open spec fn atom_of(p: Seq<char>) -> (ClassView, Quantifier, nat) {
    let (cls, n) = class_of(p);
    let (q, m) = quantifier_of(p.subrange(n as int, p.len() as int));
    if q == Quantifier::OneOrMore {
        (cls, q, absorb(p, cls, n + m))
    } else {
        (cls, q, n + m)
    }
}

/// A pattern suffix can be read as an atom when it is not empty and does not start
/// with an anchor.
pub open spec fn starts_atom(p: Seq<char>) -> bool {
    p.len() > 0 && !is_anchor(p[0])
}

/// `find_from` stops at the first occurrence of `c` from `i` on, or at the end.
pub proof fn lemma_find_from(p: Seq<char>, c: char, i: nat)
    requires
        i <= p.len(),
    ensures
        i <= find_from(p, c, i) <= p.len(),
        find_from(p, c, i) < p.len() ==> p[find_from(p, c, i) as int] == c,
        forall|k: int| i <= k < find_from(p, c, i) ==> p[k] != c,
    decreases p.len() - i,
{
    if i < p.len() && p[i as int] != c {
        lemma_find_from(p, c, i + 1);
    }
}

/// A class spans at least one character and never runs past the pattern.
pub proof fn lemma_class_len(p: Seq<char>)
    requires
        p.len() > 0,
    ensures
        1 <= class_of(p).1 <= p.len(),
{
    lemma_find_from(p, ']', 0);
}

/// A one-or-more run stops inside the pattern, never before where it started.
pub proof fn lemma_absorb_len(p: Seq<char>, cls: ClassView, pos: nat)
    requires
        pos <= p.len(),
    ensures
        pos <= absorb(p, cls, pos) <= p.len(),
    decreases p.len() - pos,
{
    if same_class_at(p, cls, pos) && unit_len(p, pos) > 0 {
        let rest = p.subrange(pos as int, p.len() as int);
        lemma_class_len(rest);
        lemma_absorb_len(p, cls, pos + unit_len(p, pos));
    }
}

/// An atom spans at least one character and never runs past the pattern.
pub proof fn lemma_atom_len(p: Seq<char>)
    requires
        p.len() > 0,
    ensures
        1 <= atom_of(p).2 <= p.len(),
{
    lemma_class_len(p);
    let n = class_of(p).1;
    let m = quantifier_of(p.subrange(n as int, p.len() as int)).1;
    if quantifier_of(p.subrange(n as int, p.len() as int)).0 == Quantifier::OneOrMore {
        lemma_absorb_len(p, class_of(p).0, n + m);
    }
}

/// Whether two character sequences are equal.
fn same_chars(a: &[char], b: &[char]) -> (r: bool)
    ensures
        r == (a@ == b@),
{
    if a.len() != b.len() {
        return false;
    }
    let mut i: usize = 0;
    while i < a.len()
        invariant
            a@.len() == b@.len(),
            i <= a@.len(),
            forall|k: int| 0 <= k < i ==> a@[k] == b@[k],
        decreases a@.len() - i,
    {
        if a[i] != b[i] {
            return false;
        }
        i += 1;
    }
    assert(a@ =~= b@);
    true
}

/// Whether two classes are the same class.
pub fn same_class(a: &CharCls, b: &CharCls) -> (r: bool)
    ensures
        r == (a@ == b@),
{
    match (a, b) {
        (CharCls::Digit, CharCls::Digit) => true,
        (CharCls::AlphaNumeric, CharCls::AlphaNumeric) => true,
        (CharCls::PosCharGroup(x), CharCls::PosCharGroup(y)) => same_chars(x, y),
        (CharCls::NegCharGroup(x), CharCls::NegCharGroup(y)) => same_chars(x, y),
        (CharCls::Literal(x), CharCls::Literal(y)) => *x == *y,
        _ => false,
    }
}

/// Reads the class at the start of `pattern`: `\d`, `\w`, a group `[...]` or `[^...]`,
/// or a literal character. A `[` with no closing `]` is the literal `[`.
pub fn extract_char_class(pattern: &[char]) -> (r: (CharCls, usize))
    requires
        starts_atom(pattern@),
    ensures
        (r.0@, r.1 as nat) == class_of(pattern@),
{
    proof {
        lemma_find_from(pattern@, ']', 0);
    }
    if pattern.len() >= 2 && pattern[0] == '\\' && pattern[1] == 'd' {
        return (CharCls::Digit, 2);
    }
    if pattern.len() >= 2 && pattern[0] == '\\' && pattern[1] == 'w' {
        return (CharCls::AlphaNumeric, 2);
    }
    if pattern[0] == '[' {
        let mut end: usize = 0;
        while end < pattern.len() && pattern[end] != ']'
            invariant
                end <= pattern@.len(),
                find_from(pattern@, ']', 0) == find_from(pattern@, ']', end as nat),
            decreases pattern@.len() - end,
        {
            end += 1;
        }
        if end < pattern.len() {
            if pattern[1] == '^' {
                return (CharCls::NegCharGroup(slice_subrange(pattern, 2, end)), end + 1);
            } else {
                return (CharCls::PosCharGroup(slice_subrange(pattern, 1, end)), end + 1);
            }
        }
    }
    (CharCls::Literal(pattern[0]), 1)
}

/// Reads the quantifier at the start of `pattern`: `+`, `*` or `?`, each one
/// character, or `One`, spelled by nothing.
pub fn extract_quantifier(pattern: &[char]) -> (r: (Quantifier, usize))
    ensures
        (r.0, r.1 as nat) == quantifier_of(pattern@),
{
    if pattern.len() == 0 {
        (Quantifier::One, 0)
    } else if pattern[0] == '+' {
        (Quantifier::OneOrMore, 1)
    } else if pattern[0] == '*' {
        (Quantifier::ZeroOrMore, 1)
    } else if pattern[0] == '?' {
        (Quantifier::ZeroOrOne, 1)
    } else {
        (Quantifier::One, 0)
    }
}

/// Reads the atom at the start of `pattern`. After a `+`, the following atoms of
/// the same class are merged into it, so `a+a` is one one-or-more run of `a`.
pub fn extract_pattern(pattern: &[char]) -> (r: (CharCls, Quantifier, usize))
    requires
        starts_atom(pattern@),
    ensures
        (r.0@, r.1, r.2 as nat) == atom_of(pattern@),
        1 <= r.2 <= pattern@.len(),
{
    proof {
        lemma_class_len(pattern@);
        lemma_atom_len(pattern@);
    }
    let (char_cls, class_size) = extract_char_class(pattern);
    let (quantifier, quantifier_size) = extract_quantifier(
        slice_subrange(pattern, class_size, pattern.len()),
    );
    let mut pos = class_size + quantifier_size;
    if quantifier == Quantifier::OneOrMore {
        proof {
            lemma_absorb_len(pattern@, char_cls@, pos as nat);
        }
        while pos < pattern.len() && pattern[pos] != '^' && pattern[pos] != '$'
            invariant
                pos <= pattern@.len(),
                absorb(pattern@, char_cls@, (class_size + quantifier_size) as nat) == absorb(
                    pattern@,
                    char_cls@,
                    pos as nat,
                ),
            ensures
                pos <= pattern@.len(),
                absorb(pattern@, char_cls@, (class_size + quantifier_size) as nat) == pos as nat,
            decreases pattern@.len() - pos,
        {
            let rest = slice_subrange(pattern, pos, pattern.len());
            let (next_cls, next_size) = extract_char_class(rest);
            if !same_class(&next_cls, &char_cls) {
                assert(!same_class_at(pattern@, char_cls@, pos as nat));
                break;
            }
            proof {
                lemma_class_len(rest@);
            }
            let (_, next_quantifier_size) = extract_quantifier(
                slice_subrange(rest, next_size, rest.len()),
            );
            assert(same_class_at(pattern@, char_cls@, pos as nat));
            assert(unit_len(pattern@, pos as nat) == next_size + next_quantifier_size);
            pos = pos + next_size + next_quantifier_size;
        }
    }
    (char_cls, quantifier, pos)
}

} // verus!
