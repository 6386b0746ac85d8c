use vstd::prelude::*;
use crate::atom::{atom_of, class_of, find_from, quantifier_of, starts_atom, lemma_find_from};
use crate::class::{admits, lemma_run_from, match_count, ClassView, Quantifier};
use crate::matcher::{attempt, attempt_at, pattern_matches, prev_at};

verus! {

/// Whether `c` has a meaning of its own in a pattern.
pub open spec fn is_special(c: char) -> bool {
    c == '\\' || c == '[' || c == ']' || c == '^' || c == '$' || c == '+' || c == '*' || c == '?'
}

/// Whether `c` is a quantifier character.
pub open spec fn is_quantifier_char(c: char) -> bool {
    c == '+' || c == '*' || c == '?'
}

/// Whether no character of `w` is special.
pub open spec fn is_plain(w: Seq<char>) -> bool {
    forall|k: int| 0 <= k < w.len() ==> !is_special(#[trigger] w[k])
}

/// Whether `w` stands in `s` at offset `i`.
pub open spec fn occurs_at(s: Seq<char>, w: Seq<char>, i: int) -> bool {
    0 <= i && i + w.len() <= s.len() && s.subrange(i, i + w.len()) == w
}

/// Whether `i` is the start of a line of `s`.
pub open spec fn line_start(s: Seq<char>, i: int) -> bool {
    i == 0 || s[i - 1] == '\n'
}

/// Whether `i` is the end of a line of `s`.
pub open spec fn line_end(s: Seq<char>, i: int) -> bool {
    i == s.len() || s[i] == '\n'
}

/// The accepted run at the start of a sequence is one character longer when its
/// first character is accepted, and empty otherwise.
proof fn lemma_count_first(s: Seq<char>, cls: ClassView, q: Quantifier)
    requires
        s.len() > 0,
    ensures
        (match_count(s, cls, q) > 0) == admits(cls, s[0]),
        q == Quantifier::One ==> match_count(s, cls, q) <= 1,
{
    lemma_run_from(s, cls, 0);
    if admits(cls, s[0]) {
        lemma_run_from(s, cls, 1);
    }
}

/// A plain pattern character followed by no quantifier is an atom that accepts
/// exactly itself, once.
proof fn lemma_plain_atom(p: Seq<char>, pp: nat)
    requires
        pp < p.len(),
        !is_special(p[pp as int]),
        pp + 1 < p.len() ==> !is_quantifier_char(p[(pp + 1) as int]),
    ensures
        atom_of(p.subrange(pp as int, p.len() as int)) == (
        ClassView::Literal(p[pp as int]),
        Quantifier::One,
        1nat,
        ),
{
    let rest = p.subrange(pp as int, p.len() as int);
    lemma_find_from(rest, ']', 0);
    assert(class_of(rest) == (ClassView::Literal(p[pp as int]), 1nat));
    let tail = rest.subrange(1, rest.len() as int);
    assert(quantifier_of(tail).0 == Quantifier::One);
}

/// Running through plain characters `p[pp..k]` compares them one by one with the
/// input, and goes on with the last of them as the previous character.
proof fn lemma_plain_run(s: Seq<char>, p: Seq<char>, pp: nat, k: nat, cur: nat, prev: Option<char>)
    requires
        pp <= k <= p.len(),
        cur <= s.len(),
        forall|j: int| pp <= j < k ==> !is_special(#[trigger] p[j]),
        k < p.len() ==> !is_quantifier_char(p[k as int]),
    ensures
        attempt(s, p, pp, cur, prev) == (cur + (k - pp) <= s.len() && s.subrange(
            cur as int,
            cur + (k - pp),
        ) == p.subrange(pp as int, k as int) && attempt(
            s,
            p,
            k,
            (cur + (k - pp)) as nat,
            if k > pp {
                Some(p[k - 1])
            } else {
                prev
            },
        )),
    decreases k - pp,
{
    if pp == k {
        assert(s.subrange(cur as int, cur as int) =~= p.subrange(pp as int, k as int));
    } else {
        assert(!is_special(p[pp as int]));
        if pp + 1 < k {
            assert(!is_special(p[(pp + 1) as int]));
        }
        lemma_plain_atom(p, pp);
        if cur < s.len() {
            let t = s.subrange(cur as int, s.len() as int);
            lemma_count_first(t, ClassView::Literal(p[pp as int]), Quantifier::One);
            lemma_plain_run(s, p, pp + 1, k, cur + 1, Some(s[cur as int]));
            if s[cur as int] == p[pp as int] {
                assert(match_count(t, ClassView::Literal(p[pp as int]), Quantifier::One) == 1);
                if cur + (k - pp) <= s.len() {
                    let a = s.subrange(cur as int, cur + (k - pp));
                    let b = p.subrange(pp as int, k as int);
                    assert(a == b <==> a.subrange(1, a.len() as int) == b.subrange(
                        1,
                        b.len() as int,
                    )) by {
                        if a.subrange(1, a.len() as int) == b.subrange(1, b.len() as int) {
                            assert forall|j: int| 0 <= j < a.len() implies a[j] == b[j] by {
                                if j > 0 {
                                    assert(a[j] == a.subrange(1, a.len() as int)[j - 1]);
                                }
                            }
                            assert(a =~= b);
                        }
                    }
                    assert(a.subrange(1, a.len() as int) =~= s.subrange(
                        (cur + 1) as int,
                        cur + 1 + (k - (pp + 1)),
                    ));
                    assert(b.subrange(1, b.len() as int) =~= p.subrange((pp + 1) as int, k as int));
                }
                if k == pp + 1 {
                    assert(p[k - 1] == s[cur as int]);
                }
            } else {
                if cur + (k - pp) <= s.len() {
                    assert(s.subrange(cur as int, cur + (k - pp))[0] != p.subrange(
                        pp as int,
                        k as int,
                    )[0]);
                }
            }
        }
    }
}

/// Over a pattern with no special characters the matcher is substring search: it
/// succeeds exactly when the pattern occurs somewhere in the input.
pub proof fn lemma_plain_is_substring(s: Seq<char>, p: Seq<char>)
    requires
        p.len() > 0,
        is_plain(p),
    ensures
        pattern_matches(s, p) == exists|i: int| #[trigger] occurs_at(s, p, i),
{
    assert forall|i: int| 0 <= i < s.len() implies #[trigger] attempt_at(s, p, i) == occurs_at(
        s,
        p,
        i,
    ) by {
        lemma_plain_run(s, p, 0, p.len(), i as nat, prev_at(s, i));
        assert(p.subrange(0, p.len() as int) =~= p);
    }
    if exists|i: int| #[trigger] occurs_at(s, p, i) {
        let i = choose|i: int| #[trigger] occurs_at(s, p, i);
        assert(attempt_at(s, p, i));
    }
}

/// A pattern that is one atom, of class `cls`, with a quantifier other than `?`,
/// matches at an offset exactly when the class accepts the character there; with
/// `?` it matches at every offset.
proof fn lemma_single_atom(s: Seq<char>, p: Seq<char>, cls: ClassView, q: Quantifier, i: int)
    requires
        starts_atom(p),
        atom_of(p) == (cls, q, p.len()),
        0 <= i < s.len(),
    ensures
        attempt_at(s, p, i) == (q == Quantifier::ZeroOrOne || admits(cls, s[i])),
{
    reveal_with_fuel(attempt, 2);
    assert(p.subrange(0, p.len() as int) =~= p);
    lemma_count_first(s.subrange(i, s.len() as int), cls, q);
}

/// `pattern_matches` for a one-atom pattern whose quantifier is not `?`.
proof fn lemma_single_atom_matches(s: Seq<char>, p: Seq<char>, cls: ClassView, q: Quantifier)
    requires
        starts_atom(p),
        atom_of(p) == (cls, q, p.len()),
        q != Quantifier::ZeroOrOne,
    ensures
        pattern_matches(s, p) == exists|i: int| 0 <= i < s.len() && admits(cls, #[trigger] s[i]),
{
    assert forall|i: int| 0 <= i < s.len() implies #[trigger] attempt_at(s, p, i) == admits(
        cls,
        s[i],
    ) by {
        lemma_single_atom(s, p, cls, q, i);
    }
    if exists|i: int| 0 <= i < s.len() && admits(cls, #[trigger] s[i]) {
        let i = choose|i: int| 0 <= i < s.len() && admits(cls, #[trigger] s[i]);
        assert(attempt_at(s, p, i));
    }
}

/// `\d` matches exactly when some character of the input is numeric, and `\w`
/// exactly when some character is alphanumeric.
pub proof fn lemma_digit_and_word(s: Seq<char>)
    ensures
        pattern_matches(s, seq!['\\', 'd']) == exists|i: int|
            0 <= i < s.len() && admits(ClassView::Digit, #[trigger] s[i]),
        pattern_matches(s, seq!['\\', 'w']) == exists|i: int|
            0 <= i < s.len() && admits(ClassView::AlphaNumeric, #[trigger] s[i]),
{
    let d = seq!['\\', 'd'];
    let w = seq!['\\', 'w'];
    assert(quantifier_of(d.subrange(2, 2)).0 == Quantifier::One);
    assert(quantifier_of(w.subrange(2, 2)).0 == Quantifier::One);
    lemma_single_atom_matches(s, d, ClassView::Digit, Quantifier::One);
    lemma_single_atom_matches(s, w, ClassView::AlphaNumeric, Quantifier::One);
}

/// `find_from` finds the closing bracket of `[` + `inner` + `]` just after `inner`.
proof fn lemma_group_close(p: Seq<char>, inner: Seq<char>)
    requires
        p == seq!['['] + inner + seq![']'],
        forall|k: int| 0 <= k < inner.len() ==> #[trigger] inner[k] != ']',
    ensures
        find_from(p, ']', 0) == inner.len() + 1,
{
    lemma_find_from(p, ']', 0);
    let f = find_from(p, ']', 0) as int;
    if f < inner.len() + 1 {
        if f > 0 {
            assert(p[f] == inner[f - 1]);
        }
    } else if f > inner.len() + 1 {
        assert(p[inner.len() + 1int] == ']');
    }
}

/// The pattern `[g]` is a positive group over `g` and `[^g]` a negative group over
/// `g`, provided `g` holds no `]` (and, for the positive group, does not start with
/// `^`). A positive group accepts exactly the characters of `g`, a negative group
/// exactly the others, and each pattern matches exactly when an input character is
/// accepted.
pub proof fn lemma_groups(s: Seq<char>, g: Seq<char>)
    requires
        forall|k: int| 0 <= k < g.len() ==> #[trigger] g[k] != ']',
    ensures
        (g.len() == 0 || g[0] != '^') ==> class_of(seq!['['] + g + seq![']']) == (
        ClassView::PosGroup(g),
        g.len() + 2,
        ),
        class_of(seq!['[', '^'] + g + seq![']']) == (ClassView::NegGroup(g), g.len() + 3),
        forall|c: char| admits(ClassView::PosGroup(g), c) == g.contains(c),
        forall|c: char| admits(ClassView::NegGroup(g), c) == !g.contains(c),
        (g.len() == 0 || g[0] != '^') ==> pattern_matches(s, seq!['['] + g + seq![']']) == exists|i: int|
            0 <= i < s.len() && g.contains(#[trigger] s[i]),
        pattern_matches(s, seq!['[', '^'] + g + seq![']']) == exists|i: int|
            0 <= i < s.len() && !g.contains(#[trigger] s[i]),
{
    let pos = seq!['['] + g + seq![']'];
    let neg = seq!['[', '^'] + g + seq![']'];
    let ng = seq!['^'] + g;
    assert(neg =~= seq!['['] + ng + seq![']']);
    assert forall|k: int| 0 <= k < ng.len() implies #[trigger] ng[k] != ']' by {
        if k > 0 {
            assert(ng[k] == g[k - 1]);
        }
    }
    lemma_group_close(neg, ng);
    assert(neg.subrange(2, g.len() + 2int) =~= g);
    assert(neg[1] == '^');
    assert(quantifier_of(neg.subrange(g.len() + 3int, neg.len() as int)).0 == Quantifier::One);
    assert(starts_atom(neg));
    lemma_single_atom_matches(s, neg, ClassView::NegGroup(g), Quantifier::One);
    if g.len() == 0 || g[0] != '^' {
        lemma_group_close(pos, g);
        assert(pos.subrange(1, g.len() + 1int) =~= g);
        if g.len() > 0 {
            assert(pos[1] == g[0]);
        }
        assert(quantifier_of(pos.subrange(g.len() + 2int, pos.len() as int)).0 == Quantifier::One);
        assert(starts_atom(pos));
        lemma_single_atom_matches(s, pos, ClassView::PosGroup(g), Quantifier::One);
    }
}

/// `^w` matches exactly when the plain word `w` occurs at the start of a line, and
/// `w$` exactly when it occurs at the end of a line; in both cases the occurrence
/// must begin before the end of the input.
pub proof fn lemma_anchors(s: Seq<char>, w: Seq<char>)
    requires
        is_plain(w),
    ensures
        pattern_matches(s, seq!['^'] + w) == exists|i: int|
            0 <= i < s.len() && line_start(s, i) && #[trigger] occurs_at(s, w, i),
        pattern_matches(s, w + seq!['$']) == exists|i: int|
            0 <= i < s.len() && #[trigger] occurs_at(s, w, i) && line_end(s, i + w.len()),
{
    let a = seq!['^'] + w;
    let b = w + seq!['$'];
    assert(a.subrange(1, a.len() as int) =~= w);
    assert(b.subrange(0, w.len() as int) =~= w);
    assert forall|i: int| 0 <= i < s.len() implies #[trigger] attempt_at(s, a, i) == (line_start(
        s,
        i,
    ) && occurs_at(s, w, i)) by {
        assert forall|j: int| 1 <= j < a.len() implies !is_special(#[trigger] a[j]) by {
            assert(a[j] == w[j - 1]);
        }
        lemma_plain_run(s, a, 1, a.len(), i as nat, prev_at(s, i));
    }
    assert forall|i: int| 0 <= i < s.len() implies #[trigger] attempt_at(s, b, i) == (occurs_at(
        s,
        w,
        i,
    ) && line_end(s, i + w.len())) by {
        assert forall|j: int| 0 <= j < w.len() implies !is_special(#[trigger] b[j]) by {
            assert(b[j] == w[j]);
        }
        reveal_with_fuel(attempt, 2);
        lemma_plain_run(s, b, 0, w.len(), i as nat, prev_at(s, i));
    }
    if exists|i: int| 0 <= i < s.len() && line_start(s, i) && #[trigger] occurs_at(s, w, i) {
        let i = choose|i: int| 0 <= i < s.len() && line_start(s, i) && #[trigger] occurs_at(s, w, i);
        assert(attempt_at(s, a, i));
    }
    if exists|i: int| 0 <= i < s.len() && #[trigger] occurs_at(s, w, i) && line_end(s, i + w.len()) {
        let i = choose|i: int|
            0 <= i < s.len() && #[trigger] occurs_at(s, w, i) && line_end(s, i + w.len());
        assert(attempt_at(s, b, i));
    }
}

/// An atom with quantifier `One` consumes the first character when it is accepted
/// and nothing otherwise; with `+`, `*` or `?` it consumes the longest accepted run,
/// which may be empty, and is followed by the end or by a rejected character.
pub proof fn lemma_quantifier_counts(s: Seq<char>, cls: ClassView, q: Quantifier)
    ensures
        q == Quantifier::One ==> match_count(s, cls, q) == (if s.len() > 0 && admits(cls, s[0]) {
            1nat
        } else {
            0nat
        }),
        q != Quantifier::One ==> {
            &&& match_count(s, cls, q) <= s.len()
            &&& forall|k: int| 0 <= k < match_count(s, cls, q) ==> admits(cls, #[trigger] s[k])
            &&& match_count(s, cls, q) == s.len() || !admits(cls, s[match_count(s, cls, q) as int])
        },
{
    lemma_run_from(s, cls, 0);
    if s.len() > 0 {
        lemma_count_first(s, cls, q);
    }
}

/// For a plain character `a`: the pattern `a?` matches every non-empty input,
/// whether it starts with zero or more `a`; `a+` matches exactly when the input
/// holds an `a`.
pub proof fn lemma_optional_and_repeated(s: Seq<char>, a: char)
    requires
        !is_special(a),
    ensures
        s.len() > 0 ==> pattern_matches(s, seq![a, '?']),
        pattern_matches(s, seq![a, '+']) == exists|i: int| 0 <= i < s.len() && #[trigger] s[i] == a,
{
    let opt = seq![a, '?'];
    let rep = seq![a, '+'];
    lemma_find_from(opt, ']', 0);
    lemma_find_from(rep, ']', 0);
    assert(class_of(opt) == (ClassView::Literal(a), 1nat));
    assert(class_of(rep) == (ClassView::Literal(a), 1nat));
    assert(quantifier_of(opt.subrange(1, 2)).0 == Quantifier::ZeroOrOne);
    assert(quantifier_of(rep.subrange(1, 2)).0 == Quantifier::OneOrMore);
    assert(atom_of(rep) == (ClassView::Literal(a), Quantifier::OneOrMore, 2nat));
    if s.len() > 0 {
        lemma_single_atom(s, opt, ClassView::Literal(a), Quantifier::ZeroOrOne, 0);
        assert(attempt_at(s, opt, 0));
    }
    lemma_single_atom_matches(s, rep, ClassView::Literal(a), Quantifier::OneOrMore);
}

/// The matcher is a function of its two arguments: asking twice about the same
/// input and pattern gives the same answer.
pub proof fn lemma_same_answer(s: Seq<char>, p: Seq<char>, first: bool, second: bool)
    requires
        first == pattern_matches(s, p),
        second == pattern_matches(s, p),
    ensures
        first == second,
{
}

} // verus!
