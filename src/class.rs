use vstd::prelude::*;

verus! {

/// Which characters of the input a single pattern atom accepts.
///
/// Group contents borrow from the pattern they were read from.
#[derive(Debug, PartialEq, Eq)]
pub enum CharCls<'a> {
    Digit,
    AlphaNumeric,
    PosCharGroup(&'a [char]),
    NegCharGroup(&'a [char]),
    Literal(char),
}

/// How many times an atom may repeat.
#[derive(Debug, Copy, Clone, PartialEq, Eq, Structural)]
pub enum Quantifier {
    One,
    OneOrMore,
    ZeroOrMore,
    ZeroOrOne,
}

/// The mathematical value of a character class.
pub enum ClassView {
    Digit,
    AlphaNumeric,
    PosGroup(Seq<char>),
    NegGroup(Seq<char>),
    Literal(char),
}

impl<'a> View for CharCls<'a> {
    type V = ClassView;

    open spec fn view(&self) -> ClassView {
        match *self {
            CharCls::Digit => ClassView::Digit,
            CharCls::AlphaNumeric => ClassView::AlphaNumeric,
            CharCls::PosCharGroup(g) => ClassView::PosGroup(g@),
            CharCls::NegCharGroup(g) => ClassView::NegGroup(g@),
            CharCls::Literal(c) => ClassView::Literal(c),
        }
    }
}

/// Whether `char::is_numeric` holds of `c`.
pub uninterp spec fn numeric_char(c: char) -> bool;

/// Whether `char::is_alphanumeric` holds of `c`.
pub uninterp spec fn alphanumeric_char(c: char) -> bool;

/// Relies on char::is_numeric: whether `c` lies in a numeric general category.
#[verifier::external_body]
fn char_is_numeric(c: char) -> (r: bool)
    ensures
        r == numeric_char(c),
{
    c.is_numeric()
}

/// Relies on char::is_alphanumeric: whether `c` is alphabetic or numeric.
#[verifier::external_body]
fn char_is_alphanumeric(c: char) -> (r: bool)
    ensures
        r == alphanumeric_char(c),
{
    c.is_alphanumeric()
}

/// Whether the class `cls` accepts the character `c`.
pub open spec fn admits(cls: ClassView, c: char) -> bool {
    match cls {
        ClassView::Digit => numeric_char(c),
        ClassView::AlphaNumeric => alphanumeric_char(c),
        ClassView::PosGroup(g) => g.contains(c),
        ClassView::NegGroup(g) => !g.contains(c),
        ClassView::Literal(l) => l == c,
    }
}

/// The end of the run of characters of `s` accepted by `cls` that starts at `i`.
pub open spec fn run_from(s: Seq<char>, cls: ClassView, i: nat) -> nat
    decreases s.len() - i,
{
    if i < s.len() && admits(cls, s[i as int]) {
        run_from(s, cls, i + 1)
    } else {
        i
    }
}

/// How many leading characters of `s` an atom with class `cls` and quantifier `q`
/// consumes: the whole accepted run, or at most one character for `One`.
pub open spec fn match_count(s: Seq<char>, cls: ClassView, q: Quantifier) -> nat {
    let run = run_from(s, cls, 0);
    if q == Quantifier::One && run > 1 {
        1
    } else {
        run
    }
}

/// The run that starts at `i` ends no earlier than `i`, no later than the end of `s`,
/// every character in it is accepted, and the character just after it is not.
pub proof fn lemma_run_from(s: Seq<char>, cls: ClassView, i: nat)
    requires
        i <= s.len(),
    ensures
        i <= run_from(s, cls, i) <= s.len(),
        forall|k: int| i <= k < run_from(s, cls, i) ==> admits(cls, #[trigger] s[k]),
        run_from(s, cls, i) < s.len() ==> !admits(cls, s[run_from(s, cls, i) as int]),
    decreases s.len() - i,
{
    if i < s.len() && admits(cls, s[i as int]) {
        lemma_run_from(s, cls, i + 1);
    }
}

/// Whether `c` is one of the characters of `group`.
fn group_contains(group: &[char], c: char) -> (r: bool)
    ensures
        r == group@.contains(c),
{
    let mut i: usize = 0;
    while i < group.len()
        invariant
            i <= group@.len(),
            forall|k: int| 0 <= k < i ==> group@[k] != c,
        decreases group@.len() - i,
    {
        if group[i] == c {
            return true;
        }
        i += 1;
    }
    false
}

impl<'a> CharCls<'a> {
    /// Whether this class accepts the character `c`.
    pub fn accepts(&self, c: char) -> (r: bool)
        ensures
            r == admits(self@, c),
    {
        match self {
            CharCls::Digit => char_is_numeric(c),
            CharCls::AlphaNumeric => char_is_alphanumeric(c),
            CharCls::PosCharGroup(group) => group_contains(group, c),
            CharCls::NegCharGroup(group) => !group_contains(group, c),
            CharCls::Literal(l) => *l == c,
        }
    }
}

/// Counts the leading characters of `input` that the atom `(char_cls, quantifier)`
/// consumes. Repetition is greedy: every quantifier other than `One` takes the
/// longest accepted run, and nothing is ever given back.
pub fn match_char(input: &[char], char_cls: &CharCls, quantifier: Quantifier) -> (r: usize)
    ensures
        r == match_count(input@, char_cls@, quantifier),
{
    let mut count: usize = 0;
    proof {
        lemma_run_from(input@, char_cls@, 0);
    }
    loop
        invariant
            count <= input@.len(),
            run_from(input@, char_cls@, 0) == run_from(input@, char_cls@, count as nat),
            quantifier == Quantifier::One ==> count == 0,
        decreases input@.len() - count,
    {
        if count >= input.len() || !char_cls.accepts(input[count]) {
            return count;
        }
        count += 1;
        if quantifier == Quantifier::One {
            proof {
                lemma_run_from(input@, char_cls@, 1);
            }
            return 1;
        }
    }
}

} // verus!
