use vstd::prelude::*;
use vstd::string::StrSliceExecFns;
use crate::atom::{atom_of, extract_pattern, lemma_atom_len};
use crate::class::{lemma_run_from, match_char, match_count, Quantifier};
use vstd::slice::slice_subrange;

verus! {

/// The character just before offset `i` of `s`, if there is one.
pub open spec fn prev_at(s: Seq<char>, i: int) -> Option<char> {
    if i <= 0 {
        None
    } else {
        Some(s[i - 1])
    }
}

/// Whether the pattern `p` from position `pp` on matches the input `s` from `cur` on,
/// where `prev` is the last character consumed (or the one before the starting
/// offset). Each atom consumes greedily and never gives characters back.
pub open spec fn attempt(s: Seq<char>, p: Seq<char>, pp: nat, cur: nat, prev: Option<char>) -> bool
    decreases p.len() - pp,
    via attempt_decreases
{
    if pp >= p.len() {
        true
    } else if p[pp as int] == '^' {
        (prev is None || prev == Some('\n')) && attempt(s, p, pp + 1, cur, prev)
    } else if p[pp as int] == '$' {
        (cur >= s.len() || s[cur as int] == '\n') && attempt(
            s,
            p,
            pp + 1,
            if cur < s.len() {
                cur + 1
            } else {
                cur
            },
            prev,
        )
    } else {
        let (cls, q, adv) = atom_of(p.subrange(pp as int, p.len() as int));
        if cur >= s.len() {
            q == Quantifier::ZeroOrOne && attempt(s, p, pp + adv, cur, prev)
        } else {
            let n = match_count(s.subrange(cur as int, s.len() as int), cls, q);
            if n > 0 {
                attempt(s, p, pp + adv, cur + n, Some(s[cur + n - 1]))
            } else {
                q == Quantifier::ZeroOrOne && attempt(s, p, pp + adv, cur, prev)
            }
        }
    }
}

#[via_fn]
proof fn attempt_decreases(s: Seq<char>, p: Seq<char>, pp: nat, cur: nat, prev: Option<char>) {
    if pp < p.len() {
        lemma_atom_len(p.subrange(pp as int, p.len() as int));
    }
}

/// Whether the whole pattern `p` matches `s` starting at offset `i`.
pub open spec fn attempt_at(s: Seq<char>, p: Seq<char>, i: int) -> bool {
    attempt(s, p, 0, i as nat, prev_at(s, i))
}

/// Whether `p` matches `s` at some offset before the end of `s`.
pub open spec fn pattern_matches(s: Seq<char>, p: Seq<char>) -> bool {
    exists|i: int| 0 <= i < s.len() && #[trigger] attempt_at(s, p, i)
}

/// Tries to match the whole `pattern` with the input starting at offset `pos`.
pub fn match_next(input_line: &[char], pos: usize, pattern: &[char]) -> (r: bool)
    requires
        pos <= input_line@.len(),
    ensures
        r == attempt_at(input_line@, pattern@, pos as int),
{
    let mut pat_pos: usize = 0;
    let mut cur_pos = pos;
    let mut prev_char: Option<char> = if cur_pos == 0 {
        None
    } else {
        Some(input_line[cur_pos - 1])
    };
    while pat_pos < pattern.len()
        invariant
            pat_pos <= pattern@.len(),
            cur_pos <= input_line@.len(),
            attempt_at(input_line@, pattern@, pos as int) == attempt(
                input_line@,
                pattern@,
                pat_pos as nat,
                cur_pos as nat,
                prev_char,
            ),
        decreases pattern@.len() - pat_pos,
    {
        let pat_char = pattern[pat_pos];
        if pat_char == '^' {
            match prev_char {
                Some(c) => {
                    if c != '\n' {
                        return false;
                    }
                },
                None => {},
            }
            pat_pos += 1;
        } else if pat_char == '$' {
            if cur_pos < input_line.len() && input_line[cur_pos] != '\n' {
                return false;
            }
            pat_pos += 1;
            if cur_pos < input_line.len() {
                cur_pos += 1;
            }
        } else {
            let rest = slice_subrange(pattern, pat_pos, pattern.len());
            let (char_cls, quantifier, advance) = extract_pattern(rest);
            if cur_pos >= input_line.len() {
                if quantifier != Quantifier::ZeroOrOne {
                    return false;
                }
            } else {
                let matched_count = match_char(
                    slice_subrange(input_line, cur_pos, input_line.len()),
                    &char_cls,
                    quantifier,
                );
                proof {
                    lemma_run_from(
                        input_line@.subrange(cur_pos as int, input_line@.len() as int),
                        char_cls@,
                        0,
                    );
                }
                if matched_count > 0 {
                    prev_char = Some(input_line[cur_pos + matched_count - 1]);
                } else if quantifier != Quantifier::ZeroOrOne {
                    return false;
                }
                cur_pos += matched_count;
            }
            pat_pos += advance;
        }
    }
    true
}

/// The characters of `s`, in order.
fn chars_of(s: &str) -> (r: Vec<char>)
    ensures
        r@ == s@,
{
    let n = s.unicode_len();
    let mut out: Vec<char> = Vec::new();
    let mut i: usize = 0;
    while i < n
        invariant
            n == s@.len(),
            i <= n,
            out@ == s@.subrange(0, i as int),
        decreases n - i,
    {
        out.push(s.get_char(i));
        i += 1;
        assert(out@ =~= s@.subrange(0, i as int));
    }
    assert(out@ =~= s@);
    out
}

/// Whether `pattern` matches `input_line` at some offset. Offsets are tried from
/// left to right, up to but not including the end of the line.
pub fn match_pattern(input_line: &str, pattern: &str) -> (r: bool)
    ensures
        r == pattern_matches(input_line@, pattern@),
{
    let input = chars_of(input_line);
    let pat = chars_of(pattern);
    let mut i: usize = 0;
    while i < input.len()
        invariant
            input@ == input_line@,
            pat@ == pattern@,
            i <= input@.len(),
            forall|j: int| 0 <= j < i ==> !attempt_at(input@, pat@, j),
        decreases input@.len() - i,
    {
        if match_next(input.as_slice(), i, pat.as_slice()) {
            return true;
        }
        i += 1;
    }
    false
}

} // verus!
