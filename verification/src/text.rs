//! Character-level utilities shared by the parsers and the formatter:
//! extracting the characters of a string, rendering an index in decimal,
//! and finding, splitting on and joining with a separator.

use vstd::prelude::*;
use vstd::string::StrSliceExecFns;
use vstd::string::StringExecFns;

verus! {

/// The characters of `s`, as a vector indexable in constant time.
pub fn chars_of(s: &str) -> (v: Vec<char>)
    ensures
        v@ == s@,
{
    let n = s.unicode_len();
    let mut v: Vec<char> = Vec::new();
    let mut i: usize = 0;
    while i < n
        invariant
            i <= n,
            n == s@.len(),
            v@ == s@.take(i as int),
        decreases n - i,
    {
        v.push(s.get_char(i));
        assert(v@ == s@.take(i + 1));
        i = i + 1;
    }
    assert(s@.take(n as int) == s@);
    v
}

/// The character for one decimal digit.
pub open spec fn digit_char(d: int) -> char {
    if d == 0 { '0' }
    else if d == 1 { '1' }
    else if d == 2 { '2' }
    else if d == 3 { '3' }
    else if d == 4 { '4' }
    else if d == 5 { '5' }
    else if d == 6 { '6' }
    else if d == 7 { '7' }
    else if d == 8 { '8' }
    else { '9' }
}

/// The base-10 rendering of `n`, without sign and without leading zeros
/// (except for `n == 0`, which renders as "0").
pub open spec fn dec_str(n: nat) -> Seq<char>
    decreases n,
{
    if n < 10 {
        seq![digit_char(n as int)]
    } else {
        dec_str(n / 10) + seq![digit_char((n % 10) as int)]
    }
}

fn digit_str(d: usize) -> (s: &'static str)
    requires
        d < 10,
    ensures
        s@ == seq![digit_char(d as int)],
{
    let r: &'static str = match d {
        0 => "0",
        1 => "1",
        2 => "2",
        3 => "3",
        4 => "4",
        5 => "5",
        6 => "6",
        7 => "7",
        8 => "8",
        _ => "9",
    };
    proof {
        reveal_strlit("0");
        reveal_strlit("1");
        reveal_strlit("2");
        reveal_strlit("3");
        reveal_strlit("4");
        reveal_strlit("5");
        reveal_strlit("6");
        reveal_strlit("7");
        reveal_strlit("8");
        reveal_strlit("9");
        assert(r@ =~= seq![digit_char(d as int)]);
    }
    r
}

/// Renders `n` in decimal, as the traversal does for an array index.
pub fn usize_to_string(n: usize) -> (s: String)
    ensures
        s@ == dec_str(n as nat),
    decreases n,
{
    if n < 10 {
        digit_str(n).to_owned()
    } else {
        let mut s = usize_to_string(n / 10);
        s.append(digit_str(n % 10));
        s
    }
}

/// Does `pat` occur in `text` starting at position `i`?
pub open spec fn occurs_at(text: Seq<char>, pat: Seq<char>, i: int) -> bool {
    0 <= i && i + pat.len() <= text.len() && text.subrange(i, i + pat.len()) == pat
}

/// The first position at or after `from` where `pat` occurs in `text`.
pub open spec fn first_occ_from(text: Seq<char>, pat: Seq<char>, from: int) -> Option<int>
    decreases text.len() + 1 - from,
{
    if from < 0 || from + pat.len() > text.len() {
        None
    } else if text.subrange(from, from + pat.len()) == pat {
        Some(from)
    } else {
        first_occ_from(text, pat, from + 1)
    }
}

/// The last position where `pat` occurs in `text` at or before `from`.
pub open spec fn last_occ_before(text: Seq<char>, pat: Seq<char>, from: int) -> Option<int>
    decreases from + 1,
{
    if from < 0 {
        None
    } else if occurs_at(text, pat, from) {
        Some(from)
    } else {
        last_occ_before(text, pat, from - 1)
    }
}

/// The position of the last occurrence of `pat` in `text`, if any.
pub open spec fn last_occ(text: Seq<char>, pat: Seq<char>) -> Option<int> {
    last_occ_before(text, pat, text.len() - pat.len())
}

/// What `first_occ_from` returns is an occurrence, and the first one.
pub proof fn lemma_first_occ_facts(text: Seq<char>, pat: Seq<char>, from: int)
    requires
        0 <= from,
    ensures
        match first_occ_from(text, pat, from) {
            Some(i) => from <= i && occurs_at(text, pat, i)
                && forall|j: int| from <= j < i ==> !occurs_at(text, pat, j),
            None => forall|j: int| from <= j ==> !occurs_at(text, pat, j),
        },
    decreases text.len() + 1 - from,
{
    if from + pat.len() > text.len() {
    } else if text.subrange(from, from + pat.len()) == pat {
    } else {
        lemma_first_occ_facts(text, pat, from + 1);
    }
}

/// What `last_occ_before` returns is an occurrence, and the last one
/// at or before `from`.
pub proof fn lemma_last_occ_facts(text: Seq<char>, pat: Seq<char>, from: int)
    ensures
        match last_occ_before(text, pat, from) {
            Some(i) => i <= from && occurs_at(text, pat, i)
                && forall|j: int| i < j <= from ==> !occurs_at(text, pat, j),
            None => forall|j: int| j <= from ==> !occurs_at(text, pat, j),
        },
    decreases from + 1,
{
    if from < 0 {
    } else if occurs_at(text, pat, from) {
    } else {
        lemma_last_occ_facts(text, pat, from - 1);
    }
}

/// Compares `pat` against `text` at position `i`.
pub fn match_at(text: &Vec<char>, pat: &Vec<char>, i: usize) -> (b: bool)
    ensures
        b == occurs_at(text@, pat@, i as int),
{
    if i > text.len() || pat.len() > text.len() - i {
        return false;
    }
    let mut k: usize = 0;
    while k < pat.len()
        invariant
            i + pat.len() <= text.len(),
            k <= pat.len(),
            forall|m: int| 0 <= m < k ==> text@[i + m] == pat@[m],
        decreases pat.len() - k,
    {
        if text[i + k] != pat[k] {
            assert(text@.subrange(i as int, i + pat@.len())[k as int] != pat@[k as int]);
            return false;
        }
        k = k + 1;
    }
    assert(text@.subrange(i as int, i + pat@.len()) =~= pat@);
    true
}

/// Finds the first occurrence of `pat` in `text` at or after `from`.
pub fn find_from(text: &Vec<char>, pat: &Vec<char>, from: usize) -> (r: Option<usize>)
    ensures
        match r {
            Some(i) => Some(i as int) == first_occ_from(text@, pat@, from as int),
            None => first_occ_from(text@, pat@, from as int) is None,
        },
{
    if pat.len() == 0 {
        if from <= text.len() {
            assert(text@.subrange(from as int, from as int) =~= pat@);
            return Some(from);
        }
        return None;
    }
    let mut i: usize = from;
    loop
        invariant
            from <= i,
            pat@.len() >= 1,
            first_occ_from(text@, pat@, from as int) == first_occ_from(text@, pat@, i as int),
        decreases text@.len() + 1 - i,
    {
        if i > text.len() || pat.len() > text.len() - i {
            return None;
        }
        if match_at(text, pat, i) {
            return Some(i);
        }
        i = i + 1;
    }
}

/// Finds the last occurrence of `pat` in `text`.
pub fn find_last(text: &Vec<char>, pat: &Vec<char>) -> (r: Option<usize>)
    ensures
        match r {
            Some(i) => Some(i as int) == last_occ(text@, pat@),
            None => last_occ(text@, pat@) is None,
        },
{
    if pat.len() > text.len() {
        return None;
    }
    let mut i: usize = text.len() - pat.len();
    loop
        invariant
            i + pat.len() <= text.len(),
            last_occ(text@, pat@) == last_occ_before(text@, pat@, i as int),
        decreases i,
    {
        if match_at(text, pat, i) {
            return Some(i);
        }
        if i == 0 {
            assert(last_occ_before(text@, pat@, -1) is None);
            assert(last_occ_before(text@, pat@, 0) is None);
            return None;
        }
        i = i - 1;
    }
}

/// The pieces of `text.subrange(from, text.len())`, split at every
/// occurrence of the non-empty separator `sep`, scanning left to right.
pub open spec fn split_from(text: Seq<char>, sep: Seq<char>, from: int) -> Seq<Seq<char>>
    decreases text.len() - from,
    when 0 <= from <= text.len() && sep.len() > 0
    via split_from_decreases
{
    match first_occ_from(text, sep, from) {
        None => seq![text.subrange(from, text.len() as int)],
        Some(i) => seq![text.subrange(from, i)] + split_from(text, sep, i + sep.len() as int),
    }
}

#[via_fn]
proof fn split_from_decreases(text: Seq<char>, sep: Seq<char>, from: int) {
    lemma_first_occ_facts(text, sep, from);
}

/// The pieces joined again, with `sep` between each two.
pub open spec fn join_seq(parts: Seq<Seq<char>>, sep: Seq<char>) -> Seq<char>
    decreases parts.len(),
{
    if parts.len() == 0 {
        seq![]
    } else if parts.len() == 1 {
        parts[0]
    } else {
        parts[0] + sep + join_seq(parts.drop_first(), sep)
    }
}

/// Splitting yields at least one piece.
proof fn lemma_split_from_nonempty(text: Seq<char>, sep: Seq<char>, from: int)
    requires
        0 <= from <= text.len(),
        sep.len() > 0,
    ensures
        split_from(text, sep, from).len() >= 1,
{
}

/// Joining the pieces of a split with the separator it was made with
/// restores the text that was split.
pub proof fn lemma_join_split(text: Seq<char>, sep: Seq<char>, from: int)
    requires
        0 <= from <= text.len(),
        sep.len() > 0,
    ensures
        join_seq(split_from(text, sep, from), sep) == text.subrange(from, text.len() as int),
    decreases text.len() - from,
{
    lemma_first_occ_facts(text, sep, from);
    match first_occ_from(text, sep, from) {
        None => {},
        Some(i) => {
            let next = i + sep.len() as int;
            lemma_join_split(text, sep, next);
            lemma_split_from_nonempty(text, sep, next);
            let rest = split_from(text, sep, next);
            let parts = split_from(text, sep, from);
            assert(parts == seq![text.subrange(from, i)] + rest);
            assert(parts.len() >= 2);
            assert(parts[0] == text.subrange(from, i));
            assert(parts.drop_first() =~= rest);
            assert(text.subrange(i, next) == sep);
            assert(text.subrange(from, text.len() as int) =~= text.subrange(from, i) + text.subrange(
                i,
                next,
            ) + text.subrange(next, text.len() as int));
        },
    }
}

/// Splits `s` at every occurrence of the non-empty separator `sep`.
pub fn split_str(s: &str, sep: &str) -> (parts: Vec<String>)
    requires
        sep@.len() > 0,
    ensures
        parts.deep_view() == split_from(s@, sep@, 0),
{
    let text = chars_of(s);
    let pat = chars_of(sep);
    let mut parts: Vec<String> = Vec::new();
    let mut from: usize = 0;
    loop
        invariant
            text@ == s@,
            pat@ == sep@,
            sep@.len() > 0,
            from <= text@.len(),
            split_from(s@, sep@, 0) == parts.deep_view() + split_from(s@, sep@, from as int),
        decreases text@.len() - from,
    {
        let ghost prev = parts.deep_view();
        match find_from(&text, &pat, from) {
            Some(i) => {
                proof {
                    lemma_first_occ_facts(s@, sep@, from as int);
                }
                let piece = s.substring_char(from, i).to_owned();
                parts.push(piece);
                proof {
                    assert(parts.deep_view() =~= prev.push(s@.subrange(from as int, i as int)));
                    assert(split_from(s@, sep@, 0) =~= parts.deep_view() + split_from(
                        s@,
                        sep@,
                        i + sep@.len(),
                    ));
                    assert(i + pat.len() <= text.len());
                }
                from = i + pat.len();
            },
            None => {
                let piece = s.substring_char(from, text.len()).to_owned();
                parts.push(piece);
                proof {
                    assert(parts.deep_view() =~= prev.push(
                        s@.subrange(from as int, s@.len() as int),
                    ));
                    assert(split_from(s@, sep@, 0) =~= parts.deep_view());
                }
                return parts;
            },
        }
    }
}

} // verus!
