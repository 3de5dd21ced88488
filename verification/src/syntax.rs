//! The term parser: splits the textual search-path expression into ancestor
//! segments plus a target field name, and recognises numeric comparison
//! terms (a single comparison, or a range made of two).

use vstd::prelude::*;
use vstd::string::StrSliceExecFns;

use crate::num::num_eq;
use crate::num::num_lt;
use crate::num::num_wf;
use crate::num::parse_numeral;
use crate::num::spec_parse_numeral;
use crate::num::NumView;
use crate::num::NumericValue;
use crate::text::chars_of;
use crate::text::find_from;
use crate::text::find_last;
use crate::text::first_occ_from;
use crate::text::join_seq;
use crate::text::last_occ;
use crate::text::lemma_first_occ_facts;
use crate::text::lemma_join_split;
use crate::text::lemma_last_occ_facts;
use crate::text::match_at;
use crate::text::occurs_at;
use crate::text::split_from;
use crate::text::split_str;

verus! {

/// The message reported when the expression yields an empty field name.
pub open spec fn malformed_path_message() -> Seq<char> {
    "Invalid search term format. Field name or expected value is empty."@
}

/// The field name denoted by a path expression: what follows the last
/// occurrence of the separator, or the whole expression if the separator
/// does not occur.
pub open spec fn spec_field_name(path: Seq<char>, sep: Seq<char>) -> Seq<char> {
    match last_occ(path, sep) {
        Some(i) => path.subrange(i + sep.len() as int, path.len() as int),
        None => path,
    }
}

/// The ancestor segments denoted by a path expression: what precedes the
/// last occurrence of the separator, split at every earlier occurrence;
/// empty if the separator does not occur.
pub open spec fn spec_ancestor_parts(path: Seq<char>, sep: Seq<char>) -> Seq<Seq<char>> {
    match last_occ(path, sep) {
        Some(i) => split_from(path.subrange(0, i), sep, 0),
        None => seq![],
    }
}

/// Splits a search-path expression at the last occurrence of the separator
/// into ancestor segments and a field name.  Fails exactly when the field
/// name would be empty.
pub fn parse_search_path(search_path: &str, field_path_separator: &str) -> (r: Result<
    (Vec<String>, String),
    String,
>)
    ensures
        ({
            let path = search_path@;
            let sep = field_path_separator@;
            match r {
                Ok((parts, field)) => spec_field_name(path, sep).len() > 0 && field@
                    == spec_field_name(path, sep) && parts.deep_view() == spec_ancestor_parts(
                    path,
                    sep,
                ),
                Err(e) => spec_field_name(path, sep).len() == 0 && e@ == malformed_path_message(),
            }
        }),
{
    let ghost path = search_path@;
    let ghost sep = field_path_separator@;
    let text = chars_of(search_path);
    let pat = chars_of(field_path_separator);
    proof {
        lemma_last_occ_facts(path, sep, path.len() - sep.len());
    }
    match find_last(&text, &pat) {
        Some(i) => {
            assert(occurs_at(path, sep, i as int));
            assert(i + pat.len() <= text.len());
            let field_start = i + pat.len();
            if field_start < text.len() {
                let field = search_path.substring_char(field_start, text.len()).to_owned();
                if pat.len() == 0 {
                    // An empty separator matches at the very end of the
                    // expression, which leaves an empty field name.
                    assert(occurs_at(path, sep, path.len() as int)) by {
                        assert(path.subrange(path.len() as int, path.len() as int) =~= sep);
                    }
                    assert(false);
                }
                let prefix = search_path.substring_char(0, i);
                let parts = split_str(prefix, field_path_separator);
                Ok((parts, field))
            } else {
                assert(spec_field_name(path, sep).len() == 0);
                Err(malformed_message())
            }
        },
        None => {
            if text.len() > 0 {
                Ok((Vec::new(), search_path.to_owned()))
            } else {
                Err(malformed_message())
            }
        },
    }
}

fn malformed_message() -> (s: String)
    ensures
        s@ == malformed_path_message(),
{
    "Invalid search term format. Field name or expected value is empty.".to_owned()
}

// ---------------------------------------------------------------------
// Numeric search terms.
// ---------------------------------------------------------------------

/// A comparison operator of a numeric search term.
#[derive(Debug, PartialEq, Clone, Copy)]
pub enum ComparisonOperator {
    LessThan,
    LessThanOrEqual,
    GreaterThan,
    GreaterThanOrEqual,
    Equal,
}

/// The characters that spell an operator in a term.
pub open spec fn op_token(op: ComparisonOperator) -> Seq<char> {
    match op {
        ComparisonOperator::LessThan => seq!['<'],
        ComparisonOperator::LessThanOrEqual => seq!['<', '='],
        ComparisonOperator::GreaterThan => seq!['>'],
        ComparisonOperator::GreaterThanOrEqual => seq!['>', '='],
        ComparisonOperator::Equal => seq!['=', '='],
    }
}

/// The operator a string spells, if it spells one exactly.
pub open spec fn spec_op_from_str(s: Seq<char>) -> Option<ComparisonOperator> {
    if s == op_token(ComparisonOperator::LessThan) {
        Some(ComparisonOperator::LessThan)
    } else if s == op_token(ComparisonOperator::LessThanOrEqual) {
        Some(ComparisonOperator::LessThanOrEqual)
    } else if s == op_token(ComparisonOperator::GreaterThan) {
        Some(ComparisonOperator::GreaterThan)
    } else if s == op_token(ComparisonOperator::GreaterThanOrEqual) {
        Some(ComparisonOperator::GreaterThanOrEqual)
    } else if s == op_token(ComparisonOperator::Equal) {
        Some(ComparisonOperator::Equal)
    } else {
        None
    }
}

impl ComparisonOperator {
    /// Recognises an operator written on its own.
    pub fn from_str(op_str: &str) -> (r: Option<Self>)
        ensures
            r == spec_op_from_str(op_str@),
    {
        let chars = chars_of(op_str);
        let n = chars.len();
        if n == 1 {
            let c = chars[0];
            proof {
                assert(op_str@ =~= seq![op_str@[0]]);
            }
            if c == '<' {
                assert(op_str@ =~= op_token(ComparisonOperator::LessThan));
                Some(ComparisonOperator::LessThan)
            } else if c == '>' {
                assert(op_str@ =~= op_token(ComparisonOperator::GreaterThan));
                Some(ComparisonOperator::GreaterThan)
            } else {
                None
            }
        } else if n == 2 {
            let c0 = chars[0];
            let c1 = chars[1];
            proof {
                assert(op_str@ =~= seq![op_str@[0], op_str@[1]]);
            }
            if c0 == '<' && c1 == '=' {
                assert(op_str@ =~= op_token(ComparisonOperator::LessThanOrEqual));
                Some(ComparisonOperator::LessThanOrEqual)
            } else if c0 == '>' && c1 == '=' {
                assert(op_str@ =~= op_token(ComparisonOperator::GreaterThanOrEqual));
                Some(ComparisonOperator::GreaterThanOrEqual)
            } else if c0 == '=' && c1 == '=' {
                assert(op_str@ =~= op_token(ComparisonOperator::Equal));
                Some(ComparisonOperator::Equal)
            } else {
                None
            }
        } else {
            None
        }
    }
}

/// A numeric search term: one comparison, or a range made of two that
/// must both hold.
#[derive(Debug, PartialEq)]
pub enum NumericSearchTerm {
    SingleComparison(ComparisonOperator, NumericValue),
    RangeComparison(ComparisonOperator, NumericValue, ComparisonOperator, NumericValue),
}

/// The mathematical content of a numeric search term.
pub enum NumericTermView {
    Single(ComparisonOperator, NumView),
    Range(ComparisonOperator, NumView, ComparisonOperator, NumView),
}

impl View for NumericSearchTerm {
    type V = NumericTermView;

    open spec fn view(&self) -> NumericTermView {
        match self {
            NumericSearchTerm::SingleComparison(op, n) => NumericTermView::Single(*op, n@),
            NumericSearchTerm::RangeComparison(op1, n1, op2, n2) => NumericTermView::Range(
                *op1,
                n1@,
                *op2,
                n2@,
            ),
        }
    }
}

/// All numbers of the term are well formed.
pub open spec fn term_wf(t: NumericTermView) -> bool {
    match t {
        NumericTermView::Single(op, n) => num_wf(n),
        NumericTermView::Range(op1, n1, op2, n2) => num_wf(n1) && num_wf(n2),
    }
}

/// Whether `value op term` holds, with the meaning each operator has for
/// doubles: no relation, not even equality, holds of not-a-number.
pub open spec fn spec_cmp(op: ComparisonOperator, value: NumView, term: NumView) -> bool {
    match op {
        ComparisonOperator::LessThan => num_lt(value, term),
        ComparisonOperator::LessThanOrEqual => num_lt(value, term) || num_eq(value, term),
        ComparisonOperator::GreaterThan => num_lt(term, value),
        ComparisonOperator::GreaterThanOrEqual => num_lt(term, value) || num_eq(value, term),
        ComparisonOperator::Equal => num_eq(value, term),
    }
}

/// Whether a JSON numeric value satisfies the term.
pub open spec fn spec_term_matches(t: NumericTermView, value: NumView) -> bool {
    match t {
        NumericTermView::Single(op, n) => spec_cmp(op, value, n),
        NumericTermView::Range(op1, n1, op2, n2) => spec_cmp(op1, value, n1) && spec_cmp(
            op2,
            value,
            n2,
        ),
    }
}

/// A range comparison is satisfied exactly when both of its component
/// comparisons are satisfied on their own.
pub proof fn lemma_range_is_conjunction(
    op1: ComparisonOperator,
    n1: NumView,
    op2: ComparisonOperator,
    n2: NumView,
    value: NumView,
)
    ensures
        spec_term_matches(NumericTermView::Range(op1, n1, op2, n2), value) == (spec_term_matches(
            NumericTermView::Single(op1, n1),
            value,
        ) && spec_term_matches(NumericTermView::Single(op2, n2), value)),
{
}

/// Writing the two comparisons of a range in the other order does not
/// change which values satisfy it.
pub proof fn lemma_range_order_irrelevant(
    op1: ComparisonOperator,
    n1: NumView,
    op2: ComparisonOperator,
    n2: NumView,
    value: NumView,
)
    ensures
        spec_term_matches(NumericTermView::Range(op1, n1, op2, n2), value) == spec_term_matches(
            NumericTermView::Range(op2, n2, op1, n1),
            value,
        ),
{
}

/// The first of two attempts that came out as something.
pub open spec fn or_term(
    a: Option<NumericTermView>,
    b: Option<NumericTermView>,
) -> Option<NumericTermView> {
    if a is Some {
        a
    } else {
        b
    }
}

/// A single comparison, read with the given leading operator: the
/// operator's characters, then a numeral to its end.
pub open spec fn spec_try_single(s: Seq<char>, op: ComparisonOperator) -> Option<
    NumericTermView,
> {
    {
        let tok = op_token(op);
        if occurs_at(s, tok, 0) {
            match spec_parse_numeral(s.skip(tok.len() as int)) {
                Some(v) => Some(NumericTermView::Single(op, v)),
                None => None,
            }
        } else {
            None
        }
    }
}

/// A single comparison: the operators are tried in the order
/// `<=`, `>=`, `<`, `>`, `==`.  All that matters is that a
/// two-character operator comes before its one-character prefix, so
/// that it is not masked; where the one-character prefix is tried on a
/// term that carries the two-character operator, the numeral would
/// start with `=` and is rejected, so no other placing of `==` could
/// change the outcome.
pub open spec fn spec_parse_single(s: Seq<char>) -> Option<NumericTermView> {
    or_term(
        spec_try_single(s, ComparisonOperator::LessThanOrEqual),
        or_term(
            spec_try_single(s, ComparisonOperator::GreaterThanOrEqual),
            or_term(
                spec_try_single(s, ComparisonOperator::LessThan),
                or_term(
                    spec_try_single(s, ComparisonOperator::GreaterThan),
                    spec_try_single(s, ComparisonOperator::Equal),
                ),
            ),
        ),
    )
}

/// A range comparison, read with the given pair of operators: the first
/// operator's characters, then a numeral up to the first occurrence of
/// the second operator, then a numeral to the end.
pub open spec fn spec_try_range_pair(
    s: Seq<char>,
    op1: ComparisonOperator,
    op2: ComparisonOperator,
) -> Option<NumericTermView> {
    {
        let t1 = op_token(op1);
        let t2 = op_token(op2);
        if occurs_at(s, t1, 0) {
            match first_occ_from(s, t2, t1.len() as int) {
                Some(j) => {
                    let num1 = s.subrange(t1.len() as int, j);
                    let num2 = s.skip(j + t2.len() as int);
                    match (spec_parse_numeral(num1), spec_parse_numeral(num2)) {
                        (Some(v1), Some(v2)) => Some(NumericTermView::Range(op1, v1, op2, v2)),
                        _ => None,
                    }
                },
                None => None,
            }
        } else {
            None
        }
    }
}

/// A range comparison with a fixed first operator: the second operator
/// is tried in the order `<=`, `>=`, `<`, `>`.
pub open spec fn spec_try_range_with(s: Seq<char>, op1: ComparisonOperator) -> Option<
    NumericTermView,
> {
    or_term(
        spec_try_range_pair(s, op1, ComparisonOperator::LessThanOrEqual),
        or_term(
            spec_try_range_pair(s, op1, ComparisonOperator::GreaterThanOrEqual),
            or_term(
                spec_try_range_pair(s, op1, ComparisonOperator::LessThan),
                spec_try_range_pair(s, op1, ComparisonOperator::GreaterThan),
            ),
        ),
    )
}

/// A range comparison: the first operator is tried in the order
/// `<=`, `>=`, `<`, `>` (`==` opens no range).
pub open spec fn spec_parse_range(s: Seq<char>) -> Option<NumericTermView> {
    or_term(
        spec_try_range_with(s, ComparisonOperator::LessThanOrEqual),
        or_term(
            spec_try_range_with(s, ComparisonOperator::GreaterThanOrEqual),
            or_term(
                spec_try_range_with(s, ComparisonOperator::LessThan),
                spec_try_range_with(s, ComparisonOperator::GreaterThan),
            ),
        ),
    )
}

/// What a search term denotes when read as a numeric term: a range if it
/// can be one, else a single comparison, else nothing — in which case the
/// caller falls back to reading the term as a regular expression.
pub open spec fn spec_from_search_term(s: Seq<char>) -> Option<NumericTermView> {
    or_term(spec_parse_range(s), spec_parse_single(s))
}

fn op_chars(op: ComparisonOperator) -> (v: Vec<char>)
    ensures
        v@ == op_token(op),
{
    let v: Vec<char> = match op {
        ComparisonOperator::LessThan => vec!['<'],
        ComparisonOperator::LessThanOrEqual => vec!['<', '='],
        ComparisonOperator::GreaterThan => vec!['>'],
        ComparisonOperator::GreaterThanOrEqual => vec!['>', '='],
        ComparisonOperator::Equal => vec!['=', '='],
    };
    proof {
        assert(v@ =~= op_token(op));
    }
    v
}

impl NumericSearchTerm {
    /// Reads a search term as a numeric term: a range if it can be one,
    /// else a single comparison, else nothing (the term then falls back
    /// to its reading as a regular expression).
    pub fn from_search_term(search_term: &str) -> (r: Option<Self>)
        ensures
            match r {
                Some(t) => spec_from_search_term(search_term@) == Some(t@) && term_wf(t@),
                None => spec_from_search_term(search_term@) is None,
            },
    {
        if let Some(range_term) = Self::parse_as_range(search_term) {
            return Some(range_term);
        }
        if let Some(single_term) = Self::parse_as_single(search_term) {
            return Some(single_term);
        }
        None
    }

    fn parse_as_single(search_term: &str) -> (r: Option<Self>)
        ensures
            match r {
                Some(t) => spec_parse_single(search_term@) == Some(t@) && term_wf(t@),
                None => spec_parse_single(search_term@) is None,
            },
    {
        let chars = chars_of(search_term);
        if let Some(t) = Self::try_single(search_term, &chars, ComparisonOperator::LessThanOrEqual) {
            return Some(t);
        }
        if let Some(t) = Self::try_single(
            search_term,
            &chars,
            ComparisonOperator::GreaterThanOrEqual,
        ) {
            return Some(t);
        }
        if let Some(t) = Self::try_single(search_term, &chars, ComparisonOperator::LessThan) {
            return Some(t);
        }
        if let Some(t) = Self::try_single(search_term, &chars, ComparisonOperator::GreaterThan) {
            return Some(t);
        }
        if let Some(t) = Self::try_single(search_term, &chars, ComparisonOperator::Equal) {
            return Some(t);
        }
        None
    }

    fn try_single(s: &str, chars: &Vec<char>, op: ComparisonOperator) -> (r: Option<Self>)
        requires
            chars@ == s@,
        ensures
            match r {
                Some(t) => spec_try_single(s@, op) == Some(t@) && term_wf(t@),
                None => spec_try_single(s@, op) is None,
            },
    {
        let tok = op_chars(op);
        if match_at(chars, &tok, 0) {
            let rest = s.substring_char(tok.len(), chars.len());
            proof {
                assert(rest@ =~= s@.skip(op_token(op).len() as int));
            }
            match parse_numeral(rest) {
                Some(v) => Some(NumericSearchTerm::SingleComparison(op, v)),
                None => None,
            }
        } else {
            None
        }
    }

    fn parse_as_range(search_term: &str) -> (r: Option<Self>)
        ensures
            match r {
                Some(t) => spec_parse_range(search_term@) == Some(t@) && term_wf(t@),
                None => spec_parse_range(search_term@) is None,
            },
    {
        let chars = chars_of(search_term);
        if let Some(t) = Self::try_range_with(
            search_term,
            &chars,
            ComparisonOperator::LessThanOrEqual,
        ) {
            return Some(t);
        }
        if let Some(t) = Self::try_range_with(
            search_term,
            &chars,
            ComparisonOperator::GreaterThanOrEqual,
        ) {
            return Some(t);
        }
        if let Some(t) = Self::try_range_with(search_term, &chars, ComparisonOperator::LessThan) {
            return Some(t);
        }
        if let Some(t) = Self::try_range_with(search_term, &chars, ComparisonOperator::GreaterThan) {
            return Some(t);
        }
        None
    }

    fn try_range_with(s: &str, chars: &Vec<char>, op1: ComparisonOperator) -> (r: Option<Self>)
        requires
            chars@ == s@,
        ensures
            match r {
                Some(t) => spec_try_range_with(s@, op1) == Some(t@) && term_wf(t@),
                None => spec_try_range_with(s@, op1) is None,
            },
    {
        if let Some(t) = Self::try_range_pair(s, chars, op1, ComparisonOperator::LessThanOrEqual) {
            return Some(t);
        }
        if let Some(t) = Self::try_range_pair(
            s,
            chars,
            op1,
            ComparisonOperator::GreaterThanOrEqual,
        ) {
            return Some(t);
        }
        if let Some(t) = Self::try_range_pair(s, chars, op1, ComparisonOperator::LessThan) {
            return Some(t);
        }
        if let Some(t) = Self::try_range_pair(s, chars, op1, ComparisonOperator::GreaterThan) {
            return Some(t);
        }
        None
    }

    fn try_range_pair(
        s: &str,
        chars: &Vec<char>,
        op1: ComparisonOperator,
        op2: ComparisonOperator,
    ) -> (r: Option<Self>)
        requires
            chars@ == s@,
        ensures
            match r {
                Some(t) => spec_try_range_pair(s@, op1, op2) == Some(t@) && term_wf(t@),
                None => spec_try_range_pair(s@, op1, op2) is None,
            },
    {
        let t1 = op_chars(op1);
        if !match_at(chars, &t1, 0) {
            return None;
        }
        let t2 = op_chars(op2);
        match find_from(chars, &t2, t1.len()) {
            Some(j) => {
                proof {
                    lemma_first_occ_facts(s@, op_token(op2), op_token(op1).len() as int);
                    assert(j + t2.len() <= chars.len());
                }
                let num1 = s.substring_char(t1.len(), j);
                let num2 = s.substring_char(j + t2.len(), chars.len());
                proof {
                    assert(num2@ =~= s@.skip(j + op_token(op2).len() as int));
                }
                match (parse_numeral(num1), parse_numeral(num2)) {
                    (Some(v1), Some(v2)) => Some(
                        NumericSearchTerm::RangeComparison(op1, v1, op2, v2),
                    ),
                    _ => None,
                }
            },
            None => None,
        }
    }

    fn compare_single(&self, json_num: &NumericValue) -> (r: bool)
        ensures
            r == match self@ {
                NumericTermView::Single(op, n) => spec_cmp(op, json_num@, n),
                NumericTermView::Range(op1, n1, op2, n2) => false,
            },
    {
        match self {
            NumericSearchTerm::SingleComparison(op, target_num) => match op {
                ComparisonOperator::GreaterThan => target_num.lt_value(json_num),
                ComparisonOperator::LessThan => json_num.lt_value(target_num),
                ComparisonOperator::GreaterThanOrEqual => target_num.lt_value(json_num)
                    || json_num.eq_value(target_num),
                ComparisonOperator::LessThanOrEqual => json_num.lt_value(target_num)
                    || json_num.eq_value(target_num),
                ComparisonOperator::Equal => json_num.eq_value(target_num),
            },
            _ => false,
        }
    }

    fn compare_range(&self, json_num: &NumericValue) -> (r: bool)
        ensures
            r == match self@ {
                NumericTermView::Single(op, n) => false,
                NumericTermView::Range(op1, n1, op2, n2) => spec_cmp(op1, json_num@, n1)
                    && spec_cmp(op2, json_num@, n2),
            },
    {
        match self {
            NumericSearchTerm::RangeComparison(op1, num1, op2, num2) => {
                let first = NumericSearchTerm::SingleComparison(*op1, num1.dup());
                if !first.compare_single(json_num) {
                    return false;
                }
                let second = NumericSearchTerm::SingleComparison(*op2, num2.dup());
                second.compare_single(json_num)
            },
            _ => false,
        }
    }

    /// Whether a JSON numeric value satisfies this term.
    pub fn matches(&self, json_num: &NumericValue) -> (r: bool)
        ensures
            r == spec_term_matches(self@, json_num@),
    {
        match self {
            NumericSearchTerm::SingleComparison(_, _) => self.compare_single(json_num),
            NumericSearchTerm::RangeComparison(_, _, _, _) => self.compare_range(json_num),
        }
    }
}

/// Joining the parsed ancestor segments with the separator they were
/// parsed with restores the ancestor-path part of the expression; an
/// expression without a separator has no ancestor segments at all.
pub proof fn lemma_ancestor_roundtrip(path: Seq<char>, sep: Seq<char>)
    requires
        sep.len() > 0,
    ensures
        match last_occ(path, sep) {
            Some(i) => join_seq(spec_ancestor_parts(path, sep), sep) == path.subrange(0, i),
            None => spec_ancestor_parts(path, sep) == Seq::<Seq<char>>::empty(),
        },
{
    lemma_last_occ_facts(path, sep, path.len() - sep.len());
    match last_occ(path, sep) {
        Some(i) => {
            let prefix = path.subrange(0, i);
            lemma_join_split(prefix, sep, 0);
            assert(prefix.subrange(0, prefix.len() as int) =~= prefix);
        },
        None => {
            assert(spec_ancestor_parts(path, sep) =~= Seq::<Seq<char>>::empty());
        },
    }
}

} // verus!
