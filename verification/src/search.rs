//! The tree-traversal engine and its result model.  A search walks the
//! document depth first, children before the node's own field, extends
//! the path as it descends, and collects every hit — or only the first
//! one, when single-result mode is on.

use vstd::prelude::*;

use crate::json::lookup_from;
use crate::json::stringify;
use crate::json::value_text;
use crate::json::view_of;
use crate::json::views_of_entries;
use crate::json::views_of_items;
use crate::json::JsonValue;
use crate::json::JsonView;
use crate::pattern::regex_compiles;
use crate::pattern::regex_match;
use crate::pattern::CompiledPattern;
use crate::syntax::spec_from_search_term;
use crate::syntax::spec_term_matches;
use crate::syntax::NumericSearchTerm;
use crate::text::dec_str;
use crate::text::usize_to_string;

verus! {

/// The configuration a search runs under, fixed for the whole traversal.
pub struct SearchContext {
    /// The search term, compiled as a regular expression; numeric mode
    /// reads the same text as a numeric term.
    pub search_regex: CompiledPattern,
    /// Stop at the first hit.
    pub single_result_only: bool,
    /// The separator used when paths are split and joined for display.
    pub field_path_separator: String,
    /// Read the search term as a numeric comparison instead of a
    /// regular expression.
    pub numeric_search_enabled: bool,
}

/// One hit: the path of the matched field, ending in the field's name,
/// and the matched value.
#[derive(Debug, PartialEq)]
pub struct SearchResult {
    pub json_path: Vec<String>,
    pub value: JsonValue,
}

/// The mathematical content of one hit.
pub struct SearchResultView {
    pub json_path: Seq<Seq<char>>,
    pub value: JsonView,
}

impl View for SearchResult {
    type V = SearchResultView;

    open spec fn view(&self) -> SearchResultView {
        SearchResultView { json_path: self.json_path.deep_view(), value: view_of(self.value) }
    }
}

impl DeepView for SearchResult {
    type V = SearchResultView;

    open spec fn deep_view(&self) -> SearchResultView {
        self.view()
    }
}

/// Everything of a query that decides which fields match: the ancestor
/// segments, the field name, and how the search term reads.
pub struct QueryView {
    pub parts: Seq<Seq<char>>,
    pub field: Seq<char>,
    pub numeric: bool,
    pub pattern: Seq<char>,
}

impl SearchContext {
    /// The query this context runs, for the given ancestor segments and
    /// field name.
    pub open spec fn query(&self, parts: Seq<Seq<char>>, field: Seq<char>) -> QueryView {
        QueryView {
            parts,
            field,
            numeric: self.numeric_search_enabled,
            pattern: self.search_regex.pattern_view(),
        }
    }

    /// Builds the context of one search: the term is compiled as a
    /// regular expression, and it succeeds exactly when the term
    /// compiles as one — an invalid expression is reported here, before
    /// any traversal starts.
    pub fn new(
        search_term: String,
        single_result_only: bool,
        field_path_separator: String,
        numeric_search_enabled: bool,
    ) -> (r: Result<SearchContext, String>)
        ensures
            r is Ok <==> regex_compiles(search_term@),
            r matches Ok(ctx) ==> ctx.search_regex.pattern_view() == search_term@
                && ctx.single_result_only == single_result_only && ctx.field_path_separator@
                == field_path_separator@ && ctx.numeric_search_enabled == numeric_search_enabled,
    {
        match CompiledPattern::compile(search_term) {
            Ok(search_regex) => Ok(
                SearchContext {
                    search_regex,
                    single_result_only,
                    field_path_separator,
                    numeric_search_enabled,
                },
            ),
            Err(e) => Err(e),
        }
    }
}

// ---------------------------------------------------------------------
// The path matcher.
// ---------------------------------------------------------------------

/// The matcher's cursor walk, starting at position `i` of the
/// specification and position `j` of the accumulated path.
pub open spec fn is_subsequence_from(
    spec_parts: Seq<Seq<char>>,
    path: Seq<Seq<char>>,
    i: int,
    j: int,
) -> bool
    decreases path.len() + 1 - j,
{
    if i >= spec_parts.len() {
        true
    } else if j >= path.len() {
        false
    } else if spec_parts[i] == path[j] {
        is_subsequence_from(spec_parts, path, i + 1, j + 1)
    } else {
        is_subsequence_from(spec_parts, path, i, j + 1)
    }
}

/// Whether the specification's segments occur, in order but not
/// necessarily contiguously, in the accumulated path.
pub open spec fn is_subsequence(spec_parts: Seq<Seq<char>>, path: Seq<Seq<char>>) -> bool {
    is_subsequence_from(spec_parts, path, 0, 0)
}

/// Whether the field check applies at a node with the given accumulated
/// path: the ancestor specification must occur in it as an ordered
/// subsequence, and an empty specification always does.
pub open spec fn spec_path_matches(spec_parts: Seq<Seq<char>>, path: Seq<Seq<char>>) -> bool {
    is_subsequence(spec_parts, path)
}

/// An empty ancestor specification accepts at every node.
pub proof fn lemma_empty_spec_accepts(path: Seq<Seq<char>>)
    ensures
        spec_path_matches(Seq::<Seq<char>>::empty(), path),
{
    assert(is_subsequence_from(Seq::<Seq<char>>::empty(), path, 0, 0));
}

/// `ix` names, for each remaining specification segment (from `i` on),
/// a position of the path at or after `j` holding that segment, in
/// strictly increasing order.
pub open spec fn embedding_from(
    spec_parts: Seq<Seq<char>>,
    path: Seq<Seq<char>>,
    i: int,
    j: int,
    ix: Seq<int>,
) -> bool {
    &&& ix.len() == spec_parts.len() - i
    &&& forall|k: int| 0 <= k < ix.len() ==> j <= #[trigger] ix[k] < path.len() && spec_parts[i
        + k] == path[ix[k]]
    &&& forall|k: int| 0 <= k < ix.len() - 1 ==> #[trigger] ix[k] < ix[k + 1]
}

proof fn lemma_subsequence_gives_embedding(
    spec_parts: Seq<Seq<char>>,
    path: Seq<Seq<char>>,
    i: int,
    j: int,
)
    requires
        0 <= i <= spec_parts.len(),
        0 <= j <= path.len(),
        is_subsequence_from(spec_parts, path, i, j),
    ensures
        exists|ix: Seq<int>| #[trigger] embedding_from(spec_parts, path, i, j, ix),
    decreases path.len() + 1 - j,
{
    if i >= spec_parts.len() {
        assert(embedding_from(spec_parts, path, i, j, Seq::<int>::empty()));
    } else if spec_parts[i] == path[j] {
        lemma_subsequence_gives_embedding(spec_parts, path, i + 1, j + 1);
        let rest = choose|ix: Seq<int>| #[trigger] embedding_from(spec_parts, path, i + 1, j + 1, ix);
        let ix = seq![j] + rest;
        assert forall|k: int| 0 <= k < ix.len() implies j <= #[trigger] ix[k] < path.len()
            && spec_parts[i + k] == path[ix[k]] by {
            if k >= 1 {
                assert(ix[k] == rest[k - 1]);
            }
        }
        assert forall|k: int| 0 <= k < ix.len() - 1 implies #[trigger] ix[k] < ix[k + 1] by {
            if k >= 1 {
                assert(ix[k] == rest[k - 1] && ix[k + 1] == rest[k]);
            } else {
                assert(ix[1] == rest[0]);
            }
        }
        assert(embedding_from(spec_parts, path, i, j, ix));
    } else {
        lemma_subsequence_gives_embedding(spec_parts, path, i, j + 1);
        let rest = choose|ix: Seq<int>| #[trigger] embedding_from(spec_parts, path, i, j + 1, ix);
        assert(embedding_from(spec_parts, path, i, j, rest));
    }
}

proof fn lemma_embedding_gives_subsequence(
    spec_parts: Seq<Seq<char>>,
    path: Seq<Seq<char>>,
    i: int,
    j: int,
    ix: Seq<int>,
)
    requires
        0 <= i <= spec_parts.len(),
        0 <= j <= path.len(),
        embedding_from(spec_parts, path, i, j, ix),
    ensures
        is_subsequence_from(spec_parts, path, i, j),
    decreases path.len() + 1 - j,
{
    if i >= spec_parts.len() {
    } else {
        assert(ix.len() >= 1);
        assert(j <= ix[0] < path.len());
        assert(spec_parts[i] == path[ix[0]]);
        if spec_parts[i] == path[j] {
            let rest = ix.drop_first();
            assert forall|k: int| 0 <= k < rest.len() implies j + 1 <= #[trigger] rest[k]
                < path.len() && spec_parts[i + 1 + k] == path[rest[k]] by {
                assert(rest[k] == ix[k + 1]);
                if k == 0 {
                    assert(ix[0] < ix[1]);
                } else {
                    assert(ix[0] < ix[1]);
                    lemma_embedding_increasing(ix, 0, k + 1);
                }
            }
            assert forall|k: int| 0 <= k < rest.len() - 1 implies #[trigger] rest[k] < rest[k
                + 1] by {
                assert(rest[k] == ix[k + 1] && rest[k + 1] == ix[k + 2]);
            }
            assert(embedding_from(spec_parts, path, i + 1, j + 1, rest));
            lemma_embedding_gives_subsequence(spec_parts, path, i + 1, j + 1, rest);
        } else {
            assert(ix[0] != j);
            assert forall|k: int| 0 <= k < ix.len() implies j + 1 <= #[trigger] ix[k] by {
                if k > 0 {
                    lemma_embedding_increasing(ix, 0, k);
                }
            }
            assert(embedding_from(spec_parts, path, i, j + 1, ix));
            lemma_embedding_gives_subsequence(spec_parts, path, i, j + 1, ix);
        }
    }
}

/// Strictly increasing between neighbours means strictly increasing
/// between any two positions.
proof fn lemma_embedding_increasing(ix: Seq<int>, a: int, b: int)
    requires
        forall|k: int| 0 <= k < ix.len() - 1 ==> #[trigger] ix[k] < ix[k + 1],
        0 <= a < b < ix.len(),
    ensures
        ix[a] < ix[b],
    decreases b - a,
{
    if a + 1 < b {
        lemma_embedding_increasing(ix, a + 1, b);
    }
}

/// The matcher's cursor walk succeeds exactly when the specification's
/// segments occur somewhere in the path, in order: at strictly
/// increasing positions, not necessarily contiguous and not necessarily
/// reaching the path's end.
pub proof fn lemma_path_matches_is_subsequence(spec_parts: Seq<Seq<char>>, path: Seq<Seq<char>>)
    ensures
        spec_path_matches(spec_parts, path) <==> exists|ix: Seq<int>|
            embedding_from(spec_parts, path, 0, 0, ix),
{
    if spec_path_matches(spec_parts, path) {
        lemma_subsequence_gives_embedding(spec_parts, path, 0, 0);
    }
    if exists|ix: Seq<int>| #[trigger] embedding_from(spec_parts, path, 0, 0, ix) {
        let ix = choose|ix: Seq<int>| #[trigger] embedding_from(spec_parts, path, 0, 0, ix);
        lemma_embedding_gives_subsequence(spec_parts, path, 0, 0, ix);
    }
}

/// Decides whether the field check applies at a node whose accumulated
/// path is `current_path`: true exactly when the specification occurs
/// in the path as an ordered subsequence.
pub fn path_matches(field_path_parts: &Vec<String>, current_path: &Vec<String>) -> (r: bool)
    ensures
        r == spec_path_matches(field_path_parts.deep_view(), current_path.deep_view()),
{
    let ghost parts = field_path_parts.deep_view();
    let ghost path = current_path.deep_view();
    let mut i: usize = 0;
    let mut j: usize = 0;
    loop
        invariant
            parts == field_path_parts.deep_view(),
            path == current_path.deep_view(),
            i <= parts.len(),
            j <= path.len(),
            is_subsequence(parts, path) == is_subsequence_from(parts, path, i as int, j as int),
        decreases path.len() - j,
    {
        if i >= field_path_parts.len() {
            return true;
        }
        if j >= current_path.len() {
            return false;
        }
        if field_path_parts[i] == current_path[j] {
            proof {
                assert(parts[i as int] == path[j as int]);
            }
            i = i + 1;
            j = j + 1;
        } else {
            proof {
                assert(parts[i as int] != path[j as int]);
            }
            j = j + 1;
        }
    }
}

// ---------------------------------------------------------------------
// The value predicate.
// ---------------------------------------------------------------------

/// Whether a value satisfies the search term read as a numeric term: the
/// term must be numeric, the value must be a number, and the comparison
/// must hold.
pub open spec fn numeric_value_matches(pattern: Seq<char>, v: JsonView) -> bool {
    match spec_from_search_term(pattern) {
        Some(t) => match v {
            JsonView::Number(value, text) => spec_term_matches(t, value),
            _ => false,
        },
        None => false,
    }
}

/// Whether a value satisfies the search term read as a regular
/// expression: the value must be a scalar with a string form, and the
/// expression must match somewhere in it.
pub open spec fn regex_value_matches(pattern: Seq<char>, v: JsonView) -> bool {
    match stringify(v) {
        Some(s) => regex_match(pattern, s),
        None => false,
    }
}

/// The query's value predicate.
pub open spec fn value_matches(q: QueryView, v: JsonView) -> bool {
    if q.numeric {
        numeric_value_matches(q.pattern, v)
    } else {
        regex_value_matches(q.pattern, v)
    }
}

// ---------------------------------------------------------------------
// The result model.
// ---------------------------------------------------------------------

/// The hit reported for a field: the accumulated path extended by the
/// field's name, plus the field's value.
pub open spec fn result_view(path: Seq<Seq<char>>, field: Seq<char>, v: JsonView) -> SearchResultView {
    SearchResultView { json_path: path.push(field), value: v }
}

/// What one object node itself contributes: one hit if the path matcher
/// accepts here, the node has the field, and the field's value satisfies
/// the predicate; nothing otherwise.
pub open spec fn node_match(
    q: QueryView,
    entries: Seq<(Seq<char>, JsonView)>,
    path: Seq<Seq<char>>,
) -> Seq<SearchResultView> {
    if spec_path_matches(q.parts, path) {
        match lookup_from(entries, q.field, 0) {
            Some(v) => if value_matches(q, v) {
                seq![result_view(path, q.field, v)]
            } else {
                Seq::empty()
            },
            None => Seq::empty(),
        }
    } else {
        Seq::empty()
    }
}

/// Every hit under a value, in discovery order: children first, in
/// field order, then the node's own hit.  Single-result mode reports a
/// prefix of this list.
pub open spec fn results_for(v: JsonView, q: QueryView, path: Seq<Seq<char>>) -> Seq<
    SearchResultView,
>
    decreases v, 0int,
{
    match v {
        JsonView::Object(entries) => obj_results(entries, q, path, 0) + node_match(
            q,
            entries,
            path,
        ),
        JsonView::Array(items) => arr_results(items, q, path, 0),
        _ => Seq::empty(),
    }
}

/// The hits under the fields of an object, from field `i` on.
pub open spec fn obj_results(
    entries: Seq<(Seq<char>, JsonView)>,
    q: QueryView,
    path: Seq<Seq<char>>,
    i: int,
) -> Seq<SearchResultView>
    decreases entries, entries.len() - i,
{
    if i < 0 || i >= entries.len() {
        Seq::empty()
    } else {
        results_for(entries[i].1, q, path.push(entries[i].0)) + obj_results(entries, q, path, i + 1)
    }
}

/// The hits under the elements of an array, from element `i` on; the
/// path grows by the element's index written in decimal.
pub open spec fn arr_results(
    items: Seq<JsonView>,
    q: QueryView,
    path: Seq<Seq<char>>,
    i: int,
) -> Seq<SearchResultView>
    decreases items, items.len() - i,
{
    if i < 0 || i >= items.len() {
        Seq::empty()
    } else {
        results_for(items[i], q, path.push(dec_str(i as nat))) + arr_results(items, q, path, i + 1)
    }
}

/// What a search reports of the full list of hits: everything, or in
/// single-result mode only the first hit.
pub open spec fn reported(single: bool, full: Seq<SearchResultView>) -> Seq<SearchResultView> {
    if single && full.len() > 0 {
        seq![full[0]]
    } else {
        full
    }
}

/// A hit's path is well shaped: never empty, and ending in the target
/// field's name.
pub open spec fn result_path_ok(q: QueryView, r: SearchResultView) -> bool {
    r.json_path.len() > 0 && r.json_path[r.json_path.len() - 1] == q.field
}

/// Every hit of the list carries a well-shaped path.
pub open spec fn all_result_paths_ok(q: QueryView, rs: Seq<SearchResultView>) -> bool {
    forall|k: int| 0 <= k < rs.len() ==> result_path_ok(q, #[trigger] rs[k])
}

proof fn lemma_paths_ok_concat(q: QueryView, a: Seq<SearchResultView>, b: Seq<SearchResultView>)
    requires
        all_result_paths_ok(q, a),
        all_result_paths_ok(q, b),
    ensures
        all_result_paths_ok(q, a + b),
{
    assert forall|k: int| 0 <= k < (a + b).len() implies result_path_ok(q, #[trigger] (a + b)[k]) by {
        if k < a.len() {
            assert((a + b)[k] == a[k]);
        } else {
            assert((a + b)[k] == b[k - a.len()]);
        }
    }
}

/// Every hit a search reports carries a path that ends with the target
/// field name and is never empty.
pub proof fn lemma_result_paths_end_with_field(v: JsonView, q: QueryView, path: Seq<Seq<char>>)
    ensures
        all_result_paths_ok(q, results_for(v, q, path)),
    decreases v, 0int,
{
    match v {
        JsonView::Object(entries) => {
            lemma_obj_result_paths(entries, q, path, 0);
            let own = node_match(q, entries, path);
            assert(all_result_paths_ok(q, own)) by {
                if own.len() > 0 {
                    assert(own[0].json_path == path.push(q.field));
                    assert(own[0].json_path[own[0].json_path.len() - 1] == q.field);
                }
            }
            lemma_paths_ok_concat(q, obj_results(entries, q, path, 0), own);
        },
        JsonView::Array(items) => {
            lemma_arr_result_paths(items, q, path, 0);
        },
        _ => {},
    }
}

proof fn lemma_obj_result_paths(
    entries: Seq<(Seq<char>, JsonView)>,
    q: QueryView,
    path: Seq<Seq<char>>,
    i: int,
)
    ensures
        all_result_paths_ok(q, obj_results(entries, q, path, i)),
    decreases entries, entries.len() - i,
{
    if 0 <= i < entries.len() {
        lemma_result_paths_end_with_field(entries[i].1, q, path.push(entries[i].0));
        lemma_obj_result_paths(entries, q, path, i + 1);
        lemma_paths_ok_concat(
            q,
            results_for(entries[i].1, q, path.push(entries[i].0)),
            obj_results(entries, q, path, i + 1),
        );
    }
}

proof fn lemma_arr_result_paths(items: Seq<JsonView>, q: QueryView, path: Seq<Seq<char>>, i: int)
    ensures
        all_result_paths_ok(q, arr_results(items, q, path, i)),
    decreases items, items.len() - i,
{
    if 0 <= i < items.len() {
        lemma_result_paths_end_with_field(items[i], q, path.push(dec_str(i as nat)));
        lemma_arr_result_paths(items, q, path, i + 1);
        lemma_paths_ok_concat(
            q,
            results_for(items[i], q, path.push(dec_str(i as nat))),
            arr_results(items, q, path, i + 1),
        );
    }
}

/// Single-result mode reports at most one hit, and that hit is the
/// first element of the full list that the same query reports without
/// single-result mode.
pub proof fn lemma_single_is_first(full: Seq<SearchResultView>)
    ensures
        reported(true, full).len() <= 1,
        full.len() > 0 ==> reported(true, full) == seq![reported(false, full)[0]],
{
}

// ---------------------------------------------------------------------
// The traversal engine.
// ---------------------------------------------------------------------

/// A copy of a path, segment for segment.
fn clone_path(path: &Vec<String>) -> (out: Vec<String>)
    ensures
        out.deep_view() == path.deep_view(),
{
    let mut out: Vec<String> = Vec::new();
    let mut i: usize = 0;
    while i < path.len()
        invariant
            i <= path@.len(),
            out@.len() == i,
            forall|j: int| 0 <= j < i ==> #[trigger] out@[j]@ == path@[j]@,
        decreases path@.len() - i,
    {
        out.push(path[i].clone());
        i = i + 1;
    }
    proof {
        assert(out.deep_view() =~= path.deep_view());
    }
    out
}

impl SearchResult {
    /// The hit for the field `field_name` found at `current_path`.
    fn create(current_path: &Vec<String>, field_name: &String, value: &JsonValue) -> (r: Self)
        ensures
            r@ == result_view(current_path.deep_view(), field_name@, view_of(*value)),
    {
        let mut json_path = clone_path(current_path);
        json_path.push(field_name.clone());
        let r = SearchResult { json_path, value: value.deep_copy() };
        proof {
            assert(r.json_path.deep_view() =~= current_path.deep_view().push(field_name@));
        }
        r
    }
}

/// The node's own hit under a numeric search term, if the term is
/// numeric, the value is a number and the comparison holds.
fn check_numeric_match(
    value: &JsonValue,
    field_name: &String,
    current_path: &Vec<String>,
    search_context: &SearchContext,
) -> (r: Option<SearchResult>)
    ensures
        ({
            let matched = numeric_value_matches(
                search_context.search_regex.pattern_view(),
                view_of(*value),
            );
            match r {
                Some(res) => matched && res@ == result_view(
                    current_path.deep_view(),
                    field_name@,
                    view_of(*value),
                ),
                None => !matched,
            }
        }),
{
    if let Some(numeric_term) = NumericSearchTerm::from_search_term(
        search_context.search_regex.pattern_str(),
    ) {
        if let JsonValue::Number(n) = value {
            if numeric_term.matches(&n.value) {
                return Some(SearchResult::create(current_path, field_name, value));
            }
        }
    }
    None
}

/// The node's own hit under a regular-expression search term, if the
/// value is a scalar whose string form the expression matches.
fn check_regex_match(
    value: &JsonValue,
    field_name: &String,
    current_path: &Vec<String>,
    search_context: &SearchContext,
) -> (r: Option<SearchResult>)
    ensures
        ({
            let matched = regex_value_matches(
                search_context.search_regex.pattern_view(),
                view_of(*value),
            );
            match r {
                Some(res) => matched && res@ == result_view(
                    current_path.deep_view(),
                    field_name@,
                    view_of(*value),
                ),
                None => !matched,
            }
        }),
{
    match value_text(value) {
        Some(text) => {
            if search_context.search_regex.is_match(text) {
                Some(SearchResult::create(current_path, field_name, value))
            } else {
                None
            }
        },
        None => None,
    }
}

/// How the returned collection relates to the full list of hits: no
/// collection at all when there are none, and otherwise exactly what the
/// mode reports of the full list.
pub open spec fn outcome_ok(
    r: Option<Vec<SearchResult>>,
    single: bool,
    full: Seq<SearchResultView>,
) -> bool {
    match r {
        None => full.len() == 0,
        Some(res) => full.len() > 0 && res.deep_view() == reported(single, full),
    }
}

/// Searches one JSON value: hits under its children come first, in
/// order, then the node's own hit; in single-result mode the first hit
/// found is the only one reported and the rest of the tree is not
/// explored.
pub fn search_json_value(
    json_value: &JsonValue,
    field_path_parts: &Vec<String>,
    field_name: &String,
    current_path: Vec<String>,
    search_context: &SearchContext,
) -> (r: Option<Vec<SearchResult>>)
    ensures
        ({
            let q = search_context.query(field_path_parts.deep_view(), field_name@);
            outcome_ok(
                r,
                search_context.single_result_only,
                results_for(view_of(*json_value), q, current_path.deep_view()),
            )
        }),
    decreases *json_value,
{
    match json_value {
        JsonValue::Object(entries) => {
            proof {
                assert(decreases_to!(*json_value => (*json_value)->Object_0));
                assert((*json_value)->Object_0 == *entries);
            }
            search_object(entries, field_path_parts, field_name, current_path, search_context)
        },
        JsonValue::Array(items) => {
            proof {
                assert(decreases_to!(*json_value => (*json_value)->Array_0));
                assert((*json_value)->Array_0 == *items);
            }
            search_array(items, field_path_parts, field_name, current_path, search_context)
        },
        _ => None,
    }
}

/// Searches an object: every field's value first, in field order, then
/// the object's own field check.
fn search_object(
    entries: &Vec<(String, JsonValue)>,
    field_path_parts: &Vec<String>,
    field_name: &String,
    current_path: Vec<String>,
    search_context: &SearchContext,
) -> (r: Option<Vec<SearchResult>>)
    ensures
        ({
            let q = search_context.query(field_path_parts.deep_view(), field_name@);
            let ev = views_of_entries(entries@);
            let path = current_path.deep_view();
            outcome_ok(
                r,
                search_context.single_result_only,
                obj_results(ev, q, path, 0) + node_match(q, ev, path),
            )
        }),
    decreases *entries,
{
    proof {
        crate::json::lemma_views_of_entries(entries@);
    }
    let ghost q = search_context.query(field_path_parts.deep_view(), field_name@);
    let ghost ev = views_of_entries(entries@);
    let ghost path = current_path.deep_view();
    let ghost full = obj_results(ev, q, path, 0) + node_match(q, ev, path);
    let mut results: Vec<SearchResult> = Vec::new();
    let mut i: usize = 0;
    while i < entries.len()
        invariant
            i <= entries@.len(),
            q == search_context.query(field_path_parts.deep_view(), field_name@),
            ev == views_of_entries(entries@),
            path == current_path.deep_view(),
            full == obj_results(ev, q, path, 0) + node_match(q, ev, path),
            ev.len() == entries@.len(),
            forall|j: int| 0 <= j < entries@.len() ==> #[trigger] ev[j] == (
                entries@[j].0@,
                view_of(entries@[j].1),
            ),
            obj_results(ev, q, path, 0) == results.deep_view() + obj_results(
                ev,
                q,
                path,
                i as int,
            ),
            search_context.single_result_only ==> results@.len() == 0,
        decreases entries@.len() - i,
    {
        proof {
            assert(decreases_to!(*entries => entries@));
            assert(decreases_to!(entries@ => entries@[i as int]));
            assert(decreases_to!(entries@[i as int] => entries@[i as int].1));
        }
        let mut next_path = clone_path(&current_path);
        next_path.push(entries[i].0.clone());
        proof {
            assert(next_path.deep_view() =~= path.push(ev[i as int].0));
        }
        let ghost child_full = results_for(ev[i as int].1, q, path.push(ev[i as int].0));
        let child = search_json_value(
            &entries[i].1,
            field_path_parts,
            field_name,
            next_path,
            search_context,
        );
        proof {
            assert(obj_results(ev, q, path, i as int) == child_full + obj_results(
                ev,
                q,
                path,
                i + 1,
            ));
        }
        match child {
            Some(mut child_results) => {
                let ghost child_view = child_results.deep_view();
                let ghost prev = results.deep_view();
                results.append(&mut child_results);
                proof {
                    assert(results.deep_view() =~= prev + child_view);
                }
                if search_context.single_result_only {
                    proof {
                        assert(child_full.len() > 0);
                        assert(full[0] == child_full[0]);
                        assert(results.deep_view() =~= seq![full[0]]);
                        assert(full.len() > 0);
                    }
                    return Some(results);
                }
                proof {
                    assert(obj_results(ev, q, path, 0) =~= results.deep_view() + obj_results(
                        ev,
                        q,
                        path,
                        i + 1,
                    ));
                }
            },
            None => {
                proof {
                    assert(child_full.len() == 0);
                    assert(obj_results(ev, q, path, i as int) =~= obj_results(ev, q, path, i + 1));
                }
            },
        }
        i = i + 1;
    }
    proof {
        assert(obj_results(ev, q, path, entries@.len() as int) =~= Seq::<SearchResultView>::empty());
        assert(obj_results(ev, q, path, 0) =~= results.deep_view());
    }
    let found = check_object_match(
        entries,
        field_path_parts,
        field_name,
        &current_path,
        search_context,
    );
    match found {
        Some(found_value) => {
            let ghost m = node_match(q, ev, path);
            let ghost prev = results.deep_view();
            results.push(found_value);
            proof {
                assert(results.deep_view() =~= prev.push(m[0]));
                assert(results.deep_view() =~= prev + m);
                assert(full =~= results.deep_view());
            }
            if search_context.single_result_only {
                proof {
                    assert(prev.len() == 0);
                    assert(results.deep_view() =~= seq![full[0]]);
                }
                return Some(results);
            }
            Some(results)
        },
        None => {
            proof {
                assert(full =~= results.deep_view());
            }
            if results.len() > 0 {
                Some(results)
            } else {
                proof {
                    assert(results.deep_view().len() == 0);
                }
                None
            }
        },
    }
}

/// Searches an array: every element in order, the path growing by the
/// element's index written in decimal.
fn search_array(
    items: &Vec<JsonValue>,
    field_path_parts: &Vec<String>,
    field_name: &String,
    current_path: Vec<String>,
    search_context: &SearchContext,
) -> (r: Option<Vec<SearchResult>>)
    ensures
        ({
            let q = search_context.query(field_path_parts.deep_view(), field_name@);
            let iv = views_of_items(items@);
            let path = current_path.deep_view();
            outcome_ok(r, search_context.single_result_only, arr_results(iv, q, path, 0))
        }),
    decreases *items,
{
    proof {
        crate::json::lemma_views_of_items(items@);
    }
    let ghost q = search_context.query(field_path_parts.deep_view(), field_name@);
    let ghost iv = views_of_items(items@);
    let ghost path = current_path.deep_view();
    let ghost full = arr_results(iv, q, path, 0);
    let mut results: Vec<SearchResult> = Vec::new();
    let mut i: usize = 0;
    while i < items.len()
        invariant
            i <= items@.len(),
            q == search_context.query(field_path_parts.deep_view(), field_name@),
            iv == views_of_items(items@),
            path == current_path.deep_view(),
            full == arr_results(iv, q, path, 0),
            iv.len() == items@.len(),
            forall|j: int| 0 <= j < items@.len() ==> #[trigger] iv[j] == view_of(items@[j]),
            arr_results(iv, q, path, 0) == results.deep_view() + arr_results(iv, q, path, i as int),
            search_context.single_result_only ==> results@.len() == 0,
        decreases items@.len() - i,
    {
        proof {
            assert(decreases_to!(*items => items@));
            assert(decreases_to!(items@ => items@[i as int]));
        }
        let mut next_path = clone_path(&current_path);
        next_path.push(usize_to_string(i));
        proof {
            assert(next_path.deep_view() =~= path.push(dec_str(i as nat)));
        }
        let ghost child_full = results_for(iv[i as int], q, path.push(dec_str(i as nat)));
        let child = search_json_value(
            &items[i],
            field_path_parts,
            field_name,
            next_path,
            search_context,
        );
        proof {
            assert(arr_results(iv, q, path, i as int) == child_full + arr_results(
                iv,
                q,
                path,
                i + 1,
            ));
        }
        match child {
            Some(mut child_results) => {
                if search_context.single_result_only {
                    proof {
                        assert(child_full.len() > 0);
                        assert(full[0] == child_full[0]);
                        assert(child_results.deep_view() =~= seq![full[0]]);
                        assert(full.len() > 0);
                    }
                    return Some(child_results);
                }
                let ghost child_view = child_results.deep_view();
                let ghost prev = results.deep_view();
                results.append(&mut child_results);
                proof {
                    assert(results.deep_view() =~= prev + child_view);
                    assert(arr_results(iv, q, path, 0) =~= results.deep_view() + arr_results(
                        iv,
                        q,
                        path,
                        i + 1,
                    ));
                }
            },
            None => {
                proof {
                    assert(child_full.len() == 0);
                    assert(arr_results(iv, q, path, i as int) =~= arr_results(iv, q, path, i + 1));
                }
            },
        }
        i = i + 1;
    }
    proof {
        assert(arr_results(iv, q, path, items@.len() as int) =~= Seq::<SearchResultView>::empty());
        assert(full =~= results.deep_view());
    }
    if results.len() > 0 {
        Some(results)
    } else {
        proof {
            assert(results.deep_view().len() == 0);
        }
        None
    }
}

/// What this object node itself contributes: its hit, if the path
/// matcher accepts here, it has the field, and the field's value
/// satisfies the predicate.
fn check_object_match(
    entries: &Vec<(String, JsonValue)>,
    field_path_parts: &Vec<String>,
    field_name: &String,
    current_path: &Vec<String>,
    search_context: &SearchContext,
) -> (r: Option<SearchResult>)
    ensures
        ({
            let q = search_context.query(field_path_parts.deep_view(), field_name@);
            let m = node_match(q, views_of_entries(entries@), current_path.deep_view());
            match r {
                Some(res) => m.len() == 1 && res@ == m[0],
                None => m.len() == 0,
            }
        }),
{
    if !path_matches(field_path_parts, current_path) {
        return None;
    }
    let value = match crate::json::lookup_field(entries, field_name) {
        Some(v) => v,
        None => {
            return None;
        },
    };
    if search_context.numeric_search_enabled {
        check_numeric_match(value, field_name, current_path, search_context)
    } else {
        check_regex_match(value, field_name, current_path, search_context)
    }
}

} // verus!
