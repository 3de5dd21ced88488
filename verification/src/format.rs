//! Rendering support: how results are displayed, and the joining of
//! path segments that display and the round-trip law share.

use vstd::prelude::*;
use vstd::string::StringExecFns;

use crate::text::join_seq;

verus! {

/// How results are rendered for display.
pub struct FormatContext {
    /// Put between two path segments.
    pub field_path_separator: String,
    /// Print the path alone, without the matched value.
    pub hide_value: bool,
    /// Print the file the match came from instead of the match's path.
    pub path_output: bool,
}

/// Joining after pushing one more segment appends a separator and the
/// segment, unless nothing was there before it.
proof fn lemma_join_push(parts: Seq<Seq<char>>, sep: Seq<char>, x: Seq<char>)
    ensures
        join_seq(parts.push(x), sep) == if parts.len() == 0 {
            x
        } else {
            join_seq(parts, sep) + sep + x
        },
    decreases parts.len(),
{
    let pushed = parts.push(x);
    if parts.len() == 0 {
        assert(pushed.len() == 1);
        assert(pushed[0] == x);
    } else {
        lemma_join_push(parts.drop_first(), sep, x);
        assert(pushed.drop_first() =~= parts.drop_first().push(x));
        assert(pushed[0] == parts[0]);
        if parts.len() == 1 {
            assert(parts.drop_first().len() == 0);
        }
    }
}

/// Joins path segments with the separator, the way a parsed path-spec's
/// segments are joined back together for display.
pub fn join_segments(segments: &Vec<String>, separator: &str) -> (s: String)
    ensures
        s@ == join_seq(segments.deep_view(), separator@),
{
    let ghost parts = segments.deep_view();
    let mut s = String::new();
    if segments.len() == 0 {
        return s;
    }
    s.append(segments[0].as_str());
    let mut i: usize = 1;
    proof {
        assert(parts.take(1) =~= seq![parts[0]]);
    }
    while i < segments.len()
        invariant
            1 <= i <= segments@.len(),
            parts == segments.deep_view(),
            parts.len() == segments@.len(),
            s@ == join_seq(parts.take(i as int), separator@),
        decreases segments@.len() - i,
    {
        s.append(separator);
        s.append(segments[i].as_str());
        proof {
            lemma_join_push(parts.take(i as int), separator@, parts[i as int]);
            assert(parts.take(i + 1) =~= parts.take(i as int).push(parts[i as int]));
        }
        i = i + 1;
    }
    proof {
        assert(parts.take(parts.len() as int) =~= parts);
    }
    s
}

} // verus!
