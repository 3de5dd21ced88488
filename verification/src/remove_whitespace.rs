//! Removes white space from a string, keeping every other character in
//! order.

use vstd::prelude::*;
use vstd::string::StrSliceExecFns;
use vstd::string::StringExecFns;

use crate::text::chars_of;

verus! {

/// Unicode's white space characters: the code points with the
/// White_Space property.
pub open spec fn is_whitespace_char(c: char) -> bool {
    ||| c == '\u{0009}'
    ||| c == '\u{000A}'
    ||| c == '\u{000B}'
    ||| c == '\u{000C}'
    ||| c == '\u{000D}'
    ||| c == ' '
    ||| c == '\u{0085}'
    ||| c == '\u{00A0}'
    ||| c == '\u{1680}'
    ||| ('\u{2000}' <= c && c <= '\u{200A}')
    ||| c == '\u{2028}'
    ||| c == '\u{2029}'
    ||| c == '\u{202F}'
    ||| c == '\u{205F}'
    ||| c == '\u{3000}'
}

/// The characters of `s` that are not white space, in order.
pub open spec fn spec_remove_whitespace(s: Seq<char>) -> Seq<char> {
    s.filter(|c: char| !is_whitespace_char(c))
}

fn is_whitespace_exec(c: char) -> (b: bool)
    ensures
        b == is_whitespace_char(c),
{
    c == '\u{0009}' || c == '\u{000A}' || c == '\u{000B}' || c == '\u{000C}' || c == '\u{000D}'
        || c == ' ' || c == '\u{0085}' || c == '\u{00A0}' || c == '\u{1680}' || ('\u{2000}' <= c
        && c <= '\u{200A}') || c == '\u{2028}' || c == '\u{2029}' || c == '\u{202F}' || c
        == '\u{205F}' || c == '\u{3000}'
}

/// Removes all white space characters from a string.
pub fn remove_whitespace(text: &str) -> (result: String)
    ensures
        result@ == spec_remove_whitespace(text@),
{
    let chars = chars_of(text);
    let n = chars.len();
    let mut result = String::new();
    let mut i: usize = 0;
    while i < n
        invariant
            n == text@.len(),
            chars@ == text@,
            i <= n,
            result@ == text@.take(i as int).filter(|c: char| !is_whitespace_char(c)),
        decreases n - i,
    {
        proof {
            assert(text@.take(i + 1).drop_last() =~= text@.take(i as int));
            assert(text@.take(i + 1).last() == text@[i as int]);
            reveal(Seq::filter);
        }
        if !is_whitespace_exec(chars[i]) {
            result.append(text.substring_char(i, i + 1));
            assert(text@.subrange(i as int, i + 1) =~= seq![text@[i as int]]);
        }
        i = i + 1;
    }
    proof {
        assert(text@.take(n as int) =~= text@);
    }
    result
}

} // verus!
