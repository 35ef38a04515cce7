//! Title extraction: the first heading line of a post supplies the title
//! of its feed entry, with a caller-supplied fallback when no heading
//! exists.

use vstd::prelude::*;
use vstd::string::StrSliceExecFns;

use crate::strs::{drop_hashes, strip_hashes, trim, trim_spec};

verus! {

/// A heading line starts with the `'#'` marker.
pub open spec fn is_heading(line: Seq<char>) -> bool {
    line.len() > 0 && line[0] == '#'
}

/// The text a heading line contributes: its leading markers stripped,
/// then whitespace trimmed at both ends.
pub open spec fn heading_text(line: Seq<char>) -> Seq<char> {
    trim_spec(drop_hashes(line))
}

/// The text of the first heading line, if any. A line of `None` stands
/// for one that could not be decoded as text; such lines never match.
pub open spec fn first_heading(lines: Seq<Option<Seq<char>>>) -> Option<Seq<char>>
    decreases lines.len(),
{
    if lines.len() == 0 {
        None
    } else {
        match lines[0] {
            Some(l) => if is_heading(l) {
                Some(heading_text(l))
            } else {
                first_heading(lines.drop_first())
            },
            None => first_heading(lines.drop_first()),
        }
    }
}

/// The title a document yields: its first heading's text, or the given
/// fallback when no line is a heading.
pub open spec fn title_of(lines: Seq<Option<Seq<char>>>, default: Seq<char>) -> Seq<char> {
    match first_heading(lines) {
        Some(t) => t,
        None => default,
    }
}

/// Scans the document's lines for the first heading and returns its text;
/// when no line is a heading, returns `default`. A caller that could not
/// open or read the document at all passes an empty line sequence, so
/// that failure degrades to the fallback as well.
pub fn extract_first_heading(lines: &Vec<Option<String>>, default: &str) -> (r: String)
    ensures
        r@ == title_of(lines.deep_view(), default@),
{
    let n = lines.len();
    proof {
        assert(lines.deep_view().subrange(0, n as int) =~= lines.deep_view());
    }
    let mut i: usize = 0;
    while i < n
        invariant
            i <= n,
            n == lines@.len(),
            first_heading(lines.deep_view()) == first_heading(
                lines.deep_view().subrange(i as int, n as int),
            ),
        decreases n - i,
    {
        proof {
            assert(lines.deep_view().subrange(i as int, n as int).drop_first()
                =~= lines.deep_view().subrange(i as int + 1, n as int));
            assert(lines.deep_view().subrange(i as int, n as int)[0] == lines@[i as int].deep_view());
        }
        match &lines[i] {
            Some(line) => {
                let s = line.as_str();
                if !s.is_empty() && s.get_char(0) == '#' {
                    let stripped = strip_hashes(s);
                    let trimmed = trim(stripped);
                    return trimmed.to_owned();
                }
            },
            None => {},
        }
        i += 1;
    }
    proof {
        assert(lines.deep_view().subrange(i as int, n as int) =~= Seq::<Option<Seq<char>>>::empty());
    }
    default.to_owned()
}

/// The title of a post: its first heading, or the fixed fallback text.
pub fn get_title(lines: &Vec<Option<String>>) -> (r: String)
    ensures
        r@ == title_of(lines.deep_view(), "No title found"@),
{
    extract_first_heading(lines, "No title found")
}

} // verus!
