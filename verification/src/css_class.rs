//! Looking up one class's rule body in a stylesheet: a regular expression
//! built from the class name finds candidate `.name ... { ... }` spans, and
//! the first candidate that really starts with the class selector is
//! returned, reindented for display.
use crate::text::chars_start_with;
use crate::text::chars_to_string;
use crate::text::extend_chars;
use crate::text::starts_with_spec;
use crate::text::str_to_chars;
use crate::text::subvec;
use crate::text::trim_start_spec;
use crate::text::ws_prefix_len;
use vstd::prelude::*;

verus! {

/// Whether `regex::Regex::new` accepts the pattern; a function of the
/// pattern text alone.
pub uninterp spec fn regex_pattern_valid(pattern: Seq<char>) -> bool;

/// The non-overlapping matches of the pattern in the text, leftmost first,
/// as `regex::Regex::find_iter` yields them; a function of the pattern and
/// the text alone.
pub uninterp spec fn regex_find_matches(pattern: Seq<char>, text: Seq<char>) -> Seq<Seq<char>>;

/// The text with every regex metacharacter escaped, as `regex::escape`
/// produces it; a function of the input alone.
pub uninterp spec fn regex_escaped(s: Seq<char>) -> Seq<char>;

/// Relies on `regex::escape`: the escaped pattern text depends on the input
/// characters alone.
#[verifier::external_body]
fn escape_pattern(s: &str) -> (r: String)
    ensures
        r@ == regex_escaped(s@),
{
    regex::escape(s)
}

/// Relies on `regex::Regex::new` and `regex::Regex::find_iter`: compilation
/// succeeds exactly for patterns the regex grammar accepts, and the matches
/// come non-overlapping, leftmost first, determined by the pattern and the
/// text alone.
#[verifier::external_body]
fn find_pattern_matches(pattern: &str, text: &str) -> (r: Option<Vec<String>>)
    ensures
        r is Some <==> regex_pattern_valid(pattern@),
        r matches Some(v) ==> v@.map_values(|m: String| m@) == regex_find_matches(
            pattern@,
            text@,
        ),
{
    match regex::Regex::new(pattern) {
        Ok(re) => Some(re.find_iter(text).map(|m| m.as_str().to_string()).collect()),
        Err(_) => None,
    }
}

/// The pattern that finds a class's rule: the escaped name after a literal
/// dot, a character that cannot extend the name, then a braced body.
pub open spec fn class_pattern(name: Seq<char>) -> Seq<char> {
    "\\."@ + regex_escaped(name) + "[^A-Za-z0-9_-][^{}]*\\{[^}]*\\}"@
}

/// The first match that starts with `.name`.
pub open spec fn first_class_match(ms: Seq<Seq<char>>, name: Seq<char>) -> Option<Seq<char>>
    decreases ms.len(),
{
    if ms.len() == 0 {
        None
    } else if starts_with_spec(ms[0], seq!['.'] + name) {
        Some(ms[0])
    } else {
        first_class_match(ms.drop_first(), name)
    }
}

/// The matched span prepared for display: stripped of leading whitespace,
/// and indented unless it already starts with a selector or ends with a
/// closing brace.
pub open spec fn format_class_body(m: Seq<char>) -> Seq<char> {
    let t = trim_start_spec(m);
    if (t.len() > 0 && t[0] == '.') || (t.len() > 0 && t.last() == '}') {
        t
    } else {
        "    "@ + t
    }
}

/// What the lookup returns once the regex has produced its matches.
pub open spec fn class_body_spec(code: Seq<char>, name: Seq<char>) -> Option<Seq<char>> {
    match first_class_match(regex_find_matches(class_pattern(name), code), name) {
        None => None,
        Some(m) => Some(format_class_body(m)),
    }
}

/// Finds the body of the rule for `class_name` in `code`: the first regex
/// candidate that starts with the class selector, reindented for display.
/// `None` when no rule matches (or the built pattern is not accepted).
pub fn get_class_body(code: &str, class_name: &str) -> (r: Option<String>)
    ensures
        r matches Some(s) ==> regex_pattern_valid(class_pattern(class_name@))
            && class_body_spec(code@, class_name@) == Some(s@),
        r is None ==> !regex_pattern_valid(class_pattern(class_name@)) || class_body_spec(
            code@,
            class_name@,
        ) is None,
{
    let escaped = escape_pattern(class_name);
    let mut pattern = str_to_chars("\\.");
    let ev = str_to_chars(escaped.as_str());
    extend_chars(&mut pattern, &ev);
    let tail = str_to_chars("[^A-Za-z0-9_-][^{}]*\\{[^}]*\\}");
    extend_chars(&mut pattern, &tail);
    assert(pattern@ =~= class_pattern(class_name@));
    let pattern_str = chars_to_string(&pattern);
    let found = find_pattern_matches(pattern_str.as_str(), code);
    let matches: Vec<String> = match found {
        None => {
            return None;
        },
        Some(v) => v,
    };
    let ghost mv = matches@.map_values(|m: String| m@);
    assert(mv == regex_find_matches(class_pattern(class_name@), code@));
    let mut selector = str_to_chars(".");
    let namev = str_to_chars(class_name);
    extend_chars(&mut selector, &namev);
    proof {
        reveal_strlit(".");
    }
    assert(selector@ =~= seq!['.'] + class_name@);
    let mut i: usize = 0;
    assert(mv.skip(0) =~= mv);
    while i < matches.len()
        invariant
            i <= matches.len(),
            mv == matches@.map_values(|m: String| m@),
            selector@ == seq!['.'] + class_name@,
            regex_pattern_valid(class_pattern(class_name@)),
            mv == regex_find_matches(class_pattern(class_name@), code@),
            first_class_match(mv, class_name@) == first_class_match(
                mv.skip(i as int),
                class_name@,
            ),
        decreases matches.len() - i,
    {
        let ghost rest = mv.skip(i as int);
        assert(rest[0] == mv[i as int]);
        assert(rest.drop_first() =~= mv.skip(i as int + 1));
        let m = str_to_chars(matches[i].as_str());
        if chars_start_with(&m, &selector) {
            assert(first_class_match(mv, class_name@) == Some(mv[i as int]));
            let wn = ws_prefix_len(&m);
            let trimmed = subvec(&m, wn, m.len());
            assert(trimmed@ =~= m@.skip(wn as int));
            assert(trimmed@ == trim_start_spec(m@));
            let starts_dot = trimmed.len() > 0 && trimmed[0] == '.';
            let ends_brace = trimmed.len() > 0 && trimmed[trimmed.len() - 1] == '}';
            assert(trimmed.len() > 0 ==> trimmed@.last() == trimmed@[trimmed@.len() - 1]);
            if starts_dot || ends_brace {
                assert(trimmed@ == format_class_body(mv[i as int]));
                assert(regex_pattern_valid(class_pattern(class_name@)));
                assert(class_body_spec(code@, class_name@) == Some(trimmed@));
                return Some(chars_to_string(&trimmed));
            }
            let mut out = str_to_chars("    ");
            extend_chars(&mut out, &trimmed);
            assert(out@ =~= format_class_body(mv[i as int]));
            assert(regex_pattern_valid(class_pattern(class_name@)));
            assert(class_body_spec(code@, class_name@) == Some(out@));
            return Some(chars_to_string(&out));
        }
        i = i + 1;
    }
    assert(mv.skip(matches@.len() as int) =~= Seq::<Seq<char>>::empty());
    None
}

} // verus!
