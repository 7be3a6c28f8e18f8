//! Shared text utilities: character classification, conversions between
//! `str` and `Vec<char>`, and the sequence-level spec functions that the
//! rest of the crate states its contracts over.
use vstd::prelude::*;

verus! {

// ---------------------------------------------------------------------------
// Character classification.
//
// The linter follows Unicode classes for letters, digits and whitespace,
// exactly as `char`'s own methods define them. Those tables cannot be
// restated here in a few lines, so each method's result is given a name.
// ---------------------------------------------------------------------------

/// What `char::is_alphabetic` returns; a function of the character alone.
pub uninterp spec fn char_alphabetic(c: char) -> bool;

/// What `char::is_numeric` returns; a function of the character alone.
pub uninterp spec fn char_numeric(c: char) -> bool;

/// What `char::is_whitespace` returns; a function of the character alone.
pub uninterp spec fn char_whitespace(c: char) -> bool;

/// Relies on `char::is_alphabetic` (Unicode `Alphabetic` property).
pub assume_specification[ char::is_alphabetic ](c: char) -> (r: bool)
    ensures
        r == char_alphabetic(c),
;

/// Relies on `char::is_numeric` (Unicode numeric classes). Its documentation
/// plainly includes the ASCII digits `'0'..='9'`.
pub assume_specification[ char::is_numeric ](c: char) -> (r: bool)
    ensures
        r == char_numeric(c),
        '0' <= c && c <= '9' ==> r,
;

/// Relies on `char::is_whitespace` (Unicode `White_Space` property). Its
/// documentation plainly includes the space character.
pub assume_specification[ char::is_whitespace ](c: char) -> (r: bool)
    ensures
        r == char_whitespace(c),
        c == ' ' ==> r,
;

/// A value capped at the largest `usize`.
pub open spec fn cap_usize(x: int) -> int {
    if x > usize::MAX {
        usize::MAX as int
    } else {
        x
    }
}

// ---------------------------------------------------------------------------
// str / String / Vec<char> conversions.
// ---------------------------------------------------------------------------

/// Relies on `String: FromIterator<&char>`: collecting the characters of a
/// vector yields the string with exactly those characters.
#[verifier::external_body]
pub fn chars_to_string(v: &Vec<char>) -> (s: String)
    ensures
        s@ == v@,
{
    v.iter().collect()
}

/// The characters of a string slice, as a vector.
pub fn str_to_chars(s: &str) -> (v: Vec<char>)
    ensures
        v@ == s@,
{
    let n = s.unicode_len();
    let mut v: Vec<char> = Vec::new();
    let mut i: usize = 0;
    while i < n
        invariant
            n == s@.len(),
            i <= n,
            v@ == s@.take(i as int),
        decreases n - i,
    {
        v.push(s.get_char(i));
        i = i + 1;
        assert(v@ =~= s@.take(i as int));
    }
    assert(s@.take(n as int) =~= s@);
    v
}

/// A copy of `v[from..to]`.
pub fn subvec(v: &Vec<char>, from: usize, to: usize) -> (r: Vec<char>)
    requires
        from <= to <= v.len(),
    ensures
        r@ == v@.subrange(from as int, to as int),
{
    let mut r: Vec<char> = Vec::new();
    let mut i: usize = from;
    while i < to
        invariant
            from <= i <= to <= v.len(),
            r@ == v@.subrange(from as int, i as int),
        decreases to - i,
    {
        r.push(v[i]);
        i = i + 1;
        assert(r@ =~= v@.subrange(from as int, i as int));
    }
    r
}

/// Appends every character of `src` to `dst`.
pub fn extend_chars(dst: &mut Vec<char>, src: &Vec<char>)
    ensures
        final(dst)@ == old(dst)@ + src@,
{
    let mut i: usize = 0;
    while i < src.len()
        invariant
            i <= src.len(),
            dst@ == old(dst)@ + src@.take(i as int),
        decreases src.len() - i,
    {
        dst.push(src[i]);
        i = i + 1;
        assert(dst@ =~= old(dst)@ + src@.take(i as int));
    }
    assert(dst@ =~= old(dst)@ + src@);
}

// ---------------------------------------------------------------------------
// Prefix / suffix / trim specs and their executable counterparts.
// ---------------------------------------------------------------------------

/// `p` is a prefix of `s`.
pub open spec fn starts_with_spec(s: Seq<char>, p: Seq<char>) -> bool {
    p.len() <= s.len() && s.take(p.len() as int) == p
}

/// `p` is a suffix of `s`.
pub open spec fn ends_with_spec(s: Seq<char>, p: Seq<char>) -> bool {
    p.len() <= s.len() && s.skip(s.len() - p.len()) == p
}

/// `s` without its leading whitespace.
pub open spec fn trim_start_spec(s: Seq<char>) -> Seq<char>
    decreases s.len(),
{
    if s.len() > 0 && char_whitespace(s[0]) {
        trim_start_spec(s.drop_first())
    } else {
        s
    }
}

/// `s` without its trailing whitespace.
pub open spec fn trim_end_spec(s: Seq<char>) -> Seq<char>
    decreases s.len(),
{
    if s.len() > 0 && char_whitespace(s.last()) {
        trim_end_spec(s.drop_last())
    } else {
        s
    }
}

/// `s` without leading and trailing whitespace.
pub open spec fn trim_spec(s: Seq<char>) -> Seq<char> {
    trim_end_spec(trim_start_spec(s))
}

/// `s` with every leading copy of `p` removed, as `str::trim_start_matches`
/// leaves it.
pub open spec fn strip_prefix_all(s: Seq<char>, p: Seq<char>) -> Seq<char>
    decreases s.len(),
{
    if p.len() > 0 && starts_with_spec(s, p) {
        strip_prefix_all(s.skip(p.len() as int), p)
    } else {
        s
    }
}

/// `s` with every trailing copy of `p` removed, as `str::trim_end_matches`
/// leaves it.
pub open spec fn strip_suffix_all(s: Seq<char>, p: Seq<char>) -> Seq<char>
    decreases s.len(),
{
    if p.len() > 0 && ends_with_spec(s, p) {
        strip_suffix_all(s.take(s.len() - p.len()), p)
    } else {
        s
    }
}

/// Does `s` start with `p`?
pub fn chars_start_with(s: &Vec<char>, p: &Vec<char>) -> (r: bool)
    ensures
        r == starts_with_spec(s@, p@),
{
    if p.len() > s.len() {
        assert(!starts_with_spec(s@, p@));
        return false;
    }
    let mut i: usize = 0;
    while i < p.len()
        invariant
            p.len() <= s.len(),
            i <= p.len(),
            forall|j: int| 0 <= j < i ==> s@[j] == p@[j],
        decreases p.len() - i,
    {
        if s[i] != p[i] {
            assert(s@.take(p@.len() as int)[i as int] != p@[i as int]);
            return false;
        }
        i = i + 1;
    }
    assert(s@.take(p@.len() as int) =~= p@);
    true
}

/// Does `s` end with `p`?
pub fn chars_end_with(s: &Vec<char>, p: &Vec<char>) -> (r: bool)
    ensures
        r == ends_with_spec(s@, p@),
{
    if p.len() > s.len() {
        assert(!ends_with_spec(s@, p@));
        return false;
    }
    let off: usize = s.len() - p.len();
    let mut i: usize = 0;
    while i < p.len()
        invariant
            off == s.len() - p.len(),
            p.len() <= s.len(),
            i <= p.len(),
            forall|j: int| 0 <= j < i ==> s@[off + j] == p@[j],
        decreases p.len() - i,
    {
        if s[off + i] != p[i] {
            assert(s@.skip(off as int)[i as int] != p@[i as int]);
            return false;
        }
        i = i + 1;
    }
    assert(s@.skip(off as int) =~= p@);
    true
}

/// The number of leading whitespace characters of `s`; what remains after
/// them is `trim_start_spec(s@)`.
pub fn ws_prefix_len(s: &Vec<char>) -> (n: usize)
    ensures
        n <= s.len(),
        s@.skip(n as int) == trim_start_spec(s@),
        forall|j: int| 0 <= j < n ==> char_whitespace(s@[j]),
{
    let mut i: usize = 0;
    assert(s@.skip(0) =~= s@);
    while i < s.len()
        invariant
            i <= s.len(),
            trim_start_spec(s@) == trim_start_spec(s@.skip(i as int)),
            forall|j: int| 0 <= j < i ==> char_whitespace(s@[j]),
        decreases s.len() - i,
    {
        if !s[i].is_whitespace() {
            assert(s@.skip(i as int)[0] == s@[i as int]);
            assert(trim_start_spec(s@.skip(i as int)) == s@.skip(i as int));
            return i;
        }
        assert(s@.skip(i as int).drop_first() =~= s@.skip(i as int + 1));
        assert(s@.skip(i as int)[0] == s@[i as int]);
        i = i + 1;
    }
    assert(s@.skip(i as int) =~= Seq::<char>::empty());
    assert(trim_start_spec(s@.skip(i as int)) == s@.skip(i as int));
    i
}

/// The length that remains after trailing whitespace of `s` is removed;
/// the prefix of that length is `trim_end_spec(s@)`.
pub fn ws_suffix_start(s: &Vec<char>) -> (n: usize)
    ensures
        n <= s.len(),
        s@.take(n as int) == trim_end_spec(s@),
{
    let mut i: usize = s.len();
    assert(s@.take(s@.len() as int) =~= s@);
    while i > 0
        invariant
            i <= s.len(),
            trim_end_spec(s@) == trim_end_spec(s@.take(i as int)),
        decreases i,
    {
        if !s[i - 1].is_whitespace() {
            assert(s@.take(i as int).last() == s@[i - 1]);
            assert(trim_end_spec(s@.take(i as int)) == s@.take(i as int));
            return i;
        }
        assert(s@.take(i as int).drop_last() =~= s@.take(i as int - 1));
        assert(s@.take(i as int).last() == s@[i - 1]);
        i = i - 1;
    }
    assert(s@.take(0) =~= Seq::<char>::empty());
    0
}

/// Removes every leading copy of `p` from `s`, as `str::trim_start_matches`
/// does.
pub fn strip_prefix_all_exec(s: &Vec<char>, p: &Vec<char>) -> (r: Vec<char>)
    ensures
        r@ == strip_prefix_all(s@, p@),
        r.len() <= s.len(),
{
    let mut from: usize = 0;
    assert(s@.skip(0) =~= s@);
    loop
        invariant
            from <= s.len(),
            strip_prefix_all(s@, p@) == strip_prefix_all(s@.skip(from as int), p@),
        decreases s.len() - from,
    {
        let rest = subvec(s, from, s.len());
        assert(rest@ =~= s@.skip(from as int));
        if p.len() == 0 || !chars_start_with(&rest, p) {
            assert(strip_prefix_all(rest@, p@) == rest@);
            return rest;
        }
        assert(rest@.skip(p@.len() as int) =~= s@.skip(from as int + p@.len() as int));
        from = from + p.len();
    }
}

/// Removes every trailing copy of `p` from `s`, as `str::trim_end_matches`
/// does.
pub fn strip_suffix_all_exec(s: &Vec<char>, p: &Vec<char>) -> (r: Vec<char>)
    ensures
        r@ == strip_suffix_all(s@, p@),
{
    let mut to: usize = s.len();
    assert(s@.take(s@.len() as int) =~= s@);
    loop
        invariant
            to <= s.len(),
            strip_suffix_all(s@, p@) == strip_suffix_all(s@.take(to as int), p@),
        decreases to,
    {
        let rest = subvec(s, 0, to);
        assert(rest@ =~= s@.take(to as int));
        if p.len() == 0 || !chars_end_with(&rest, p) {
            assert(strip_suffix_all(rest@, p@) == rest@);
            return rest;
        }
        assert(rest@.take(rest@.len() - p@.len()) =~= s@.take(to as int - p@.len()));
        to = to - p.len();
    }
}

/// Is `c` one of the characters of `s`?
pub fn chars_contain(s: &Vec<char>, c: char) -> (r: bool)
    ensures
        r == s@.contains(c),
{
    let mut i: usize = 0;
    while i < s.len()
        invariant
            i <= s.len(),
            forall|j: int| 0 <= j < i ==> s@[j] != c,
        decreases s.len() - i,
    {
        if s[i] == c {
            return true;
        }
        i = i + 1;
    }
    false
}

// ---------------------------------------------------------------------------
// Splitting text on a separator character, as `str::split` does.
// ---------------------------------------------------------------------------

/// The pieces of `s` split on `sep`; always at least one piece, and a
/// trailing separator yields a final empty piece.
pub open spec fn split_on_spec(s: Seq<char>, sep: char) -> Seq<Seq<char>>
    decreases s.len(),
{
    if s.len() == 0 {
        seq![Seq::<char>::empty()]
    } else if s[0] == sep {
        seq![Seq::<char>::empty()] + split_on_spec(s.drop_first(), sep)
    } else {
        let rest = split_on_spec(s.drop_first(), sep);
        seq![seq![s[0]] + rest[0]] + rest.drop_first()
    }
}

/// The lines of `s`, split on `'\n'`.
pub open spec fn split_lines_spec(s: Seq<char>) -> Seq<Seq<char>> {
    split_on_spec(s, '\n')
}

pub proof fn lemma_split_on_len(s: Seq<char>, sep: char)
    ensures
        split_on_spec(s, sep).len() >= 1,
    decreases s.len(),
{
    if s.len() > 0 {
        lemma_split_on_len(s.drop_first(), sep);
    }
}

/// Appending one character extends the last piece, or starts a fresh empty
/// piece when the character is the separator.
pub proof fn lemma_split_on_push(s: Seq<char>, sep: char, c: char)
    ensures
        c == sep ==> split_on_spec(s.push(c), sep) == split_on_spec(s, sep).push(
            Seq::<char>::empty(),
        ),
        c != sep ==> split_on_spec(s.push(c), sep) == split_on_spec(s, sep).update(
            split_on_spec(s, sep).len() - 1,
            split_on_spec(s, sep).last().push(c),
        ),
    decreases s.len(),
{
    lemma_split_on_len(s, sep);
    assert(split_on_spec(Seq::<char>::empty(), sep) =~= seq![Seq::<char>::empty()]);
    if s.len() == 0 {
        if c == sep {
            assert(s.push(c)[0] == sep);
            assert(s.push(c).drop_first() =~= Seq::<char>::empty());
            assert(split_on_spec(s.push(c), sep) =~= split_on_spec(s, sep).push(
                Seq::<char>::empty(),
            ));
        } else {
            assert(s.push(c)[0] == c);
            assert(s.push(c).drop_first() =~= Seq::<char>::empty());
            assert(split_on_spec(s.push(c), sep) =~= split_on_spec(s, sep).update(
                0,
                split_on_spec(s, sep).last().push(c),
            ));
        }
    } else {
        lemma_split_on_len(s.drop_first(), sep);
        lemma_split_on_push(s.drop_first(), sep, c);
        assert(s.push(c)[0] == s[0]);
        assert(s.push(c).drop_first() =~= s.drop_first().push(c));
        let rest = split_on_spec(s.drop_first(), sep);
        let restc = split_on_spec(s.drop_first().push(c), sep);
        if s[0] == sep {
            if c == sep {
                assert(split_on_spec(s.push(c), sep) =~= split_on_spec(s, sep).push(
                    Seq::<char>::empty(),
                ));
            } else {
                assert(restc == rest.update(rest.len() - 1, rest.last().push(c)));
                assert(split_on_spec(s.push(c), sep) =~= split_on_spec(s, sep).update(
                    split_on_spec(s, sep).len() - 1,
                    split_on_spec(s, sep).last().push(c),
                ));
            }
        } else {
            if c == sep {
                assert(restc == rest.push(Seq::<char>::empty()));
                assert(restc[0] == rest[0]);
                assert(restc.drop_first() =~= rest.drop_first().push(Seq::<char>::empty()));
                assert(split_on_spec(s.push(c), sep) =~= split_on_spec(s, sep).push(
                    Seq::<char>::empty(),
                ));
            } else {
                assert(restc == rest.update(rest.len() - 1, rest.last().push(c)));
                if rest.len() == 1 {
                    assert(restc[0] == rest[0].push(c));
                    assert(restc.drop_first() =~= rest.drop_first());
                    assert(split_on_spec(s.push(c), sep) =~= split_on_spec(s, sep).update(
                        split_on_spec(s, sep).len() - 1,
                        split_on_spec(s, sep).last().push(c),
                    ));
                } else {
                    assert(restc[0] == rest[0]);
                    assert(restc.drop_first() =~= rest.drop_first().update(
                        rest.drop_first().len() - 1,
                        rest.drop_first().last().push(c),
                    ));
                    assert(split_on_spec(s.push(c), sep) =~= split_on_spec(s, sep).update(
                        split_on_spec(s, sep).len() - 1,
                        split_on_spec(s, sep).last().push(c),
                    ));
                }
            }
        }
    }
}

/// The views of a sequence of character vectors.
pub open spec fn views_of_lines(lines: Seq<Vec<char>>) -> Seq<Seq<char>> {
    lines.map_values(|v: Vec<char>| v@)
}

/// Splits `text` into pieces at `sep`.
pub fn split_chars_on(text: &Vec<char>, sep: char) -> (pieces: Vec<Vec<char>>)
    ensures
        views_of_lines(pieces@) == split_on_spec(text@, sep),
{
    let mut pieces: Vec<Vec<char>> = Vec::new();
    let mut cur: Vec<char> = Vec::new();
    let mut i: usize = 0;
    while i < text.len()
        invariant
            i <= text.len(),
            split_on_spec(text@.take(i as int), sep) == views_of_lines(pieces@).push(cur@),
        decreases text.len() - i,
    {
        proof {
            lemma_split_on_push(text@.take(i as int), sep, text@[i as int]);
            assert(text@.take(i as int).push(text@[i as int]) =~= text@.take(i as int + 1));
        }
        let c = text[i];
        if c == sep {
            pieces.push(cur);
            cur = Vec::new();
            assert(views_of_lines(pieces@).push(cur@) =~= split_on_spec(
                text@.take(i as int + 1),
                sep,
            ));
        } else {
            cur.push(c);
            proof {
                let prev = views_of_lines(pieces@).push(cur@.drop_last());
                assert(prev.last() == cur@.drop_last());
                assert(cur@.drop_last().push(text@[i as int]) =~= cur@);
                assert(prev.update(prev.len() - 1, prev.last().push(text@[i as int]))
                    =~= views_of_lines(pieces@).push(cur@));
            }
        }
        i = i + 1;
    }
    assert(text@.take(text@.len() as int) =~= text@);
    pieces.push(cur);
    assert(views_of_lines(pieces@) =~= split_on_spec(text@, sep));
    pieces
}

/// Splits `text` into its lines at `'\n'`.
pub fn split_chars_into_lines(text: &Vec<char>) -> (lines: Vec<Vec<char>>)
    ensures
        views_of_lines(lines@) == split_lines_spec(text@),
{
    split_chars_on(text, '\n')
}

/// Are the two character vectors equal?
pub fn chars_equal(a: &Vec<char>, b: &Vec<char>) -> (r: bool)
    ensures
        r == (a@ == b@),
{
    if a.len() != b.len() {
        return false;
    }
    let mut i: usize = 0;
    while i < a.len()
        invariant
            a.len() == b.len(),
            i <= a.len(),
            forall|j: int| 0 <= j < i ==> a@[j] == b@[j],
        decreases a.len() - i,
    {
        if a[i] != b[i] {
            return false;
        }
        i = i + 1;
    }
    assert(a@ =~= b@);
    true
}

// ---------------------------------------------------------------------------
// Substring replacement, as `str::replace` performs it.
// ---------------------------------------------------------------------------

/// `s` with every occurrence of the non-empty pattern `pat` replaced by
/// `rep`, scanning left to right without overlap.
pub open spec fn replace_all_ne(s: Seq<char>, pat: Seq<char>, rep: Seq<char>) -> Seq<char>
    decreases s.len(),
{
    if pat.len() > 0 && starts_with_spec(s, pat) {
        rep + replace_all_ne(s.skip(pat.len() as int), pat, rep)
    } else if s.len() == 0 {
        Seq::<char>::empty()
    } else {
        seq![s[0]] + replace_all_ne(s.drop_first(), pat, rep)
    }
}

/// Replacement with an empty pattern: `rep` is inserted at every character
/// boundary, including both ends.
pub open spec fn replace_all_empty(s: Seq<char>, rep: Seq<char>) -> Seq<char>
    decreases s.len(),
{
    if s.len() == 0 {
        rep
    } else {
        rep + seq![s[0]] + replace_all_empty(s.drop_first(), rep)
    }
}

/// What `str::replace` produces.
pub open spec fn replace_all(s: Seq<char>, pat: Seq<char>, rep: Seq<char>) -> Seq<char> {
    if pat.len() == 0 {
        replace_all_empty(s, rep)
    } else {
        replace_all_ne(s, pat, rep)
    }
}

proof fn lemma_replace_empty_push(s: Seq<char>, rep: Seq<char>, c: char)
    ensures
        replace_all_empty(s.push(c), rep) == replace_all_empty(s, rep) + seq![c] + rep,
    decreases s.len(),
{
    if s.len() == 0 {
        assert(s.push(c)[0] == c);
        assert(s.push(c).drop_first() =~= Seq::<char>::empty());
        assert(replace_all_empty(Seq::<char>::empty(), rep) == rep);
        assert(replace_all_empty(s.push(c), rep) =~= replace_all_empty(s, rep) + seq![c] + rep);
    } else {
        lemma_replace_empty_push(s.drop_first(), rep, c);
        assert(s.push(c)[0] == s[0]);
        assert(s.push(c).drop_first() =~= s.drop_first().push(c));
        assert(replace_all_empty(s.push(c), rep) =~= replace_all_empty(s, rep) + seq![c] + rep);
    }
}

/// Does `pat` occur in `s` at offset `at`?
pub fn match_at(s: &Vec<char>, pat: &Vec<char>, at: usize) -> (r: bool)
    requires
        at <= s.len(),
    ensures
        r == starts_with_spec(s@.skip(at as int), pat@),
{
    if pat.len() > s.len() - at {
        return false;
    }
    let mut i: usize = 0;
    while i < pat.len()
        invariant
            at + pat.len() <= s.len(),
            i <= pat.len(),
            forall|j: int| 0 <= j < i ==> s@[at + j] == pat@[j],
        decreases pat.len() - i,
    {
        if s[at + i] != pat[i] {
            assert(s@.skip(at as int)[i as int] != pat@[i as int]);
            return false;
        }
        i = i + 1;
    }
    assert(s@.skip(at as int).take(pat@.len() as int) =~= pat@);
    true
}

/// Replaces every occurrence of `pat` in `s` by `rep`, as `str::replace`
/// does.
pub fn replace_chars(s: &Vec<char>, pat: &Vec<char>, rep: &Vec<char>) -> (r: Vec<char>)
    ensures
        r@ == replace_all(s@, pat@, rep@),
{
    let mut out: Vec<char> = Vec::new();
    if pat.len() == 0 {
        extend_chars(&mut out, rep);
        let mut i: usize = 0;
        while i < s.len()
            invariant
                i <= s.len(),
                out@ == replace_all_empty(s@.take(i as int), rep@),
            decreases s.len() - i,
        {
            proof {
                lemma_replace_empty_push(s@.take(i as int), rep@, s@[i as int]);
                assert(s@.take(i as int).push(s@[i as int]) =~= s@.take(i as int + 1));
            }
            out.push(s[i]);
            extend_chars(&mut out, rep);
            i = i + 1;
            assert(out@ =~= replace_all_empty(s@.take(i as int - 1), rep@) + seq![s@[i - 1]]
                + rep@);
        }
        assert(s@.take(s@.len() as int) =~= s@);
        return out;
    }
    let mut i: usize = 0;
    assert(s@.skip(0) =~= s@);
    while i < s.len()
        invariant
            pat.len() > 0,
            i <= s.len(),
            replace_all_ne(s@, pat@, rep@) == out@ + replace_all_ne(
                s@.skip(i as int),
                pat@,
                rep@,
            ),
        decreases s.len() - i,
    {
        let ghost rest = s@.skip(i as int);
        if match_at(s, pat, i) {
            extend_chars(&mut out, rep);
            assert(rest.skip(pat@.len() as int) =~= s@.skip(i as int + pat@.len() as int));
            i = i + pat.len();
        } else {
            assert(rest[0] == s@[i as int]);
            assert(rest.drop_first() =~= s@.skip(i as int + 1));
            let ghost out0 = out@;
            out.push(s[i]);
            i = i + 1;
            assert(out@ + replace_all_ne(s@.skip(i as int), pat@, rep@) =~= out0 + (seq![
                rest[0],
            ] + replace_all_ne(rest.drop_first(), pat@, rep@)));
        }
    }
    assert(s@.skip(s@.len() as int) =~= Seq::<char>::empty());
    assert(out@ + Seq::<char>::empty() =~= out@);
    out
}

} // verus!
