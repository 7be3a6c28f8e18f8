//! The path resolver: normalizes a relative stylesheet import against its
//! importing file's directory and rewrites configured alias prefixes, so
//! that both sides of the cross-reference key their symbol tables by one
//! canonical, forward-slash-separated path.
use crate::config::AliasEntry;
use crate::config::AliasEntryV;
use crate::text::chars_equal;
use crate::text::chars_to_string;
use crate::text::extend_chars;
use crate::text::replace_all;
use crate::text::replace_chars;
use crate::text::split_chars_on;
use crate::text::split_on_spec;
use crate::text::str_to_chars;
use crate::text::subvec;
use crate::text::views_of_lines;
use vstd::prelude::*;

verus! {

/// The views of a sequence of alias rules.
pub open spec fn aliases_of(s: Seq<AliasEntry>) -> Seq<AliasEntryV> {
    s.map_values(|e: AliasEntry| e@)
}

/// A string with every `*` wildcard marker removed.
pub open spec fn strip_stars(s: Seq<char>) -> Seq<char> {
    replace_all(s, "*"@, Seq::<char>::empty())
}

/// One alias rule applied to `s`: the star-stripped pattern is replaced by
/// the star-stripped target wherever it occurs.
pub open spec fn apply_alias(s: Seq<char>, pattern: Seq<char>, target: Seq<char>) -> Seq<char> {
    replace_all(s, strip_stars(pattern), strip_stars(target))
}

/// The alias rules applied to `s` one after the other, in table order;
/// rules with no candidate replacement are skipped.
pub open spec fn apply_aliases_spec(s: Seq<char>, aliases: Seq<AliasEntryV>) -> Seq<char>
    decreases aliases.len(),
{
    if aliases.len() == 0 {
        s
    } else {
        let e = aliases[0];
        let s1 = if e.targets.len() == 0 {
            s
        } else {
            apply_alias(s, e.pattern, e.targets[0])
        };
        apply_aliases_spec(s1, aliases.drop_first())
    }
}

/// Rewrites every alias prefix occurring in `s` to its first candidate
/// replacement, one rule after the other in table order.
pub fn replace_aliases(s: &mut String, aliases: &Vec<AliasEntry>)
    ensures
        final(s)@ == apply_aliases_spec(old(s)@, aliases_of(aliases@)),
{
    let star = str_to_chars("*");
    let none: Vec<char> = Vec::new();
    let mut cur = str_to_chars(s.as_str());
    let mut i: usize = 0;
    assert(aliases_of(aliases@).skip(0) =~= aliases_of(aliases@));
    while i < aliases.len()
        invariant
            i <= aliases.len(),
            star@ == "*"@,
            none@ == Seq::<char>::empty(),
            apply_aliases_spec(old(s)@, aliases_of(aliases@)) == apply_aliases_spec(
                cur@,
                aliases_of(aliases@).skip(i as int),
            ),
        decreases aliases.len() - i,
    {
        let ghost rest = aliases_of(aliases@).skip(i as int);
        assert(rest[0] == aliases_of(aliases@)[i as int]);
        assert(rest.drop_first() =~= aliases_of(aliases@).skip(i as int + 1));
        let entry = &aliases[i];
        if entry.targets.len() > 0 {
            let patv = str_to_chars(entry.pattern.as_str());
            let tgtv = str_to_chars(entry.targets[0].as_str());
            let pat_stripped = replace_chars(&patv, &star, &none);
            let tgt_stripped = replace_chars(&tgtv, &star, &none);
            cur = replace_chars(&cur, &pat_stripped, &tgt_stripped);
            assert(entry@.targets[0] == entry.targets@.map_values(|t: String| t@)[0]);
        }
        i = i + 1;
    }
    assert(aliases_of(aliases@).skip(aliases@.len() as int) =~= Seq::<AliasEntryV>::empty());
    *s = chars_to_string(&cur);
}

// ---------------------------------------------------------------------------
// Relative-import normalization.
// ---------------------------------------------------------------------------

pub open spec fn parent_marker() -> Seq<char> {
    ".."@
}

pub open spec fn current_marker() -> Seq<char> {
    "."@
}

/// Walks the declared path's segments over the importer's directory stack:
/// a parent segment pops the stack (a pop past an empty stack is a guarded
/// no-op), a current-directory or empty segment is a no-op, and any other
/// segment is pushed.
pub open spec fn collapse_segments(stack: Seq<Seq<char>>, segs: Seq<Seq<char>>) -> Seq<Seq<char>>
    decreases segs.len(),
{
    if segs.len() == 0 {
        stack
    } else {
        let seg = segs[0];
        let st = if seg == parent_marker() {
            if stack.len() > 0 {
                stack.drop_last()
            } else {
                stack
            }
        } else if seg == current_marker() || seg.len() == 0 {
            stack
        } else {
            stack.push(seg)
        };
        collapse_segments(st, segs.drop_first())
    }
}

/// The segments joined with a forward-slash separator.
pub open spec fn join_segments(segs: Seq<Seq<char>>) -> Seq<char>
    decreases segs.len(),
{
    if segs.len() == 0 {
        Seq::<char>::empty()
    } else if segs.len() == 1 {
        segs[0]
    } else {
        join_segments(segs.drop_last()) + seq!['/'] + segs.last()
    }
}

/// A relative path collapsed against its importer's directory: the
/// importer's path minus its final segment is the starting stack, and the
/// destination's segments are walked over it.
pub open spec fn normalize_spec(requester: Seq<char>, dest: Seq<char>) -> Seq<char> {
    let rsegs = split_on_spec(requester, '/');
    join_segments(collapse_segments(rsegs.take(rsegs.len() - 1), split_on_spec(dest, '/')))
}

/// What `process_relative_import` leaves in the destination: paths that do
/// not start with a relative marker, and paths whose importer is empty, are
/// returned unchanged; the rest are collapsed against the importer's
/// directory, and every backslash separator in the collapsed result is
/// normalized to a forward slash, whatever the platform wrote.
pub open spec fn resolve_spec(requester: Seq<char>, dest: Seq<char>) -> Seq<char> {
    if dest.len() == 0 || dest[0] != '.' || requester.len() == 0 {
        dest
    } else {
        replace_all(normalize_spec(requester, dest), "\\"@, "/"@)
    }
}

/// Collapses the destination path against the requester's directory,
/// following standard filesystem path semantics over `/`-separated
/// segments.
pub fn normalize_path(requester: &Vec<char>, destination: &Vec<char>) -> (r: Vec<char>)
    ensures
        r@ == normalize_spec(requester@, destination@),
{
    let mut stack = split_chars_on(requester, '/');
    let ghost rsegs = views_of_lines(stack@);
    proof {
        crate::text::lemma_split_on_len(requester@, '/');
    }
    stack.pop();
    assert(views_of_lines(stack@) =~= rsegs.take(rsegs.len() - 1));
    let segs = split_chars_on(destination, '/');
    let ghost dsegs = views_of_lines(segs@);
    let dotdot = str_to_chars("..");
    let dot = str_to_chars(".");
    let mut i: usize = 0;
    assert(dsegs.skip(0) =~= dsegs);
    while i < segs.len()
        invariant
            i <= segs.len(),
            dotdot@ == ".."@,
            dot@ == "."@,
            dsegs == views_of_lines(segs@),
            collapse_segments(rsegs.take(rsegs.len() - 1), dsegs) == collapse_segments(
                views_of_lines(stack@),
                dsegs.skip(i as int),
            ),
        decreases segs.len() - i,
    {
        let ghost rest = dsegs.skip(i as int);
        assert(rest[0] == dsegs[i as int]);
        assert(rest.drop_first() =~= dsegs.skip(i as int + 1));
        let seg = &segs[i];
        if chars_equal(seg, &dotdot) {
            if stack.len() > 0 {
                let ghost st0 = views_of_lines(stack@);
                stack.pop();
                assert(views_of_lines(stack@) =~= st0.drop_last());
            }
        } else if chars_equal(seg, &dot) || seg.len() == 0 {
        } else {
            let ghost st0 = views_of_lines(stack@);
            let segc = subvec(seg, 0, seg.len());
            assert(segc@ =~= seg@);
            stack.push(segc);
            assert(views_of_lines(stack@) =~= st0.push(dsegs[i as int]));
        }
        i = i + 1;
    }
    assert(dsegs.skip(dsegs.len() as int) =~= Seq::<Seq<char>>::empty());
    let ghost collapsed = views_of_lines(stack@);
    let mut out: Vec<char> = Vec::new();
    if stack.len() == 0 {
        assert(out@ =~= join_segments(collapsed));
        return out;
    }
    let first = subvec(&stack[0], 0, stack[0].len());
    extend_chars(&mut out, &first);
    assert(collapsed.take(1) =~= seq![collapsed[0]]);
    assert(out@ == join_segments(collapsed.take(1)));
    let mut j: usize = 1;
    while j < stack.len()
        invariant
            1 <= j <= stack.len(),
            collapsed == views_of_lines(stack@),
            out@ == join_segments(collapsed.take(j as int)),
        decreases stack.len() - j,
    {
        out.push('/');
        let segc = subvec(&stack[j], 0, stack[j].len());
        extend_chars(&mut out, &segc);
        j = j + 1;
        proof {
            let cur = collapsed.take(j as int);
            assert(cur.drop_last() =~= collapsed.take(j as int - 1));
            assert(cur.last() == collapsed[j as int - 1]);
            assert(out@ =~= join_segments(cur.drop_last()) + seq!['/'] + cur.last());
        }
    }
    assert(collapsed.take(collapsed.len() as int) =~= collapsed);
    out
}

/// Normalizes a relative stylesheet import in place: when the declared path
/// starts with the relative marker `.` and the importer path is non-empty,
/// the declared path is collapsed against the importer's directory;
/// otherwise it is left unchanged.
pub fn process_relative_import(requester_path: &str, destination_path: &mut String)
    ensures
        final(destination_path)@ == resolve_spec(requester_path@, old(destination_path)@),
{
    let dv = str_to_chars(destination_path.as_str());
    if dv.len() == 0 {
        return ;
    }
    if dv[0] != '.' {
        return ;
    }
    let rv = str_to_chars(requester_path);
    if rv.len() == 0 {
        return ;
    }
    let normalized = normalize_path(&rv, &dv);
    let pat = str_to_chars("\\");
    let rep = str_to_chars("/");
    let slashed = replace_chars(&normalized, &pat, &rep);
    *destination_path = chars_to_string(&slashed);
}

/// Rewrites every backslash separator to a forward slash.
pub fn normalize_separators(s: &str) -> (r: String)
    ensures
        r@ == replace_all(s@, "\\"@, "/"@),
{
    let sv = str_to_chars(s);
    let pat = str_to_chars("\\");
    let rep = str_to_chars("/");
    let out = replace_chars(&sv, &pat, &rep);
    chars_to_string(&out)
}

/// A directory name the file walk must prune: hidden (starting with a
/// dot) or listed in the caller-supplied exclusion list.
pub open spec fn skip_directory_spec(name: Seq<char>, exclude: Seq<Seq<char>>) -> bool {
    (name.len() > 0 && name[0] == '.') || exists|i: int|
        0 <= i < exclude.len() && exclude[i] == name
}

/// Decides `skip_directory_spec`.
pub fn should_skip_directory(name: &str, exclude: &Vec<String>) -> (r: bool)
    ensures
        r == skip_directory_spec(name@, exclude@.map_values(|s: String| s@)),
{
    let ghost ev = exclude@.map_values(|s: String| s@);
    let nv = str_to_chars(name);
    if nv.len() > 0 && nv[0] == '.' {
        return true;
    }
    let mut i: usize = 0;
    while i < exclude.len()
        invariant
            i <= exclude.len(),
            nv@ == name@,
            ev == exclude@.map_values(|s: String| s@),
            forall|j: int| 0 <= j < i ==> ev[j] != name@,
        decreases exclude.len() - i,
    {
        let entry = str_to_chars(exclude[i].as_str());
        if chars_equal(&entry, &nv) {
            assert(ev[i as int] == name@);
            return true;
        }
        i = i + 1;
    }
    false
}

} // verus!
