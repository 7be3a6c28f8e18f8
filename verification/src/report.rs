//! Diagnostic reporting: orders each file's diagnostics by source position
//! and renders them in the two output modes — a human-readable mode with one
//! header line per file, indented `line:column` entries and a trailing blank
//! line, and a machine-readable mode with one line per diagnostic.
use crate::css_parser::ClassName;
use crate::css_parser::SymbolV;
use crate::css_parser::syms_of;
use crate::linter::DefinedEntry;
use crate::linter::DefinedEntryV;
use crate::linter::UsedEntry;
use crate::linter::UsedEntryV;
use crate::linter::count_diagnostics;
use crate::linter::count_files;
use crate::linter::dents_of;
use crate::linter::total_defined;
use crate::linter::total_used;
use crate::linter::uents_of;
use crate::text::cap_usize;
use crate::text::chars_to_string;
use crate::text::extend_chars;
use crate::text::str_to_chars;
use crate::tsx_parser::UsedClassName;
use crate::tsx_parser::UsedV;
use crate::tsx_parser::used_of;
use vstd::prelude::*;

verus! {

// ---------------------------------------------------------------------------
// Decimal rendering of numbers.
// ---------------------------------------------------------------------------

/// The decimal digit character for `d`.
pub open spec fn digit_char(d: int) -> char {
    if d == 0 {
        '0'
    } else if d == 1 {
        '1'
    } else if d == 2 {
        '2'
    } else if d == 3 {
        '3'
    } else if d == 4 {
        '4'
    } else if d == 5 {
        '5'
    } else if d == 6 {
        '6'
    } else if d == 7 {
        '7'
    } else if d == 8 {
        '8'
    } else {
        '9'
    }
}

/// The decimal representation of a non-negative number, without leading
/// zeros (and `0` itself as a single digit).
pub open spec fn dec_rep(n: int) -> Seq<char>
    decreases n,
{
    if n < 10 {
        seq![digit_char(n)]
    } else {
        dec_rep(n / 10).push(digit_char(n % 10))
    }
}

fn digit_char_exec(d: usize) -> (c: char)
    requires
        d < 10,
    ensures
        c == digit_char(d as int),
{
    if d == 0 {
        '0'
    } else if d == 1 {
        '1'
    } else if d == 2 {
        '2'
    } else if d == 3 {
        '3'
    } else if d == 4 {
        '4'
    } else if d == 5 {
        '5'
    } else if d == 6 {
        '6'
    } else if d == 7 {
        '7'
    } else if d == 8 {
        '8'
    } else {
        '9'
    }
}

/// The decimal digits of `n`.
pub fn usize_to_chars(n: usize) -> (r: Vec<char>)
    ensures
        r@ == dec_rep(n as int),
{
    let mut digits: Vec<char> = Vec::new();
    let mut m: usize = n;
    loop
        invariant
            dec_rep(n as int) == dec_rep(m as int) + digits@,
        decreases m,
    {
        let d = m % 10;
        let ghost digits0 = digits@;
        digits.insert(0, digit_char_exec(d));
        assert(digits@ =~= seq![digit_char(d as int)] + digits0);
        let m2 = m / 10;
        if m2 == 0 {
            assert(dec_rep(m as int) == seq![digit_char(d as int)]);
            assert(dec_rep(m as int) + digits0 =~= digits@);
            return digits;
        }
        assert(dec_rep(m as int) == dec_rep(m2 as int).push(digit_char(d as int)));
        assert(dec_rep(m2 as int).push(digit_char(d as int)) + digits0 =~= dec_rep(m2 as int) + (
        seq![digit_char(d as int)] + digits0));
        m = m2;
    }
}

// ---------------------------------------------------------------------------
// Ordering diagnostics by source position.
// ---------------------------------------------------------------------------

/// Position order on defined symbols: by line, then by column.
pub open spec fn pos_le_defined(a: SymbolV, b: SymbolV) -> bool {
    a.line < b.line || (a.line == b.line && a.col <= b.col)
}

/// Position order on used symbols: by line, then by column.
pub open spec fn pos_le_used(a: UsedV, b: UsedV) -> bool {
    a.line < b.line || (a.line == b.line && a.col <= b.col)
}

/// `x` inserted before the first element it precedes.
pub open spec fn insert_sorted_defined(s: Seq<SymbolV>, x: SymbolV) -> Seq<SymbolV>
    decreases s.len(),
{
    if s.len() == 0 {
        seq![x]
    } else if pos_le_defined(s[0], x) {
        seq![s[0]] + insert_sorted_defined(s.drop_first(), x)
    } else {
        seq![x] + s
    }
}

/// The symbols in position order (insertion sort; stable for equal
/// positions).
pub open spec fn sort_defined(s: Seq<SymbolV>) -> Seq<SymbolV>
    decreases s.len(),
{
    if s.len() == 0 {
        Seq::<SymbolV>::empty()
    } else {
        insert_sorted_defined(sort_defined(s.drop_last()), s.last())
    }
}

pub open spec fn insert_sorted_used(s: Seq<UsedV>, x: UsedV) -> Seq<UsedV>
    decreases s.len(),
{
    if s.len() == 0 {
        seq![x]
    } else if pos_le_used(s[0], x) {
        seq![s[0]] + insert_sorted_used(s.drop_first(), x)
    } else {
        seq![x] + s
    }
}

/// The used symbols in position order.
pub open spec fn sort_used(s: Seq<UsedV>) -> Seq<UsedV>
    decreases s.len(),
{
    if s.len() == 0 {
        Seq::<UsedV>::empty()
    } else {
        insert_sorted_used(sort_used(s.drop_last()), s.last())
    }
}

/// Every pair of the sequence is in position order.
pub open spec fn sorted_by_pos_defined(s: Seq<SymbolV>) -> bool {
    forall|i: int, j: int| 0 <= i < j < s.len() ==> pos_le_defined(s[i], s[j])
}

pub open spec fn sorted_by_pos_used(s: Seq<UsedV>) -> bool {
    forall|i: int, j: int| 0 <= i < j < s.len() ==> pos_le_used(s[i], s[j])
}

proof fn lemma_insert_sorted_defined(s: Seq<SymbolV>, x: SymbolV)
    requires
        sorted_by_pos_defined(s),
    ensures
        sorted_by_pos_defined(insert_sorted_defined(s, x)),
        insert_sorted_defined(s, x).to_multiset() == s.to_multiset().insert(x),
        forall|i: int|
            0 <= i < insert_sorted_defined(s, x).len() ==> (#[trigger] insert_sorted_defined(
                s,
                x,
            )[i] == x || exists|j: int| 0 <= j < s.len() && insert_sorted_defined(s, x)[i] == s[j]),
    decreases s.len(),
{
    broadcast use vstd::seq_lib::group_to_multiset_ensures;

    let t = insert_sorted_defined(s, x);
    if s.len() == 0 {
        assert(t =~= seq![x]);
        assert(seq![x].to_multiset() =~= s.to_multiset().insert(x)) by {
            assert(seq![x] =~= Seq::<SymbolV>::empty().push(x));
            assert(s.to_multiset() =~= Seq::<SymbolV>::empty().to_multiset());
        }
    } else if pos_le_defined(s[0], x) {
        assert(sorted_by_pos_defined(s.drop_first())) by {
            assert(forall|i: int, j: int|
                0 <= i < j < s.drop_first().len() ==> s.drop_first()[i] == s[i + 1]
                    && s.drop_first()[j] == s[j + 1]);
        }
        lemma_insert_sorted_defined(s.drop_first(), x);
        let rec = insert_sorted_defined(s.drop_first(), x);
        assert(t =~= seq![s[0]] + rec);
        assert forall|i: int, j: int| 0 <= i < j < t.len() implies pos_le_defined(
            t[i],
            t[j],
        ) by {
            if i == 0 {
                assert(t[0] == s[0]);
                assert(t[j] == rec[j - 1]);
                if rec[j - 1] == x {
                } else {
                    let jj = choose|jj: int|
                        0 <= jj < s.drop_first().len() && rec[j - 1] == s.drop_first()[jj];
                    assert(pos_le_defined(s[0], s[jj + 1]));
                }
            } else {
                assert(t[i] == rec[i - 1] && t[j] == rec[j - 1]);
            }
        }
        assert(t.to_multiset() =~= s.to_multiset().insert(x)) by {
            assert(t =~= (seq![s[0]] + rec));
            vstd::seq_lib::lemma_multiset_commutative(seq![s[0]], rec);
            vstd::seq_lib::lemma_multiset_commutative(seq![s[0]], s.drop_first());
            assert(s =~= seq![s[0]] + s.drop_first());
        }
        assert forall|i: int| 0 <= i < t.len() implies (t[i] == x || exists|j: int|
            0 <= j < s.len() && t[i] == s[j]) by {
            if i == 0 {
                assert(t[0] == s[0]);
            } else {
                if rec[i - 1] == x {
                } else {
                    let jj = choose|jj: int|
                        0 <= jj < s.drop_first().len() && rec[i - 1] == s.drop_first()[jj];
                    assert(t[i] == s[jj + 1]);
                }
            }
        }
    } else {
        assert(t =~= seq![x] + s);
        assert forall|i: int, j: int| 0 <= i < j < t.len() implies pos_le_defined(
            t[i],
            t[j],
        ) by {
            if i == 0 {
                assert(t[0] == x);
                assert(t[j] == s[j - 1]);
                if j - 1 > 0 {
                    assert(pos_le_defined(s[0], s[j - 1]));
                }
            } else {
                assert(t[i] == s[i - 1] && t[j] == s[j - 1]);
            }
        }
        assert(t.to_multiset() =~= s.to_multiset().insert(x)) by {
            vstd::seq_lib::lemma_multiset_commutative(seq![x], s);
            assert(seq![x].to_multiset() =~= Seq::<SymbolV>::empty().to_multiset().insert(x));
        }
    }
}

/// Sorting orders the symbols by position and keeps exactly the same
/// symbols, with multiplicity.
pub proof fn lemma_sort_defined_props(s: Seq<SymbolV>)
    ensures
        sorted_by_pos_defined(sort_defined(s)),
        sort_defined(s).to_multiset() == s.to_multiset(),
    decreases s.len(),
{
    broadcast use vstd::seq_lib::group_to_multiset_ensures;

    if s.len() > 0 {
        lemma_sort_defined_props(s.drop_last());
        lemma_insert_sorted_defined(sort_defined(s.drop_last()), s.last());
        assert(s.to_multiset() =~= s.drop_last().to_multiset().insert(s.last())) by {
            assert(s =~= s.drop_last().push(s.last()));
        }
    }
}

proof fn lemma_insert_sorted_used(s: Seq<UsedV>, x: UsedV)
    requires
        sorted_by_pos_used(s),
    ensures
        sorted_by_pos_used(insert_sorted_used(s, x)),
        insert_sorted_used(s, x).to_multiset() == s.to_multiset().insert(x),
        forall|i: int|
            0 <= i < insert_sorted_used(s, x).len() ==> (#[trigger] insert_sorted_used(s, x)[i]
                == x || exists|j: int| 0 <= j < s.len() && insert_sorted_used(s, x)[i] == s[j]),
    decreases s.len(),
{
    broadcast use vstd::seq_lib::group_to_multiset_ensures;

    let t = insert_sorted_used(s, x);
    if s.len() == 0 {
        assert(t =~= seq![x]);
        assert(seq![x].to_multiset() =~= s.to_multiset().insert(x)) by {
            assert(seq![x] =~= Seq::<UsedV>::empty().push(x));
            assert(s.to_multiset() =~= Seq::<UsedV>::empty().to_multiset());
        }
    } else if pos_le_used(s[0], x) {
        assert(sorted_by_pos_used(s.drop_first())) by {
            assert(forall|i: int, j: int|
                0 <= i < j < s.drop_first().len() ==> s.drop_first()[i] == s[i + 1]
                    && s.drop_first()[j] == s[j + 1]);
        }
        lemma_insert_sorted_used(s.drop_first(), x);
        let rec = insert_sorted_used(s.drop_first(), x);
        assert(t =~= seq![s[0]] + rec);
        assert forall|i: int, j: int| 0 <= i < j < t.len() implies pos_le_used(t[i], t[j]) by {
            if i == 0 {
                assert(t[0] == s[0]);
                assert(t[j] == rec[j - 1]);
                if rec[j - 1] == x {
                } else {
                    let jj = choose|jj: int|
                        0 <= jj < s.drop_first().len() && rec[j - 1] == s.drop_first()[jj];
                    assert(pos_le_used(s[0], s[jj + 1]));
                }
            } else {
                assert(t[i] == rec[i - 1] && t[j] == rec[j - 1]);
            }
        }
        assert(t.to_multiset() =~= s.to_multiset().insert(x)) by {
            vstd::seq_lib::lemma_multiset_commutative(seq![s[0]], rec);
            vstd::seq_lib::lemma_multiset_commutative(seq![s[0]], s.drop_first());
            assert(s =~= seq![s[0]] + s.drop_first());
        }
        assert forall|i: int| 0 <= i < t.len() implies (t[i] == x || exists|j: int|
            0 <= j < s.len() && t[i] == s[j]) by {
            if i == 0 {
                assert(t[0] == s[0]);
            } else {
                if rec[i - 1] == x {
                } else {
                    let jj = choose|jj: int|
                        0 <= jj < s.drop_first().len() && rec[i - 1] == s.drop_first()[jj];
                    assert(t[i] == s[jj + 1]);
                }
            }
        }
    } else {
        assert(t =~= seq![x] + s);
        assert forall|i: int, j: int| 0 <= i < j < t.len() implies pos_le_used(t[i], t[j]) by {
            if i == 0 {
                assert(t[0] == x);
                assert(t[j] == s[j - 1]);
                if j - 1 > 0 {
                    assert(pos_le_used(s[0], s[j - 1]));
                }
            } else {
                assert(t[i] == s[i - 1] && t[j] == s[j - 1]);
            }
        }
        assert(t.to_multiset() =~= s.to_multiset().insert(x)) by {
            vstd::seq_lib::lemma_multiset_commutative(seq![x], s);
            assert(seq![x].to_multiset() =~= Seq::<UsedV>::empty().to_multiset().insert(x));
        }
    }
}

/// Sorting orders the used symbols by position and keeps exactly the same
/// symbols, with multiplicity.
pub proof fn lemma_sort_used_props(s: Seq<UsedV>)
    ensures
        sorted_by_pos_used(sort_used(s)),
        sort_used(s).to_multiset() == s.to_multiset(),
    decreases s.len(),
{
    broadcast use vstd::seq_lib::group_to_multiset_ensures;

    if s.len() > 0 {
        lemma_sort_used_props(s.drop_last());
        lemma_insert_sorted_used(sort_used(s.drop_last()), s.last());
        assert(s.to_multiset() =~= s.drop_last().to_multiset().insert(s.last())) by {
            assert(s =~= s.drop_last().push(s.last()));
        }
    }
}

/// Inserting at the first position whose element does not precede `x`
/// splits the sequence there.
proof fn lemma_insert_at_defined(s: Seq<SymbolV>, x: SymbolV, p: int)
    requires
        0 <= p <= s.len(),
        forall|l: int| 0 <= l < p ==> pos_le_defined(s[l], x),
        p < s.len() ==> !pos_le_defined(s[p], x),
    ensures
        insert_sorted_defined(s, x) == s.take(p) + seq![x] + s.skip(p),
    decreases s.len(),
{
    if s.len() == 0 {
        assert(insert_sorted_defined(s, x) =~= s.take(p) + seq![x] + s.skip(p));
    } else if p == 0 {
        assert(insert_sorted_defined(s, x) == seq![x] + s);
        assert(seq![x] + s =~= s.take(0) + seq![x] + s.skip(0));
    } else {
        assert(pos_le_defined(s[0], x));
        lemma_insert_at_defined(s.drop_first(), x, p - 1);
        assert(s.drop_first().take(p - 1) =~= s.take(p).drop_first());
        assert(s.drop_first().skip(p - 1) =~= s.skip(p));
        assert(seq![s[0]] + (s.drop_first().take(p - 1) + seq![x] + s.drop_first().skip(p - 1))
            =~= s.take(p) + seq![x] + s.skip(p));
    }
}

proof fn lemma_insert_at_used(s: Seq<UsedV>, x: UsedV, p: int)
    requires
        0 <= p <= s.len(),
        forall|l: int| 0 <= l < p ==> pos_le_used(s[l], x),
        p < s.len() ==> !pos_le_used(s[p], x),
    ensures
        insert_sorted_used(s, x) == s.take(p) + seq![x] + s.skip(p),
    decreases s.len(),
{
    if s.len() == 0 {
        assert(insert_sorted_used(s, x) =~= s.take(p) + seq![x] + s.skip(p));
    } else if p == 0 {
        assert(insert_sorted_used(s, x) == seq![x] + s);
        assert(seq![x] + s =~= s.take(0) + seq![x] + s.skip(0));
    } else {
        assert(pos_le_used(s[0], x));
        lemma_insert_at_used(s.drop_first(), x, p - 1);
        assert(s.drop_first().take(p - 1) =~= s.take(p).drop_first());
        assert(s.drop_first().skip(p - 1) =~= s.skip(p));
        assert(seq![s[0]] + (s.drop_first().take(p - 1) + seq![x] + s.drop_first().skip(p - 1))
            =~= s.take(p) + seq![x] + s.skip(p));
    }
}

/// Sorts defined symbols by (line, column).
pub fn sort_defined_classes(v: &Vec<ClassName>) -> (r: Vec<ClassName>)
    ensures
        syms_of(r@) == sort_defined(syms_of(v@)),
{
    let mut out: Vec<ClassName> = Vec::new();
    let mut i: usize = 0;
    assert(syms_of(v@).take(0) =~= Seq::<SymbolV>::empty());
    while i < v.len()
        invariant
            i <= v.len(),
            syms_of(out@) == sort_defined(syms_of(v@).take(i as int)),
        decreases v.len() - i,
    {
        let ghost sv = syms_of(v@);
        proof {
            assert(sv.take(i as int + 1).drop_last() =~= sv.take(i as int));
            assert(sv.take(i as int + 1).last() == sv[i as int]);
        }
        let x = v[i].duplicate();
        let ghost xv = x@;
        let ghost cur = syms_of(out@);
        let n = out.len();
        let mut pos: usize = n;
        let mut k: usize = 0;
        while k < n
            invariant
                k <= n,
                n == out.len(),
                cur == syms_of(out@),
                xv == x@,
                pos <= n,
                pos == n ==> forall|l: int| 0 <= l < k ==> pos_le_defined(cur[l], xv),
                pos < n ==> pos < k && !pos_le_defined(cur[pos as int], xv) && forall|l: int|
                    0 <= l < pos ==> pos_le_defined(cur[l], xv),
            decreases n - k,
        {
            if pos == n {
                let cls = &out[k];
                assert(cls@ == cur[k as int]);
                let le = cls.line_index < x.line_index || (cls.line_index == x.line_index
                && cls.column_index <= x.column_index);
                assert(le == pos_le_defined(cur[k as int], xv));
                if !le {
                    pos = k;
                }
            }
            k = k + 1;
        }
        proof {
            lemma_insert_at_defined(cur, xv, pos as int);
        }
        if pos == n {
            out.push(x);
            assert(syms_of(out@) =~= cur.take(pos as int) + seq![xv] + cur.skip(pos as int));
        } else {
            out.insert(pos, x);
            assert(syms_of(out@) =~= cur.take(pos as int) + seq![xv] + cur.skip(pos as int));
        }
        i = i + 1;
    }
    assert(syms_of(v@).take(v@.len() as int) =~= syms_of(v@));
    out
}

/// Sorts used symbols by (line, column).
pub fn sort_used_classes(v: &Vec<UsedClassName>) -> (r: Vec<UsedClassName>)
    ensures
        used_of(r@) == sort_used(used_of(v@)),
{
    let mut out: Vec<UsedClassName> = Vec::new();
    let mut i: usize = 0;
    assert(used_of(v@).take(0) =~= Seq::<UsedV>::empty());
    while i < v.len()
        invariant
            i <= v.len(),
            used_of(out@) == sort_used(used_of(v@).take(i as int)),
        decreases v.len() - i,
    {
        let ghost sv = used_of(v@);
        proof {
            assert(sv.take(i as int + 1).drop_last() =~= sv.take(i as int));
            assert(sv.take(i as int + 1).last() == sv[i as int]);
        }
        let x = v[i].duplicate();
        let ghost xv = x@;
        let ghost cur = used_of(out@);
        let n = out.len();
        let mut pos: usize = n;
        let mut k: usize = 0;
        while k < n
            invariant
                k <= n,
                n == out.len(),
                cur == used_of(out@),
                xv == x@,
                pos <= n,
                pos == n ==> forall|l: int| 0 <= l < k ==> pos_le_used(cur[l], xv),
                pos < n ==> pos < k && !pos_le_used(cur[pos as int], xv) && forall|l: int|
                    0 <= l < pos ==> pos_le_used(cur[l], xv),
            decreases n - k,
        {
            if pos == n {
                let cls = &out[k];
                assert(cls@ == cur[k as int]);
                let le = cls.line < x.line || (cls.line == x.line && cls.column <= x.column);
                assert(le == pos_le_used(cur[k as int], xv));
                if !le {
                    pos = k;
                }
            }
            k = k + 1;
        }
        proof {
            lemma_insert_at_used(cur, xv, pos as int);
        }
        if pos == n {
            out.push(x);
            assert(used_of(out@) =~= cur.take(pos as int) + seq![xv] + cur.skip(pos as int));
        } else {
            out.insert(pos, x);
            assert(used_of(out@) =~= cur.take(pos as int) + seq![xv] + cur.skip(pos as int));
        }
        i = i + 1;
    }
    assert(used_of(v@).take(v@.len() as int) =~= used_of(v@));
    out
}

// ---------------------------------------------------------------------------
// Rendering.
// ---------------------------------------------------------------------------

/// The views of a sequence of strings.
pub open spec fn strs_of(s: Seq<String>) -> Seq<Seq<char>> {
    s.map_values(|x: String| x@)
}

/// One machine-readable line for an unused class: positions are printed
/// 1-based, and the name length counts characters.
pub open spec fn minified_unused_line(path: Seq<char>, e: SymbolV) -> Seq<char> {
    path + ":"@ + dec_rep(cap_usize(e.line + 1)) + ":"@ + dec_rep(cap_usize(e.col + 1)) + ":"@
        + dec_rep(e.name.len() as int) + ":\""@ + e.name + "\": Unused class found."@
}

/// One machine-readable line for an undefined class: the line is already
/// 1-based, the column is printed 1-based.
pub open spec fn minified_undefined_line(path: Seq<char>, e: UsedV) -> Seq<char> {
    path + ":"@ + dec_rep(e.line) + ":"@ + dec_rep(cap_usize(e.col + 1)) + ":"@ + dec_rep(
        e.name.len() as int,
    ) + ":\""@ + e.name + "\": Undefined class was used."@
}

/// One human-readable entry line for an unused class, indented under its
/// file's header.
pub open spec fn human_unused_line(e: SymbolV) -> Seq<char> {
    "  "@ + dec_rep(cap_usize(e.line + 1)) + ":"@ + dec_rep(cap_usize(e.col + 1))
        + "  Warn: Unused class `"@ + e.name + "` found."@
}

/// One human-readable entry line for an undefined class, indented under its
/// file's header.
pub open spec fn human_undefined_line(e: UsedV) -> Seq<char> {
    "  "@ + dec_rep(e.line) + ":"@ + dec_rep(cap_usize(e.col + 1))
        + "  Warn: Undefined class `"@ + e.name + "` was used."@
}

pub open spec fn minified_unused_lines(path: Seq<char>, syms: Seq<SymbolV>) -> Seq<Seq<char>> {
    syms.map_values(|e: SymbolV| minified_unused_line(path, e))
}

pub open spec fn minified_undefined_lines(path: Seq<char>, syms: Seq<UsedV>) -> Seq<Seq<char>> {
    syms.map_values(|e: UsedV| minified_undefined_line(path, e))
}

pub open spec fn human_unused_lines(syms: Seq<SymbolV>) -> Seq<Seq<char>> {
    syms.map_values(|e: SymbolV| human_unused_line(e))
}

pub open spec fn human_undefined_lines(syms: Seq<UsedV>) -> Seq<Seq<char>> {
    syms.map_values(|e: UsedV| human_undefined_line(e))
}

/// The machine-readable lines of the whole unused table, each file's
/// diagnostics in position order.
pub open spec fn render_minified_unused_spec(t: Seq<DefinedEntryV>) -> Seq<Seq<char>>
    decreases t.len(),
{
    if t.len() == 0 {
        Seq::<Seq<char>>::empty()
    } else {
        render_minified_unused_spec(t.drop_last()) + minified_unused_lines(
            t.last().path,
            sort_defined(t.last().classes),
        )
    }
}

/// The machine-readable lines of the whole undefined table.
pub open spec fn render_minified_undefined_spec(t: Seq<UsedEntryV>) -> Seq<Seq<char>>
    decreases t.len(),
{
    if t.len() == 0 {
        Seq::<Seq<char>>::empty()
    } else {
        render_minified_undefined_spec(t.drop_last()) + minified_undefined_lines(
            t.last().path,
            sort_used(t.last().classes),
        )
    }
}

/// One human-readable block: the file's path as a header, its diagnostics
/// in position order, and a trailing blank line.
pub open spec fn human_unused_block(e: DefinedEntryV) -> Seq<Seq<char>> {
    seq![e.path] + human_unused_lines(sort_defined(e.classes)) + seq![Seq::<char>::empty()]
}

pub open spec fn human_undefined_block(e: UsedEntryV) -> Seq<Seq<char>> {
    seq![e.path] + human_undefined_lines(sort_used(e.classes)) + seq![Seq::<char>::empty()]
}

pub open spec fn render_human_unused_spec(t: Seq<DefinedEntryV>) -> Seq<Seq<char>>
    decreases t.len(),
{
    if t.len() == 0 {
        Seq::<Seq<char>>::empty()
    } else {
        render_human_unused_spec(t.drop_last()) + human_unused_block(t.last())
    }
}

pub open spec fn render_human_undefined_spec(t: Seq<UsedEntryV>) -> Seq<Seq<char>>
    decreases t.len(),
{
    if t.len() == 0 {
        Seq::<Seq<char>>::empty()
    } else {
        render_human_undefined_spec(t.drop_last()) + human_undefined_block(t.last())
    }
}

/// The closing summary: a success note when nothing was found, else the
/// warning and file counts.
pub open spec fn summary_line(warnings: int, files: int) -> Seq<char> {
    if warnings == 0 {
        "No CSS lint warnings found"@
    } else {
        "Found "@ + dec_rep(warnings) + " warnings in "@ + dec_rep(files) + " files"@
    }
}

/// The whole human-readable report: unused blocks, undefined blocks, then
/// the summary line.
pub open spec fn render_human_spec(
    unused: Seq<DefinedEntryV>,
    undefined: Seq<UsedEntryV>,
) -> Seq<Seq<char>> {
    render_human_unused_spec(unused) + render_human_undefined_spec(undefined) + seq![
        summary_line(
            cap_usize(total_defined(unused) + total_used(undefined)),
            cap_usize(unused.len() + undefined.len() as int),
        ),
    ]
}

/// The whole machine-readable report: one line per diagnostic.
pub open spec fn render_minified_spec(
    unused: Seq<DefinedEntryV>,
    undefined: Seq<UsedEntryV>,
) -> Seq<Seq<char>> {
    render_minified_unused_spec(unused) + render_minified_undefined_spec(undefined)
}

/// `n + 1`, saturating at the largest `usize`.
fn inc_sat(n: usize) -> (r: usize)
    ensures
        r as int == cap_usize(n as int + 1),
{
    if n == usize::MAX {
        n
    } else {
        n + 1
    }
}

fn push_colon(out: &mut Vec<char>)
    ensures
        final(out)@ == old(out)@ + ":"@,
{
    let c = str_to_chars(":");
    extend_chars(out, &c);
}

fn minified_unused_line_exec(path: &String, c: &ClassName) -> (r: Vec<char>)
    ensures
        r@ == minified_unused_line(path@, c@),
{
    let mut out = str_to_chars(path.as_str());
    push_colon(&mut out);
    let line = usize_to_chars(inc_sat(c.line_index));
    extend_chars(&mut out, &line);
    push_colon(&mut out);
    let col = usize_to_chars(inc_sat(c.column_index));
    extend_chars(&mut out, &col);
    push_colon(&mut out);
    let name = str_to_chars(c.class_name.as_str());
    let len = usize_to_chars(name.len());
    extend_chars(&mut out, &len);
    let open = str_to_chars(":\"");
    extend_chars(&mut out, &open);
    extend_chars(&mut out, &name);
    let close = str_to_chars("\": Unused class found.");
    extend_chars(&mut out, &close);
    assert(out@ =~= minified_unused_line(path@, c@));
    out
}

fn minified_undefined_line_exec(path: &String, c: &UsedClassName) -> (r: Vec<char>)
    ensures
        r@ == minified_undefined_line(path@, c@),
{
    let mut out = str_to_chars(path.as_str());
    push_colon(&mut out);
    let line = usize_to_chars(c.line);
    extend_chars(&mut out, &line);
    push_colon(&mut out);
    let col = usize_to_chars(inc_sat(c.column));
    extend_chars(&mut out, &col);
    push_colon(&mut out);
    let name = str_to_chars(c.class_name.as_str());
    let len = usize_to_chars(name.len());
    extend_chars(&mut out, &len);
    let open = str_to_chars(":\"");
    extend_chars(&mut out, &open);
    extend_chars(&mut out, &name);
    let close = str_to_chars("\": Undefined class was used.");
    extend_chars(&mut out, &close);
    assert(out@ =~= minified_undefined_line(path@, c@));
    out
}

fn human_unused_line_exec(c: &ClassName) -> (r: Vec<char>)
    ensures
        r@ == human_unused_line(c@),
{
    let mut out = str_to_chars("  ");
    let line_no = usize_to_chars(inc_sat(c.line_index));
    extend_chars(&mut out, &line_no);
    push_colon(&mut out);
    let col = usize_to_chars(inc_sat(c.column_index));
    extend_chars(&mut out, &col);
    let mid = str_to_chars("  Warn: Unused class `");
    extend_chars(&mut out, &mid);
    let name = str_to_chars(c.class_name.as_str());
    extend_chars(&mut out, &name);
    let close = str_to_chars("` found.");
    extend_chars(&mut out, &close);
    assert(out@ =~= human_unused_line(c@));
    out
}

fn human_undefined_line_exec(c: &UsedClassName) -> (r: Vec<char>)
    ensures
        r@ == human_undefined_line(c@),
{
    let mut out = str_to_chars("  ");
    let line_no = usize_to_chars(c.line);
    extend_chars(&mut out, &line_no);
    push_colon(&mut out);
    let col = usize_to_chars(inc_sat(c.column));
    extend_chars(&mut out, &col);
    let mid = str_to_chars("  Warn: Undefined class `");
    extend_chars(&mut out, &mid);
    let name = str_to_chars(c.class_name.as_str());
    extend_chars(&mut out, &name);
    let close = str_to_chars("` was used.");
    extend_chars(&mut out, &close);
    assert(out@ =~= human_undefined_line(c@));
    out
}

/// Renders the machine-readable report: one line per diagnostic, in the
/// form `path:line:column:name_length:"name": <kind> message`.
pub fn render_minified(unused: &Vec<DefinedEntry>, undefined: &Vec<UsedEntry>) -> (r: Vec<
    String,
>)
    ensures
        strs_of(r@) == render_minified_spec(dents_of(unused@), uents_of(undefined@)),
{
    let ghost d = dents_of(unused@);
    let ghost u = uents_of(undefined@);
    let mut out: Vec<String> = Vec::new();
    let mut i: usize = 0;
    assert(d.take(0) =~= Seq::<DefinedEntryV>::empty());
    while i < unused.len()
        invariant
            i <= unused.len(),
            d == dents_of(unused@),
            strs_of(out@) == render_minified_unused_spec(d.take(i as int)),
        decreases unused.len() - i,
    {
        proof {
            assert(d.take(i as int + 1).drop_last() =~= d.take(i as int));
            assert(d.take(i as int + 1).last() == d[i as int]);
        }
        let entry = &unused[i];
        assert(entry@ == d[i as int]);
        let sorted = sort_defined_classes(&entry.classes);
        let ghost sv = syms_of(sorted@);
        let mut j: usize = 0;
        assert(sv.take(0) =~= Seq::<SymbolV>::empty());
        assert(strs_of(out@) + minified_unused_lines(d[i as int].path, sv.take(0)) =~= strs_of(
            out@,
        ));
        while j < sorted.len()
            invariant
                j <= sorted.len(),
                sv == syms_of(sorted@),
                strs_of(out@) == render_minified_unused_spec(d.take(i as int))
                    + minified_unused_lines(d[i as int].path, sv.take(j as int)),
                i < unused.len(),
                entry == &unused[i as int],
                d == dents_of(unused@),
            decreases sorted.len() - j,
        {
            let line = minified_unused_line_exec(&entry.path, &sorted[j]);
            let ghost out0 = strs_of(out@);
            out.push(chars_to_string(&line));
            proof {
                assert(sv.take(j as int + 1) =~= sv.take(j as int).push(sv[j as int]));
                assert(minified_unused_lines(d[i as int].path, sv.take(j as int + 1))
                    =~= minified_unused_lines(d[i as int].path, sv.take(j as int)).push(
                    minified_unused_line(d[i as int].path, sv[j as int]),
                ));
                assert(strs_of(out@) =~= out0.push(line@));
                assert(out0.push(line@) =~= render_minified_unused_spec(d.take(i as int))
                    + minified_unused_lines(d[i as int].path, sv.take(j as int + 1)));
            }
            j = j + 1;
        }
        proof {
            assert(sv.take(sorted@.len() as int) =~= sv);
        }
        i = i + 1;
    }
    assert(d.take(unused@.len() as int) =~= d);
    let mut k: usize = 0;
    assert(u.take(0) =~= Seq::<UsedEntryV>::empty());
    while k < undefined.len()
        invariant
            k <= undefined.len(),
            d == dents_of(unused@),
            u == uents_of(undefined@),
            strs_of(out@) == render_minified_unused_spec(d) + render_minified_undefined_spec(
                u.take(k as int),
            ),
        decreases undefined.len() - k,
    {
        proof {
            assert(u.take(k as int + 1).drop_last() =~= u.take(k as int));
            assert(u.take(k as int + 1).last() == u[k as int]);
        }
        let entry = &undefined[k];
        assert(entry@ == u[k as int]);
        let sorted = sort_used_classes(&entry.classes);
        let ghost sv = used_of(sorted@);
        let mut j: usize = 0;
        assert(sv.take(0) =~= Seq::<UsedV>::empty());
        assert(strs_of(out@) + minified_undefined_lines(u[k as int].path, sv.take(0))
            =~= strs_of(out@));
        while j < sorted.len()
            invariant
                j <= sorted.len(),
                sv == used_of(sorted@),
                strs_of(out@) == render_minified_unused_spec(d)
                    + render_minified_undefined_spec(u.take(k as int))
                    + minified_undefined_lines(u[k as int].path, sv.take(j as int)),
                k < undefined.len(),
                entry == &undefined[k as int],
                d == dents_of(unused@),
                u == uents_of(undefined@),
            decreases sorted.len() - j,
        {
            let line = minified_undefined_line_exec(&entry.path, &sorted[j]);
            let ghost out0 = strs_of(out@);
            out.push(chars_to_string(&line));
            proof {
                assert(sv.take(j as int + 1) =~= sv.take(j as int).push(sv[j as int]));
                assert(minified_undefined_lines(u[k as int].path, sv.take(j as int + 1))
                    =~= minified_undefined_lines(u[k as int].path, sv.take(j as int)).push(
                    minified_undefined_line(u[k as int].path, sv[j as int]),
                ));
                assert(strs_of(out@) =~= out0.push(line@));
                assert(out0.push(line@) =~= render_minified_unused_spec(d)
                    + render_minified_undefined_spec(u.take(k as int))
                    + minified_undefined_lines(u[k as int].path, sv.take(j as int + 1)));
            }
            j = j + 1;
        }
        proof {
            assert(sv.take(sorted@.len() as int) =~= sv);
        }
        k = k + 1;
    }
    assert(u.take(undefined@.len() as int) =~= u);
    out
}

/// Renders the human-readable report: per file a header line, its
/// diagnostics indented as `line:column` entries in position order, a
/// trailing blank line; then the summary.
pub fn render_results(unused: &Vec<DefinedEntry>, undefined: &Vec<UsedEntry>) -> (r: Vec<String>)
    ensures
        strs_of(r@) == render_human_spec(dents_of(unused@), uents_of(undefined@)),
{
    let ghost d = dents_of(unused@);
    let ghost u = uents_of(undefined@);
    let mut out: Vec<String> = Vec::new();
    let mut i: usize = 0;
    assert(d.take(0) =~= Seq::<DefinedEntryV>::empty());
    while i < unused.len()
        invariant
            i <= unused.len(),
            d == dents_of(unused@),
            strs_of(out@) == render_human_unused_spec(d.take(i as int)),
        decreases unused.len() - i,
    {
        proof {
            assert(d.take(i as int + 1).drop_last() =~= d.take(i as int));
            assert(d.take(i as int + 1).last() == d[i as int]);
        }
        let entry = &unused[i];
        assert(entry@ == d[i as int]);
        let ghost block_start = strs_of(out@);
        out.push(entry.path.clone());
        assert(strs_of(out@) =~= block_start.push(d[i as int].path));
        let sorted = sort_defined_classes(&entry.classes);
        let ghost sv = syms_of(sorted@);
        let mut j: usize = 0;
        assert(sv.take(0) =~= Seq::<SymbolV>::empty());
        assert(strs_of(out@) =~= block_start + seq![d[i as int].path] + human_unused_lines(
            sv.take(0),
        ));
        while j < sorted.len()
            invariant
                j <= sorted.len(),
                sv == syms_of(sorted@),
                strs_of(out@) == block_start + seq![d[i as int].path] + human_unused_lines(
                    sv.take(j as int),
                ),
                i < unused.len(),
                entry == &unused[i as int],
                d == dents_of(unused@),
            decreases sorted.len() - j,
        {
            let line = human_unused_line_exec(&sorted[j]);
            let ghost out0 = strs_of(out@);
            out.push(chars_to_string(&line));
            proof {
                assert(sv.take(j as int + 1) =~= sv.take(j as int).push(sv[j as int]));
                assert(human_unused_lines(sv.take(j as int + 1)) =~= human_unused_lines(
                    sv.take(j as int),
                ).push(human_unused_line(sv[j as int])));
                assert(strs_of(out@) =~= out0.push(line@));
                assert(out0.push(line@) =~= block_start + seq![d[i as int].path]
                    + human_unused_lines(sv.take(j as int + 1)));
            }
            j = j + 1;
        }
        proof {
            assert(sv.take(sorted@.len() as int) =~= sv);
        }
        let blank = String::new();
        let ghost out1 = strs_of(out@);
        out.push(blank);
        assert(strs_of(out@) =~= out1.push(Seq::<char>::empty()));
        assert(sv == sort_defined(d[i as int].classes));
        assert(strs_of(out@) =~= block_start + (seq![d[i as int].path] + human_unused_lines(sv)
            + seq![Seq::<char>::empty()]));
        i = i + 1;
    }
    assert(d.take(unused@.len() as int) =~= d);
    let mut k: usize = 0;
    assert(u.take(0) =~= Seq::<UsedEntryV>::empty());
    while k < undefined.len()
        invariant
            k <= undefined.len(),
            d == dents_of(unused@),
            u == uents_of(undefined@),
            strs_of(out@) == render_human_unused_spec(d) + render_human_undefined_spec(
                u.take(k as int),
            ),
        decreases undefined.len() - k,
    {
        proof {
            assert(u.take(k as int + 1).drop_last() =~= u.take(k as int));
            assert(u.take(k as int + 1).last() == u[k as int]);
        }
        let entry = &undefined[k];
        assert(entry@ == u[k as int]);
        let ghost block_start = strs_of(out@);
        out.push(entry.path.clone());
        assert(strs_of(out@) =~= block_start.push(u[k as int].path));
        let sorted = sort_used_classes(&entry.classes);
        let ghost sv = used_of(sorted@);
        let mut j: usize = 0;
        assert(sv.take(0) =~= Seq::<UsedV>::empty());
        assert(strs_of(out@) =~= block_start + seq![u[k as int].path] + human_undefined_lines(
            sv.take(0),
        ));
        while j < sorted.len()
            invariant
                j <= sorted.len(),
                sv == used_of(sorted@),
                strs_of(out@) == block_start + seq![u[k as int].path] + human_undefined_lines(
                    sv.take(j as int),
                ),
                k < undefined.len(),
                entry == &undefined[k as int],
                u == uents_of(undefined@),
            decreases sorted.len() - j,
        {
            let line = human_undefined_line_exec(&sorted[j]);
            let ghost out0 = strs_of(out@);
            out.push(chars_to_string(&line));
            proof {
                assert(sv.take(j as int + 1) =~= sv.take(j as int).push(sv[j as int]));
                assert(human_undefined_lines(sv.take(j as int + 1)) =~= human_undefined_lines(
                    sv.take(j as int),
                ).push(human_undefined_line(sv[j as int])));
                assert(strs_of(out@) =~= out0.push(line@));
                assert(out0.push(line@) =~= block_start + seq![u[k as int].path]
                    + human_undefined_lines(sv.take(j as int + 1)));
            }
            j = j + 1;
        }
        proof {
            assert(sv.take(sorted@.len() as int) =~= sv);
        }
        let blank = String::new();
        let ghost out1 = strs_of(out@);
        out.push(blank);
        assert(strs_of(out@) =~= out1.push(Seq::<char>::empty()));
        assert(sv == sort_used(u[k as int].classes));
        assert(strs_of(out@) =~= block_start + (seq![u[k as int].path] + human_undefined_lines(
            sv,
        ) + seq![Seq::<char>::empty()]));
        k = k + 1;
    }
    assert(u.take(undefined@.len() as int) =~= u);
    let warnings = count_diagnostics(unused, undefined);
    let files = count_files(unused, undefined);
    let ghost out0 = strs_of(out@);
    if warnings == 0 {
        let line = str_to_chars("No CSS lint warnings found");
        out.push(chars_to_string(&line));
        assert(strs_of(out@) =~= out0.push(summary_line(warnings as int, files as int)));
    } else {
        let mut line = str_to_chars("Found ");
        let w = usize_to_chars(warnings);
        extend_chars(&mut line, &w);
        let mid = str_to_chars(" warnings in ");
        extend_chars(&mut line, &mid);
        let f = usize_to_chars(files);
        extend_chars(&mut line, &f);
        let tail = str_to_chars(" files");
        extend_chars(&mut line, &tail);
        assert(line@ =~= summary_line(warnings as int, files as int));
        out.push(chars_to_string(&line));
        assert(strs_of(out@) =~= out0.push(summary_line(warnings as int, files as int)));
    }
    assert(strs_of(out@) =~= render_human_spec(d, u));
    out
}

} // verus!
