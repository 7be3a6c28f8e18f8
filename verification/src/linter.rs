//! The cross-reference engine: aggregates per-file extraction results into
//! two path-keyed symbol tables, computes the defined-but-unused and the
//! used-but-undefined class sets, and counts diagnostics.
use crate::config::AliasEntry;
use crate::config::AliasEntryV;
use crate::css_parser::ClassName;
use crate::css_parser::extract_classes;
use crate::css_parser::spec_extract;
use crate::css_parser::SymbolV;
use crate::css_parser::syms_of;
use crate::tsx_parser::UsedClassName;
use crate::tsx_parser::UsedV;
use crate::text::cap_usize;
use crate::tsx_parser::ImportFact;
use crate::tsx_parser::ImportFactV;
use crate::tsx_parser::MemberAccess;
use crate::tsx_parser::MemberAccessV;
use crate::tsx_parser::accesses_of;
use crate::tsx_parser::css_imports_spec;
use crate::tsx_parser::extract_default_css_imports;
use crate::tsx_parser::extract_used_classes;
use crate::tsx_parser::imports_of;
use crate::tsx_parser::pairs_of;
use crate::tsx_parser::usages_spec;
use crate::tsx_parser::used_of;
use crate::utils::aliases_of;
use crate::utils::apply_aliases_spec;
use crate::utils::normalize_separators;
use crate::utils::process_relative_import;
use crate::utils::replace_aliases;
use crate::utils::resolve_spec;
use vstd::prelude::*;

verus! {

/// One entry of the defined-symbol table: a canonical stylesheet path and
/// the class symbols that stylesheet defines.
#[derive(Eq, PartialEq, Clone, Debug)]
pub struct DefinedEntry {
    pub path: String,
    pub classes: Vec<ClassName>,
}

/// The model of one defined-table entry.
pub ghost struct DefinedEntryV {
    pub path: Seq<char>,
    pub classes: Seq<SymbolV>,
}

impl View for DefinedEntry {
    type V = DefinedEntryV;

    open spec fn view(&self) -> DefinedEntryV {
        DefinedEntryV { path: self.path@, classes: syms_of(self.classes@) }
    }
}

/// One entry of the used-symbol table: a key (a canonical stylesheet path,
/// or an owning component file after regrouping) and its usage symbols.
#[derive(Eq, PartialEq, Clone, Debug)]
pub struct UsedEntry {
    pub path: String,
    pub classes: Vec<UsedClassName>,
}

/// The model of one used-table entry.
pub ghost struct UsedEntryV {
    pub path: Seq<char>,
    pub classes: Seq<UsedV>,
}

impl View for UsedEntry {
    type V = UsedEntryV;

    open spec fn view(&self) -> UsedEntryV {
        UsedEntryV { path: self.path@, classes: used_of(self.classes@) }
    }
}

pub open spec fn dents_of(s: Seq<DefinedEntry>) -> Seq<DefinedEntryV> {
    s.map_values(|e: DefinedEntry| e@)
}

pub open spec fn uents_of(s: Seq<UsedEntry>) -> Seq<UsedEntryV> {
    s.map_values(|e: UsedEntry| e@)
}

// ---------------------------------------------------------------------------
// Key lookup over association tables.
// ---------------------------------------------------------------------------

/// The index of the first key equal to `key`, if any.
pub open spec fn find_key(keys: Seq<Seq<char>>, key: Seq<char>) -> Option<int>
    decreases keys.len(),
{
    if keys.len() == 0 {
        None
    } else if keys[0] == key {
        Some(0)
    } else {
        match find_key(keys.drop_first(), key) {
            None => None,
            Some(j) => Some(j + 1),
        }
    }
}

pub proof fn lemma_find_key_props(keys: Seq<Seq<char>>, key: Seq<char>)
    ensures
        find_key(keys, key) is None ==> forall|j: int| 0 <= j < keys.len() ==> keys[j] != key,
        find_key(keys, key) matches Some(j) ==> 0 <= j < keys.len() && keys[j] == key && forall|
            l: int,
        | 0 <= l < j ==> keys[l] != key,
    decreases keys.len(),
{
    if keys.len() == 0 {
    } else if keys[0] == key {
    } else {
        lemma_find_key_props(keys.drop_first(), key);
        match find_key(keys.drop_first(), key) {
            None => {
                assert forall|j: int| 0 <= j < keys.len() implies keys[j] != key by {
                    if j > 0 {
                        assert(keys[j] == keys.drop_first()[j - 1]);
                    }
                };
            },
            Some(j0) => {
                assert(keys[j0 + 1] == keys.drop_first()[j0]);
                assert forall|l: int| 0 <= l < j0 + 1 implies keys[l] != key by {
                    if l > 0 {
                        assert(keys[l] == keys.drop_first()[l - 1]);
                    }
                };
            },
        }
    }
}

pub proof fn lemma_find_key_first(keys: Seq<Seq<char>>, key: Seq<char>, i: int)
    requires
        0 <= i < keys.len(),
        keys[i] == key,
        forall|l: int| 0 <= l < i ==> keys[l] != key,
    ensures
        find_key(keys, key) == Some(i),
    decreases keys.len(),
{
    if i > 0 {
        lemma_find_key_first(keys.drop_first(), key, i - 1);
    }
}

/// The keys of the defined table.
pub open spec fn dkeys(t: Seq<DefinedEntryV>) -> Seq<Seq<char>> {
    t.map_values(|e: DefinedEntryV| e.path)
}

/// The keys of the used table.
pub open spec fn ukeys(t: Seq<UsedEntryV>) -> Seq<Seq<char>> {
    t.map_values(|e: UsedEntryV| e.path)
}

/// The index of the defined-table entry with the given path, if any.
pub fn find_defined_entry(t: &Vec<DefinedEntry>, key: &String) -> (r: Option<usize>)
    ensures
        r matches Some(i) ==> i < t.len() && find_key(dkeys(dents_of(t@)), key@) == Some(
            i as int,
        ),
        r is None ==> find_key(dkeys(dents_of(t@)), key@) is None,
{
    let ghost keys = dkeys(dents_of(t@));
    let mut i: usize = 0;
    while i < t.len()
        invariant
            i <= t.len(),
            keys == dkeys(dents_of(t@)),
            forall|l: int| 0 <= l < i ==> keys[l] != key@,
        decreases t.len() - i,
    {
        assert(keys[i as int] == t@[i as int].path@);
        if t[i].path == *key {
            proof {
                lemma_find_key_first(keys, key@, i as int);
            }
            return Some(i);
        }
        i = i + 1;
    }
    proof {
        lemma_find_key_props(keys, key@);
        assert(find_key(keys, key@) is None);
    }
    None
}

/// The index of the used-table entry with the given key, if any.
pub fn find_used_entry(t: &Vec<UsedEntry>, key: &String) -> (r: Option<usize>)
    ensures
        r matches Some(i) ==> i < t.len() && find_key(ukeys(uents_of(t@)), key@) == Some(
            i as int,
        ),
        r is None ==> find_key(ukeys(uents_of(t@)), key@) is None,
{
    let ghost keys = ukeys(uents_of(t@));
    let mut i: usize = 0;
    while i < t.len()
        invariant
            i <= t.len(),
            keys == ukeys(uents_of(t@)),
            forall|l: int| 0 <= l < i ==> keys[l] != key@,
        decreases t.len() - i,
    {
        assert(keys[i as int] == t@[i as int].path@);
        if t[i].path == *key {
            proof {
                lemma_find_key_first(keys, key@, i as int);
            }
            return Some(i);
        }
        i = i + 1;
    }
    proof {
        lemma_find_key_props(keys, key@);
        assert(find_key(keys, key@) is None);
    }
    None
}

// ---------------------------------------------------------------------------
// The two reductions.
// ---------------------------------------------------------------------------

/// The usage symbols recorded under `key`, or none when the key is absent.
pub open spec fn used_classes_for(u: Seq<UsedEntryV>, key: Seq<char>) -> Seq<UsedV> {
    match find_key(ukeys(u), key) {
        None => Seq::<UsedV>::empty(),
        Some(j) => u[j].classes,
    }
}

/// The defined symbols recorded under `key`, or none when the key is absent.
pub open spec fn defined_classes_for(d: Seq<DefinedEntryV>, key: Seq<char>) -> Seq<SymbolV> {
    match find_key(dkeys(d), key) {
        None => Seq::<SymbolV>::empty(),
        Some(j) => d[j].classes,
    }
}

/// Some usage symbol carries this name.
pub open spec fn used_has_name_spec(syms: Seq<UsedV>, name: Seq<char>) -> bool {
    exists|i: int| 0 <= i < syms.len() && syms[i].name == name
}

/// Some defined symbol carries this name.
pub open spec fn defined_has_name_spec(syms: Seq<SymbolV>, name: Seq<char>) -> bool {
    exists|i: int| 0 <= i < syms.len() && syms[i].name == name
}

/// The defined symbols whose name no usage symbol mentions, in order.
pub open spec fn keep_unused(classes: Seq<SymbolV>, used: Seq<UsedV>) -> Seq<SymbolV>
    decreases classes.len(),
{
    if classes.len() == 0 {
        Seq::<SymbolV>::empty()
    } else {
        keep_unused(classes.drop_last(), used) + if used_has_name_spec(
            used,
            classes.last().name,
        ) {
            Seq::<SymbolV>::empty()
        } else {
            seq![classes.last()]
        }
    }
}

/// The usage symbols whose name no defined symbol carries, in order.
pub open spec fn keep_undefined(classes: Seq<UsedV>, defined: Seq<SymbolV>) -> Seq<UsedV>
    decreases classes.len(),
{
    if classes.len() == 0 {
        Seq::<UsedV>::empty()
    } else {
        keep_undefined(classes.drop_last(), defined) + if defined_has_name_spec(
            defined,
            classes.last().name,
        ) {
            Seq::<UsedV>::empty()
        } else {
            seq![classes.last()]
        }
    }
}

/// The unused reduction: per stylesheet, the defined symbols whose name no
/// usage under the same key mentions (a name-only match — one usage clears
/// every definition of that name); a stylesheet with no usages keeps its
/// whole set; entries reduced to nothing are dropped.
pub open spec fn spec_unused(d: Seq<DefinedEntryV>, u: Seq<UsedEntryV>) -> Seq<DefinedEntryV>
    decreases d.len(),
{
    if d.len() == 0 {
        Seq::<DefinedEntryV>::empty()
    } else {
        let rest = spec_unused(d.drop_last(), u);
        let e = d.last();
        let kept = keep_unused(e.classes, used_classes_for(u, e.path));
        rest + if kept.len() == 0 {
            Seq::<DefinedEntryV>::empty()
        } else {
            seq![DefinedEntryV { path: e.path, classes: kept }]
        }
    }
}

/// The usage symbols left undefined, flattened across the used table in
/// table order; a key absent from the defined table keeps its whole set.
pub open spec fn undefined_flat(d: Seq<DefinedEntryV>, u: Seq<UsedEntryV>) -> Seq<UsedV>
    decreases u.len(),
{
    if u.len() == 0 {
        Seq::<UsedV>::empty()
    } else {
        undefined_flat(d, u.drop_last()) + keep_undefined(
            u.last().classes,
            defined_classes_for(d, u.last().path),
        )
    }
}

/// One symbol appended to the group of its owning file: the first entry
/// with that key is extended, or a new entry is appended.
pub open spec fn add_grouped(t: Seq<UsedEntryV>, s: UsedV) -> Seq<UsedEntryV> {
    match find_key(ukeys(t), s.file) {
        None => t.push(UsedEntryV { path: s.file, classes: seq![s] }),
        Some(j) => t.update(j, UsedEntryV { path: t[j].path, classes: t[j].classes.push(s) }),
    }
}

/// The symbols regrouped by owning file, keeping first-appearance order of
/// files and, within a file, symbol order.
pub open spec fn group_by_file(syms: Seq<UsedV>) -> Seq<UsedEntryV>
    decreases syms.len(),
{
    if syms.len() == 0 {
        Seq::<UsedEntryV>::empty()
    } else {
        add_grouped(group_by_file(syms.drop_last()), syms.last())
    }
}

/// The undefined reduction: usage symbols whose name their stylesheet does
/// not define, regrouped by the component file that made the access.
pub open spec fn spec_undefined(d: Seq<DefinedEntryV>, u: Seq<UsedEntryV>) -> Seq<UsedEntryV> {
    group_by_file(undefined_flat(d, u))
}

/// Does some usage symbol in `classes` carry `name`?
pub fn used_symbols_have_name(classes: &Vec<UsedClassName>, name: &String) -> (r: bool)
    ensures
        r == used_has_name_spec(used_of(classes@), name@),
{
    let mut i: usize = 0;
    while i < classes.len()
        invariant
            i <= classes.len(),
            forall|j: int| 0 <= j < i ==> used_of(classes@)[j].name != name@,
        decreases classes.len() - i,
    {
        if classes[i].class_name == *name {
            assert(used_of(classes@)[i as int].name == name@);
            return true;
        }
        i = i + 1;
    }
    false
}

/// Does some defined symbol in `classes` carry `name`?
pub fn defined_symbols_have_name(classes: &Vec<ClassName>, name: &String) -> (r: bool)
    ensures
        r == defined_has_name_spec(syms_of(classes@), name@),
{
    let mut i: usize = 0;
    while i < classes.len()
        invariant
            i <= classes.len(),
            forall|j: int| 0 <= j < i ==> syms_of(classes@)[j].name != name@,
        decreases classes.len() - i,
    {
        if classes[i].class_name == *name {
            assert(syms_of(classes@)[i as int].name == name@);
            return true;
        }
        i = i + 1;
    }
    false
}

/// Computes the defined-but-unused table: for each stylesheet entry, the
/// defined symbols whose name no usage resolved to that stylesheet mentions;
/// entries left empty are dropped.
pub fn compute_unused(defined: &Vec<DefinedEntry>, used: &Vec<UsedEntry>) -> (r: Vec<
    DefinedEntry,
>)
    ensures
        dents_of(r@) == spec_unused(dents_of(defined@), uents_of(used@)),
{
    let ghost d = dents_of(defined@);
    let ghost u = uents_of(used@);
    let empty_used: Vec<UsedClassName> = Vec::new();
    let mut r: Vec<DefinedEntry> = Vec::new();
    let mut i: usize = 0;
    assert(d.take(0) =~= Seq::<DefinedEntryV>::empty());
    while i < defined.len()
        invariant
            i <= defined.len(),
            d == dents_of(defined@),
            u == uents_of(used@),
            empty_used@ == Seq::<UsedClassName>::empty(),
            dents_of(r@) == spec_unused(d.take(i as int), u),
        decreases defined.len() - i,
    {
        proof {
            assert(d.take(i as int + 1).drop_last() =~= d.take(i as int));
            assert(d.take(i as int + 1).last() == d[i as int]);
        }
        let entry = &defined[i];
        assert(entry@ == d[i as int]);
        let found = find_used_entry(used, &entry.path);
        let used_here: &Vec<UsedClassName> = match found {
            Some(j) => &used[j].classes,
            None => &empty_used,
        };
        proof {
            match found {
                Some(j) => {
                    assert(u[j as int].classes == used_of(used@[j as int].classes@));
                },
                None => {},
            }
            assert(used_of(used_here@) == used_classes_for(u, d[i as int].path));
        }
        let mut kept: Vec<ClassName> = Vec::new();
        let mut j: usize = 0;
        assert(syms_of(entry.classes@).take(0) =~= Seq::<SymbolV>::empty());
        assert(syms_of(kept@) =~= keep_unused(
            syms_of(entry.classes@).take(0),
            used_of(used_here@),
        ));
        while j < entry.classes.len()
            invariant
                j <= entry.classes.len(),
                syms_of(kept@) == keep_unused(
                    syms_of(entry.classes@).take(j as int),
                    used_of(used_here@),
                ),
            decreases entry.classes.len() - j,
        {
            let ghost cs = syms_of(entry.classes@);
            proof {
                assert(cs.take(j as int + 1).drop_last() =~= cs.take(j as int));
                assert(cs.take(j as int + 1).last() == cs[j as int]);
            }
            if !used_symbols_have_name(used_here, &entry.classes[j].class_name) {
                let ghost kept0 = kept@;
                kept.push(entry.classes[j].duplicate());
                assert(syms_of(kept@) =~= syms_of(kept0) + seq![cs[j as int]]);
            } else {
                assert(syms_of(kept@) + Seq::<SymbolV>::empty() =~= syms_of(kept@));
            }
            j = j + 1;
        }
        assert(syms_of(entry.classes@).take(entry.classes@.len() as int) =~= syms_of(
            entry.classes@,
        ));
        if kept.len() > 0 {
            let ghost r0 = r@;
            let keptv = DefinedEntry { path: entry.path.clone(), classes: kept };
            r.push(keptv);
            assert(dents_of(r@) =~= dents_of(r0) + seq![
                DefinedEntryV {
                    path: d[i as int].path,
                    classes: keep_unused(d[i as int].classes, used_classes_for(
                        u,
                        d[i as int].path,
                    )),
                },
            ]);
        } else {
            assert(dents_of(r@) + Seq::<DefinedEntryV>::empty() =~= dents_of(r@));
        }
        i = i + 1;
    }
    assert(d.take(defined@.len() as int) =~= d);
    r
}

/// Appends one undefined usage symbol to the group of its owning file.
fn add_to_group(t: &mut Vec<UsedEntry>, s: UsedClassName)
    ensures
        uents_of(final(t)@) == add_grouped(uents_of(old(t)@), s@),
{
    let found = find_used_entry(t, &s.file_name);
    match found {
        Some(j) => {
            let ghost t0 = uents_of(t@);
            let mut entry = t.remove(j);
            let ghost e0 = entry@;
            entry.classes.push(s);
            assert(entry@.classes =~= e0.classes.push(
                UsedV {
                    name: s.class_name@,
                    file: s.file_name@,
                    line: s.line as int,
                    col: s.column as int,
                },
            ));
            t.insert(j, entry);
            assert(uents_of(t@) =~= t0.update(
                j as int,
                UsedEntryV { path: t0[j as int].path, classes: t0[j as int].classes.push(
                    UsedV {
                        name: s.class_name@,
                        file: s.file_name@,
                        line: s.line as int,
                        col: s.column as int,
                    },
                ) },
            ));
        },
        None => {
            let ghost t0 = uents_of(t@);
            let key = s.file_name.clone();
            let mut classes: Vec<UsedClassName> = Vec::new();
            let ghost sv = s@;
            classes.push(s);
            assert(used_of(classes@) =~= seq![sv]);
            t.push(UsedEntry { path: key, classes });
            assert(uents_of(t@) =~= t0.push(UsedEntryV { path: sv.file, classes: seq![sv] }));
        },
    }
}

/// Computes the used-but-undefined table: usage symbols whose name their
/// resolved stylesheet does not define, regrouped by the component file the
/// developer would need to open.
pub fn compute_undefined(defined: &Vec<DefinedEntry>, used: &Vec<UsedEntry>) -> (r: Vec<
    UsedEntry,
>)
    ensures
        uents_of(r@) == spec_undefined(dents_of(defined@), uents_of(used@)),
{
    let ghost d = dents_of(defined@);
    let ghost u = uents_of(used@);
    let empty_defined: Vec<ClassName> = Vec::new();
    let mut flat: Vec<UsedClassName> = Vec::new();
    let mut i: usize = 0;
    assert(u.take(0) =~= Seq::<UsedEntryV>::empty());
    while i < used.len()
        invariant
            i <= used.len(),
            d == dents_of(defined@),
            u == uents_of(used@),
            empty_defined@ == Seq::<ClassName>::empty(),
            used_of(flat@) == undefined_flat(d, u.take(i as int)),
        decreases used.len() - i,
    {
        proof {
            assert(u.take(i as int + 1).drop_last() =~= u.take(i as int));
            assert(u.take(i as int + 1).last() == u[i as int]);
        }
        let entry = &used[i];
        assert(entry@ == u[i as int]);
        let found = find_defined_entry(defined, &entry.path);
        let defined_here: &Vec<ClassName> = match found {
            Some(j) => &defined[j].classes,
            None => &empty_defined,
        };
        proof {
            match found {
                Some(j) => {
                    assert(d[j as int].classes == syms_of(defined@[j as int].classes@));
                },
                None => {},
            }
            assert(syms_of(defined_here@) == defined_classes_for(d, u[i as int].path));
        }
        let mut j: usize = 0;
        assert(used_of(entry.classes@).take(0) =~= Seq::<UsedV>::empty());
        assert(used_of(flat@) + keep_undefined(
            used_of(entry.classes@).take(0),
            syms_of(defined_here@),
        ) =~= used_of(flat@));
        while j < entry.classes.len()
            invariant
                j <= entry.classes.len(),
                used_of(flat@) == undefined_flat(d, u.take(i as int)) + keep_undefined(
                    used_of(entry.classes@).take(j as int),
                    syms_of(defined_here@),
                ),
            decreases entry.classes.len() - j,
        {
            let ghost cs = used_of(entry.classes@);
            proof {
                assert(cs.take(j as int + 1).drop_last() =~= cs.take(j as int));
                assert(cs.take(j as int + 1).last() == cs[j as int]);
            }
            if !defined_symbols_have_name(defined_here, &entry.classes[j].class_name) {
                let ghost flat0 = flat@;
                flat.push(entry.classes[j].duplicate());
                assert(used_of(flat@) =~= used_of(flat0) + seq![cs[j as int]]);
                assert(used_of(flat@) =~= undefined_flat(d, u.take(i as int)) + (keep_undefined(
                    cs.take(j as int),
                    syms_of(defined_here@),
                ) + seq![cs[j as int]]));
            } else {
                assert(keep_undefined(cs.take(j as int + 1), syms_of(defined_here@))
                    =~= keep_undefined(cs.take(j as int), syms_of(defined_here@)));
            }
            j = j + 1;
        }
        assert(used_of(entry.classes@).take(entry.classes@.len() as int) =~= used_of(
            entry.classes@,
        ));
        i = i + 1;
    }
    assert(u.take(used@.len() as int) =~= u);
    let ghost flatv = used_of(flat@);
    let mut r: Vec<UsedEntry> = Vec::new();
    let mut k: usize = 0;
    assert(flatv.take(0) =~= Seq::<UsedV>::empty());
    let n = flat.len();
    while k < n
        invariant
            k <= n,
            n == flat.len(),
            flatv == used_of(flat@),
            uents_of(r@) == group_by_file(flatv.take(k as int)),
        decreases n - k,
    {
        proof {
            assert(flatv.take(k as int + 1).drop_last() =~= flatv.take(k as int));
            assert(flatv.take(k as int + 1).last() == flatv[k as int]);
        }
        add_to_group(&mut r, flat[k].duplicate());
        k = k + 1;
    }
    assert(flatv.take(flat@.len() as int) =~= flatv);
    r
}

// ---------------------------------------------------------------------------
// Diagnostic counts.
// ---------------------------------------------------------------------------

/// The number of symbols across a defined table.
pub open spec fn total_defined(d: Seq<DefinedEntryV>) -> int
    decreases d.len(),
{
    if d.len() == 0 {
        0
    } else {
        total_defined(d.drop_last()) + d.last().classes.len()
    }
}

/// The number of symbols across a used table.
pub open spec fn total_used(u: Seq<UsedEntryV>) -> int
    decreases u.len(),
{
    if u.len() == 0 {
        0
    } else {
        total_used(u.drop_last()) + u.last().classes.len()
    }
}

proof fn lemma_total_defined_nonneg(d: Seq<DefinedEntryV>)
    ensures
        total_defined(d) >= 0,
    decreases d.len(),
{
    if d.len() > 0 {
        lemma_total_defined_nonneg(d.drop_last());
    }
}

proof fn lemma_total_used_nonneg(u: Seq<UsedEntryV>)
    ensures
        total_used(u) >= 0,
    decreases u.len(),
{
    if u.len() > 0 {
        lemma_total_used_nonneg(u.drop_last());
    }
}

/// The combined diagnostic count of the two result tables, saturating at
/// the largest `usize`. The lint run fails exactly when it is nonzero.
pub fn count_diagnostics(unused: &Vec<DefinedEntry>, undefined: &Vec<UsedEntry>) -> (n: usize)
    ensures
        n == cap_usize(total_defined(dents_of(unused@)) + total_used(uents_of(undefined@))),
{
    let ghost d = dents_of(unused@);
    let ghost u = uents_of(undefined@);
    let mut n: usize = 0;
    let mut i: usize = 0;
    assert(d.take(0) =~= Seq::<DefinedEntryV>::empty());
    while i < unused.len()
        invariant
            i <= unused.len(),
            d == dents_of(unused@),
            n == cap_usize(total_defined(d.take(i as int))),
        decreases unused.len() - i,
    {
        proof {
            assert(d.take(i as int + 1).drop_last() =~= d.take(i as int));
            assert(d.take(i as int + 1).last() == d[i as int]);
            lemma_total_defined_nonneg(d.take(i as int));
        }
        let len = unused[i].classes.len();
        assert(d[i as int].classes.len() == len);
        if n > usize::MAX - len {
            n = usize::MAX;
        } else {
            n = n + len;
        }
        i = i + 1;
    }
    assert(d.take(unused@.len() as int) =~= d);
    let mut j: usize = 0;
    assert(u.take(0) =~= Seq::<UsedEntryV>::empty());
    proof {
        lemma_total_defined_nonneg(d);
    }
    while j < undefined.len()
        invariant
            j <= undefined.len(),
            d == dents_of(unused@),
            u == uents_of(undefined@),
            total_defined(d) >= 0,
            n == cap_usize(total_defined(d) + total_used(u.take(j as int))),
        decreases undefined.len() - j,
    {
        proof {
            assert(u.take(j as int + 1).drop_last() =~= u.take(j as int));
            assert(u.take(j as int + 1).last() == u[j as int]);
            lemma_total_used_nonneg(u.take(j as int));
        }
        let len = undefined[j].classes.len();
        assert(u[j as int].classes.len() == len);
        if n > usize::MAX - len {
            n = usize::MAX;
        } else {
            n = n + len;
        }
        j = j + 1;
    }
    assert(u.take(undefined@.len() as int) =~= u);
    n
}

/// The number of files the two result tables mention, saturating at the
/// largest `usize`.
pub fn count_files(unused: &Vec<DefinedEntry>, undefined: &Vec<UsedEntry>) -> (n: usize)
    ensures
        n == cap_usize(unused@.len() + undefined@.len() as int),
{
    let a = unused.len();
    let b = undefined.len();
    if a > usize::MAX - b {
        usize::MAX
    } else {
        a + b
    }
}

// ---------------------------------------------------------------------------
// Building the two tables from per-file inputs.
// ---------------------------------------------------------------------------

/// The text of one stylesheet file, with the path it was listed under.
pub struct CssFileInput {
    pub path: String,
    pub text: String,
}

/// The model of one stylesheet input.
pub ghost struct CssFileInputV {
    pub path: Seq<char>,
    pub text: Seq<char>,
}

impl View for CssFileInput {
    type V = CssFileInputV;

    open spec fn view(&self) -> CssFileInputV {
        CssFileInputV { path: self.path@, text: self.text@ }
    }
}

/// The AST facts of one component file, with the path it was listed under.
pub struct ComponentInput {
    pub path: String,
    pub imports: Vec<ImportFact>,
    pub accesses: Vec<MemberAccess>,
}

/// The model of one component input.
pub ghost struct ComponentInputV {
    pub path: Seq<char>,
    pub imports: Seq<ImportFactV>,
    pub accesses: Seq<MemberAccessV>,
}

impl View for ComponentInput {
    type V = ComponentInputV;

    open spec fn view(&self) -> ComponentInputV {
        ComponentInputV {
            path: self.path@,
            imports: imports_of(self.imports@),
            accesses: accesses_of(self.accesses@),
        }
    }
}

pub open spec fn cssfiles_of(s: Seq<CssFileInput>) -> Seq<CssFileInputV> {
    s.map_values(|f: CssFileInput| f@)
}

pub open spec fn comps_of(s: Seq<ComponentInput>) -> Seq<ComponentInputV> {
    s.map_values(|c: ComponentInput| c@)
}

/// A path with its separators normalized to forward slashes.
pub open spec fn norm_path(p: Seq<char>) -> Seq<char> {
    crate::text::replace_all(p, "\\"@, "/"@)
}

/// A batch of defined symbols recorded under `key`: the existing entry is
/// extended, or a new entry is appended.
pub open spec fn add_defined_batch(
    t: Seq<DefinedEntryV>,
    key: Seq<char>,
    classes: Seq<SymbolV>,
) -> Seq<DefinedEntryV> {
    match find_key(dkeys(t), key) {
        None => t.push(DefinedEntryV { path: key, classes }),
        Some(j) => t.update(
            j,
            DefinedEntryV { path: t[j].path, classes: t[j].classes + classes },
        ),
    }
}

/// A batch of usage symbols recorded under `key`; an entry is created even
/// for an empty batch, marking the stylesheet as imported.
pub open spec fn add_used_batch(t: Seq<UsedEntryV>, key: Seq<char>, classes: Seq<UsedV>) -> Seq<
    UsedEntryV,
> {
    match find_key(ukeys(t), key) {
        None => t.push(UsedEntryV { path: key, classes }),
        Some(j) => t.update(j, UsedEntryV { path: t[j].path, classes: t[j].classes + classes }),
    }
}

/// The defined table built from the stylesheet inputs in order: each file's
/// extraction result is recorded under its normalized path.
pub open spec fn build_defined_spec(files: Seq<CssFileInputV>) -> Seq<DefinedEntryV>
    decreases files.len(),
{
    if files.len() == 0 {
        Seq::<DefinedEntryV>::empty()
    } else {
        let f = files.last();
        add_defined_batch(
            build_defined_spec(files.drop_last()),
            norm_path(f.path),
            spec_extract(f.text),
        )
    }
}

/// The canonical stylesheet key one import of a component resolves to:
/// the declared source collapsed against the component's directory, then
/// alias-rewritten.
pub open spec fn component_key(
    comp_path: Seq<char>,
    source: Seq<char>,
    aliases: Seq<AliasEntryV>,
) -> Seq<char> {
    apply_aliases_spec(resolve_spec(norm_path(comp_path), source), aliases)
}

/// One component's import pairs folded into the used table, in pair order.
pub open spec fn add_pairs(
    t: Seq<UsedEntryV>,
    pairs: Seq<(Seq<char>, Seq<char>)>,
    comp: ComponentInputV,
    aliases: Seq<AliasEntryV>,
) -> Seq<UsedEntryV>
    decreases pairs.len(),
{
    if pairs.len() == 0 {
        t
    } else {
        let t1 = add_pairs(t, pairs.drop_last(), comp, aliases);
        let pr = pairs.last();
        add_used_batch(
            t1,
            component_key(comp.path, pr.0, aliases),
            usages_spec(comp.accesses, pr.1, norm_path(comp.path)),
        )
    }
}

/// The used table built from the component inputs in order: for every
/// module-stylesheet default import of a component, the usages of its
/// binding are recorded under the resolved stylesheet key.
pub open spec fn build_used_spec(
    comps: Seq<ComponentInputV>,
    aliases: Seq<AliasEntryV>,
) -> Seq<UsedEntryV>
    decreases comps.len(),
{
    if comps.len() == 0 {
        Seq::<UsedEntryV>::empty()
    } else {
        let c = comps.last();
        add_pairs(
            build_used_spec(comps.drop_last(), aliases),
            css_imports_spec(c.imports),
            c,
            aliases,
        )
    }
}

/// Records a batch of defined symbols under `key`.
fn add_defined_entries(t: &mut Vec<DefinedEntry>, key: String, classes: Vec<ClassName>)
    ensures
        dents_of(final(t)@) == add_defined_batch(dents_of(old(t)@), key@, syms_of(classes@)),
{
    let found = find_defined_entry(t, &key);
    match found {
        Some(j) => {
            let ghost t0 = dents_of(t@);
            let mut entry = t.remove(j);
            let ghost e0 = entry@;
            let mut classes = classes;
            let ghost cs = syms_of(classes@);
            entry.classes.append(&mut classes);
            assert(entry@.classes =~= e0.classes + cs);
            t.insert(j, entry);
            assert(dents_of(t@) =~= t0.update(
                j as int,
                DefinedEntryV { path: t0[j as int].path, classes: t0[j as int].classes + cs },
            ));
        },
        None => {
            let ghost t0 = dents_of(t@);
            let ghost kv = key@;
            let ghost cs = syms_of(classes@);
            t.push(DefinedEntry { path: key, classes });
            assert(dents_of(t@) =~= t0.push(DefinedEntryV { path: kv, classes: cs }));
        },
    }
}

/// Records a batch of usage symbols under `key`.
fn add_used_entries(t: &mut Vec<UsedEntry>, key: String, classes: Vec<UsedClassName>)
    ensures
        uents_of(final(t)@) == add_used_batch(uents_of(old(t)@), key@, used_of(classes@)),
{
    let found = find_used_entry(t, &key);
    match found {
        Some(j) => {
            let ghost t0 = uents_of(t@);
            let mut entry = t.remove(j);
            let ghost e0 = entry@;
            let mut classes = classes;
            let ghost cs = used_of(classes@);
            entry.classes.append(&mut classes);
            assert(entry@.classes =~= e0.classes + cs);
            t.insert(j, entry);
            assert(uents_of(t@) =~= t0.update(
                j as int,
                UsedEntryV { path: t0[j as int].path, classes: t0[j as int].classes + cs },
            ));
        },
        None => {
            let ghost t0 = uents_of(t@);
            let ghost kv = key@;
            let ghost cs = used_of(classes@);
            t.push(UsedEntry { path: key, classes });
            assert(uents_of(t@) =~= t0.push(UsedEntryV { path: kv, classes: cs }));
        },
    }
}

/// Builds the two symbol tables from the whole scanned file set: every
/// stylesheet's defined symbols under its own normalized path, and every
/// component's usage symbols under the stylesheet key each import resolves
/// to.
pub fn build_tables(
    css_files: &Vec<CssFileInput>,
    components: &Vec<ComponentInput>,
    aliases: &Vec<AliasEntry>,
) -> (r: (Vec<DefinedEntry>, Vec<UsedEntry>))
    ensures
        dents_of(r.0@) == build_defined_spec(cssfiles_of(css_files@)),
        uents_of(r.1@) == build_used_spec(comps_of(components@), aliases_of(aliases@)),
{
    let ghost fv = cssfiles_of(css_files@);
    let ghost cv = comps_of(components@);
    let ghost av = aliases_of(aliases@);
    let mut defined: Vec<DefinedEntry> = Vec::new();
    let mut i: usize = 0;
    assert(fv.take(0) =~= Seq::<CssFileInputV>::empty());
    while i < css_files.len()
        invariant
            i <= css_files.len(),
            fv == cssfiles_of(css_files@),
            dents_of(defined@) == build_defined_spec(fv.take(i as int)),
        decreases css_files.len() - i,
    {
        proof {
            assert(fv.take(i as int + 1).drop_last() =~= fv.take(i as int));
            assert(fv.take(i as int + 1).last() == fv[i as int]);
        }
        let file = &css_files[i];
        let key = normalize_separators(file.path.as_str());
        let classes = extract_classes(file.text.as_str());
        add_defined_entries(&mut defined, key, classes);
        i = i + 1;
    }
    assert(fv.take(css_files@.len() as int) =~= fv);
    let mut used: Vec<UsedEntry> = Vec::new();
    let mut c: usize = 0;
    assert(cv.take(0) =~= Seq::<ComponentInputV>::empty());
    while c < components.len()
        invariant
            c <= components.len(),
            cv == comps_of(components@),
            av == aliases_of(aliases@),
            uents_of(used@) == build_used_spec(cv.take(c as int), av),
        decreases components.len() - c,
    {
        proof {
            assert(cv.take(c as int + 1).drop_last() =~= cv.take(c as int));
            assert(cv.take(c as int + 1).last() == cv[c as int]);
        }
        let comp = &components[c];
        assert(comp@ == cv[c as int]);
        let normp = normalize_separators(comp.path.as_str());
        let pairs = extract_default_css_imports(&comp.imports);
        let ghost pv = pairs_of(pairs@);
        assert(pv == css_imports_spec(cv[c as int].imports));
        let mut p: usize = 0;
        assert(pv.take(0) =~= Seq::<(Seq<char>, Seq<char>)>::empty());
        assert(uents_of(used@) == add_pairs(
            build_used_spec(cv.take(c as int), av),
            pv.take(0),
            cv[c as int],
            av,
        ));
        while p < pairs.len()
            invariant
                p <= pairs.len(),
                cv == comps_of(components@),
                av == aliases_of(aliases@),
                pv == pairs_of(pairs@),
                pv == css_imports_spec(cv[c as int].imports),
                c < components.len(),
                comp == &components[c as int],
                normp@ == norm_path(cv[c as int].path),
                uents_of(used@) == add_pairs(
                    build_used_spec(cv.take(c as int), av),
                    pv.take(p as int),
                    cv[c as int],
                    av,
                ),
            decreases pairs.len() - p,
        {
            proof {
                assert(pv.take(p as int + 1).drop_last() =~= pv.take(p as int));
                assert(pv.take(p as int + 1).last() == pv[p as int]);
            }
            let pair = &pairs[p];
            assert((pair.0@, pair.1@) == pv[p as int]);
            let mut style_path = pair.0.clone();
            process_relative_import(normp.as_str(), &mut style_path);
            replace_aliases(&mut style_path, aliases);
            assert(style_path@ == component_key(cv[c as int].path, pv[p as int].0, av));
            let usages = extract_used_classes(&comp.accesses, pair.1.as_str(), normp.as_str());
            assert(used_of(usages@) == usages_spec(
                cv[c as int].accesses,
                pv[p as int].1,
                norm_path(cv[c as int].path),
            ));
            add_used_entries(&mut used, style_path, usages);
            p = p + 1;
        }
        assert(pv.take(pairs@.len() as int) =~= pv);
        c = c + 1;
    }
    assert(cv.take(components@.len() as int) =~= cv);
    (defined, used)
}

/// The two reductions are independent: each is a function of the two input
/// tables alone, so computing them in either order yields the same pair of
/// results — there is no shared mutation between them.
pub proof fn lemma_reductions_commute(d: Seq<DefinedEntryV>, u: Seq<UsedEntryV>)
    ensures
        ({
            let unused_then_undefined = (spec_unused(d, u), spec_undefined(d, u));
            let undefined_then_unused = {
                let b = spec_undefined(d, u);
                let a = spec_unused(d, u);
                (a, b)
            };
            unused_then_undefined == undefined_then_unused
        }),
{
}

} // verus!
