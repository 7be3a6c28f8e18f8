//! The usage symbol extractor: consumes the facts an AST front-end reports
//! about one component file — which local bindings are default imports of a
//! module stylesheet, and which dotted property accesses occur on a binding
//! — and turns them into used-class symbols carrying the owning file and
//! the source position.
use crate::text::chars_end_with;
use crate::text::ends_with_spec;
use crate::text::str_to_chars;
use vstd::prelude::*;

verus! {

/// A class usage found in a component file: the accessed property name, the
/// owning component file, and the access's source position exactly as the
/// AST front-end reported it (1-based line, 0-based column).
#[derive(Eq, PartialEq, Hash, Clone, Debug)]
pub struct UsedClassName {
    pub class_name: String,
    pub file_name: String,
    pub line: usize,
    pub column: usize,
}

/// The mathematical model of a used-class symbol.
pub ghost struct UsedV {
    pub name: Seq<char>,
    pub file: Seq<char>,
    pub line: int,
    pub col: int,
}

impl View for UsedClassName {
    type V = UsedV;

    open spec fn view(&self) -> UsedV {
        UsedV {
            name: self.class_name@,
            file: self.file_name@,
            line: self.line as int,
            col: self.column as int,
        }
    }
}

impl UsedClassName {
    /// A field-for-field copy.
    pub fn duplicate(&self) -> (r: UsedClassName)
        ensures
            r == *self,
    {
        UsedClassName {
            class_name: self.class_name.clone(),
            file_name: self.file_name.clone(),
            line: self.line,
            column: self.column,
        }
    }
}

/// The views of a sequence of used-class symbols.
pub open spec fn used_of(s: Seq<UsedClassName>) -> Seq<UsedV> {
    s.map_values(|c: UsedClassName| c@)
}

// ---------------------------------------------------------------------------
// The facts an AST front-end supplies.
// ---------------------------------------------------------------------------

/// One member-access expression `object.property` the front-end reports,
/// with its 1-based line and 0-based column.
pub struct MemberAccess {
    pub object: String,
    pub property: String,
    pub line: usize,
    pub column: usize,
}

/// The model of one member access.
pub ghost struct MemberAccessV {
    pub object: Seq<char>,
    pub property: Seq<char>,
    pub line: int,
    pub col: int,
}

impl View for MemberAccess {
    type V = MemberAccessV;

    open spec fn view(&self) -> MemberAccessV {
        MemberAccessV {
            object: self.object@,
            property: self.property@,
            line: self.line as int,
            col: self.column as int,
        }
    }
}

/// One import declaration the front-end reports: the declared source path,
/// the local binding name, and whether it is a default import.
pub struct ImportFact {
    pub source: String,
    pub local: String,
    pub is_default: bool,
}

/// The model of one import declaration.
pub ghost struct ImportFactV {
    pub source: Seq<char>,
    pub local: Seq<char>,
    pub is_default: bool,
}

impl View for ImportFact {
    type V = ImportFactV;

    open spec fn view(&self) -> ImportFactV {
        ImportFactV { source: self.source@, local: self.local@, is_default: self.is_default }
    }
}

pub open spec fn accesses_of(s: Seq<MemberAccess>) -> Seq<MemberAccessV> {
    s.map_values(|a: MemberAccess| a@)
}

pub open spec fn imports_of(s: Seq<ImportFact>) -> Seq<ImportFactV> {
    s.map_values(|f: ImportFact| f@)
}

pub open spec fn pairs_of(s: Seq<(String, String)>) -> Seq<(Seq<char>, Seq<char>)> {
    s.map_values(|p: (String, String)| (p.0@, p.1@))
}

/// The suffix that marks a module stylesheet.
pub open spec fn module_css_suffix() -> Seq<char> {
    ".module.css"@
}

/// The `(source path, local binding)` pairs of the default imports whose
/// source ends with the module-stylesheet suffix, in report order.
pub open spec fn css_imports_spec(imports: Seq<ImportFactV>) -> Seq<(Seq<char>, Seq<char>)>
    decreases imports.len(),
{
    if imports.len() == 0 {
        Seq::<(Seq<char>, Seq<char>)>::empty()
    } else {
        let rest = css_imports_spec(imports.drop_last());
        let f = imports.last();
        rest + if f.is_default && ends_with_spec(f.source, module_css_suffix()) {
            seq![(f.source, f.local)]
        } else {
            Seq::<(Seq<char>, Seq<char>)>::empty()
        }
    }
}

/// Selects, from the reported import declarations, the default imports of
/// module stylesheets, as `(source path, local binding)` pairs.
pub fn extract_default_css_imports(imports: &Vec<ImportFact>) -> (r: Vec<(String, String)>)
    ensures
        pairs_of(r@) == css_imports_spec(imports_of(imports@)),
{
    let suffix = str_to_chars(".module.css");
    let mut r: Vec<(String, String)> = Vec::new();
    let mut i: usize = 0;
    assert(imports_of(imports@).take(0) =~= Seq::<ImportFactV>::empty());
    while i < imports.len()
        invariant
            i <= imports.len(),
            suffix@ == ".module.css"@,
            pairs_of(r@) == css_imports_spec(imports_of(imports@).take(i as int)),
        decreases imports.len() - i,
    {
        let ghost iv = imports_of(imports@);
        proof {
            assert(iv.take(i as int + 1).drop_last() =~= iv.take(i as int));
            assert(iv.take(i as int + 1).last() == iv[i as int]);
        }
        let f = &imports[i];
        if f.is_default {
            let sv = str_to_chars(f.source.as_str());
            if chars_end_with(&sv, &suffix) {
                let ghost r0 = r@;
                r.push((f.source.clone(), f.local.clone()));
                assert(pairs_of(r@) =~= pairs_of(r0) + seq![(f.source@, f.local@)]);
            } else {
                assert(pairs_of(r@) + Seq::<(Seq<char>, Seq<char>)>::empty() =~= pairs_of(r@));
            }
        } else {
            assert(pairs_of(r@) + Seq::<(Seq<char>, Seq<char>)>::empty() =~= pairs_of(r@));
        }
        i = i + 1;
    }
    assert(imports_of(imports@).take(imports@.len() as int) =~= imports_of(imports@));
    r
}

/// The used-class symbols that the accesses on one binding yield: one per
/// access whose object is the binding, named by the accessed property, owned
/// by `file`, with the position taken directly from the reported source
/// location.
pub open spec fn usages_spec(
    accesses: Seq<MemberAccessV>,
    binding: Seq<char>,
    file: Seq<char>,
) -> Seq<UsedV>
    decreases accesses.len(),
{
    if accesses.len() == 0 {
        Seq::<UsedV>::empty()
    } else {
        let rest = usages_spec(accesses.drop_last(), binding, file);
        let a = accesses.last();
        rest + if a.object == binding {
            seq![UsedV { name: a.property, file: file, line: a.line, col: a.col }]
        } else {
            Seq::<UsedV>::empty()
        }
    }
}

/// Turns the reported member accesses on one local binding into used-class
/// symbols owned by `file_name`.
pub fn extract_used_classes(
    accesses: &Vec<MemberAccess>,
    variable_name: &str,
    file_name: &str,
) -> (r: Vec<UsedClassName>)
    ensures
        used_of(r@) == usages_spec(accesses_of(accesses@), variable_name@, file_name@),
{
    let binding = str_to_chars(variable_name);
    let mut r: Vec<UsedClassName> = Vec::new();
    let mut i: usize = 0;
    assert(accesses_of(accesses@).take(0) =~= Seq::<MemberAccessV>::empty());
    while i < accesses.len()
        invariant
            i <= accesses.len(),
            binding@ == variable_name@,
            used_of(r@) == usages_spec(
                accesses_of(accesses@).take(i as int),
                variable_name@,
                file_name@,
            ),
        decreases accesses.len() - i,
    {
        let ghost av = accesses_of(accesses@);
        proof {
            assert(av.take(i as int + 1).drop_last() =~= av.take(i as int));
            assert(av.take(i as int + 1).last() == av[i as int]);
        }
        let a = &accesses[i];
        let ov = str_to_chars(a.object.as_str());
        if crate::text::chars_equal(&ov, &binding) {
            let ghost r0 = r@;
            r.push(
                UsedClassName {
                    class_name: a.property.clone(),
                    file_name: file_name.to_owned(),
                    line: a.line,
                    column: a.column,
                },
            );
            assert(used_of(r@) =~= used_of(r0) + seq![
                UsedV {
                    name: av[i as int].property,
                    file: file_name@,
                    line: av[i as int].line,
                    col: av[i as int].col,
                },
            ]);
        } else {
            assert(used_of(r@) + Seq::<UsedV>::empty() =~= used_of(r@));
        }
        i = i + 1;
    }
    assert(accesses_of(accesses@).take(accesses@.len() as int) =~= accesses_of(accesses@));
    r
}

} // verus!
