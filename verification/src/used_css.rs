//! Reporting where one class is used: filters the usage symbols of a
//! component by class name and renders one `path:line:column:name_length`
//! line per occurrence; and decides whether a resolved stylesheet import
//! refers to a given target stylesheet.
use crate::report::dec_rep;
use crate::text::chars_equal;
use crate::text::chars_to_string;
use crate::text::extend_chars;
use crate::text::replace_all;
use crate::text::replace_chars;
use crate::text::str_to_chars;
use crate::tsx_parser::UsedClassName;
use crate::tsx_parser::UsedV;
use crate::tsx_parser::used_of;
use vstd::prelude::*;

verus! {

/// A resolved import refers to the target stylesheet when it equals the
/// target after every `./` marker is removed.
pub open spec fn same_target_spec(target: Seq<char>, style_path: Seq<char>) -> bool {
    replace_all(style_path, "./"@, Seq::<char>::empty()) == target
}

/// Decides `same_target_spec`.
pub fn is_same_target(target: &str, style_path: &str) -> (r: bool)
    ensures
        r == same_target_spec(target@, style_path@),
{
    let sv = str_to_chars(style_path);
    let pat = str_to_chars("./");
    let none: Vec<char> = Vec::new();
    let stripped = replace_chars(&sv, &pat, &none);
    let tv = str_to_chars(target);
    chars_equal(&stripped, &tv)
}

/// One usage-report line: the component path, the 1-based line, the column
/// and the class name's length in characters.
pub open spec fn usage_line(path: Seq<char>, u: UsedV) -> Seq<char> {
    path + ":"@ + dec_rep(u.line) + ":"@ + dec_rep(u.col) + ":"@ + dec_rep(u.name.len() as int)
}

/// The usage-report lines for every usage carrying the class name, in
/// order.
pub open spec fn class_usage_lines_spec(
    usages: Seq<UsedV>,
    name: Seq<char>,
    path: Seq<char>,
) -> Seq<Seq<char>>
    decreases usages.len(),
{
    if usages.len() == 0 {
        Seq::<Seq<char>>::empty()
    } else {
        class_usage_lines_spec(usages.drop_last(), name, path) + if usages.last().name == name {
            seq![usage_line(path, usages.last())]
        } else {
            Seq::<Seq<char>>::empty()
        }
    }
}

/// Renders one line per usage of `class_name` among the component's usage
/// symbols, in report order.
pub fn get_class_usages(usages: &Vec<UsedClassName>, class_name: &str, path: &str) -> (r: Vec<
    String,
>)
    ensures
        crate::report::strs_of(r@) == class_usage_lines_spec(
            used_of(usages@),
            class_name@,
            path@,
        ),
{
    let namev = str_to_chars(class_name);
    let pathv = str_to_chars(path);
    let mut out: Vec<String> = Vec::new();
    let mut i: usize = 0;
    assert(used_of(usages@).take(0) =~= Seq::<UsedV>::empty());
    while i < usages.len()
        invariant
            i <= usages.len(),
            namev@ == class_name@,
            pathv@ == path@,
            crate::report::strs_of(out@) == class_usage_lines_spec(
                used_of(usages@).take(i as int),
                class_name@,
                path@,
            ),
        decreases usages.len() - i,
    {
        let ghost uv = used_of(usages@);
        proof {
            assert(uv.take(i as int + 1).drop_last() =~= uv.take(i as int));
            assert(uv.take(i as int + 1).last() == uv[i as int]);
        }
        let u = &usages[i];
        let un = str_to_chars(u.class_name.as_str());
        if chars_equal(&un, &namev) {
            let mut line = str_to_chars(path);
            let colon = str_to_chars(":");
            extend_chars(&mut line, &colon);
            let ln = crate::report::usize_to_chars(u.line);
            extend_chars(&mut line, &ln);
            extend_chars(&mut line, &colon);
            let col = crate::report::usize_to_chars(u.column);
            extend_chars(&mut line, &col);
            extend_chars(&mut line, &colon);
            let len = crate::report::usize_to_chars(un.len());
            extend_chars(&mut line, &len);
            assert(line@ =~= usage_line(path@, uv[i as int]));
            let ghost out0 = crate::report::strs_of(out@);
            out.push(chars_to_string(&line));
            assert(crate::report::strs_of(out@) =~= out0.push(usage_line(
                path@,
                uv[i as int],
            )));
            assert(crate::report::strs_of(out@) =~= class_usage_lines_spec(
                uv.take(i as int),
                class_name@,
                path@,
            ) + seq![usage_line(path@, uv[i as int])]);
        } else {
            assert(crate::report::strs_of(out@) + Seq::<Seq<char>>::empty() =~= crate::report::strs_of(
                out@,
            ));
        }
        i = i + 1;
    }
    assert(used_of(usages@).take(usages@.len() as int) =~= used_of(usages@));
    out
}

} // verus!
