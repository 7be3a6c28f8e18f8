//! The CSS symbol extractor: tokenizes one stylesheet's text into the class
//! names it defines, each with its 0-based source line and the column of the
//! `.` that introduced it. Comments, directive-controlled exclusion zones and
//! heuristically suspicious lines are skipped. All positions count
//! characters.
use crate::text::char_numeric;
use crate::text::char_whitespace;
use crate::text::chars_contain;
use crate::text::chars_start_with;
use crate::text::chars_to_string;
use crate::text::split_chars_into_lines;
use crate::text::split_lines_spec;
use crate::text::starts_with_spec;
use crate::text::str_to_chars;
use crate::text::strip_prefix_all;
use crate::text::strip_prefix_all_exec;
use crate::text::strip_suffix_all;
use crate::text::strip_suffix_all_exec;
use crate::text::subvec;
use crate::text::trim_end_spec;
use crate::text::trim_spec;
use crate::text::trim_start_spec;
use crate::text::views_of_lines;
use crate::text::ws_prefix_len;
use crate::text::ws_suffix_start;
use vstd::prelude::*;

verus! {

/// A class definition found in a stylesheet: its name, its 0-based line, and
/// the 0-based column of the `.` that started the selector token.
#[derive(Eq, Hash, PartialEq, Clone, Debug)]
pub struct ClassName {
    pub class_name: String,
    pub line_index: usize,
    pub column_index: usize,
}

/// The mathematical model of a defined-class symbol.
pub ghost struct SymbolV {
    pub name: Seq<char>,
    pub line: int,
    pub col: int,
}

impl View for ClassName {
    type V = SymbolV;

    open spec fn view(&self) -> SymbolV {
        SymbolV {
            name: self.class_name@,
            line: self.line_index as int,
            col: self.column_index as int,
        }
    }
}

impl ClassName {
    /// A field-for-field copy.
    pub fn duplicate(&self) -> (r: ClassName)
        ensures
            r == *self,
    {
        ClassName {
            class_name: self.class_name.clone(),
            line_index: self.line_index,
            column_index: self.column_index,
        }
    }
}

/// The views of a sequence of symbols.
pub open spec fn syms_of(s: Seq<ClassName>) -> Seq<SymbolV> {
    s.map_values(|c: ClassName| c@)
}

// ---------------------------------------------------------------------------
// Character classes and line heuristics.
// ---------------------------------------------------------------------------

/// Whether a character may extend a class-name token: a letter, a digit,
/// an underscore or a hyphen.
pub open spec fn ident_char(c: char) -> bool {
    crate::text::char_alphabetic(c) || char_numeric(c) || c == '_' || c == '-'
}

/// Whether a character may extend a class-name token.
pub fn is_char(c: char) -> (r: bool)
    ensures
        r == ident_char(c),
{
    c.is_alphabetic() || c.is_numeric() || c == '_' || c == '-'
}

/// Whether the token buffer starts with a numeric character; such a token is
/// never a CSS class name.
pub fn is_first_char_numeric(buffer: &Vec<char>) -> (r: bool)
    ensures
        r == (buffer@.len() > 0 && char_numeric(buffer@[0])),
{
    buffer.len() > 0 && buffer[0].is_numeric()
}

/// Characters that mark a line as a string, attribute selector or function
/// call rather than a plain class selector.
pub open spec fn forbidden_char(c: char) -> bool {
    c == '\'' || c == '"' || c == '=' || c == '(' || c == '['
}

/// A line holds such a character.
pub open spec fn has_forbidden(s: Seq<char>) -> bool {
    exists|i: int| 0 <= i < s.len() && forbidden_char(s[i])
}

/// Whether the line holds a character from the forbidden set; a best-effort
/// heuristic, not a CSS grammar.
pub fn contains_forbidden_characters(line: &Vec<char>) -> (r: bool)
    ensures
        r == has_forbidden(line@),
{
    let mut i: usize = 0;
    while i < line.len()
        invariant
            i <= line.len(),
            forall|j: int| 0 <= j < i ==> !forbidden_char(line@[j]),
        decreases line.len() - i,
    {
        let c = line[i];
        if c == '\'' || c == '"' || c == '=' || c == '(' || c == '[' {
            assert(forbidden_char(line@[i as int]));
            return true;
        }
        i = i + 1;
    }
    false
}

// ---------------------------------------------------------------------------
// The disable-rule directive.
// ---------------------------------------------------------------------------

pub open spec fn comment_open() -> Seq<char> {
    "/*"@
}

pub open spec fn comment_close() -> Seq<char> {
    "*/"@
}

pub open spec fn disable_flag() -> Seq<char> {
    "css-lint-disable-rule "@
}

pub open spec fn disable_rule_name() -> Seq<char> {
    "unused-class"@
}

/// A (whitespace-stripped) line that begins a block comment whose content,
/// after removing the comment markers and surrounding whitespace, is the
/// disable directive for the unused-class rule. Such a line suppresses
/// extraction on itself and on the following line.
pub open spec fn directive_line(stripped: Seq<char>) -> bool {
    starts_with_spec(stripped, comment_open()) && {
        let content = trim_spec(
            strip_suffix_all(strip_prefix_all(stripped, comment_open()), comment_close()),
        );
        starts_with_spec(content, disable_flag()) && starts_with_spec(
            trim_start_spec(content.skip(disable_flag().len() as int)),
            disable_rule_name(),
        )
    }
}

/// Decides `directive_line` on a stripped line.
pub fn is_directive_line(stripped: &Vec<char>) -> (r: bool)
    ensures
        r == directive_line(stripped@),
{
    let open = str_to_chars("/*");
    if !chars_start_with(stripped, &open) {
        return false;
    }
    let close = str_to_chars("*/");
    let no_open = strip_prefix_all_exec(stripped, &open);
    let no_close = strip_suffix_all_exec(&no_open, &close);
    let ws_end = ws_suffix_start(&no_close);
    let trimmed_end = subvec(&no_close, 0, ws_end);
    assert(trimmed_end@ == trim_end_spec(no_close@));
    let ws_start = ws_prefix_len(&trimmed_end);
    let content = subvec(&trimmed_end, ws_start, trimmed_end.len());
    assert(content@ == trim_start_spec(trimmed_end@));
    assert(content@ == trim_spec(
        strip_suffix_all(strip_prefix_all(stripped@, comment_open()), comment_close()),
    )) by {
        assert(trim_start_spec(trim_end_spec(no_close@)) == trim_end_spec(
            trim_start_spec(no_close@),
        )) by {
            lemma_trim_commutes(no_close@);
        }
    }
    let flag = str_to_chars("css-lint-disable-rule ");
    if !chars_start_with(&content, &flag) {
        return false;
    }
    let rest = subvec(&content, flag.len(), content.len());
    assert(rest@ =~= content@.skip(disable_flag().len() as int));
    let rest_ws = ws_prefix_len(&rest);
    let rest_trimmed = subvec(&rest, rest_ws, rest.len());
    let rule = str_to_chars("unused-class");
    chars_start_with(&rest_trimmed, &rule)
}

/// The number of leading whitespace characters.
pub open spec fn ws_count(s: Seq<char>) -> nat
    decreases s.len(),
{
    if s.len() > 0 && char_whitespace(s[0]) {
        1 + ws_count(s.drop_first())
    } else {
        0
    }
}

/// Trimming from the start drops exactly the leading whitespace characters.
proof fn lemma_trim_start_shape(s: Seq<char>)
    ensures
        ws_count(s) <= s.len(),
        trim_start_spec(s) == s.skip(ws_count(s) as int),
    decreases s.len(),
{
    if s.len() > 0 && char_whitespace(s[0]) {
        lemma_trim_start_shape(s.drop_first());
        assert(s.drop_first().skip(ws_count(s.drop_first()) as int) =~= s.skip(
            ws_count(s) as int,
        ));
    } else {
        assert(s.skip(0) =~= s);
    }
}

/// Dropping the last character commutes with trimming the start.
proof fn lemma_trim_start_drop_last(s: Seq<char>)
    requires
        s.len() > 0,
    ensures
        trim_start_spec(s.drop_last()) == if trim_start_spec(s).len() > 0 {
            trim_start_spec(s).drop_last()
        } else {
            Seq::<char>::empty()
        },
    decreases s.len(),
{
    if s.len() == 1 {
        assert(s.drop_last() =~= Seq::<char>::empty());
        assert(s.drop_first() =~= Seq::<char>::empty());
        assert(trim_start_spec(Seq::<char>::empty()) == Seq::<char>::empty());
    } else {
        assert(s.drop_last()[0] == s[0]);
        if char_whitespace(s[0]) {
            lemma_trim_start_drop_last(s.drop_first());
            assert(s.drop_last().drop_first() =~= s.drop_first().drop_last());
        } else {
        }
    }
}

/// Trimming whitespace from the two ends commutes.
proof fn lemma_trim_commutes(s: Seq<char>)
    ensures
        trim_start_spec(trim_end_spec(s)) == trim_end_spec(trim_start_spec(s)),
    decreases s.len(),
{
    if s.len() == 0 {
    } else if !char_whitespace(s.last()) {
        lemma_trim_start_shape(s);
        let ts = trim_start_spec(s);
        if ts.len() > 0 {
            assert(ts.last() == s.last());
        }
    } else {
        lemma_trim_start_drop_last(s);
        lemma_trim_commutes(s.drop_last());
        let ts = trim_start_spec(s);
        if ts.len() > 0 {
            lemma_trim_start_shape(s);
            assert(ts.last() == s.last());
        }
    }
}

// ---------------------------------------------------------------------------
// Block-comment removal.
// ---------------------------------------------------------------------------

/// The text of a line with `/* ... */` comments removed, together with the
/// comment-continuation flag after the line; the flag persists across line
/// boundaries.
pub open spec fn remove_comments_spec(s: Seq<char>, in_comment: bool) -> (Seq<char>, bool)
    decreases s.len(),
{
    if s.len() == 0 {
        (Seq::<char>::empty(), in_comment)
    } else if in_comment {
        if s.len() >= 2 && s[0] == '*' && s[1] == '/' {
            remove_comments_spec(s.skip(2), false)
        } else {
            remove_comments_spec(s.drop_first(), true)
        }
    } else {
        if s.len() >= 2 && s[0] == '/' && s[1] == '*' {
            remove_comments_spec(s.skip(2), true)
        } else {
            let r = remove_comments_spec(s.drop_first(), false);
            (seq![s[0]] + r.0, r.1)
        }
    }
}

/// Removes block comments from one line, updating the cross-line
/// comment-continuation flag.
pub fn remove_css_comments(line: &Vec<char>, in_comment: &mut bool) -> (r: Vec<char>)
    ensures
        r@ == remove_comments_spec(line@, *old(in_comment)).0,
        *final(in_comment) == remove_comments_spec(line@, *old(in_comment)).1,
        r.len() <= line.len(),
{
    let mut out: Vec<char> = Vec::new();
    let mut i: usize = 0;
    assert(line@.skip(0) =~= line@);
    while i < line.len()
        invariant
            i <= line.len(),
            out.len() <= i,
            remove_comments_spec(line@, *old(in_comment)).0 == out@ + remove_comments_spec(
                line@.skip(i as int),
                *in_comment,
            ).0,
            remove_comments_spec(line@, *old(in_comment)).1 == remove_comments_spec(
                line@.skip(i as int),
                *in_comment,
            ).1,
        decreases line.len() - i,
    {
        let ghost rest = line@.skip(i as int);
        assert(rest[0] == line@[i as int]);
        assert(i + 1 < line.len() ==> rest[1] == line@[i as int + 1]);
        assert(i + 2 <= line.len() ==> rest.skip(2) =~= line@.skip(i as int + 2));
        assert(rest.drop_first() =~= line@.skip(i as int + 1));
        if *in_comment {
            if line[i] == '*' && i + 1 < line.len() && line[i + 1] == '/' {
                *in_comment = false;
                i = i + 2;
            } else {
                i = i + 1;
            }
        } else {
            if line[i] == '/' && i + 1 < line.len() && line[i + 1] == '*' {
                *in_comment = true;
                i = i + 2;
            } else {
                let ghost out0 = out@;
                out.push(line[i]);
                i = i + 1;
                assert(out@ + remove_comments_spec(rest.drop_first(), false).0 =~= out0 + (seq![
                    rest[0],
                ] + remove_comments_spec(rest.drop_first(), false).0));
            }
        }
    }
    assert(line@.skip(line@.len() as int) =~= Seq::<char>::empty());
    assert(out@ + Seq::<char>::empty() =~= out@);
    out
}

// ---------------------------------------------------------------------------
// The per-line tokenizer.
// ---------------------------------------------------------------------------

/// The symbol a flush of the token buffer emits: the buffered name at the
/// recorded start column, unless the buffer is empty or starts with a digit.
pub open spec fn flush_sym(buf: Seq<char>, start: int, line: int, indent: int) -> Seq<SymbolV> {
    if buf.len() > 0 && !char_numeric(buf[0]) {
        seq![SymbolV { name: buf, line: line, col: start + indent }]
    } else {
        Seq::<SymbolV>::empty()
    }
}

/// The tokenizer's state machine over the cleaned line `s`, from position
/// `pos`: a `.` flushes the buffer and starts a new token at that column; an
/// identifier character extends an active token; any other character flushes
/// and deactivates accumulation; the end of the line flushes.
pub open spec fn tok(
    s: Seq<char>,
    pos: int,
    buf: Seq<char>,
    start: int,
    is_class: bool,
    line: int,
    indent: int,
) -> Seq<SymbolV>
    decreases s.len() - pos,
{
    if pos < 0 || pos >= s.len() {
        flush_sym(buf, start, line, indent)
    } else if s[pos] == '.' {
        flush_sym(buf, start, line, indent) + tok(
            s,
            pos + 1,
            Seq::<char>::empty(),
            pos,
            true,
            line,
            indent,
        )
    } else if is_class && ident_char(s[pos]) {
        tok(s, pos + 1, buf.push(s[pos]), start, is_class, line, indent)
    } else if buf.len() > 0 {
        flush_sym(buf, start, line, indent) + tok(
            s,
            pos + 1,
            Seq::<char>::empty(),
            start,
            false,
            line,
            indent,
        )
    } else {
        tok(s, pos + 1, buf, start, is_class, line, indent)
    }
}

/// The symbols one cleaned line contributes.
pub open spec fn line_symbols(clean: Seq<char>, line: int, indent: int) -> Seq<SymbolV> {
    tok(clean, 0, Seq::<char>::empty(), 0, false, line, indent)
}

/// Flushes the token buffer into `out`.
fn flush_into(
    out: &mut Vec<ClassName>,
    buffer: &Vec<char>,
    start_index: usize,
    line_idx: usize,
    indent: usize,
)
    requires
        start_index + indent <= usize::MAX,
    ensures
        syms_of(final(out)@) == syms_of(old(out)@) + flush_sym(
            buffer@,
            start_index as int,
            line_idx as int,
            indent as int,
        ),
{
    if !buffer.is_empty() && !is_first_char_numeric(buffer) {
        let name = chars_to_string(buffer);
        out.push(
            ClassName {
                class_name: name,
                line_index: line_idx,
                column_index: start_index + indent,
            },
        );
        assert(syms_of(out@) =~= syms_of(old(out)@) + flush_sym(
            buffer@,
            start_index as int,
            line_idx as int,
            indent as int,
        ));
    } else {
        assert(syms_of(out@) =~= syms_of(old(out)@) + flush_sym(
            buffer@,
            start_index as int,
            line_idx as int,
            indent as int,
        ));
    }
}

/// Tokenizes one cleaned line into its class symbols.
fn tokenize_line(clean: &Vec<char>, line_idx: usize, indent: usize) -> (out: Vec<ClassName>)
    requires
        clean.len() + indent <= usize::MAX,
    ensures
        syms_of(out@) == line_symbols(clean@, line_idx as int, indent as int),
{
    let ghost l = line_idx as int;
    let ghost ind = indent as int;
    let mut out: Vec<ClassName> = Vec::new();
    let mut buffer: Vec<char> = Vec::new();
    let mut is_class = false;
    let mut start_index: usize = 0;
    let mut pos: usize = 0;
    while pos < clean.len()
        invariant
            l == line_idx as int,
            ind == indent as int,
            pos <= clean.len(),
            start_index <= clean.len(),
            clean.len() + indent <= usize::MAX,
            line_symbols(clean@, l, ind) == syms_of(out@) + tok(
                clean@,
                pos as int,
                buffer@,
                start_index as int,
                is_class,
                l,
                ind,
            ),
        decreases clean.len() - pos,
    {
        let ghost out0 = out@;
        let ghost buf0 = buffer@;
        let ghost start0 = start_index as int;
        let ghost is0 = is_class;
        let ghost pos0 = pos as int;
        let c = clean[pos];
        if c == '.' {
            flush_into(&mut out, &buffer, start_index, line_idx, indent);
            assert(syms_of(out@) == syms_of(out0) + flush_sym(buf0, start0, line_idx as int, indent as int));
            buffer.clear();
            start_index = pos;
            is_class = true;
            assert(syms_of(out@) + tok(clean@, pos0 + 1, buffer@, pos0, true, l, ind)
                =~= syms_of(out0) + (flush_sym(buf0, start0, l, ind) + tok(
                clean@,
                pos0 + 1,
                Seq::<char>::empty(),
                pos0,
                true,
                l,
                ind,
            )));
        } else if is_class && is_char(c) {
            buffer.push(c);
        } else if buffer.len() > 0 {
            flush_into(&mut out, &buffer, start_index, line_idx, indent);
            assert(syms_of(out@) == syms_of(out0) + flush_sym(buf0, start0, line_idx as int, indent as int));
            buffer.clear();
            is_class = false;
            assert(syms_of(out@) + tok(clean@, pos0 + 1, buffer@, start0, false, l, ind)
                =~= syms_of(out0) + (flush_sym(buf0, start0, l, ind) + tok(
                clean@,
                pos0 + 1,
                Seq::<char>::empty(),
                start0,
                false,
                l,
                ind,
            )));
        }
        pos = pos + 1;
    }
    flush_into(&mut out, &buffer, start_index, line_idx, indent);
    out
}

// ---------------------------------------------------------------------------
// The whole-stylesheet extraction.
// ---------------------------------------------------------------------------

/// The symbols of the lines from index `k` on, given the directive skip
/// counter and the comment-continuation flag at that point.
pub open spec fn extract_lines(lines: Seq<Seq<char>>, k: int, skip: int, in_comment: bool) -> Seq<
    SymbolV,
>
    decreases lines.len() - k,
{
    if k < 0 || k >= lines.len() {
        Seq::<SymbolV>::empty()
    } else {
        let line = lines[k];
        let stripped = trim_start_spec(line);
        let indent = line.len() - stripped.len();
        let skip1: int = if directive_line(stripped) {
            2
        } else {
            skip
        };
        if skip1 > 0 {
            extract_lines(lines, k + 1, skip1 - 1, in_comment)
        } else {
            let rc = remove_comments_spec(stripped, in_comment);
            if !rc.0.contains('.') || has_forbidden(rc.0) {
                extract_lines(lines, k + 1, 0, rc.1)
            } else {
                line_symbols(rc.0, k, indent) + extract_lines(lines, k + 1, 0, rc.1)
            }
        }
    }
}

/// The defined-class symbols of a whole stylesheet text.
pub open spec fn spec_extract(text: Seq<char>) -> Seq<SymbolV> {
    extract_lines(split_lines_spec(text), 0, 0, false)
}

/// Extracts every class symbol a stylesheet defines: exactly one symbol per
/// class-selector token found outside comments, strings and
/// directive-disabled regions, at its (line, column) occurrence.
pub fn extract_classes(css_content: &str) -> (out: Vec<ClassName>)
    ensures
        syms_of(out@) == spec_extract(css_content@),
{
    let chars = str_to_chars(css_content);
    let lines = split_chars_into_lines(&chars);
    let ghost lv = views_of_lines(lines@);
    assert(lv == split_lines_spec(css_content@));
    let mut out: Vec<ClassName> = Vec::new();
    let mut skip_lines_remaining: usize = 0;
    let mut in_multiline_comment = false;
    let mut k: usize = 0;
    assert(syms_of(out@) + extract_lines(lv, 0, 0, false) =~= extract_lines(lv, 0, 0, false));
    while k < lines.len()
        invariant
            k <= lines.len(),
            lv == views_of_lines(lines@),
            lv == split_lines_spec(css_content@),
            spec_extract(css_content@) == syms_of(out@) + extract_lines(
                lv,
                k as int,
                skip_lines_remaining as int,
                in_multiline_comment,
            ),
        decreases lines.len() - k,
    {
        let ghost out0 = out@;
        let ghost skip0 = skip_lines_remaining as int;
        let ghost inc0 = in_multiline_comment;
        let line = &lines[k];
        assert(lv[k as int] == line@);
        let wn = ws_prefix_len(line);
        let stripped = subvec(line, wn, line.len());
        assert(stripped@ =~= line@.skip(wn as int));
        assert(stripped@ == trim_start_spec(line@));
        let indent = wn;
        assert(indent as int == line@.len() - stripped@.len());
        if is_directive_line(&stripped) {
            skip_lines_remaining = 2;
        }
        if skip_lines_remaining != 0 {
            skip_lines_remaining = skip_lines_remaining - 1;
            assert(extract_lines(lv, k as int, skip0, inc0) == extract_lines(
                lv,
                k as int + 1,
                skip_lines_remaining as int,
                in_multiline_comment,
            ));
        } else {
            let clean = remove_css_comments(&stripped, &mut in_multiline_comment);
            let ghost rc = remove_comments_spec(stripped@, inc0);
            assert(clean@ == rc.0 && in_multiline_comment == rc.1);
            if !chars_contain(&clean, '.') || contains_forbidden_characters(&clean) {
                assert(extract_lines(lv, k as int, skip0, inc0) == extract_lines(
                    lv,
                    k as int + 1,
                    0,
                    in_multiline_comment,
                ));
            } else {
                assert(clean.len() + indent <= line.len());
                let mut syms = tokenize_line(&clean, k, indent);
                let ghost symsv = syms@;
                out.append(&mut syms);
                assert(syms_of(out@) =~= syms_of(out0) + syms_of(symsv));
                assert(extract_lines(lv, k as int, skip0, inc0) == line_symbols(
                    rc.0,
                    k as int,
                    indent as int,
                ) + extract_lines(lv, k as int + 1, 0, in_multiline_comment));
                assert(syms_of(out@) + extract_lines(lv, k as int + 1, 0, in_multiline_comment)
                    =~= syms_of(out0) + extract_lines(lv, k as int, skip0, inc0));
            }
        }
        k = k + 1;
    }
    assert(extract_lines(lv, k as int, skip_lines_remaining as int, in_multiline_comment)
        =~= Seq::<SymbolV>::empty());
    assert(syms_of(out@) + Seq::<SymbolV>::empty() =~= syms_of(out@));
    out
}

// ---------------------------------------------------------------------------
// Properties of the extraction.
// ---------------------------------------------------------------------------

/// A symbol the tokenizer may emit for line `line`: it lies on that line,
/// its name is non-empty, and its name does not start with a numeric
/// character.
pub open spec fn tok_sym_ok(e: SymbolV, line: int) -> bool {
    e.line == line && e.name.len() > 0 && !char_numeric(e.name[0])
}

/// A symbol the extraction may emit from line `k` on.
pub open spec fn extracted_sym_ok(e: SymbolV, k: int) -> bool {
    e.line >= k && e.name.len() > 0 && !char_numeric(e.name[0])
}

/// Every symbol the tokenizer emits satisfies `tok_sym_ok` for its line.
proof fn lemma_tok_elements(
    s: Seq<char>,
    pos: int,
    buf: Seq<char>,
    start: int,
    is_class: bool,
    line: int,
    indent: int,
)
    ensures
        forall|i: int|
            0 <= i < tok(s, pos, buf, start, is_class, line, indent).len() ==> tok_sym_ok(
                #[trigger] tok(s, pos, buf, start, is_class, line, indent)[i],
                line,
            ),
    decreases s.len() - pos,
{
    let t = tok(s, pos, buf, start, is_class, line, indent);
    let f = flush_sym(buf, start, line, indent);
    if pos < 0 || pos >= s.len() {
        assert forall|i: int| 0 <= i < t.len() implies tok_sym_ok(t[i], line) by {
            assert(t[i] == f[i]);
        };
    } else if s[pos] == '.' {
        lemma_tok_elements(s, pos + 1, Seq::<char>::empty(), pos, true, line, indent);
        let rest = tok(s, pos + 1, Seq::<char>::empty(), pos, true, line, indent);
        assert forall|i: int| 0 <= i < t.len() implies tok_sym_ok(t[i], line) by {
            if i < f.len() {
                assert(t[i] == f[i]);
            } else {
                assert(t[i] == rest[i - f.len()]);
                assert(tok_sym_ok(rest[i - f.len()], line));
            }
        };
    } else if is_class && ident_char(s[pos]) {
        lemma_tok_elements(s, pos + 1, buf.push(s[pos]), start, is_class, line, indent);
        let rest = tok(s, pos + 1, buf.push(s[pos]), start, is_class, line, indent);
        assert forall|i: int| 0 <= i < t.len() implies tok_sym_ok(t[i], line) by {
            assert(t[i] == rest[i]);
            assert(tok_sym_ok(rest[i], line));
        };
    } else if buf.len() > 0 {
        lemma_tok_elements(s, pos + 1, Seq::<char>::empty(), start, false, line, indent);
        let rest = tok(s, pos + 1, Seq::<char>::empty(), start, false, line, indent);
        assert forall|i: int| 0 <= i < t.len() implies tok_sym_ok(t[i], line) by {
            if i < f.len() {
                assert(t[i] == f[i]);
            } else {
                assert(t[i] == rest[i - f.len()]);
                assert(tok_sym_ok(rest[i - f.len()], line));
            }
        };
    } else {
        lemma_tok_elements(s, pos + 1, buf, start, is_class, line, indent);
        let rest = tok(s, pos + 1, buf, start, is_class, line, indent);
        assert forall|i: int| 0 <= i < t.len() implies tok_sym_ok(t[i], line) by {
            assert(t[i] == rest[i]);
            assert(tok_sym_ok(rest[i], line));
        };
    }
}

/// Every symbol extracted from the lines at index `k` on satisfies
/// `extracted_sym_ok` for `k`.
proof fn lemma_extract_lines_elements(lines: Seq<Seq<char>>, k: int, skip: int, in_comment: bool)
    ensures
        forall|i: int|
            0 <= i < extract_lines(lines, k, skip, in_comment).len() ==> extracted_sym_ok(
                #[trigger] extract_lines(lines, k, skip, in_comment)[i],
                k,
            ),
    decreases lines.len() - k,
{
    let t = extract_lines(lines, k, skip, in_comment);
    if k < 0 || k >= lines.len() {
    } else {
        let line = lines[k];
        let stripped = trim_start_spec(line);
        let indent = line.len() - stripped.len();
        let skip1: int = if directive_line(stripped) {
            2
        } else {
            skip
        };
        if skip1 > 0 {
            lemma_extract_lines_elements(lines, k + 1, skip1 - 1, in_comment);
            let rest = extract_lines(lines, k + 1, skip1 - 1, in_comment);
            assert forall|i: int| 0 <= i < t.len() implies extracted_sym_ok(t[i], k) by {
                assert(t[i] == rest[i]);
                assert(extracted_sym_ok(rest[i], k + 1));
            };
        } else {
            let rc = remove_comments_spec(stripped, in_comment);
            lemma_extract_lines_elements(lines, k + 1, 0, rc.1);
            let rest = extract_lines(lines, k + 1, 0, rc.1);
            if !(!rc.0.contains('.') || has_forbidden(rc.0)) {
                lemma_tok_elements(rc.0, 0, Seq::<char>::empty(), 0, false, k, indent as int);
                let syms = line_symbols(rc.0, k, indent as int);
                assert forall|i: int| 0 <= i < t.len() implies extracted_sym_ok(t[i], k) by {
                    if i < syms.len() {
                        assert(t[i] == syms[i]);
                        assert(tok_sym_ok(syms[i], k));
                    } else {
                        assert(t[i] == rest[i - syms.len()]);
                        assert(extracted_sym_ok(rest[i - syms.len()], k + 1));
                    }
                };
            } else {
                assert forall|i: int| 0 <= i < t.len() implies extracted_sym_ok(t[i], k) by {
                    assert(t[i] == rest[i]);
                    assert(extracted_sym_ok(rest[i], k + 1));
                };
            }
        }
    }
}

/// A class name whose first character is numeric — in particular one that
/// starts with a digit — is never reported as defined, and no reported name
/// is empty.
pub proof fn lemma_no_digit_start(text: Seq<char>, i: int)
    requires
        0 <= i < spec_extract(text).len(),
    ensures
        spec_extract(text)[i].name.len() > 0,
        !char_numeric(spec_extract(text)[i].name[0]),
{
    lemma_extract_lines_elements(split_lines_spec(text), 0, 0, false);
}

/// Extraction is a pure function of the stylesheet text: two runs over
/// identical text yield identical symbol sequences.
pub proof fn lemma_extraction_idempotent(text: Seq<char>, r1: Seq<SymbolV>, r2: Seq<SymbolV>)
    requires
        r1 == spec_extract(text),
        r2 == spec_extract(text),
    ensures
        r1 == r2,
{
}

proof fn lemma_directive_suppresses_rec(
    lines: Seq<Seq<char>>,
    k: int,
    skip: int,
    in_comment: bool,
    i: int,
)
    requires
        0 <= k <= i < lines.len(),
        directive_line(trim_start_spec(lines[i])),
    ensures
        forall|j: int|
            0 <= j < extract_lines(lines, k, skip, in_comment).len() ==> (#[trigger] extract_lines(
                lines,
                k,
                skip,
                in_comment,
            )[j]).line != i && extract_lines(lines, k, skip, in_comment)[j].line != i + 1,
    decreases i - k,
{
    let t = extract_lines(lines, k, skip, in_comment);
    if k < i {
        let line = lines[k];
        let stripped = trim_start_spec(line);
        let indent = line.len() - stripped.len();
        let skip1: int = if directive_line(stripped) {
            2
        } else {
            skip
        };
        if skip1 > 0 {
            lemma_directive_suppresses_rec(lines, k + 1, skip1 - 1, in_comment, i);
            let rest = extract_lines(lines, k + 1, skip1 - 1, in_comment);
            assert forall|j: int| 0 <= j < t.len() implies t[j].line != i && t[j].line != i + 1 by {
                assert(t[j] == rest[j]);
                assert(rest[j].line != i && rest[j].line != i + 1);
            };
        } else {
            let rc = remove_comments_spec(stripped, in_comment);
            lemma_directive_suppresses_rec(lines, k + 1, 0, rc.1, i);
            let rest = extract_lines(lines, k + 1, 0, rc.1);
            if !(!rc.0.contains('.') || has_forbidden(rc.0)) {
                lemma_tok_elements(rc.0, 0, Seq::<char>::empty(), 0, false, k, indent as int);
                let syms = line_symbols(rc.0, k, indent as int);
                assert forall|j: int| 0 <= j < t.len() implies t[j].line != i && t[j].line != i
                    + 1 by {
                    if j < syms.len() {
                        assert(t[j] == syms[j]);
                        assert(tok_sym_ok(syms[j], k));
                    } else {
                        assert(t[j] == rest[j - syms.len()]);
                        assert(rest[j - syms.len()].line != i && rest[j - syms.len()].line != i
                            + 1);
                    }
                };
            } else {
                assert forall|j: int| 0 <= j < t.len() implies t[j].line != i && t[j].line != i
                    + 1 by {
                    assert(t[j] == rest[j]);
                    assert(rest[j].line != i && rest[j].line != i + 1);
                };
            }
        }
    } else {
        // k == i: the directive line itself sets the skip counter to two, so
        // this line and the next contribute nothing, and everything after
        // lies on a line at or past i + 2.
        if k + 1 >= lines.len() {
            assert(t == extract_lines(lines, k + 1, 1, in_comment));
            assert(t.len() == 0);
        } else {
            let next_stripped = trim_start_spec(lines[k + 1]);
            let skip_next: int = if directive_line(next_stripped) {
                2
            } else {
                1
            };
            lemma_extract_lines_elements(lines, k + 2, skip_next - 1, in_comment);
            let rest = extract_lines(lines, k + 2, skip_next - 1, in_comment);
            assert(t == extract_lines(lines, k + 1, 1, in_comment));
            assert(extract_lines(lines, k + 1, 1, in_comment) == rest);
            assert forall|j: int| 0 <= j < t.len() implies t[j].line != i && t[j].line != i + 1 by {
                assert(t[j] == rest[j]);
                assert(extracted_sym_ok(rest[j], k + 2));
            };
        }
    }
}

/// A strict position order: by line, then by column.
pub open spec fn sym_pos_lt(a: SymbolV, b: SymbolV) -> bool {
    a.line < b.line || (a.line == b.line && a.col < b.col)
}

/// The lowest column a symbol emitted from this tokenizer state can carry:
/// the pending token's start while one may still be flushed, else the
/// current position.
pub open spec fn tok_col_floor(
    pos: int,
    buf: Seq<char>,
    start: int,
    is_class: bool,
    indent: int,
) -> int {
    if buf.len() > 0 || is_class {
        start + indent
    } else {
        pos + indent
    }
}

/// Columns strictly increase through the tokenizer's output, and never fall
/// below the state's floor.
proof fn lemma_tok_cols_increase(
    s: Seq<char>,
    pos: int,
    buf: Seq<char>,
    start: int,
    is_class: bool,
    line: int,
    indent: int,
)
    requires
        0 <= start <= pos,
        buf.len() > 0 ==> start < pos,
    ensures
        forall|i: int, j: int|
            #![trigger tok(s, pos, buf, start, is_class, line, indent)[i], tok(s, pos, buf, start, is_class, line, indent)[j]]
            0 <= i < j < tok(s, pos, buf, start, is_class, line, indent).len() ==> tok(
                s,
                pos,
                buf,
                start,
                is_class,
                line,
                indent,
            )[i].col < tok(s, pos, buf, start, is_class, line, indent)[j].col,
        forall|i: int|
            0 <= i < tok(s, pos, buf, start, is_class, line, indent).len() ==> (#[trigger] tok(
                s,
                pos,
                buf,
                start,
                is_class,
                line,
                indent,
            )[i]).col >= tok_col_floor(pos, buf, start, is_class, indent),
    decreases s.len() - pos,
{
    let t = tok(s, pos, buf, start, is_class, line, indent);
    let f = flush_sym(buf, start, line, indent);
    if pos < 0 || pos >= s.len() {
    } else if s[pos] == '.' {
        lemma_tok_cols_increase(s, pos + 1, Seq::<char>::empty(), pos, true, line, indent);
        let rest = tok(s, pos + 1, Seq::<char>::empty(), pos, true, line, indent);
        assert forall|i: int| 0 <= i < t.len() implies t[i].col >= tok_col_floor(
            pos,
            buf,
            start,
            is_class,
            indent,
        ) by {
            if i < f.len() {
                assert(t[i] == f[i]);
            } else {
                assert(t[i] == rest[i - f.len()]);
                assert(rest[i - f.len()].col >= pos + indent);
            }
        }
        assert forall|i: int, j: int| 0 <= i < j < t.len() implies t[i].col < t[j].col by {
            if i < f.len() {
                assert(t[i] == f[i]);
                assert(t[j] == rest[j - f.len()]);
                assert(rest[j - f.len()].col >= pos + indent);
            } else {
                assert(t[i] == rest[i - f.len()] && t[j] == rest[j - f.len()]);
            }
        }
    } else if is_class && ident_char(s[pos]) {
        lemma_tok_cols_increase(s, pos + 1, buf.push(s[pos]), start, is_class, line, indent);
        let rest = tok(s, pos + 1, buf.push(s[pos]), start, is_class, line, indent);
        assert forall|i: int| 0 <= i < t.len() implies t[i].col >= tok_col_floor(
            pos,
            buf,
            start,
            is_class,
            indent,
        ) by {
            assert(t[i] == rest[i]);
            assert(rest[i].col >= start + indent);
        }
        assert forall|i: int, j: int| 0 <= i < j < t.len() implies t[i].col < t[j].col by {
            assert(t[i] == rest[i] && t[j] == rest[j]);
        }
    } else if buf.len() > 0 {
        lemma_tok_cols_increase(s, pos + 1, Seq::<char>::empty(), start, false, line, indent);
        let rest = tok(s, pos + 1, Seq::<char>::empty(), start, false, line, indent);
        assert forall|i: int| 0 <= i < t.len() implies t[i].col >= tok_col_floor(
            pos,
            buf,
            start,
            is_class,
            indent,
        ) by {
            if i < f.len() {
                assert(t[i] == f[i]);
            } else {
                assert(t[i] == rest[i - f.len()]);
                assert(rest[i - f.len()].col >= pos + 1 + indent);
            }
        }
        assert forall|i: int, j: int| 0 <= i < j < t.len() implies t[i].col < t[j].col by {
            if i < f.len() {
                assert(t[i] == f[i]);
                assert(t[j] == rest[j - f.len()]);
                assert(rest[j - f.len()].col >= pos + 1 + indent);
            } else {
                assert(t[i] == rest[i - f.len()] && t[j] == rest[j - f.len()]);
            }
        }
    } else {
        lemma_tok_cols_increase(s, pos + 1, buf, start, is_class, line, indent);
        let rest = tok(s, pos + 1, buf, start, is_class, line, indent);
        assert forall|i: int| 0 <= i < t.len() implies t[i].col >= tok_col_floor(
            pos,
            buf,
            start,
            is_class,
            indent,
        ) by {
            assert(t[i] == rest[i]);
            assert(rest[i].col >= tok_col_floor(pos + 1, buf, start, is_class, indent));
        }
        assert forall|i: int, j: int| 0 <= i < j < t.len() implies t[i].col < t[j].col by {
            assert(t[i] == rest[i] && t[j] == rest[j]);
        }
    }
}

/// Source positions strictly increase through the extraction's output.
proof fn lemma_extract_lines_increasing(
    lines: Seq<Seq<char>>,
    k: int,
    skip: int,
    in_comment: bool,
)
    ensures
        forall|i: int, j: int|
            #![trigger extract_lines(lines, k, skip, in_comment)[i], extract_lines(lines, k, skip, in_comment)[j]]
            0 <= i < j < extract_lines(lines, k, skip, in_comment).len() ==> sym_pos_lt(
                extract_lines(lines, k, skip, in_comment)[i],
                extract_lines(lines, k, skip, in_comment)[j],
            ),
    decreases lines.len() - k,
{
    let t = extract_lines(lines, k, skip, in_comment);
    if k < 0 || k >= lines.len() {
    } else {
        let line = lines[k];
        let stripped = trim_start_spec(line);
        let indent = line.len() - stripped.len();
        let skip1: int = if directive_line(stripped) {
            2
        } else {
            skip
        };
        if skip1 > 0 {
            lemma_extract_lines_increasing(lines, k + 1, skip1 - 1, in_comment);
            let rest = extract_lines(lines, k + 1, skip1 - 1, in_comment);
            assert forall|i: int, j: int| 0 <= i < j < t.len() implies sym_pos_lt(
                t[i],
                t[j],
            ) by {
                assert(t[i] == rest[i] && t[j] == rest[j]);
                assert(sym_pos_lt(rest[i], rest[j]));
            }
        } else {
            let rc = remove_comments_spec(stripped, in_comment);
            lemma_extract_lines_increasing(lines, k + 1, 0, rc.1);
            let rest = extract_lines(lines, k + 1, 0, rc.1);
            if !(!rc.0.contains('.') || has_forbidden(rc.0)) {
                lemma_tok_cols_increase(rc.0, 0, Seq::<char>::empty(), 0, false, k, indent as int);
                lemma_tok_elements(rc.0, 0, Seq::<char>::empty(), 0, false, k, indent as int);
                lemma_extract_lines_elements(lines, k + 1, 0, rc.1);
                let syms = line_symbols(rc.0, k, indent as int);
                assert forall|i: int, j: int| 0 <= i < j < t.len() implies sym_pos_lt(
                    t[i],
                    t[j],
                ) by {
                    if j < syms.len() {
                        assert(t[i] == syms[i] && t[j] == syms[j]);
                        assert(tok_sym_ok(syms[i], k) && tok_sym_ok(syms[j], k));
                        assert(syms[i].col < syms[j].col);
                    } else if i < syms.len() {
                        assert(t[i] == syms[i]);
                        assert(t[j] == rest[j - syms.len()]);
                        assert(tok_sym_ok(syms[i], k));
                        assert(extracted_sym_ok(rest[j - syms.len()], k + 1));
                    } else {
                        assert(t[i] == rest[i - syms.len()] && t[j] == rest[j - syms.len()]);
                        assert(sym_pos_lt(rest[i - syms.len()], rest[j - syms.len()]));
                    }
                }
            } else {
                assert forall|i: int, j: int| 0 <= i < j < t.len() implies sym_pos_lt(
                    t[i],
                    t[j],
                ) by {
                    assert(t[i] == rest[i] && t[j] == rest[j]);
                    assert(sym_pos_lt(rest[i], rest[j]));
                }
            }
        }
    }
}

/// Exactly one symbol is reported per distinct (line, column) occurrence:
/// positions strictly increase through the extraction's output, so no two
/// reported symbols share a source position.
pub proof fn lemma_one_symbol_per_position(text: Seq<char>, i: int, j: int)
    requires
        0 <= i < j < spec_extract(text).len(),
    ensures
        sym_pos_lt(spec_extract(text)[i], spec_extract(text)[j]),
        spec_extract(text)[i].line != spec_extract(text)[j].line || spec_extract(text)[i].col
            != spec_extract(text)[j].col,
{
    lemma_extract_lines_increasing(split_lines_spec(text), 0, 0, false);
}

/// The disable-rule directive suppresses exactly its own line and the one
/// line following it: no extracted symbol lies on either, regardless of
/// what those lines hold.
pub proof fn lemma_directive_suppresses(text: Seq<char>, i: int)
    requires
        0 <= i < split_lines_spec(text).len(),
        directive_line(trim_start_spec(split_lines_spec(text)[i])),
    ensures
        forall|j: int|
            0 <= j < spec_extract(text).len() ==> (#[trigger] spec_extract(text)[j]).line != i
                && spec_extract(text)[j].line != i + 1,
{
    lemma_directive_suppresses_rec(split_lines_spec(text), 0, 0, false, i);
}

// ---------------------------------------------------------------------------
// Completeness of the extraction.
// ---------------------------------------------------------------------------

/// One step of the line scan's control state: the (skip counter, comment
/// flag) pair carried out of a line.
pub open spec fn step_state(st: (int, bool), line: Seq<char>) -> (int, bool) {
    let stripped = trim_start_spec(line);
    let skip1: int = if directive_line(stripped) {
        2
    } else {
        st.0
    };
    if skip1 > 0 {
        (skip1 - 1, st.1)
    } else {
        (0int, remove_comments_spec(stripped, st.1).1)
    }
}

/// The control state the scan carries into line `k`.
pub open spec fn scan_state(lines: Seq<Seq<char>>, k: int) -> (int, bool)
    decreases k,
{
    if k <= 0 {
        (0int, false)
    } else {
        step_state(scan_state(lines, k - 1), lines[k - 1])
    }
}

proof fn lemma_scan_skip_bound(lines: Seq<Seq<char>>, k: int)
    ensures
        0 <= scan_state(lines, k).0 <= 1,
    decreases k,
{
    if k > 0 {
        lemma_scan_skip_bound(lines, k - 1);
    }
}

/// A line that neither holds a directive nor follows one is scanned with no
/// pending skip: the directive's suppression reaches exactly its own line
/// and the next, never further.
pub proof fn lemma_no_pending_skip(lines: Seq<Seq<char>>, k: int)
    requires
        0 <= k,
        k == 0 || !directive_line(trim_start_spec(lines[k - 1])),
    ensures
        scan_state(lines, k).0 == 0,
{
    if k > 0 {
        lemma_scan_skip_bound(lines, k - 1);
    }
}

/// A symbol of the suffix scan starting at line `k`, under the scan's own
/// state for `k`, is a symbol of the whole extraction.
proof fn lemma_extract_suffix_contained(lines: Seq<Seq<char>>, k: int, sym: SymbolV)
    requires
        0 <= k <= lines.len(),
        extract_lines(lines, k, scan_state(lines, k).0, scan_state(lines, k).1).contains(sym),
    ensures
        extract_lines(lines, 0, 0, false).contains(sym),
    decreases k,
{
    if k == 0 {
    } else {
        let st = scan_state(lines, k - 1);
        let prev = extract_lines(lines, k - 1, st.0, st.1);
        let cur = extract_lines(lines, k, scan_state(lines, k).0, scan_state(lines, k).1);
        let line = lines[k - 1];
        let stripped = trim_start_spec(line);
        let indent = line.len() - stripped.len();
        let skip1: int = if directive_line(stripped) {
            2
        } else {
            st.0
        };
        if skip1 > 0 {
            assert(scan_state(lines, k) == (skip1 - 1, st.1));
            assert(prev == cur);
        } else {
            let rc = remove_comments_spec(stripped, st.1);
            assert(scan_state(lines, k) == (0int, rc.1));
            if !rc.0.contains('.') || has_forbidden(rc.0) {
                assert(prev == cur);
            } else {
                let syms = line_symbols(rc.0, k - 1, indent as int);
                assert(prev == syms + cur);
                let i = choose|i: int| 0 <= i < cur.len() && cur[i] == sym;
                assert(prev[syms.len() + i] == sym);
            }
        }
        lemma_extract_suffix_contained(lines, k - 1, sym);
    }
}

/// Walking a maximal name run right after a `.` flushes exactly that run as
/// a symbol at the dot's column.
proof fn lemma_tok_run(s: Seq<char>, p: int, c: int, n: int, line: int, indent: int)
    requires
        0 <= c,
        c + 1 <= p <= c + 1 + n,
        c + 1 + n <= s.len(),
        n >= 1,
        forall|j: int| c + 1 <= j < c + 1 + n ==> ident_char(s[j]) && s[j] != '.',
        !char_numeric(s[c + 1]),
        c + 1 + n == s.len() || !ident_char(s[c + 1 + n]),
    ensures
        tok(s, p, s.subrange(c + 1, p), c, true, line, indent).contains(
            SymbolV { name: s.subrange(c + 1, c + 1 + n), line: line, col: c + indent },
        ),
    decreases c + 1 + n - p,
{
    let buf = s.subrange(c + 1, p);
    let t = tok(s, p, buf, c, true, line, indent);
    let target = SymbolV { name: s.subrange(c + 1, c + 1 + n), line: line, col: c + indent };
    if p == c + 1 + n {
        assert(buf.len() == n);
        assert(buf[0] == s[c + 1]);
        let f = flush_sym(buf, c, line, indent);
        assert(f == seq![target]);
        if p >= s.len() {
            assert(t == f);
            assert(t[0] == target);
        } else if s[p] == '.' {
            assert(t == f + tok(s, p + 1, Seq::<char>::empty(), p, true, line, indent));
            assert(t[0] == target);
        } else {
            assert(!ident_char(s[p]));
            assert(t == f + tok(s, p + 1, Seq::<char>::empty(), c, false, line, indent));
            assert(t[0] == target);
        }
        assert(t.contains(target));
    } else {
        assert(ident_char(s[p]) && s[p] != '.');
        assert(t == tok(s, p + 1, buf.push(s[p]), c, true, line, indent));
        assert(buf.push(s[p]) =~= s.subrange(c + 1, p + 1));
        lemma_tok_run(s, p + 1, c, n, line, indent);
        assert(tok(s, p + 1, s.subrange(c + 1, p + 1), c, true, line, indent).contains(target));
    }
}

/// From any state left of the dot, the tokenizer reaches it and reports the
/// maximal name run that follows.
proof fn lemma_tok_reaches_dot(
    s: Seq<char>,
    pos: int,
    buf: Seq<char>,
    start: int,
    is_class: bool,
    line: int,
    indent: int,
    c: int,
    n: int,
)
    requires
        0 <= pos <= c,
        c < s.len(),
        s[c] == '.',
        c + 1 + n <= s.len(),
        n >= 1,
        forall|j: int| c + 1 <= j < c + 1 + n ==> ident_char(s[j]) && s[j] != '.',
        !char_numeric(s[c + 1]),
        c + 1 + n == s.len() || !ident_char(s[c + 1 + n]),
    ensures
        tok(s, pos, buf, start, is_class, line, indent).contains(
            SymbolV { name: s.subrange(c + 1, c + 1 + n), line: line, col: c + indent },
        ),
    decreases c - pos,
{
    let t = tok(s, pos, buf, start, is_class, line, indent);
    let target = SymbolV { name: s.subrange(c + 1, c + 1 + n), line: line, col: c + indent };
    let f = flush_sym(buf, start, line, indent);
    if pos == c {
        assert(s.subrange(c + 1, c + 1) =~= Seq::<char>::empty());
        lemma_tok_run(s, c + 1, c, n, line, indent);
        let rest = tok(s, c + 1, Seq::<char>::empty(), c, true, line, indent);
        assert(rest.contains(target));
        assert(t == f + rest);
        let i = choose|i: int| 0 <= i < rest.len() && rest[i] == target;
        assert(t[f.len() + i] == target);
        assert(t.contains(target));
    } else if s[pos] == '.' {
        lemma_tok_reaches_dot(s, pos + 1, Seq::<char>::empty(), pos, true, line, indent, c, n);
        let rest = tok(s, pos + 1, Seq::<char>::empty(), pos, true, line, indent);
        assert(t == f + rest);
        let i = choose|i: int| 0 <= i < rest.len() && rest[i] == target;
        assert(t[f.len() + i] == target);
        assert(t.contains(target));
    } else if is_class && ident_char(s[pos]) {
        lemma_tok_reaches_dot(s, pos + 1, buf.push(s[pos]), start, is_class, line, indent, c, n);
        assert(t == tok(s, pos + 1, buf.push(s[pos]), start, is_class, line, indent));
    } else if buf.len() > 0 {
        lemma_tok_reaches_dot(s, pos + 1, Seq::<char>::empty(), start, false, line, indent, c, n);
        let rest = tok(s, pos + 1, Seq::<char>::empty(), start, false, line, indent);
        assert(t == f + rest);
        let i = choose|i: int| 0 <= i < rest.len() && rest[i] == target;
        assert(t[f.len() + i] == target);
        assert(t.contains(target));
    } else {
        lemma_tok_reaches_dot(s, pos + 1, buf, start, is_class, line, indent, c, n);
        assert(t == tok(s, pos + 1, buf, start, is_class, line, indent));
    }
}

/// Completeness of the extraction: on a line scanned with no pending skip
/// that is not itself a directive line and whose cleaned text passes the
/// heuristics, every class-selector token — a `.` followed by a maximal run
/// of name characters whose first is not numeric — is reported as a symbol
/// on that line, at the dot's column in the cleaned text plus the stripped
/// indentation.
pub proof fn lemma_class_occurrence_reported(text: Seq<char>, k: int, c: int, n: int)
    requires
        ({
            let lines = split_lines_spec(text);
            let st = scan_state(lines, k);
            let stripped = trim_start_spec(lines[k]);
            let clean = remove_comments_spec(stripped, st.1).0;
            &&& 0 <= k < lines.len()
            &&& st.0 == 0
            &&& !directive_line(stripped)
            &&& !has_forbidden(clean)
            &&& 0 <= c < clean.len()
            &&& clean[c] == '.'
            &&& n >= 1
            &&& c + 1 + n <= clean.len()
            &&& (forall|j: int|
                c + 1 <= j < c + 1 + n ==> ident_char(clean[j]) && clean[j] != '.')
            &&& !char_numeric(clean[c + 1])
            &&& (c + 1 + n == clean.len() || !ident_char(clean[c + 1 + n]))
        }),
    ensures
        ({
            let lines = split_lines_spec(text);
            let st = scan_state(lines, k);
            let stripped = trim_start_spec(lines[k]);
            let clean = remove_comments_spec(stripped, st.1).0;
            let indent = lines[k].len() - stripped.len();
            spec_extract(text).contains(
                SymbolV { name: clean.subrange(c + 1, c + 1 + n), line: k, col: c + indent },
            )
        }),
{
    let lines = split_lines_spec(text);
    let st = scan_state(lines, k);
    let stripped = trim_start_spec(lines[k]);
    let rc = remove_comments_spec(stripped, st.1);
    let clean = rc.0;
    let indent = lines[k].len() - stripped.len();
    let target = SymbolV { name: clean.subrange(c + 1, c + 1 + n), line: k, col: c + indent };
    assert(clean.contains('.')) by {
        assert(clean[c] == '.');
    }
    let t_k = extract_lines(lines, k, st.0, st.1);
    let syms = line_symbols(clean, k, indent as int);
    assert(t_k == syms + extract_lines(lines, k + 1, 0, rc.1));
    lemma_tok_reaches_dot(clean, 0, Seq::<char>::empty(), 0, false, k, indent as int, c, n);
    assert(syms.contains(target));
    let i = choose|i: int| 0 <= i < syms.len() && syms[i] == target;
    assert(t_k[i] == target);
    assert(t_k.contains(target));
    lemma_extract_suffix_contained(lines, k, target);
}

/// The converse of the directive suppression: a line that neither holds a
/// directive nor follows one is scanned normally, so (when its cleaned text
/// passes the heuristics) every symbol the line-by-line model yields for it
/// is reported.
pub proof fn lemma_nondirective_line_reported(text: Seq<char>, k: int)
    requires
        ({
            let lines = split_lines_spec(text);
            &&& 0 <= k < lines.len()
            &&& !directive_line(trim_start_spec(lines[k]))
            &&& (k == 0 || !directive_line(trim_start_spec(lines[k - 1])))
        }),
    ensures
        ({
            let lines = split_lines_spec(text);
            let st = scan_state(lines, k);
            let stripped = trim_start_spec(lines[k]);
            let rc = remove_comments_spec(stripped, st.1);
            let indent = lines[k].len() - stripped.len();
            &&& st.0 == 0
            &&& (rc.0.contains('.') && !has_forbidden(rc.0) ==> forall|i: int|
                0 <= i < line_symbols(rc.0, k, indent).len() ==> spec_extract(text).contains(
                    #[trigger] line_symbols(rc.0, k, indent)[i],
                ))
        }),
{
    let lines = split_lines_spec(text);
    lemma_no_pending_skip(lines, k);
    let st = scan_state(lines, k);
    let stripped = trim_start_spec(lines[k]);
    let rc = remove_comments_spec(stripped, st.1);
    let indent = lines[k].len() - stripped.len();
    if rc.0.contains('.') && !has_forbidden(rc.0) {
        let t_k = extract_lines(lines, k, st.0, st.1);
        let syms = line_symbols(rc.0, k, indent as int);
        assert(t_k == syms + extract_lines(lines, k + 1, 0, rc.1));
        assert forall|i: int| 0 <= i < syms.len() implies spec_extract(text).contains(
            syms[i],
        ) by {
            assert(t_k[i] == syms[i]);
            assert(t_k.contains(syms[i]));
            lemma_extract_suffix_contained(lines, k, syms[i]);
        }
    }
}

} // verus!
