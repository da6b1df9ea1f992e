//! AST-aware merge: operates at the SYMBOL level, not the line level.
//!
//! If agent A modifies `fn_a` and agent B modifies `fn_b` in the same file,
//! that is not a conflict even if line numbers shifted. Only same-symbol
//! modifications on both sides are true conflicts.

use vstd::prelude::*;
use vstd::string::StringSliceAdditionalSpecFns;
use vstd::utf8::{valid_utf8, decode_utf8};
use crate::text::{str_eq, join_with, trim_left, trim_right, lemma_trim_left_from, lemma_trim_right_to, push_char, is_ws, is_whitespace, has_prefix, has_substring, char_len, byte_offset,
    utf8_len, to_chars, string_of, contains_str};
use crate::domain::{Symbol, SymbolV, opt_text, symbol_kind_label, Error, FileAnalysis};
use crate::parser::registry::{ParserRegistry, QueryLibrary, path_extension, registry_result};

verus! {

/// The overall status of a merge.
#[derive(Debug, Clone, Copy, PartialEq, Eq, Structural)]
pub enum MergeStatus {
    /// All symbols merged cleanly: no overlapping edits.
    Clean,
    /// At least one symbol was modified by both sides.
    Conflict,
}

/// A single symbol-level conflict: both sides changed the same symbol.
#[derive(Debug, Clone)]
pub struct SymbolConflict {
    pub qualified_name: String,
    pub kind: String,
    pub version_a: String,
    pub version_b: String,
    pub base: String,
}

/// The result of a three-way symbol-level merge.
#[derive(Debug)]
pub struct MergeResult {
    pub status: MergeStatus,
    pub merged_content: String,
    pub conflicts: Vec<SymbolConflict>,
}

/// A named span of source text representing a top-level symbol.
#[derive(Debug, Clone)]
pub struct SymbolSpan {
    pub qualified_name: String,
    pub kind: String,
    pub text: String,
}

/// Abstract value of a span: (qualified name, kind, text).
pub type SpanV = (Seq<char>, Seq<char>, Seq<char>);

/// Abstract value of a conflict: (qualified name, kind, version a, version b, base).
pub type ConflictV = (Seq<char>, Seq<char>, Seq<char>, Seq<char>, Seq<char>);

impl View for SymbolSpan {
    type V = SpanV;

    open spec fn view(&self) -> SpanV {
        (self.qualified_name@, self.kind@, self.text@)
    }
}

impl View for SymbolConflict {
    type V = ConflictV;

    open spec fn view(&self) -> ConflictV {
        (self.qualified_name@, self.kind@, self.version_a@, self.version_b@, self.base@)
    }
}

pub open spec fn spans_view(v: Seq<SymbolSpan>) -> Seq<SpanV> {
    v.map_values(|s: SymbolSpan| s@)
}

pub open spec fn conflicts_view(v: Seq<SymbolConflict>) -> Seq<ConflictV> {
    v.map_values(|c: SymbolConflict| c@)
}

pub open spec fn strings_view(v: Seq<String>) -> Seq<Seq<char>> {
    v.map_values(|s: String| s@)
}

/// The last span carrying name `n` (later spans win, as in a map built in order).
pub open spec fn span_named(spans: Seq<SpanV>, n: Seq<char>) -> Option<SpanV>
    decreases spans.len(),
{
    if spans.len() == 0 {
        None
    } else if spans.last().0 == n {
        Some(spans.last())
    } else {
        span_named(spans.drop_last(), n)
    }
}

/// Keep the first occurrence of every element of the three lists, in order.
pub open spec fn dedup3(x: Seq<Seq<char>>, y: Seq<Seq<char>>, z: Seq<Seq<char>>) -> Seq<Seq<char>> {
    dedup_first_onto(dedup_first_onto(dedup_first_onto(Seq::empty(), x), y), z)
}

pub open spec fn names_of(spans: Seq<SpanV>) -> Seq<Seq<char>> {
    spans.map_values(|s: SpanV| s.0)
}

/// Whether one side changed a symbol relative to the base.
pub open spec fn side_modified(base: Option<SpanV>, side: Option<SpanV>) -> bool {
    match (base, side) {
        (Some(b), Some(s)) => b.2 != s.2,
        (None, Some(_)) => true,
        (Some(_), None) => true,
        (None, None) => false,
    }
}

/// The span kept in the merged file for one symbol name.
pub open spec fn kept_span(base: Option<SpanV>, a: Option<SpanV>, b: Option<SpanV>) -> Option<SpanV> {
    let am = side_modified(base, a);
    let bm = side_modified(base, b);
    if !am && !bm {
        base
    } else if am && !bm {
        a
    } else if !am && bm {
        b
    } else {
        match (base, a, b) {
            (_, Some(x), _) => Some(x),
            (Some(_), None, Some(y)) => Some(y),
            _ => None,
        }
    }
}

/// The conflict reported for one symbol name, if both sides changed it differently.
pub open spec fn conflict_for(n: Seq<char>, base: Option<SpanV>, a: Option<SpanV>, b: Option<SpanV>) -> Option<ConflictV> {
    if side_modified(base, a) && side_modified(base, b) {
        match (base, a, b) {
            (None, Some(x), Some(y)) => Some((n, x.1, x.2, y.2, Seq::empty())),
            (Some(o), Some(x), Some(y)) => if x.2 == y.2 {
                None
            } else {
                Some((n, o.1, x.2, y.2, o.2))
            },
            (Some(o), None, Some(y)) => Some((n, o.1, Seq::empty(), y.2, o.2)),
            (Some(o), Some(x), None) => Some((n, o.1, x.2, Seq::empty(), o.2)),
            _ => None,
        }
    } else {
        None
    }
}

pub open spec fn opt_seq<T>(o: Option<T>) -> Seq<T> {
    match o {
        Some(x) => seq![x],
        None => Seq::empty(),
    }
}

/// Spans of the merged file, for the names taken in order.
pub open spec fn merged_spans(names: Seq<Seq<char>>, base: Seq<SpanV>, a: Seq<SpanV>, b: Seq<SpanV>) -> Seq<SpanV>
    decreases names.len(),
{
    if names.len() == 0 {
        Seq::empty()
    } else {
        let n = names.last();
        merged_spans(names.drop_last(), base, a, b)
            + opt_seq(kept_span(span_named(base, n), span_named(a, n), span_named(b, n)))
    }
}

/// Conflicts, for the names taken in order.
pub open spec fn merge_conflicts(names: Seq<Seq<char>>, base: Seq<SpanV>, a: Seq<SpanV>, b: Seq<SpanV>) -> Seq<ConflictV>
    decreases names.len(),
{
    if names.len() == 0 {
        Seq::empty()
    } else {
        let n = names.last();
        merge_conflicts(names.drop_last(), base, a, b)
            + opt_seq(conflict_for(n, span_named(base, n), span_named(a, n), span_named(b, n)))
    }
}

/// All symbol names: base order first, then new names from A, then from B.
pub open spec fn all_names(base: Seq<SpanV>, a: Seq<SpanV>, b: Seq<SpanV>) -> Seq<Seq<char>> {
    dedup3(names_of(base), names_of(a), names_of(b))
}

/// Each line followed by a newline.
pub open spec fn concat_lines(s: Seq<Seq<char>>) -> Seq<char>
    decreases s.len(),
{
    if s.len() == 0 {
        Seq::empty()
    } else {
        concat_lines(s.drop_last()) + s.last() + seq!['\n']
    }
}


/// The merged file: imports (one per line, then a blank line), then the
/// symbol texts separated by blank lines, ending with a newline.
pub open spec fn render_merged(imports: Seq<Seq<char>>, texts: Seq<Seq<char>>) -> Seq<char> {
    let head = if imports.len() > 0 { concat_lines(imports) + seq!['\n'] } else { Seq::empty() };
    let body = head + join_with(texts, "\n\n"@);
    if body.len() > 0 && body.last() == '\n' {
        body
    } else {
        body.push('\n')
    }
}

pub open spec fn texts_of(spans: Seq<SpanV>) -> Seq<Seq<char>> {
    spans.map_values(|s: SpanV| s.2)
}

/// The complete result of merging three span sets and three import lists.
pub open spec fn merge_spec(
    bi: Seq<Seq<char>>, ai: Seq<Seq<char>>, bbi: Seq<Seq<char>>,
    base: Seq<SpanV>, a: Seq<SpanV>, b: Seq<SpanV>,
) -> (MergeStatus, Seq<char>, Seq<ConflictV>) {
    let names = all_names(base, a, b);
    let kept = merged_spans(names, base, a, b);
    let cs = merge_conflicts(names, base, a, b);
    let content = render_merged(dedup3(bi, ai, bbi), texts_of(kept));
    (if cs.len() == 0 { MergeStatus::Clean } else { MergeStatus::Conflict }, content, cs)
}

fn clone_string(s: &String) -> (r: String)
    ensures
        r@ == s@,
{
    s.clone()
}

fn clone_span(s: &SymbolSpan) -> (r: SymbolSpan)
    ensures
        r@ == s@,
{
    SymbolSpan {
        qualified_name: clone_string(&s.qualified_name),
        kind: clone_string(&s.kind),
        text: clone_string(&s.text),
    }
}

/// Index of the last span carrying name `n`.
fn find_named(spans: &Vec<SymbolSpan>, n: &String) -> (r: Option<usize>)
    ensures
        match r {
            Some(i) => i < spans@.len() && span_named(spans_view(spans@), n@) == Some(spans@[i as int]@),
            None => span_named(spans_view(spans@), n@) is None,
        },
{
    let mut i = spans.len();
    assert(spans@.take(i as int) =~= spans@);
    while i > 0
        invariant
            i <= spans@.len(),
            span_named(spans_view(spans@), n@) == span_named(spans_view(spans@.take(i as int)), n@),
        decreases i,
    {
        let j = i - 1;
        assert(spans_view(spans@.take(i as int)).drop_last() =~= spans_view(spans@.take(j as int)));
        if spans[j].qualified_name == *n {
            return Some(j);
        }
        i = j;
    }
    assert(spans_view(spans@.take(0)) =~= Seq::<SpanV>::empty());
    None
}

/// Whether `v` already holds a string equal to `s`.
fn holds_string(v: &Vec<String>, s: &String) -> (r: bool)
    ensures
        r == strings_view(v@).contains(s@),
{
    let mut i: usize = 0;
    while i < v.len()
        invariant
            i <= v@.len(),
            forall|j: int| 0 <= j < i ==> v@[j]@ != s@,
        decreases v@.len() - i,
    {
        if v[i] == *s {
            assert(strings_view(v@)[i as int] == s@);
            return true;
        }
        i = i + 1;
    }
    assert forall|j: int| 0 <= j < strings_view(v@).len() implies strings_view(v@)[j] != s@ by {}
    false
}

/// Appends the elements of `items` not yet in `acc`, keeping first occurrences.
fn dedup_extend(acc: &mut Vec<String>, items: &Vec<String>)
    ensures
        strings_view(final(acc)@) == dedup_first_onto(strings_view(old(acc)@), strings_view(items@)),
{
    let ghost start = strings_view(acc@);
    let mut i: usize = 0;
    while i < items.len()
        invariant
            i <= items@.len(),
            strings_view(acc@) == dedup_first_onto(start, strings_view(items@).take(i as int)),
        decreases items@.len() - i,
    {
        let item = &items[i];
        assert(strings_view(items@).take(i + 1) =~= strings_view(items@).take(i as int).push(item@));
        assert(strings_view(items@).take(i + 1).drop_last() =~= strings_view(items@).take(i as int));
        let ghost before = acc@;
        if !holds_string(acc, item) {
            let c = clone_string(item);
            acc.push(c);
            assert(strings_view(acc@) =~= strings_view(before).push(item@));
        }
        i = i + 1;
    }
    assert(strings_view(items@).take(items@.len() as int) =~= strings_view(items@));
}

/// Dedup of `items` appended to an already-deduplicated prefix `acc`.
pub open spec fn dedup_first_onto(acc: Seq<Seq<char>>, items: Seq<Seq<char>>) -> Seq<Seq<char>>
    decreases items.len(),
{
    if items.len() == 0 {
        acc
    } else {
        let d = dedup_first_onto(acc, items.drop_last());
        if d.contains(items.last()) {
            d
        } else {
            d.push(items.last())
        }
    }
}

fn names_vec(spans: &Vec<SymbolSpan>) -> (r: Vec<String>)
    ensures
        strings_view(r@) == names_of(spans_view(spans@)),
{
    let mut r: Vec<String> = Vec::new();
    let mut i: usize = 0;
    while i < spans.len()
        invariant
            i <= spans@.len(),
            strings_view(r@) == names_of(spans_view(spans@.take(i as int))),
        decreases spans@.len() - i,
    {
        let ghost before = r@;
        r.push(clone_string(&spans[i].qualified_name));
        assert(spans@.take(i + 1) =~= spans@.take(i as int).push(spans@[i as int]));
        assert(strings_view(r@) =~= strings_view(before).push(spans@[i as int].qualified_name@));
        assert(names_of(spans_view(spans@.take(i + 1))) =~= names_of(spans_view(spans@.take(i as int))).push(spans@[i as int].qualified_name@));
        i = i + 1;
    }
    assert(spans@.take(spans@.len() as int) =~= spans@);
    r
}

/// Symbol names in merge order: base order first, then new names from A and B.
fn ordered_names(base: &Vec<SymbolSpan>, a: &Vec<SymbolSpan>, b: &Vec<SymbolSpan>) -> (r: Vec<String>)
    ensures
        strings_view(r@) == all_names(spans_view(base@), spans_view(a@), spans_view(b@)),
{
    let mut names: Vec<String> = Vec::new();
    assert(strings_view(names@) =~= Seq::<Seq<char>>::empty());
    dedup_extend(&mut names, &names_vec(base));
    dedup_extend(&mut names, &names_vec(a));
    dedup_extend(&mut names, &names_vec(b));
    names
}

/// The union of three import lists, deduplicated, base order first.
fn merged_imports(bi: &Vec<String>, ai: &Vec<String>, bbi: &Vec<String>) -> (r: Vec<String>)
    ensures
        strings_view(r@) == dedup3(strings_view(bi@), strings_view(ai@), strings_view(bbi@)),
{
    let mut out: Vec<String> = Vec::new();
    assert(strings_view(out@) =~= Seq::<Seq<char>>::empty());
    dedup_extend(&mut out, bi);
    dedup_extend(&mut out, ai);
    dedup_extend(&mut out, bbi);
    out
}

pub open spec fn opt_view(o: Option<SymbolSpan>) -> Option<SpanV> {
    match o {
        Some(s) => Some(s@),
        None => None,
    }
}

pub open spec fn ref_view(o: Option<&SymbolSpan>) -> Option<SpanV> {
    match o {
        Some(s) => Some(s@),
        None => None,
    }
}

pub open spec fn opt_conflict_view(o: Option<SymbolConflict>) -> Option<ConflictV> {
    match o {
        Some(c) => Some(c@),
        None => None,
    }
}

fn pick(spans: &Vec<SymbolSpan>, i: Option<usize>) -> (r: Option<&SymbolSpan>)
    requires
        i matches Some(k) ==> k < spans@.len(),
    ensures
        match i {
            Some(k) => r == Some(&spans@[k as int]),
            None => r is None,
        },
{
    match i {
        Some(k) => Some(&spans[k]),
        None => None,
    }
}

/// Decide one symbol: the span kept in the merged file and the conflict, if any.
fn merge_one(name: &String, base: Option<&SymbolSpan>, a: Option<&SymbolSpan>, b: Option<&SymbolSpan>)
    -> (r: (Option<SymbolSpan>, Option<SymbolConflict>))
    ensures
        opt_view(r.0) == kept_span(ref_view(base), ref_view(a), ref_view(b)),
        opt_conflict_view(r.1) == conflict_for(name@, ref_view(base), ref_view(a), ref_view(b)),
{
    let a_modified = match (base, a) {
        (Some(bs), Some(x)) => !(bs.text == x.text),
        (None, Some(_)) => true,
        (Some(_), None) => true,
        (None, None) => false,
    };
    let b_modified = match (base, b) {
        (Some(bs), Some(y)) => !(bs.text == y.text),
        (None, Some(_)) => true,
        (Some(_), None) => true,
        (None, None) => false,
    };
    if !a_modified && !b_modified {
        match base {
            Some(bs) => (Some(clone_span(bs)), None),
            None => (None, None),
        }
    } else if a_modified && !b_modified {
        match a {
            Some(x) => (Some(clone_span(x)), None),
            None => (None, None),
        }
    } else if !a_modified && b_modified {
        match b {
            Some(y) => (Some(clone_span(y)), None),
            None => (None, None),
        }
    } else {
        match (base, a, b) {
            (None, Some(x), Some(y)) => {
                let c = SymbolConflict {
                    qualified_name: clone_string(name),
                    kind: clone_string(&x.kind),
                    version_a: clone_string(&x.text),
                    version_b: clone_string(&y.text),
                    base: String::new(),
                };
                (Some(clone_span(x)), Some(c))
            },
            (Some(o), Some(x), Some(y)) => {
                if x.text == y.text {
                    (Some(clone_span(x)), None)
                } else {
                    let c = SymbolConflict {
                        qualified_name: clone_string(name),
                        kind: clone_string(&o.kind),
                        version_a: clone_string(&x.text),
                        version_b: clone_string(&y.text),
                        base: clone_string(&o.text),
                    };
                    (Some(clone_span(x)), Some(c))
                }
            },
            (Some(o), None, Some(y)) => {
                let c = SymbolConflict {
                    qualified_name: clone_string(name),
                    kind: clone_string(&o.kind),
                    version_a: String::new(),
                    version_b: clone_string(&y.text),
                    base: clone_string(&o.text),
                };
                (Some(clone_span(y)), Some(c))
            },
            (Some(o), Some(x), None) => {
                let c = SymbolConflict {
                    qualified_name: clone_string(name),
                    kind: clone_string(&o.kind),
                    version_a: clone_string(&x.text),
                    version_b: String::new(),
                    base: clone_string(&o.text),
                };
                (Some(clone_span(x)), Some(c))
            },
            _ => (None, None),
        }
    }
}

/// Render the merged file from the import lines and kept spans.
fn render(imports: &Vec<String>, kept: &Vec<SymbolSpan>) -> (r: String)
    ensures
        r@ == render_merged(strings_view(imports@), texts_of(spans_view(kept@))),
{
    let ghost imps = strings_view(imports@);
    let ghost texts = texts_of(spans_view(kept@));
    let mut out = String::new();
    let mut i: usize = 0;
    while i < imports.len()
        invariant
            i <= imports@.len(),
            imps == strings_view(imports@),
            out@ == concat_lines(imps.take(i as int)),
        decreases imports@.len() - i,
    {
        out.append(imports[i].as_str());
        push_char(&mut out, '\n');
        assert(imps.take(i + 1).drop_last() =~= imps.take(i as int));
        i = i + 1;
    }
    assert(imps.take(imports@.len() as int) =~= imps);
    if imports.len() > 0 {
        push_char(&mut out, '\n');
    }
    let ghost head = out@;
    assert(head == (if imps.len() > 0 { concat_lines(imps) + seq!['\n'] } else { Seq::<char>::empty() }));
    let mut j: usize = 0;
    while j < kept.len()
        invariant
            j <= kept@.len(),
            texts == texts_of(spans_view(kept@)),
            out@ == head + join_with(texts.take(j as int), "\n\n"@),
        decreases kept@.len() - j,
    {
        if j > 0 {
            out.append("\n\n");
        }
        out.append(kept[j].text.as_str());
        assert(texts.take(j + 1).drop_last() =~= texts.take(j as int));
        assert(texts.take(j + 1).last() == kept@[j as int].text@);
        if j == 0 {
            assert(texts.take(1) =~= seq![kept@[0].text@]);
        }
        j = j + 1;
    }
    assert(texts.take(kept@.len() as int) =~= texts);
    let n = out.as_str().unicode_len();
    if n == 0 || out.as_str().get_char(n - 1) != '\n' {
        push_char(&mut out, '\n');
    }
    out
}

/// Merge three span sets and three import lists at the symbol level.
///
/// Names are visited in base order first, then names new in A, then new
/// in B. A symbol changed on one side only takes that side's version; a
/// symbol changed on both sides to different text (or added on both sides,
/// or deleted on one side and changed on the other) is a conflict, with A's
/// version (or B's, when A deleted it) kept as a placeholder.
pub fn merge_spans(
    base_imports: &Vec<String>,
    a_imports: &Vec<String>,
    b_imports: &Vec<String>,
    base: &Vec<SymbolSpan>,
    a: &Vec<SymbolSpan>,
    b: &Vec<SymbolSpan>,
) -> (r: MergeResult)
    ensures
        (r.status, r.merged_content@, conflicts_view(r.conflicts@)) == merge_spec(
            strings_view(base_imports@), strings_view(a_imports@), strings_view(b_imports@),
            spans_view(base@), spans_view(a@), spans_view(b@),
        ),
{
    let ghost bv = spans_view(base@);
    let ghost av = spans_view(a@);
    let ghost bbv = spans_view(b@);
    let names = ordered_names(base, a, b);
    let ghost nv = strings_view(names@);
    let mut kept: Vec<SymbolSpan> = Vec::new();
    let mut conflicts: Vec<SymbolConflict> = Vec::new();
    let mut i: usize = 0;
    while i < names.len()
        invariant
            i <= names@.len(),
            nv == strings_view(names@),
            bv == spans_view(base@),
            av == spans_view(a@),
            bbv == spans_view(b@),
            spans_view(kept@) == merged_spans(nv.take(i as int), bv, av, bbv),
            conflicts_view(conflicts@) == merge_conflicts(nv.take(i as int), bv, av, bbv),
        decreases names@.len() - i,
    {
        let name = &names[i];
        let ib = find_named(base, name);
        let ia = find_named(a, name);
        let ibb = find_named(b, name);
        let (k, c) = merge_one(name, pick(base, ib), pick(a, ia), pick(b, ibb));
        assert(nv.take(i + 1).drop_last() =~= nv.take(i as int));
        assert(nv.take(i + 1).last() == name@);
        let ghost kept_before = kept@;
        let ghost conf_before = conflicts@;
        match k {
            Some(sp) => {
                kept.push(sp);
            },
            None => {},
        }
        match c {
            Some(cf) => {
                conflicts.push(cf);
            },
            None => {},
        }
        assert(spans_view(kept@) =~= spans_view(kept_before) + opt_seq(opt_view(k)));
        assert(conflicts_view(conflicts@) =~= conflicts_view(conf_before) + opt_seq(opt_conflict_view(c)));
        i = i + 1;
    }
    assert(nv.take(names@.len() as int) =~= nv);
    let imports = merged_imports(base_imports, a_imports, b_imports);
    let merged_content = render(&imports, &kept);
    let status = if conflicts.len() == 0 { MergeStatus::Clean } else { MergeStatus::Conflict };
    MergeResult { status, merged_content, conflicts }
}

/// Index of the first newline at or after `i` (the length when none).
pub open spec fn next_nl(s: Seq<char>, i: int) -> int
    decreases s.len() - i,
{
    if i >= s.len() {
        s.len() as int
    } else if s[i] == '\n' {
        i
    } else {
        next_nl(s, i + 1)
    }
}

/// The text of the line `s[start..e]`, without a `\r` that precedes its newline.
pub open spec fn line_text(s: Seq<char>, start: int, e: int) -> Seq<char> {
    let piece = s.subrange(start, e);
    if e < s.len() && piece.len() > 0 && piece.last() == '\r' {
        piece.drop_last()
    } else {
        piece
    }
}

/// A line that, trimmed, starts with `use `, `import ` or `from `.
pub open spec fn looks_like_import(line: Seq<char>) -> bool {
    let t = trim_right(trim_left(line));
    has_prefix(t, "use "@) || has_prefix(t, "import "@) || has_prefix(t, "from "@)
}

/// The byte offset `off` lies inside the span of some symbol.
pub open spec fn inside_some_symbol(syms: Seq<Symbol>, off: int) -> bool {
    exists|k: int| 0 <= k < syms.len() && syms[k].span.start_byte <= off && off < #[trigger] syms[k].span.end_byte
}

/// Import lines of `s` from character index `start` on: lines that look like
/// imports and do not begin inside a symbol's byte span.
pub open spec fn import_lines_from(s: Seq<char>, syms: Seq<Symbol>, start: int) -> Seq<Seq<char>>
    decreases s.len() - start + 1,
{
    if start < 0 || start >= s.len() {
        Seq::empty()
    } else {
        let e = next_nl(s, start);
        if e < start || e > s.len() {
            Seq::empty()
        } else {
            let line = line_text(s, start, e);
            let keep = looks_like_import(line) && !inside_some_symbol(syms, byte_offset(s, start) as int);
            (if keep { seq![line] } else { Seq::empty() }) + import_lines_from(s, syms, e + 1)
        }
    }
}

proof fn lemma_next_nl(s: Seq<char>, i: int)
    requires
        0 <= i <= s.len(),
    ensures
        i <= next_nl(s, i) <= s.len(),
        next_nl(s, i) < s.len() ==> s[next_nl(s, i)] == '\n',
        forall|k: int| i <= k < next_nl(s, i) ==> s[k] != '\n',
    decreases s.len() - i,
{
    if i < s.len() && s[i] != '\n' {
        lemma_next_nl(s, i + 1);
    }
}

proof fn lemma_byte_offset_bound(s: Seq<char>, i: int)
    requires
        0 <= i,
    ensures
        byte_offset(s, i) <= 4 * i,
    decreases i,
{
    if i > 0 {
        lemma_byte_offset_bound(s, i - 1);
    }
}

/// Whether the characters `v[lo..hi]` start with `p`.
fn range_starts_with(v: &Vec<char>, lo: usize, hi: usize, p: &str) -> (r: bool)
    requires
        lo <= hi <= v@.len(),
    ensures
        r == has_prefix(v@.subrange(lo as int, hi as int), p@),
{
    let m = p.unicode_len();
    if m > hi - lo {
        return false;
    }
    let mut i: usize = 0;
    while i < m
        invariant
            m == p@.len(),
            lo <= hi <= v@.len(),
            m <= hi - lo,
            i <= m,
            forall|j: int| 0 <= j < i ==> v@[lo + j] == p@[j],
        decreases m - i,
    {
        if v[lo + i] != p.get_char(i) {
            assert(v@.subrange(lo as int, hi as int).subrange(0, m as int)[i as int] != p@[i as int]);
            return false;
        }
        i = i + 1;
    }
    assert(v@.subrange(lo as int, hi as int).subrange(0, m as int) =~= p@);
    true
}

/// Whether the line `v[start..e]` (newline-terminated when `e < len`) looks like an import,
/// together with its text.
fn line_of(v: &Vec<char>, start: usize, e: usize) -> (r: (bool, String))
    requires
        start <= e <= v@.len(),
    ensures
        r.1@ == line_text(v@, start as int, e as int),
        r.0 == looks_like_import(line_text(v@, start as int, e as int)),
{
    let mut end = e;
    if e < v.len() && e > start && v[e - 1] == '\r' {
        end = e - 1;
    }
    let ghost line = line_text(v@, start as int, e as int);
    assert(line =~= v@.subrange(start as int, end as int));
    let mut lo = start;
    while lo < end && is_whitespace(v[lo])
        invariant
            start <= lo <= end <= v@.len(),
            forall|k: int| start <= k < lo ==> is_ws(v@[k]),
        decreases end - lo,
    {
        lo = lo + 1;
    }
    let mut hi = end;
    while hi > lo && is_whitespace(v[hi - 1])
        invariant
            lo <= hi <= end <= v@.len(),
            forall|k: int| hi <= k < end ==> is_ws(v@[k]),
        decreases hi - lo,
    {
        hi = hi - 1;
    }
    proof {
        lemma_trim_left_from(line, lo - start);
        let tl = trim_left(line);
        assert(tl =~= v@.subrange(lo as int, end as int));
        lemma_trim_right_to(tl, hi - lo);
        assert(trim_right(tl) =~= v@.subrange(lo as int, hi as int));
    }
    let is_import = range_starts_with(v, lo, hi, "use ")
        || range_starts_with(v, lo, hi, "import ")
        || range_starts_with(v, lo, hi, "from ");
    (is_import, string_of(v, start, end))
}

/// Whether byte offset `off` lies inside the span of one of `syms`.
fn in_some_symbol(syms: &[Symbol], off: u128) -> (r: bool)
    ensures
        r == inside_some_symbol(syms@, off as int),
{
    let mut k: usize = 0;
    while k < syms.len()
        invariant
            k <= syms@.len(),
            forall|j: int| 0 <= j < k ==> !(syms@[j].span.start_byte <= off && off < #[trigger] syms@[j].span.end_byte),
        decreases syms@.len() - k,
    {
        if (syms[k].span.start_byte as u128) <= off && off < (syms[k].span.end_byte as u128) {
            return true;
        }
        k = k + 1;
    }
    false
}

/// Import lines of `v`: lines that look like imports and begin outside every symbol span.
fn import_lines(v: &Vec<char>, syms: &[Symbol]) -> (r: Vec<String>)
    ensures
        strings_view(r@) == import_lines_from(v@, syms@, 0),
{
    let n = v.len();
    let mut out: Vec<String> = Vec::new();
    let mut pos: usize = 0;
    let mut b: u128 = 0;
    proof {
        assert(strings_view(out@) + import_lines_from(v@, syms@, 0) =~= import_lines_from(v@, syms@, 0));
    }
    while pos < n
        invariant
            n == v@.len(),
            pos <= n,
            b == byte_offset(v@, pos as int),
            strings_view(out@) + import_lines_from(v@, syms@, pos as int) == import_lines_from(v@, syms@, 0),
        decreases n - pos,
    {
        let mut e = pos;
        let mut be = b;
        proof { lemma_next_nl(v@, pos as int); }
        while e < n && v[e] != '\n'
            invariant
                n == v@.len(),
                pos <= e <= n,
                be == byte_offset(v@, e as int),
                next_nl(v@, pos as int) == next_nl(v@, e as int),
            decreases n - e,
        {
            proof { lemma_byte_offset_bound(v@, e as int); }
            be = be + (utf8_len(v[e]) as u128);
            e = e + 1;
        }
        let (keep_line, text) = line_of(v, pos, e);
        let inside = in_some_symbol(syms, b);
        let ghost before = strings_view(out@);
        if keep_line && !inside {
            out.push(text);
            assert(strings_view(out@) =~= before.push(text@));
        }
        let ghost line = line_text(v@, pos as int, e as int);
        assert(import_lines_from(v@, syms@, pos as int)
            == (if keep_line && !inside { seq![line] } else { Seq::<Seq<char>>::empty() })
                + import_lines_from(v@, syms@, e + 1));
        if e < n {
            proof { lemma_byte_offset_bound(v@, e as int); }
            b = be + 1;
            pos = e + 1;
        } else {
            assert(import_lines_from(v@, syms@, e + 1) =~= Seq::<Seq<char>>::empty());
            pos = e;
            assert(strings_view(out@) =~= import_lines_from(v@, syms@, 0));
            b = be;
        }
        assert(strings_view(out@) + import_lines_from(v@, syms@, pos as int) =~= import_lines_from(v@, syms@, 0));
    }
    assert(import_lines_from(v@, syms@, pos as int) =~= Seq::<Seq<char>>::empty());
    assert(strings_view(out@) =~= import_lines_from(v@, syms@, 0));
    out
}

/// The text a UTF-8 decoder that replaces invalid sequences makes of `b`.
pub uninterp spec fn utf8_lossy(b: Seq<u8>) -> Seq<char>;

/// Decodes bytes as UTF-8, replacing invalid sequences
/// (`String::from_utf8_lossy`); valid UTF-8 decodes unchanged, as its
/// documentation states.
#[verifier::external_body]
pub(crate) fn lossy_string(b: &[u8]) -> (r: String)
    ensures
        r@ == utf8_lossy(b@),
        valid_utf8(b@) ==> r@ == decode_utf8(b@),
{
    String::from_utf8_lossy(b).into_owned()
}

/// The text kept for a symbol: its source bytes decoded, preceded by its doc
/// comment and a newline when the doc comment is non-empty and not already
/// part of that text.
pub open spec fn symbol_text(bytes: Seq<u8>, sym: Symbol) -> Seq<char> {
    let body = utf8_lossy(bytes.subrange(sym.span.start_byte as int, sym.span.end_byte as int));
    if sym.doc_comment is Some && sym.doc_comment->0@.len() > 0 && !has_substring(body, sym.doc_comment->0@) {
        sym.doc_comment->0@ + seq!['\n'] + body
    } else {
        body
    }
}

/// Spans of the symbols whose byte range ends within the source.
pub open spec fn spans_of(bytes: Seq<u8>, syms: Seq<Symbol>) -> Seq<SpanV>
    decreases syms.len(),
{
    if syms.len() == 0 {
        Seq::empty()
    } else {
        let sym = syms.last();
        spans_of(bytes, syms.drop_last()) + (if sym.span.end_byte <= bytes.len() {
            seq![(sym.qualified_name@, symbol_kind_label(sym.kind), symbol_text(bytes, sym))]
        } else {
            Seq::empty()
        })
    }
}

/// A symbol whose range ends inside the source starts no later than it ends.
pub open spec fn spans_well_formed(len: int, syms: Seq<Symbol>) -> bool {
    forall|k: int| 0 <= k < syms.len() && #[trigger] syms[k].span.end_byte <= len ==> syms[k].span.start_byte <= syms[k].span.end_byte
}

fn symbol_spans(source: &str, syms: &[Symbol]) -> (r: Vec<SymbolSpan>)
    requires
        spans_well_formed(source.spec_bytes().len() as int, syms@),
    ensures
        spans_view(r@) == spans_of(source.spec_bytes(), syms@),
{
    let bytes = source.as_bytes();
    let mut out: Vec<SymbolSpan> = Vec::new();
    let mut k: usize = 0;
    while k < syms.len()
        invariant
            bytes@ == source.spec_bytes(),
            spans_well_formed(bytes@.len() as int, syms@),
            k <= syms@.len(),
            spans_view(out@) == spans_of(bytes@, syms@.take(k as int)),
        decreases syms@.len() - k,
    {
        let sym = &syms[k];
        assert(syms@.take(k + 1).drop_last() =~= syms@.take(k as int));
        assert(syms@.take(k + 1).last() == syms@[k as int]);
        let ghost before = spans_view(out@);
        let start = sym.span.start_byte as usize;
        let end = sym.span.end_byte as usize;
        if end <= bytes.len() {
            let piece = vstd::slice::slice_subrange(bytes, start, end);
            assert(piece@ == bytes@.subrange(sym.span.start_byte as int, sym.span.end_byte as int));
            let body = lossy_string(piece);
            let text = match &sym.doc_comment {
                Some(doc) => {
                    let dv = to_chars(doc.as_str());
                    if dv.len() > 0 && !contains_str(&to_chars(body.as_str()), &dv) {
                        let mut t = String::from_str(doc.as_str());
                        push_char(&mut t, '\n');
                        t.append(body.as_str());
                        t
                    } else {
                        body
                    }
                },
                None => body,
            };
            let sp = SymbolSpan {
                qualified_name: clone_string(&sym.qualified_name),
                kind: String::from_str(sym.kind.as_str()),
                text,
            };
            assert(sp@.2 == symbol_text(bytes@, *sym));
            out.push(sp);
            assert(spans_view(out@) =~= before.push(sp@));
        }
        assert(spans_of(bytes@, syms@.take(k + 1)) == spans_of(bytes@, syms@.take(k as int)) + (if sym.span.end_byte <= bytes@.len() {
            seq![(sym.qualified_name@, symbol_kind_label(sym.kind), symbol_text(bytes@, *sym))]
        } else {
            Seq::empty()
        }));
        k = k + 1;
    }
    assert(syms@.take(syms@.len() as int) =~= syms@);
    out
}

/// Import lines and symbol spans of a parsed source text.
pub open spec fn extract_spec(source: Seq<char>, syms: Seq<Symbol>) -> (Seq<Seq<char>>, Seq<SpanV>) {
    (import_lines_from(source, syms, 0), spans_of(vstd::utf8::encode_utf8(source), syms))
}

/// Extract the import lines (those outside every symbol span that look like
/// `use`/`import`/`from` statements) and the spans of the top-level symbols.
fn extract_spans(source: &str, syms: &[Symbol]) -> (r: (Vec<String>, Vec<SymbolSpan>))
    requires
        spans_well_formed(source.spec_bytes().len() as int, syms@),
    ensures
        (strings_view(r.0@), spans_view(r.1@)) == extract_spec(source@, syms@),
{
    let v = to_chars(source);
    let imports = import_lines(&v, syms);
    let spans = symbol_spans(source, syms);
    (imports, spans)
}

/// The merge of three parsed versions of one file.
pub open spec fn ast_merge_spec(
    base: Seq<char>, a: Seq<char>, b: Seq<char>,
    base_syms: Seq<Symbol>, a_syms: Seq<Symbol>, b_syms: Seq<Symbol>,
) -> (MergeStatus, Seq<char>, Seq<ConflictV>) {
    let eb = extract_spec(base, base_syms);
    let ea = extract_spec(a, a_syms);
    let ebb = extract_spec(b, b_syms);
    merge_spec(eb.0, ea.0, ebb.0, eb.1, ea.1, ebb.1)
}

proof fn lemma_same_side_no_conflicts(names: Seq<Seq<char>>, base: Seq<SpanV>, other: Seq<SpanV>)
    ensures
        merge_conflicts(names, base, base, other).len() == 0,
        merge_conflicts(names, base, other, base).len() == 0,
    decreases names.len(),
{
    if names.len() > 0 {
        lemma_same_side_no_conflicts(names.drop_last(), base, other);
    }
}

/// Two symbol lists that are equal but for the symbols' ids, as two parses
/// of one text give them.
pub open spec fn same_but_ids(a: Seq<Symbol>, b: Seq<Symbol>) -> bool {
    a.len() == b.len() && forall|k: int| 0 <= k < a.len() ==> #[trigger] a[k]@ == SymbolV { id: a[k]@.id, ..b[k]@ }
}

/// A symbol list equals itself up to ids.
pub proof fn lemma_same_but_ids_refl(a: Seq<Symbol>)
    ensures
        same_but_ids(a, a),
{
}

proof fn lemma_spans_ignore_ids(bytes: Seq<u8>, a: Seq<Symbol>, b: Seq<Symbol>)
    requires
        same_but_ids(a, b),
    ensures
        spans_of(bytes, a) == spans_of(bytes, b),
    decreases a.len(),
{
    if a.len() > 0 {
        assert(same_but_ids(a.drop_last(), b.drop_last())) by {
            assert forall|k: int| 0 <= k < a.drop_last().len() implies #[trigger] a.drop_last()[k]@ == SymbolV {
                id: a.drop_last()[k]@.id,
                ..b.drop_last()[k]@
            } by {
                assert(a[k]@ == SymbolV { id: a[k]@.id, ..b[k]@ });
            }
        }
        lemma_spans_ignore_ids(bytes, a.drop_last(), b.drop_last());
        let x = a.last();
        let y = b.last();
        assert(a[a.len() - 1]@ == SymbolV { id: a[a.len() - 1]@.id, ..b[b.len() - 1]@ });
        assert(x.span == y.span && x.qualified_name@ == y.qualified_name@ && x.kind == y.kind);
        assert(opt_text(x.doc_comment) == opt_text(y.doc_comment));
        assert(symbol_text(bytes, x) == symbol_text(bytes, y));
    }
}

proof fn lemma_imports_ignore_ids(s: Seq<char>, a: Seq<Symbol>, b: Seq<Symbol>, start: int)
    requires
        same_but_ids(a, b),
    ensures
        import_lines_from(s, a, start) == import_lines_from(s, b, start),
    decreases s.len() - start + 1,
{
    if start >= 0 && start < s.len() {
        let e = next_nl(s, start);
        if e >= start && e <= s.len() {
            let off = byte_offset(s, start) as int;
            assert(inside_some_symbol(a, off) == inside_some_symbol(b, off)) by {
                if inside_some_symbol(a, off) {
                    let k = choose|k: int| 0 <= k < a.len() && a[k].span.start_byte <= off && off < #[trigger] a[k].span.end_byte;
                    assert(a[k]@ == SymbolV { id: a[k]@.id, ..b[k]@ });
                    assert(b[k].span.start_byte <= off && off < b[k].span.end_byte);
                }
                if inside_some_symbol(b, off) {
                    let k = choose|k: int| 0 <= k < b.len() && b[k].span.start_byte <= off && off < #[trigger] b[k].span.end_byte;
                    assert(a[k]@ == SymbolV { id: a[k]@.id, ..b[k]@ });
                    assert(a[k].span.start_byte <= off && off < a[k].span.end_byte);
                }
            }
            lemma_imports_ignore_ids(s, a, b, e + 1);
        }
    }
}

/// What the merge extracts from a version depends on its symbols but not on
/// their ids.
pub proof fn lemma_extract_ignores_ids(source: Seq<char>, a: Seq<Symbol>, b: Seq<Symbol>)
    requires
        same_but_ids(a, b),
    ensures
        extract_spec(source, a) == extract_spec(source, b),
{
    lemma_spans_ignore_ids(vstd::utf8::encode_utf8(source), a, b);
    lemma_imports_ignore_ids(source, a, b, 0);
}

/// A merge in which one side left the file as it was in the base is clean:
/// no symbol is reported in conflict, whatever the other side did, when the
/// unchanged side's symbols are the base's up to their ids (as a second
/// parse of the same text gives them).
pub proof fn lemma_unchanged_side_merges_clean(
    base: Seq<char>, other: Seq<char>, base_syms: Seq<Symbol>, same_syms: Seq<Symbol>, other_syms: Seq<Symbol>,
)
    requires
        same_but_ids(same_syms, base_syms),
    ensures
        ast_merge_spec(base, base, other, base_syms, same_syms, other_syms).0 == MergeStatus::Clean,
        ast_merge_spec(base, base, other, base_syms, same_syms, other_syms).2.len() == 0,
        ast_merge_spec(base, other, base, base_syms, other_syms, same_syms).0 == MergeStatus::Clean,
        ast_merge_spec(base, other, base, base_syms, other_syms, same_syms).2.len() == 0,
{
    lemma_extract_ignores_ids(base, same_syms, base_syms);
    let eb = extract_spec(base, base_syms);
    let eo = extract_spec(other, other_syms);
    lemma_same_side_no_conflicts(all_names(eb.1, eb.1, eo.1), eb.1, eo.1);
    lemma_same_side_no_conflicts(all_names(eb.1, eo.1, eb.1), eb.1, eo.1);
}

proof fn lemma_dedup_onto(acc: Seq<Seq<char>>, items: Seq<Seq<char>>)
    ensures
        acc.no_duplicates() ==> dedup_first_onto(acc, items).no_duplicates(),
        forall|n: Seq<char>| #[trigger] dedup_first_onto(acc, items).contains(n) <==> (acc.contains(n) || items.contains(n)),
    decreases items.len(),
{
    if items.len() > 0 {
        let p = items.drop_last();
        let x = items.last();
        lemma_dedup_onto(acc, p);
        let d = dedup_first_onto(acc, p);
        assert forall|n: Seq<char>| items.contains(n) <==> (p.contains(n) || n == x) by {
            if items.contains(n) {
                let j = choose|j: int| 0 <= j < items.len() && items[j] == n;
                if j < items.len() - 1 {
                    assert(p[j] == n);
                }
            }
            if p.contains(n) {
                let j = choose|j: int| 0 <= j < p.len() && p[j] == n;
                assert(items[j] == n);
            }
            if n == x {
                assert(items[items.len() - 1] == n);
            }
        }
        if !d.contains(x) {
            assert forall|n: Seq<char>| d.push(x).contains(n) <==> (d.contains(n) || n == x) by {
                if d.push(x).contains(n) {
                    let j = choose|j: int| 0 <= j < d.push(x).len() && d.push(x)[j] == n;
                    if j < d.len() {
                        assert(d[j] == n);
                    }
                }
                if d.contains(n) {
                    let j = choose|j: int| 0 <= j < d.len() && d[j] == n;
                    assert(d.push(x)[j] == n);
                }
                if n == x {
                    assert(d.push(x)[d.len() as int] == n);
                }
            }
            if d.no_duplicates() {
                assert forall|i: int, j: int| 0 <= i < d.push(x).len() && 0 <= j < d.push(x).len() && i != j
                    implies d.push(x)[i] != d.push(x)[j] by {
                    if i < d.len() && j == d.len() {
                        assert(d.contains(d[i]));
                    } else if j < d.len() && i == d.len() {
                        assert(d.contains(d[j]));
                    }
                }
            }
        }
        let r = dedup_first_onto(acc, items);
        assert forall|n: Seq<char>| #[trigger] r.contains(n) <==> (acc.contains(n) || items.contains(n)) by {
            assert(d.contains(n) <==> (acc.contains(n) || p.contains(n)));
            if d.contains(x) {
                assert(r == d);
            } else {
                assert(r == d.push(x));
            }
        }
    }
}

/// The names a merge goes through: each once, and every name of the
/// three versions.
proof fn lemma_all_names(base: Seq<SpanV>, a: Seq<SpanV>, b: Seq<SpanV>)
    ensures
        all_names(base, a, b).no_duplicates(),
        forall|n: Seq<char>| #[trigger] all_names(base, a, b).contains(n) <==> (names_of(base).contains(n)
            || names_of(a).contains(n) || names_of(b).contains(n)),
{
    let e = Seq::<Seq<char>>::empty();
    lemma_dedup_onto(e, names_of(base));
    let d1 = dedup_first_onto(e, names_of(base));
    lemma_dedup_onto(d1, names_of(a));
    let d2 = dedup_first_onto(d1, names_of(a));
    lemma_dedup_onto(d2, names_of(b));
    assert forall|n: Seq<char>| !e.contains(n) by {}
}

/// The conflict a merge reports on name `n`, if any.
pub open spec fn conflict_on(n: Seq<char>, base: Seq<SpanV>, a: Seq<SpanV>, b: Seq<SpanV>) -> Option<ConflictV> {
    conflict_for(n, span_named(base, n), span_named(a, n), span_named(b, n))
}

/// The conflicts over a list of names are those on its names, in order: each
/// is the conflict on one of the names, each name with a conflict gives
/// one, and distinct names give conflicts with distinct names.
proof fn lemma_conflicts_over(names: Seq<Seq<char>>, base: Seq<SpanV>, a: Seq<SpanV>, b: Seq<SpanV>)
    ensures
        forall|i: int| 0 <= i < merge_conflicts(names, base, a, b).len() ==> names.contains(
            (#[trigger] merge_conflicts(names, base, a, b)[i]).0,
        ) && conflict_on(merge_conflicts(names, base, a, b)[i].0, base, a, b) == Some(merge_conflicts(names, base, a, b)[i]),
        forall|n: Seq<char>| names.contains(n) && #[trigger] conflict_on(n, base, a, b) is Some ==> merge_conflicts(
            names,
            base,
            a,
            b,
        ).contains(conflict_on(n, base, a, b)->0),
        names.no_duplicates() ==> forall|i: int, j: int|
            0 <= i < j < merge_conflicts(names, base, a, b).len() ==> (#[trigger] merge_conflicts(names, base, a, b)[i]).0
                != (#[trigger] merge_conflicts(names, base, a, b)[j]).0,
    decreases names.len(),
{
    if names.len() > 0 {
        let p = names.drop_last();
        let x = names.last();
        lemma_conflicts_over(p, base, a, b);
        let m0 = merge_conflicts(p, base, a, b);
        let m = merge_conflicts(names, base, a, b);
        let o = opt_seq(conflict_on(x, base, a, b));
        assert(m == m0 + o);
        assert(conflict_on(x, base, a, b) matches Some(c) ==> c.0 == x);
        assert forall|n: Seq<char>| p.contains(n) ==> names.contains(n) by {
            if p.contains(n) {
                let j = choose|j: int| 0 <= j < p.len() && p[j] == n;
                assert(names[j] == n);
            }
        }
        assert(names.contains(x)) by {
            assert(names[names.len() - 1] == x);
        }
        assert forall|i: int| 0 <= i < m.len() implies names.contains((#[trigger] m[i]).0) && conflict_on(m[i].0, base, a, b)
            == Some(m[i]) by {
            if i < m0.len() {
                assert(m[i] == m0[i]);
            } else {
                assert(m[i] == o[i - m0.len()]);
            }
        }
        assert forall|n: Seq<char>| names.contains(n) && #[trigger] conflict_on(n, base, a, b) is Some implies m.contains(
            conflict_on(n, base, a, b)->0,
        ) by {
            let j = choose|j: int| 0 <= j < names.len() && names[j] == n;
            if j < names.len() - 1 {
                assert(p[j] == n);
                let c = conflict_on(n, base, a, b)->0;
                let k = choose|k: int| 0 <= k < m0.len() && m0[k] == c;
                assert(m[k] == c);
            } else {
                assert(m[m0.len() as int] == conflict_on(n, base, a, b)->0);
            }
        }
        if names.no_duplicates() {
            assert(p.no_duplicates());
            assert(!p.contains(x)) by {
                if p.contains(x) {
                    let j = choose|j: int| 0 <= j < p.len() && p[j] == x;
                    assert(names[j] == names[names.len() - 1]);
                }
            }
            assert forall|i: int, j: int| 0 <= i < j < m.len() implies (#[trigger] m[i]).0 != (#[trigger] m[j]).0 by {
                if j >= m0.len() && i < m0.len() {
                    assert(m[i] == m0[i]);
                    assert(p.contains(m0[i].0));
                }
                if j < m0.len() {
                    assert(m[i] == m0[i] && m[j] == m0[j]);
                }
            }
        }
    }
}

/// Swapping the sides swaps a conflict's two versions.
proof fn lemma_conflict_for_swap(n: Seq<char>, o: Option<SpanV>, x: Option<SpanV>, y: Option<SpanV>)
    ensures
        conflict_for(n, o, x, y) is Some <==> conflict_for(n, o, y, x) is Some,
        conflict_for(n, o, x, y) matches Some(c) ==> {
            let d = conflict_for(n, o, y, x)->0;
            d.0 == c.0 && d.2 == c.3 && d.3 == c.2 && d.4 == c.4
        },
{
}

/// Conflict `d` is conflict `c` seen from the other side: the same symbol
/// and base text, the two versions swapped.
pub open spec fn swapped(c: ConflictV, d: ConflictV) -> bool {
    d.0 == c.0 && d.2 == c.3 && d.3 == c.2 && d.4 == c.4
}

/// Some conflict of `cs` is `c` seen from the other side.
pub open spec fn has_swapped(c: ConflictV, cs: Seq<ConflictV>) -> bool {
    exists|j: int| 0 <= j < cs.len() && swapped(c, #[trigger] cs[j])
}

/// A merge reports a conflict exactly when it lists one, and its merged
/// text always ends with a newline.
pub proof fn lemma_merge_shape(
    base: Seq<char>, a: Seq<char>, b: Seq<char>, base_syms: Seq<Symbol>, a_syms: Seq<Symbol>, b_syms: Seq<Symbol>,
)
    ensures
        (ast_merge_spec(base, a, b, base_syms, a_syms, b_syms).0 == MergeStatus::Conflict) <==> ast_merge_spec(
            base,
            a,
            b,
            base_syms,
            a_syms,
            b_syms,
        ).2.len() > 0,
        ast_merge_spec(base, a, b, base_syms, a_syms, b_syms).1.len() > 0,
        ast_merge_spec(base, a, b, base_syms, a_syms, b_syms).1.last() == '\n',
{
}

/// A merge's conflicts name distinct symbols.
pub proof fn lemma_conflict_names_distinct(
    base: Seq<char>, a: Seq<char>, b: Seq<char>, base_syms: Seq<Symbol>, a_syms: Seq<Symbol>, b_syms: Seq<Symbol>,
)
    ensures
        forall|i: int, j: int| 0 <= i < j < ast_merge_spec(base, a, b, base_syms, a_syms, b_syms).2.len()
            ==> (#[trigger] ast_merge_spec(base, a, b, base_syms, a_syms, b_syms).2[i]).0
                != (#[trigger] ast_merge_spec(base, a, b, base_syms, a_syms, b_syms).2[j]).0,
{
    let eb = extract_spec(base, base_syms).1;
    let ea = extract_spec(a, a_syms).1;
    let ec = extract_spec(b, b_syms).1;
    lemma_all_names(eb, ea, ec);
    lemma_conflicts_over(all_names(eb, ea, ec), eb, ea, ec);
}

/// Merging is symmetric in its two sides: swapping them gives the same
/// status, and a conflict on a symbol one way is a conflict on it the other
/// way, with the two versions swapped and the same base text.
pub proof fn lemma_ast_merge_symmetric(
    base: Seq<char>, a: Seq<char>, b: Seq<char>, base_syms: Seq<Symbol>, a_syms: Seq<Symbol>, b_syms: Seq<Symbol>,
)
    ensures
        ast_merge_spec(base, a, b, base_syms, a_syms, b_syms).0 == ast_merge_spec(base, b, a, base_syms, b_syms, a_syms).0,
        forall|i: int| 0 <= i < ast_merge_spec(base, a, b, base_syms, a_syms, b_syms).2.len() ==> has_swapped(
            #[trigger] ast_merge_spec(base, a, b, base_syms, a_syms, b_syms).2[i],
            ast_merge_spec(base, b, a, base_syms, b_syms, a_syms).2,
        ),
{
    let eb = extract_spec(base, base_syms).1;
    let ea = extract_spec(a, a_syms).1;
    let ec = extract_spec(b, b_syms).1;
    let n1 = all_names(eb, ea, ec);
    let n2 = all_names(eb, ec, ea);
    lemma_all_names(eb, ea, ec);
    lemma_all_names(eb, ec, ea);
    lemma_conflicts_over(n1, eb, ea, ec);
    lemma_conflicts_over(n2, eb, ec, ea);
    let m1 = merge_conflicts(n1, eb, ea, ec);
    let m2 = merge_conflicts(n2, eb, ec, ea);
    assert(ast_merge_spec(base, a, b, base_syms, a_syms, b_syms).2 == m1);
    assert(ast_merge_spec(base, b, a, base_syms, b_syms, a_syms).2 == m2);
    assert forall|i: int| 0 <= i < m1.len() implies has_swapped(#[trigger] m1[i], m2) by {
        let c = m1[i];
        let n = c.0;
        lemma_conflict_for_swap(n, span_named(eb, n), span_named(ea, n), span_named(ec, n));
        assert(n1.contains(n));
        assert(n2.contains(n));
        assert(conflict_on(n, eb, ec, ea) is Some);
        let d = conflict_on(n, eb, ec, ea)->0;
        assert(m2.contains(d));
        let j = choose|j: int| 0 <= j < m2.len() && m2[j] == d;
        assert(m2[j] == d);
    }
    if m1.len() > 0 {
        let c = m1[0];
        lemma_conflict_for_swap(c.0, span_named(eb, c.0), span_named(ea, c.0), span_named(ec, c.0));
        assert(n2.contains(c.0));
        assert(conflict_on(c.0, eb, ec, ea) is Some);
        assert(m2.contains(conflict_on(c.0, eb, ec, ea)->0));
    }
    if m2.len() > 0 {
        let d = m2[0];
        lemma_conflict_for_swap(d.0, span_named(eb, d.0), span_named(ec, d.0), span_named(ea, d.0));
        assert(n1.contains(d.0));
        assert(conflict_on(d.0, eb, ea, ec) is Some);
        assert(m1.contains(conflict_on(d.0, eb, ea, ec)->0));
    }
}

/// Three-way symbol-level merge of `base`, `version_a` and `version_b`, given
/// the symbols a parser extracted from each version.
///
/// Fails with `UnsupportedLanguage` when no parser handles the file's
/// extension; otherwise returns the merge that `ast_merge_spec` describes.
pub fn ast_merge_parsed(
    registry: &ParserRegistry,
    file_path: &str,
    base: &str,
    version_a: &str,
    version_b: &str,
    base_symbols: &[Symbol],
    a_symbols: &[Symbol],
    b_symbols: &[Symbol],
) -> (r: Result<MergeResult, Error>)
    requires
        spans_well_formed(base.spec_bytes().len() as int, base_symbols@),
        spans_well_formed(version_a.spec_bytes().len() as int, a_symbols@),
        spans_well_formed(version_b.spec_bytes().len() as int, b_symbols@),
    ensures
        !(path_extension(file_path@) matches Some(e) && registry@.contains(e)) <==> r matches Err(Error::UnsupportedLanguage(_)),
        r is Err ==> r matches Err(Error::UnsupportedLanguage(_)),
        r matches Ok(m) ==> (m.status, m.merged_content@, conflicts_view(m.conflicts@))
            == ast_merge_spec(base@, version_a@, version_b@, base_symbols@, a_symbols@, b_symbols@),
{
    if !registry.supports_file(file_path) {
        let mut msg = String::from_str("AST merge not supported for file: ");
        msg.append(file_path);
        return Err(Error::UnsupportedLanguage(msg));
    }
    let (base_imports, base_spans) = extract_spans(base, base_symbols);
    let (a_imports, a_spans) = extract_spans(version_a, a_symbols);
    let (b_imports, b_spans) = extract_spans(version_b, b_symbols);
    Ok(merge_spans(&base_imports, &a_imports, &b_imports, &base_spans, &a_spans, &b_spans))
}

/// Whether every symbol whose range ends inside `len` bytes starts no later
/// than it ends.
pub fn spans_ok(len: usize, syms: &[Symbol]) -> (r: bool)
    ensures
        r == spans_well_formed(len as int, syms@),
{
    let mut k: usize = 0;
    while k < syms.len()
        invariant
            k <= syms@.len(),
            forall|j: int| 0 <= j < k && #[trigger] syms@[j].span.end_byte <= len ==> syms@[j].span.start_byte <= syms@[j].span.end_byte,
        decreases syms@.len() - k,
    {
        if syms[k].span.end_byte as usize <= len && syms[k].span.start_byte > syms[k].span.end_byte {
            return false;
        }
        k = k + 1;
    }
    true
}

/// The merge that parses `pb`, `pa` and `pc` of the three versions give:
/// the first failed parse's error, a `ParseError` where a parser gave a
/// symbol that ends inside its version before it starts, and otherwise the
/// merge of the three symbol lists.
pub open spec fn merge_of_parses(
    base: &str,
    version_a: &str,
    version_b: &str,
    pb: Result<FileAnalysis, Error>,
    pa: Result<FileAnalysis, Error>,
    pc: Result<FileAnalysis, Error>,
    r: Result<MergeResult, Error>,
) -> bool {
    match (pb, pa, pc) {
        (Err(e), _, _) => r == Err::<MergeResult, Error>(e),
        (Ok(_), Err(e), _) => r == Err::<MergeResult, Error>(e),
        (Ok(_), Ok(_), Err(e)) => r == Err::<MergeResult, Error>(e),
        (Ok(fb), Ok(fa), Ok(fc)) => if spans_well_formed(base.spec_bytes().len() as int, fb.symbols@)
            && spans_well_formed(version_a.spec_bytes().len() as int, fa.symbols@)
            && spans_well_formed(version_b.spec_bytes().len() as int, fc.symbols@) {
            r matches Ok(m) && (m.status, m.merged_content@, conflicts_view(m.conflicts@))
                == ast_merge_spec(base@, version_a@, version_b@, fb.symbols@, fa.symbols@, fc.symbols@)
        } else {
            r matches Err(Error::ParseError(_))
        },
    }
}

/// A parse of its own, or else the base's.
pub open spec fn analysis_or(own: Option<FileAnalysis>, base: Result<FileAnalysis, Error>) -> Result<FileAnalysis, Error> {
    match own {
        Some(f) => Ok(f),
        None => base,
    }
}

/// A merge result in its shape: in conflict exactly when it lists
/// conflicts, on distinct symbols, with merged text that ends in a newline.
pub open spec fn merge_shaped(m: MergeResult) -> bool {
    &&& (m.status == MergeStatus::Conflict <==> m.conflicts@.len() > 0)
    &&& m.merged_content@.len() > 0 && m.merged_content@.last() == '\n'
    &&& forall|i: int, j: int| 0 <= i < j < m.conflicts@.len() ==> (#[trigger] m.conflicts@[i]).qualified_name@
        != (#[trigger] m.conflicts@[j]).qualified_name@
}

/// `r` is the merge of the registry's parses of the three versions of file
/// `path`.
pub open spec fn merge_by_parses(
    exts: Seq<Seq<char>>,
    path: Seq<char>,
    base: &str,
    version_a: &str,
    version_b: &str,
    queries: &QueryLibrary,
    r: Result<MergeResult, Error>,
) -> bool {
    exists|pb: Result<FileAnalysis, Error>, pa: Result<FileAnalysis, Error>, pc: Result<FileAnalysis, Error>|
        registry_result(exts, path, base.spec_bytes(), queries, pb)
            && (pb is Ok ==> registry_result(exts, path, version_a.spec_bytes(), queries, pa))
            && (pb is Ok && pa is Ok ==> registry_result(exts, path, version_b.spec_bytes(), queries, pc))
            && #[trigger] merge_of_parses(base, version_a, version_b, pb, pa, pc, r)
}

/// The laws a merge's result keeps: its shape, and a clean merge where one
/// side has the base's text and symbols.
proof fn lemma_merge_result_laws(
    base: &str, version_a: &str, version_b: &str, sb: Seq<Symbol>, sa: Seq<Symbol>, sc: Seq<Symbol>, m: MergeResult,
)
    requires
        (m.status, m.merged_content@, conflicts_view(m.conflicts@)) == ast_merge_spec(base@, version_a@, version_b@, sb, sa, sc),
        version_a@ == base@ ==> sa == sb,
        version_b@ == base@ ==> sc == sb,
    ensures
        merge_shaped(m),
        version_a@ == base@ || version_b@ == base@ ==> m.status == MergeStatus::Clean && m.conflicts@.len() == 0,
{
    lemma_merge_shape(base@, version_a@, version_b@, sb, sa, sc);
    lemma_conflict_names_distinct(base@, version_a@, version_b@, sb, sa, sc);
    let cv = conflicts_view(m.conflicts@);
    assert forall|i: int, j: int| 0 <= i < j < m.conflicts@.len() implies (#[trigger] m.conflicts@[i]).qualified_name@
        != (#[trigger] m.conflicts@[j]).qualified_name@ by {
        assert(cv[i].0 == m.conflicts@[i].qualified_name@);
        assert(cv[j].0 == m.conflicts@[j].qualified_name@);
    }
    lemma_same_but_ids_refl(sb);
    if version_a@ == base@ {
        lemma_unchanged_side_merges_clean(base@, version_b@, sb, sa, sc);
    } else if version_b@ == base@ {
        lemma_unchanged_side_merges_clean(base@, version_a@, sb, sc, sa);
    }
}

/// Three-way symbol-level merge of `base`, `version_a` and `version_b`.
///
/// Fails with `UnsupportedLanguage` when no parser handles the file's
/// extension. Otherwise it parses the three versions with the registry,
/// fails as the first failing parse does, and merges their symbols as
/// `ast_merge_spec` describes.
#[verifier::rlimit(40)]
pub fn ast_merge(
    registry: &ParserRegistry,
    file_path: &str,
    base: &str,
    version_a: &str,
    version_b: &str,
    queries: &QueryLibrary,
) -> (r: Result<MergeResult, Error>)
    ensures
        !(path_extension(file_path@) matches Some(e) && registry@.contains(e)) ==> (r matches Err(
            Error::UnsupportedLanguage(m),
        ) && m@ == "AST merge not supported for file: "@ + file_path@),
        (path_extension(file_path@) matches Some(e) && registry@.contains(e)) ==> merge_by_parses(
            registry@,
            file_path@,
            base,
            version_a,
            version_b,
            queries,
            r,
        ),
        r matches Ok(m) ==> merge_shaped(m),
        version_a@ == base@ || version_b@ == base@ ==> (r matches Ok(m) ==> m.status == MergeStatus::Clean
            && m.conflicts@.len() == 0),
{
    if !registry.supports_file(file_path) {
        let mut msg = String::from_str("AST merge not supported for file: ");
        msg.append(file_path);
        proof {
            reveal_strlit("AST merge not supported for file: ");
        }
        return Err(Error::UnsupportedLanguage(msg));
    }
    let a_same = str_eq(version_a, base);
    let b_same = str_eq(version_b, base);
    // a version equal to the base has the base's parse
    let pb = registry.parse_file(file_path, base.as_bytes(), queries);
    let ghost gb = pb;
    let fb = match pb {
        Ok(fb) => fb,
        Err(e) => {
            let r = Err(e);
            proof {
                assert(merge_of_parses(base, version_a, version_b, gb, gb, gb, r));
                assert(merge_by_parses(registry@, file_path@, base, version_a, version_b, queries, r));
            }
            return r;
        },
    };
    let pa_own: Option<FileAnalysis> = if a_same {
        None
    } else {
        let pa = registry.parse_file(file_path, version_a.as_bytes(), queries);
        let ghost ga = pa;
        match pa {
            Ok(f) => Some(f),
            Err(e) => {
                let r = Err(e);
                proof {
                    assert(merge_of_parses(base, version_a, version_b, gb, ga, ga, r));
                    assert(merge_by_parses(registry@, file_path@, base, version_a, version_b, queries, r));
                }
                return r;
            },
        }
    };
    let ghost ga: Result<FileAnalysis, Error> = analysis_or(pa_own, gb);
    let pc_own: Option<FileAnalysis> = if b_same {
        None
    } else {
        let pc = registry.parse_file(file_path, version_b.as_bytes(), queries);
        let ghost gc = pc;
        match pc {
            Ok(f) => Some(f),
            Err(e) => {
                let r = Err(e);
                proof {
                    assert(merge_of_parses(base, version_a, version_b, gb, ga, gc, r));
                    assert(merge_by_parses(registry@, file_path@, base, version_a, version_b, queries, r));
                }
                return r;
            },
        }
    };
    let ghost gc: Result<FileAnalysis, Error> = analysis_or(pc_own, gb);
    let fa: &FileAnalysis = match &pa_own {
        Some(f) => f,
        None => &fb,
    };
    let fc: &FileAnalysis = match &pc_own {
        Some(f) => f,
        None => &fb,
    };
    let r = if spans_ok(base.as_bytes().len(), fb.symbols.as_slice())
        && spans_ok(version_a.as_bytes().len(), fa.symbols.as_slice())
        && spans_ok(version_b.as_bytes().len(), fc.symbols.as_slice()) {
        ast_merge_parsed(registry, file_path, base, version_a, version_b, fb.symbols.as_slice(),
            fa.symbols.as_slice(), fc.symbols.as_slice())
    } else {
        Err(Error::ParseError(String::from_str("symbol span ends before it starts")))
    };
    proof {
        assert(merge_of_parses(base, version_a, version_b, gb, ga, gc, r));
        assert(merge_by_parses(registry@, file_path@, base, version_a, version_b, queries, r));
        if r is Ok {
            lemma_merge_result_laws(base, version_a, version_b, fb.symbols@, fa.symbols@, fc.symbols@, r->Ok_0);
        }
    }
    r
}

/// Two parses that both succeeded with the same symbols up to ids.
pub open spec fn same_parse(p: Result<FileAnalysis, Error>, q: Result<FileAnalysis, Error>) -> bool {
    p is Ok && q is Ok && same_but_ids(q->Ok_0.symbols@, p->Ok_0.symbols@)
}

/// Merging is symmetric in its two sides at the merge's results: two merges
/// that swap the sides, over parses that give the same symbols up to ids,
/// have the same status, and each conflict of one is a conflict of the
/// other with its two versions swapped.
pub proof fn lemma_ast_merge_results_symmetric(
    base: &str, a: &str, b: &str,
    pb: Result<FileAnalysis, Error>, pa: Result<FileAnalysis, Error>, pc: Result<FileAnalysis, Error>,
    qb: Result<FileAnalysis, Error>, qa: Result<FileAnalysis, Error>, qc: Result<FileAnalysis, Error>,
    r1: Result<MergeResult, Error>, r2: Result<MergeResult, Error>,
)
    requires
        merge_of_parses(base, a, b, pb, pa, pc, r1),
        merge_of_parses(base, b, a, qb, qc, qa, r2),
        r1 is Ok,
        r2 is Ok,
        same_parse(pb, qb),
        same_parse(pa, qa),
        same_parse(pc, qc),
    ensures
        r1->Ok_0.status == r2->Ok_0.status,
        forall|i: int| 0 <= i < r1->Ok_0.conflicts@.len() ==> has_swapped(
            #[trigger] conflicts_view(r1->Ok_0.conflicts@)[i],
            conflicts_view(r2->Ok_0.conflicts@),
        ),
        forall|i: int| 0 <= i < r2->Ok_0.conflicts@.len() ==> has_swapped(
            #[trigger] conflicts_view(r2->Ok_0.conflicts@)[i],
            conflicts_view(r1->Ok_0.conflicts@),
        ),
{
    let (sb, sa, sc) = (pb->Ok_0.symbols@, pa->Ok_0.symbols@, pc->Ok_0.symbols@);
    let (tb, ta, tc) = (qb->Ok_0.symbols@, qa->Ok_0.symbols@, qc->Ok_0.symbols@);
    lemma_extract_ignores_ids(base@, tb, sb);
    lemma_extract_ignores_ids(a@, ta, sa);
    lemma_extract_ignores_ids(b@, tc, sc);
    assert(ast_merge_spec(base@, b@, a@, tb, tc, ta) == ast_merge_spec(base@, b@, a@, sb, sc, sa));
    lemma_ast_merge_symmetric(base@, a@, b@, sb, sa, sc);
    lemma_ast_merge_symmetric(base@, b@, a@, sb, sc, sa);
    let c1 = conflicts_view(r1->Ok_0.conflicts@);
    let c2 = conflicts_view(r2->Ok_0.conflicts@);
    let s1 = ast_merge_spec(base@, a@, b@, sb, sa, sc).2;
    let s2 = ast_merge_spec(base@, b@, a@, sb, sc, sa).2;
    assert(c1 == s1);
    assert(c2 == s2);
    assert forall|i: int| 0 <= i < r1->Ok_0.conflicts@.len() implies has_swapped(#[trigger] c1[i], c2) by {
        assert(has_swapped(s1[i], s2));
    }
    assert forall|i: int| 0 <= i < r2->Ok_0.conflicts@.len() implies has_swapped(#[trigger] c2[i], c1) by {
        assert(has_swapped(s2[i], s1));
    }
}

/// A symbol that the base and both versions hold is reported in conflict
/// only when the two versions' texts differ: both sides making the same
/// change to it is no conflict.
pub proof fn lemma_same_change_is_no_conflict(
    base: Seq<char>, a: Seq<char>, b: Seq<char>, base_syms: Seq<Symbol>, a_syms: Seq<Symbol>, b_syms: Seq<Symbol>,
)
    ensures
        forall|i: int| 0 <= i < ast_merge_spec(base, a, b, base_syms, a_syms, b_syms).2.len() ==> {
            let c = #[trigger] ast_merge_spec(base, a, b, base_syms, a_syms, b_syms).2[i];
            (span_named(extract_spec(base, base_syms).1, c.0) is Some
                && span_named(extract_spec(a, a_syms).1, c.0) is Some
                && span_named(extract_spec(b, b_syms).1, c.0) is Some) ==> c.2 != c.3
        },
        forall|i: int| 0 <= i < ast_merge_spec(base, a, b, base_syms, a_syms, b_syms).2.len() ==> {
            let c = #[trigger] ast_merge_spec(base, a, b, base_syms, a_syms, b_syms).2[i];
            span_named(extract_spec(a, a_syms).1, c.0) is Some && span_named(extract_spec(b, b_syms).1, c.0) is Some
                ==> c.2 == (span_named(extract_spec(a, a_syms).1, c.0)->0).2
                    && c.3 == (span_named(extract_spec(b, b_syms).1, c.0)->0).2
        },
{
    let eb = extract_spec(base, base_syms).1;
    let ea = extract_spec(a, a_syms).1;
    let ec = extract_spec(b, b_syms).1;
    lemma_conflicts_over(all_names(eb, ea, ec), eb, ea, ec);
    let m = ast_merge_spec(base, a, b, base_syms, a_syms, b_syms).2;
    assert(m == merge_conflicts(all_names(eb, ea, ec), eb, ea, ec));
    assert forall|i: int| 0 <= i < m.len() implies {
        let c = #[trigger] m[i];
        &&& (span_named(eb, c.0) is Some && span_named(ea, c.0) is Some && span_named(ec, c.0) is Some) ==> c.2 != c.3
        &&& (span_named(ea, c.0) is Some && span_named(ec, c.0) is Some
            ==> c.2 == (span_named(ea, c.0)->0).2 && c.3 == (span_named(ec, c.0)->0).2)
    } by {
        assert(conflict_on(m[i].0, eb, ea, ec) == Some(m[i]));
    }
}

} // verus!
