//! The splicer: the import block of a file replaced by other text.
use vstd::prelude::*;
use crate::extract::{Item, LineColumn};
use crate::text::{
    lines_of, concat, is_white_space, char_is_white_space, chars_of, string_of, lines_view,
    split_lines, append_chars,
};

verus! {

/// The spans of the top-level imports, in source order.
pub open spec fn use_spans(items: Seq<Item>) -> Seq<(LineColumn, LineColumn)>
    decreases items.len(),
{
    if items.len() == 0 {
        Seq::empty()
    } else {
        use_spans(items.drop_last()) + match items.last() {
            Item::Use(d) => seq![(d.start, d.end)],
            Item::Other => Seq::empty(),
        }
    }
}

/// The first span starts on a line of the text, within that line.
pub open spec fn start_in_text(lines: Seq<Seq<char>>, spans: Seq<(LineColumn, LineColumn)>) -> bool {
    spans.len() > 0 && 1 <= spans[0].0.line <= lines.len() && spans[0].0.column <= lines[spans[0].0.line
        - 1].len()
}

/// What precedes the first import on its line.
pub open spec fn indent_of(lines: Seq<Seq<char>>, spans: Seq<(LineColumn, LineColumn)>) -> Seq<char> {
    lines[spans[0].0.line - 1].take(spans[0].0.column as int)
}

pub open spec fn all_white_space(s: Seq<char>) -> bool {
    forall|i: int| 0 <= i < s.len() ==> is_white_space(#[trigger] s[i])
}

/// Line `n` (1-based) lies within one of the spans.
pub open spec fn in_spans(spans: Seq<(LineColumn, LineColumn)>, n: int) -> bool {
    exists|i: int| 0 <= i < spans.len() && spans[i].0.line <= n <= #[trigger] spans[i].1.line
}

/// Each line of the replacement, preceded by the indentation.
pub open spec fn indented(rep: Seq<Seq<char>>, indent: Seq<char>) -> Seq<char>
    decreases rep.len(),
{
    if rep.len() == 0 {
        Seq::empty()
    } else {
        indented(rep.drop_last(), indent) + indent + rep.last()
    }
}

/// What stands in the result for the line of index `idx` of the source.
pub open spec fn out_line(
    lines: Seq<Seq<char>>,
    spans: Seq<(LineColumn, LineColumn)>,
    block: Seq<char>,
    idx: int,
) -> Seq<char> {
    if idx + 1 == spans[0].0.line {
        block
    } else if in_spans(spans, idx + 1) {
        Seq::empty()
    } else {
        lines[idx]
    }
}

/// The result for the first `k` lines of the source.
pub open spec fn spliced_upto(
    lines: Seq<Seq<char>>,
    spans: Seq<(LineColumn, LineColumn)>,
    block: Seq<char>,
    k: int,
) -> Seq<char>
    decreases k,
{
    if k <= 0 {
        Seq::empty()
    } else {
        spliced_upto(lines, spans, block, k - 1) + out_line(lines, spans, block, k - 1)
    }
}

/// The source with the first import line replaced by the indented
/// replacement and every other line of an import left out.
pub open spec fn spliced(source: Seq<char>, spans: Seq<(LineColumn, LineColumn)>, rep: Seq<char>) -> Seq<
    char,
> {
    let lines = lines_of(source);
    spliced_upto(
        lines,
        spans,
        indented(lines_of(rep), indent_of(lines, spans)),
        lines.len() as int,
    )
}

/// Why the import block of a file could not be replaced.
#[derive(Debug, PartialEq, Eq, Structural)]
pub enum SpliceError {
    /// The file has no top-level import to replace.
    NoImports,
    /// The first import's start lies outside the text.
    StartOutOfText,
    /// Something other than white space precedes the first import on its
    /// line.
    NotAtLineStart,
}

/// The spans of the top-level imports.
pub fn collect_spans(items: &Vec<Item>) -> (r: Vec<(LineColumn, LineColumn)>)
    ensures
        r@ == use_spans(items@),
{
    let mut r: Vec<(LineColumn, LineColumn)> = Vec::new();
    let mut i: usize = 0;
    while i < items.len()
        invariant
            0 <= i <= items.len(),
            r@ == use_spans(items@.take(i as int)),
        decreases items.len() - i,
    {
        proof {
            assert(items@.take(i + 1).drop_last() =~= items@.take(i as int));
        }
        match &items[i] {
            Item::Use(d) => {
                r.push((d.start, d.end));
                proof {
                    assert(r@ =~= use_spans(items@.take(i + 1)));
                }
            },
            Item::Other => {
                proof {
                    assert(r@ =~= use_spans(items@.take(i + 1)));
                }
            },
        }
        i = i + 1;
    }
    proof {
        assert(items@.take(items.len() as int) =~= items@);
    }
    r
}

fn line_in_spans(spans: &Vec<(LineColumn, LineColumn)>, n: usize) -> (r: bool)
    ensures
        r == in_spans(spans@, n as int),
{
    let mut i: usize = 0;
    while i < spans.len()
        invariant
            0 <= i <= spans.len(),
            forall|k: int|
                0 <= k < i ==> !(spans@[k].0.line <= n <= #[trigger] spans@[k].1.line),
        decreases spans.len() - i,
    {
        if spans[i].0.line <= n && n <= spans[i].1.line {
            return true;
        }
        i = i + 1;
    }
    false
}

fn indent_lines(rep: &Vec<Vec<char>>, indent: &Vec<char>) -> (r: Vec<char>)
    ensures
        r@ == indented(lines_view(rep@), indent@),
{
    let mut r: Vec<char> = Vec::new();
    let mut i: usize = 0;
    while i < rep.len()
        invariant
            0 <= i <= rep.len(),
            r@ == indented(lines_view(rep@).take(i as int), indent@),
        decreases rep.len() - i,
    {
        append_chars(&mut r, indent);
        append_chars(&mut r, &rep[i]);
        proof {
            let lv = lines_view(rep@);
            assert(lv.take(i + 1).drop_last() =~= lv.take(i as int));
            assert(lv.take(i + 1).last() == rep@[i as int]@);
        }
        i = i + 1;
    }
    proof {
        assert(lines_view(rep@).take(rep.len() as int) =~= lines_view(rep@));
    }
    r
}

/// Replaces the import block of `source` with `use_items`.
///
/// The first line of the first import gives way to the lines of
/// `use_items`, each preceded by what preceded that import on its line; the
/// other lines of every top-level import are left out; every other line is
/// kept as it is.
pub fn inject_use_items(use_items: &str, source: &str, items: &Vec<Item>) -> (r: Result<
    String,
    SpliceError,
>)
    ensures
        use_spans(items@).len() == 0 <==> r == Err::<String, SpliceError>(SpliceError::NoImports),
        use_spans(items@).len() > 0 && !start_in_text(lines_of(source@), use_spans(items@)) <==> r
            == Err::<String, SpliceError>(SpliceError::StartOutOfText),
        start_in_text(lines_of(source@), use_spans(items@)) && !all_white_space(
            indent_of(lines_of(source@), use_spans(items@)),
        ) <==> r == Err::<String, SpliceError>(SpliceError::NotAtLineStart),
        r matches Ok(t) ==> t@ == spliced(source@, use_spans(items@), use_items@),
{
    let spans = collect_spans(items);
    if spans.len() == 0 {
        return Err(SpliceError::NoImports);
    }
    let src = chars_of(source);
    let lines = split_lines(&src);
    let ghost lv = lines_view(lines@);
    let start = spans[0].0;
    if start.line < 1 || start.line > lines.len() || start.column > lines[start.line - 1].len() {
        return Err(SpliceError::StartOutOfText);
    }
    let first = &lines[start.line - 1];
    assert(start_in_text(lv, spans@));
    let mut indent: Vec<char> = Vec::new();
    let mut k: usize = 0;
    while k < start.column
        invariant
            0 <= k <= start.column <= first@.len(),
            indent@ == first@.take(k as int),
            all_white_space(indent@),
            spans@ == use_spans(items@),
            spans@.len() > 0,
            start == spans@[0].0,
            lv == lines_view(lines@),
            lv == lines_of(source@),
            start_in_text(lv, spans@),
            first@ == lv[start.line - 1],
        decreases start.column - k,
    {
        if !char_is_white_space(first[k]) {
            proof {
                assert(first@.take(start.column as int)[k as int] == first@[k as int]);
            }
            return Err(SpliceError::NotAtLineStart);
        }
        indent.push(first[k]);
        proof {
            assert(indent@ =~= first@.take(k + 1));
        }
        k = k + 1;
    }
    assert(indent@ == indent_of(lv, spans@));
    let rep_chars = chars_of(use_items);
    let rep = split_lines(&rep_chars);
    let block = indent_lines(&rep, &indent);
    let mut out: Vec<char> = Vec::new();
    let mut idx: usize = 0;
    while idx < lines.len()
        invariant
            0 <= idx <= lines.len(),
            lv == lines_view(lines@),
            spans@.len() > 0,
            start == spans@[0].0,
            out@ == spliced_upto(lv, spans@, block@, idx as int),
        decreases lines.len() - idx,
    {
        if idx + 1 == start.line {
            append_chars(&mut out, &block);
        } else if !line_in_spans(&spans, idx + 1) {
            append_chars(&mut out, &lines[idx]);
        }
        proof {
            assert(out@ =~= spliced_upto(lv, spans@, block@, idx + 1));
        }
        idx = idx + 1;
    }
    Ok(string_of(&out))
}

proof fn lemma_spliced_prefix(
    lines: Seq<Seq<char>>,
    spans: Seq<(LineColumn, LineColumn)>,
    block: Seq<char>,
    a: int,
    b: int,
)
    requires
        0 <= a <= b,
    ensures
        spliced_upto(lines, spans, block, a).len() <= spliced_upto(lines, spans, block, b).len(),
        spliced_upto(lines, spans, block, b).subrange(
            0,
            spliced_upto(lines, spans, block, a).len() as int,
        ) == spliced_upto(lines, spans, block, a),
    decreases b,
{
    if a < b {
        lemma_spliced_prefix(lines, spans, block, a, b - 1);
        let sa = spliced_upto(lines, spans, block, a);
        let sb1 = spliced_upto(lines, spans, block, b - 1);
        let sb = spliced_upto(lines, spans, block, b);
        assert(sb == sb1 + out_line(lines, spans, block, b - 1));
        assert(sb.subrange(0, sa.len() as int) =~= sb1.subrange(0, sa.len() as int));
    } else {
        let sa = spliced_upto(lines, spans, block, a);
        assert(sa.subrange(0, sa.len() as int) =~= sa);
    }
}

/// In the result of a splice, the import region is the replacement's lines
/// under the original indentation, and nothing else: texts spliced with one
/// replacement and one indentation hold byte-identical import regions.
pub proof fn lemma_import_region(
    source: Seq<char>,
    spans: Seq<(LineColumn, LineColumn)>,
    rep: Seq<char>,
)
    requires
        start_in_text(lines_of(source), spans),
    ensures
        ({
            let lines = lines_of(source);
            let block = indented(lines_of(rep), indent_of(lines, spans));
            let p = spliced_upto(lines, spans, block, spans[0].0.line - 1).len();
            &&& p + block.len() <= spliced(source, spans, rep).len()
            &&& spliced(source, spans, rep).subrange(p as int, (p + block.len()) as int) == block
        }),
{
    let lines = lines_of(source);
    let block = indented(lines_of(rep), indent_of(lines, spans));
    let n = spans[0].0.line as int;
    let before = spliced_upto(lines, spans, block, n - 1);
    let upto = spliced_upto(lines, spans, block, n);
    assert(upto == before + block);
    lemma_spliced_prefix(lines, spans, block, n, lines.len() as int);
    let all = spliced(source, spans, rep);
    assert(all.subrange(before.len() as int, (before.len() + block.len()) as int) =~= upto.subrange(
        before.len() as int,
        (before.len() + block.len()) as int,
    ));
    assert(upto.subrange(before.len() as int, (before.len() + block.len()) as int) =~= block);
}

} // verus!
