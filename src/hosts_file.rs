use vstd::prelude::*;
use crate::catalog::{block_markers, end_marker, start_marker};
use crate::models::OptimizationTarget;

verus! {

/// Characters with the Unicode `White_Space` property.
pub open spec fn is_white_space(c: char) -> bool {
    ('\u{9}' <= c && c <= '\u{d}') || c == ' ' || c == '\u{85}' || c == '\u{a0}'
        || c == '\u{1680}' || ('\u{2000}' <= c && c <= '\u{200a}') || c == '\u{2028}'
        || c == '\u{2029}' || c == '\u{202f}' || c == '\u{205f}' || c == '\u{3000}'
}

pub open spec fn trim_start_ws(s: Seq<char>) -> Seq<char>
    decreases s.len(),
{
    if s.len() > 0 && is_white_space(s[0]) {
        trim_start_ws(s.drop_first())
    } else {
        s
    }
}

pub open spec fn trim_end_ws(s: Seq<char>) -> Seq<char>
    decreases s.len(),
{
    if s.len() > 0 && is_white_space(s.last()) {
        trim_end_ws(s.drop_last())
    } else {
        s
    }
}

/// `s` without leading and trailing white space.
pub open spec fn trim_ws(s: Seq<char>) -> Seq<char> {
    trim_end_ws(trim_start_ws(s))
}

/// Relies on `str::trim`: it removes leading and trailing characters with the
/// `White_Space` property.
#[verifier::external_body]
fn trim_line(s: &str) -> (r: &str)
    ensures
        r@ == trim_ws(s@),
{
    s.trim()
}

/// Whether the scan is inside a block delimited by `start` and `end` after
/// reading `lines`, having begun in state `init`.
pub open spec fn inside_after(
    lines: Seq<Seq<char>>,
    start: Seq<char>,
    end: Seq<char>,
    init: bool,
) -> bool
    decreases lines.len(),
{
    if lines.len() == 0 {
        init
    } else {
        let before = inside_after(lines.drop_last(), start, end, init);
        let t = trim_ws(lines.last());
        if t == start {
            true
        } else if t == end && before {
            false
        } else {
            before
        }
    }
}

/// The lines of `lines` that lie outside every block opened by a line that
/// trims to `start` and closed by the next line that trims to `end`. The
/// marker lines themselves are dropped; an `end` line outside a block is kept.
pub open spec fn kept_lines(
    lines: Seq<Seq<char>>,
    start: Seq<char>,
    end: Seq<char>,
    init: bool,
) -> Seq<Seq<char>>
    decreases lines.len(),
{
    if lines.len() == 0 {
        seq![]
    } else {
        let prev = kept_lines(lines.drop_last(), start, end, init);
        let before = inside_after(lines.drop_last(), start, end, init);
        if !before && trim_ws(lines.last()) != start {
            prev.push(lines.last())
        } else {
            prev
        }
    }
}

/// The line written for one optimized domain: the address, a space, the domain.
pub open spec fn entry_line(entry: (Seq<char>, Seq<char>)) -> Seq<char> {
    entry.1 + " "@ + entry.0
}

/// The delimited block for `entries`: the start marker, one line per entry
/// and the end marker.
pub open spec fn block_lines(t: OptimizationTarget, entries: Seq<(Seq<char>, Seq<char>)>) -> Seq<
    Seq<char>,
> {
    seq![start_marker(t)] + entries.map_values(|e: (Seq<char>, Seq<char>)| entry_line(e)) + seq![
        end_marker(t),
    ]
}

/// A blank separator line goes before a new block unless the kept lines
/// already end in a blank line.
pub open spec fn needs_separator(kept: Seq<Seq<char>>) -> bool {
    kept.len() == 0 || kept.last().len() > 0
}

/// What is appended after the kept lines `kept`: nothing when there are no
/// entries, else the block, preceded by a blank separator line where
/// `needs_separator(kept)`.
pub open spec fn new_block(
    t: OptimizationTarget,
    entries: Seq<(Seq<char>, Seq<char>)>,
    kept: Seq<Seq<char>>,
) -> Seq<Seq<char>> {
    if entries.len() == 0 {
        seq![]
    } else if needs_separator(kept) {
        seq![seq![]] + block_lines(t, entries)
    } else {
        block_lines(t, entries)
    }
}

/// The override file's lines after the block of `t` is replaced by `entries`.
pub open spec fn rewritten(
    lines: Seq<Seq<char>>,
    t: OptimizationTarget,
    entries: Seq<(Seq<char>, Seq<char>)>,
) -> Seq<Seq<char>> {
    let kept = kept_lines(lines, start_marker(t), end_marker(t), false);
    kept + new_block(t, entries, kept)
}

pub open spec fn line_views(v: Seq<String>) -> Seq<Seq<char>> {
    v.map_values(|s: String| s@)
}

pub open spec fn entry_views(v: Seq<(String, String)>) -> Seq<(Seq<char>, Seq<char>)> {
    v.map_values(|e: (String, String)| (e.0@, e.1@))
}

fn same_text(a: &str, b: &str) -> (r: bool)
    ensures
        r == (a@ == b@),
{
    let x = a.to_owned();
    let y = b.to_owned();
    x == y
}

/// Rewrites the lines of an override file: drops the previous block of
/// `target` (each `(domain, ip)` pair of `entries` becomes an `ip domain` line
/// of the new one) and appends the new block at the end.
pub fn rewrite_block(
    lines: &Vec<String>,
    target: OptimizationTarget,
    entries: &Vec<(String, String)>,
) -> (r: Vec<String>)
    ensures
        line_views(r@) == rewritten(line_views(lines@), target, entry_views(entries@)),
{
    let (start, end) = block_markers(target);
    let ghost ls = line_views(lines@);
    let mut out: Vec<String> = Vec::new();
    let mut inside = false;
    let mut i: usize = 0;
    while i < lines.len()
        invariant
            i <= lines@.len(),
            ls == line_views(lines@),
            start@ == start_marker(target),
            end@ == end_marker(target),
            line_views(out@) == kept_lines(ls.take(i as int), start@, end@, false),
            inside == inside_after(ls.take(i as int), start@, end@, false),
        decreases lines.len() - i,
    {
        proof {
            assert(ls.take(i as int + 1).drop_last() == ls.take(i as int));
            assert(ls.take(i as int + 1).last() == lines@[i as int]@);
        }
        let line = &lines[i];
        let ghost prev = out@;
        let t = trim_line(line.as_str());
        let is_start = same_text(t, start);
        let is_end = same_text(t, end);
        if is_start {
            inside = true;
        } else if is_end && inside {
            inside = false;
        } else if !inside {
            out.push(line.clone());
            proof {
                assert(line_views(out@) =~= line_views(prev).push(line@));
            }
        }
        i += 1;
    }
    proof {
        assert(ls.take(lines@.len() as int) == ls);
    }
    let ghost kept_all = out@;
    if entries.len() > 0 {
        let ghost kept = out@;
        let separate = out.len() == 0 || !out[out.len() - 1].as_str().is_empty();
        proof {
            if out@.len() > 0 {
                assert(line_views(kept).last() == kept.last()@);
            }
            assert(separate == needs_separator(line_views(kept)));
        }
        if separate {
            out.push(String::new());
        }
        let ghost sep = if separate {
            seq![Seq::<char>::empty()]
        } else {
            Seq::<Seq<char>>::empty()
        };
        let ghost before_start = out@;
        out.push(start.to_owned());
        proof {
            assert(line_views(out@) =~= line_views(before_start).push(start@));
            assert(line_views(before_start) =~= line_views(kept) + sep);
        }
        let mut k: usize = 0;
        while k < entries.len()
            invariant
                k <= entries@.len(),
                line_views(out@) == line_views(kept) + sep + seq![start@] + entry_views(
                    entries@.take(k as int),
                ).map_values(|e: (Seq<char>, Seq<char>)| entry_line(e)),
            decreases entries.len() - k,
        {
            let ghost prev = out@;
            let (domain, ip) = &entries[k];
            let mut text = ip.clone();
            text.append(" ");
            text.append(domain.as_str());
            out.push(text);
            proof {
                assert(entry_views(entries@.take(k as int + 1)) =~= entry_views(
                    entries@.take(k as int),
                ).push((domain@, ip@)));
                assert(line_views(out@) =~= line_views(prev).push(text@));
            }
            k += 1;
        }
        let ghost before_end = out@;
        out.push(end.to_owned());
        proof {
            assert(line_views(out@) =~= line_views(before_end).push(end@));
            assert(entries@.take(entries@.len() as int) == entries@);
            assert(line_views(out@) =~= line_views(kept) + new_block(
                target,
                entry_views(entries@),
                line_views(kept),
            ));
        }
    }
    proof {
        assert(line_views(out@) =~= line_views(kept_all) + new_block(
            target,
            entry_views(entries@),
            line_views(kept_all),
        ));
    }
    out
}

/// Scanning two pieces one after the other is scanning their concatenation.
pub proof fn lemma_scan_concat(
    x: Seq<Seq<char>>,
    y: Seq<Seq<char>>,
    start: Seq<char>,
    end: Seq<char>,
    init: bool,
)
    ensures
        kept_lines(x + y, start, end, init) == kept_lines(x, start, end, init) + kept_lines(
            y,
            start,
            end,
            inside_after(x, start, end, init),
        ),
        inside_after(x + y, start, end, init) == inside_after(
            y,
            start,
            end,
            inside_after(x, start, end, init),
        ),
    decreases y.len(),
{
    if y.len() == 0 {
        assert(x + y == x);
    } else {
        lemma_scan_concat(x, y.drop_last(), start, end, init);
        assert((x + y).drop_last() == x + y.drop_last());
        assert((x + y).last() == y.last());
    }
}

/// Lines of which none trims to `start`, read outside a block, are all kept
/// and leave the scan outside a block.
pub proof fn lemma_pass_through(lines: Seq<Seq<char>>, start: Seq<char>, end: Seq<char>)
    requires
        forall|i: int| 0 <= i < lines.len() ==> trim_ws(#[trigger] lines[i]) != start,
    ensures
        kept_lines(lines, start, end, false) == lines,
        !inside_after(lines, start, end, false),
    decreases lines.len(),
{
    if lines.len() > 0 {
        let p = lines.drop_last();
        assert forall|i: int| 0 <= i < p.len() implies trim_ws(#[trigger] p[i]) != start by {
            assert(p[i] == lines[i]);
        }
        lemma_pass_through(p, start, end);
        assert(lines.last() == lines[lines.len() - 1]);
        assert(p.push(lines.last()) == lines);
    }
}

/// Lines of which none trims to `end`, read inside a block, are all dropped
/// and leave the scan inside the block.
pub proof fn lemma_swallowed(lines: Seq<Seq<char>>, start: Seq<char>, end: Seq<char>)
    requires
        forall|i: int|
            0 <= i < lines.len() ==> trim_ws(#[trigger] lines[i]) != end,
    ensures
        kept_lines(lines, start, end, true) == Seq::<Seq<char>>::empty(),
        inside_after(lines, start, end, true),
    decreases lines.len(),
{
    if lines.len() > 0 {
        let p = lines.drop_last();
        assert forall|i: int| 0 <= i < p.len() implies trim_ws(#[trigger] p[i]) != end by {
            assert(p[i] == lines[i]);
        }
        lemma_swallowed(p, start, end);
        assert(lines.last() == lines[lines.len() - 1]);
    }
}

/// No kept line trims to the start marker.
pub proof fn lemma_kept_has_no_start(
    lines: Seq<Seq<char>>,
    start: Seq<char>,
    end: Seq<char>,
    init: bool,
)
    ensures
        forall|i: int|
            0 <= i < kept_lines(lines, start, end, init).len() ==> trim_ws(
                #[trigger] kept_lines(lines, start, end, init)[i],
            ) != start,
    decreases lines.len(),
{
    if lines.len() > 0 {
        lemma_kept_has_no_start(lines.drop_last(), start, end, init);
        let k = kept_lines(lines, start, end, init);
        let p = kept_lines(lines.drop_last(), start, end, init);
        assert forall|i: int| 0 <= i < k.len() implies trim_ws(#[trigger] k[i]) != start by {
            if i < p.len() {
                assert(k[i] == p[i]);
            }
        }
    }
}

/// Each marker line is already trimmed, the start markers of two targets
/// differ, and no start marker equals an end marker.
pub proof fn lemma_markers(a: OptimizationTarget, b: OptimizationTarget)
    ensures
        trim_ws(start_marker(a)) == start_marker(a),
        trim_ws(end_marker(a)) == end_marker(a),
        trim_ws(Seq::<char>::empty()) == Seq::<char>::empty(),
        start_marker(a).len() > 0,
        end_marker(a).len() > 0,
        start_marker(a) != end_marker(b),
        a != b ==> start_marker(a) != start_marker(b),
{
    reveal_strlit("# == Github ==");
    reveal_strlit("# == Cloudflare ==");
    reveal_strlit("# == Nexusmods ==");
    reveal_strlit("# =========");
    reveal_strlit("# ============");
    let s = start_marker(a);
    let e = end_marker(a);
    assert(!is_white_space(s[0]) && !is_white_space(s.last()));
    assert(!is_white_space(e[0]) && !is_white_space(e.last()));
    assert(start_marker(a)[4] != end_marker(b)[4]);
    if a != b {
        assert(start_marker(a)[5] != start_marker(b)[5]);
    }
}

/// Rewriting a target's block with no entries removes every line of the file
/// that opens a block of that target, and keeps exactly the lines outside its
/// blocks.
pub proof fn law_empty_rewrite_removes_block(lines: Seq<Seq<char>>, t: OptimizationTarget)
    ensures
        rewritten(lines, t, seq![]) == kept_lines(lines, start_marker(t), end_marker(t), false),
        forall|i: int|
            0 <= i < rewritten(lines, t, seq![]).len() ==> trim_ws(
                #[trigger] rewritten(lines, t, seq![])[i],
            ) != start_marker(t),
{
    lemma_kept_has_no_start(lines, start_marker(t), end_marker(t), false);
    assert(rewritten(lines, t, seq![]) == kept_lines(lines, start_marker(t), end_marker(t), false));
}

/// Rewriting twice with an empty list gives the same file as rewriting once.
pub proof fn law_empty_rewrite_idempotent(lines: Seq<Seq<char>>, t: OptimizationTarget)
    ensures
        rewritten(rewritten(lines, t, seq![]), t, seq![]) == rewritten(lines, t, seq![]),
{
    let k = kept_lines(lines, start_marker(t), end_marker(t), false);
    law_empty_rewrite_removes_block(lines, t);
    lemma_pass_through(k, start_marker(t), end_marker(t));
    assert(rewritten(k, t, seq![]) == k + Seq::<Seq<char>>::empty());
    assert(k + Seq::<Seq<char>>::empty() == k);
}

proof fn lemma_single_line(l: Seq<char>, start: Seq<char>, end: Seq<char>, init: bool)
    ensures
        kept_lines(seq![l], start, end, init) == (if !init && trim_ws(l) != start {
            seq![l]
        } else {
            Seq::<Seq<char>>::empty()
        }),
        inside_after(seq![l], start, end, init) == (if trim_ws(l) == start {
            true
        } else if trim_ws(l) == end && init {
            false
        } else {
            init
        }),
{
    assert(seq![l].drop_last() == Seq::<Seq<char>>::empty());
    assert(kept_lines(Seq::<Seq<char>>::empty(), start, end, init) == Seq::<Seq<char>>::empty());
    assert(inside_after(Seq::<Seq<char>>::empty(), start, end, init) == init);
    assert(seq![l].last() == l);
    assert(Seq::<Seq<char>>::empty().push(l) == seq![l]);
}

/// A block of target `a` that the file holds between other lines is left as
/// it is, and in place, by a rewrite for another target `b`, provided the
/// lines before it close every block of `b` that they open and the block holds
/// no line that opens a block of `b`.
pub proof fn law_rewrite_isolates_other_block(
    before: Seq<Seq<char>>,
    body: Seq<Seq<char>>,
    after: Seq<Seq<char>>,
    a: OptimizationTarget,
    b: OptimizationTarget,
    entries: Seq<(Seq<char>, Seq<char>)>,
)
    requires
        a != b,
        !inside_after(before, start_marker(b), end_marker(b), false),
        forall|i: int| 0 <= i < body.len() ==> trim_ws(#[trigger] body[i]) != start_marker(b),
    ensures
        ({
            let block = seq![start_marker(a)] + body + seq![end_marker(a)];
            let kept = kept_lines(before, start_marker(b), end_marker(b), false) + block
                + kept_lines(after, start_marker(b), end_marker(b), false);
            rewritten(before + block + after, b, entries) == kept + new_block(b, entries, kept)
        }),
{
    let sb = start_marker(b);
    let eb = end_marker(b);
    let block = seq![start_marker(a)] + body + seq![end_marker(a)];
    lemma_markers(a, b);
    lemma_markers(b, a);
    assert forall|i: int| 0 <= i < block.len() implies trim_ws(#[trigger] block[i]) != sb by {
        if 0 < i < block.len() - 1 {
            assert(block[i] == body[i - 1]);
        }
    }
    lemma_pass_through(block, sb, eb);
    lemma_scan_concat(before, block, sb, eb, false);
    lemma_scan_concat(before + block, after, sb, eb, false);
}

/// Rewriting a second time with the same entries gives the same file as
/// the first rewrite, provided no entry line trims to the target's end marker
/// (such a line would close the block early on the second pass).
pub proof fn law_rewrite_idempotent(
    lines: Seq<Seq<char>>,
    t: OptimizationTarget,
    entries: Seq<(Seq<char>, Seq<char>)>,
)
    requires
        forall|i: int|
            0 <= i < entries.len() ==> trim_ws(entry_line(#[trigger] entries[i])) != end_marker(t),
    ensures
        rewritten(rewritten(lines, t, entries), t, entries) == rewritten(lines, t, entries),
{
    let s = start_marker(t);
    let e = end_marker(t);
    let k = kept_lines(lines, s, e, false);
    if entries.len() == 0 {
        assert(entries == Seq::<(Seq<char>, Seq<char>)>::empty());
        law_empty_rewrite_idempotent(lines, t);
    } else {
        lemma_markers(t, t);
        lemma_kept_has_no_start(lines, s, e, false);
        lemma_pass_through(k, s, e);
        let m = entries.map_values(|x: (Seq<char>, Seq<char>)| entry_line(x));
        assert forall|i: int| 0 <= i < m.len() implies trim_ws(#[trigger] m[i]) != e by {
            assert(m[i] == entry_line(entries[i]));
        }
        let blank = Seq::<char>::empty();
        let none = Seq::<Seq<char>>::empty();
        let body = seq![s] + (m + seq![e]);
        assert(block_lines(t, entries) == body);
        lemma_single_line(blank, s, e, false);
        lemma_single_line(s, s, e, false);
        lemma_single_line(e, s, e, true);
        lemma_swallowed(m, s, e);
        lemma_scan_concat(m, seq![e], s, e, true);
        lemma_scan_concat(seq![s], m + seq![e], s, e, false);
        assert(kept_lines(m + seq![e], s, e, true) == none + none);
        assert(none + none == none);
        assert(kept_lines(body, s, e, false) == none + none);
        assert(!inside_after(body, s, e, false));
        let sep = if needs_separator(k) {
            seq![blank]
        } else {
            none
        };
        let b = new_block(t, entries, k);
        assert(b == sep + body);
        if needs_separator(k) {
            lemma_scan_concat(seq![blank], body, s, e, false);
            assert(kept_lines(b, s, e, false) == seq![blank] + none);
        } else {
            assert(sep + body == body);
        }
        assert(kept_lines(b, s, e, false) == sep + none);
        assert(sep + none == sep);
        lemma_scan_concat(k, b, s, e, false);
        let k2 = k + sep;
        assert(kept_lines(k + b, s, e, false) == k2);
        if needs_separator(k) {
            assert(k2.last() == blank);
        } else {
            assert(k2 == k);
        }
        assert(!needs_separator(k2));
        assert(new_block(t, entries, k2) == body);
        assert(k2 + body == k + b);
    }
}

/// After a rewrite with at least one entry, where no entry line trims to the
/// target's start marker, the file holds exactly one line that trims to the
/// start marker: it is followed by one line per entry, in order, and the end
/// marker, which is the file's last line.
pub proof fn law_single_block(
    lines: Seq<Seq<char>>,
    t: OptimizationTarget,
    entries: Seq<(Seq<char>, Seq<char>)>,
)
    requires
        entries.len() > 0,
        forall|i: int|
            0 <= i < entries.len() ==> trim_ws(entry_line(#[trigger] entries[i])) != start_marker(t),
    ensures
        ({
            let r = rewritten(lines, t, entries);
            let p = r.len() - entries.len() - 2;
            &&& p >= 0
            &&& r[p] == start_marker(t)
            &&& forall|i: int| 0 <= i < entries.len() ==> r[p + 1 + i] == entry_line(#[trigger] entries[i])
            &&& r[r.len() - 1] == end_marker(t)
            &&& forall|i: int| 0 <= i < r.len() && i != p ==> trim_ws(#[trigger] r[i]) != start_marker(t)
        }),
{
    let s = start_marker(t);
    let e = end_marker(t);
    let k = kept_lines(lines, s, e, false);
    let r = rewritten(lines, t, entries);
    let m = entries.map_values(|x: (Seq<char>, Seq<char>)| entry_line(x));
    let n = entries.len();
    lemma_markers(t, t);
    lemma_kept_has_no_start(lines, s, e, false);
    let sep = if needs_separator(k) {
        seq![Seq::<char>::empty()]
    } else {
        Seq::<Seq<char>>::empty()
    };
    let pre = k + sep;
    assert(r == pre + (seq![s] + m + seq![e]));
    let p = r.len() - n - 2;
    assert(p == pre.len());
    assert forall|i: int| 0 <= i < n implies r[p + 1 + i] == entry_line(#[trigger] entries[i]) by {
        assert(r[p + 1 + i] == m[i]);
    }
    assert forall|i: int| 0 <= i < r.len() && i != p implies trim_ws(#[trigger] r[i]) != s by {
        if i < k.len() {
            assert(r[i] == k[i]);
        } else if i < p {
            assert(r[i] == Seq::<char>::empty());
        } else if i < r.len() - 1 {
            assert(r[i] == m[i - p - 1]);
            assert(m[i - p - 1] == entry_line(entries[i - p - 1]));
        } else {
            assert(r[i] == e);
        }
    }
}

} // verus!
