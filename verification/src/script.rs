//! The text of a script held in a nix `''…''` string, as bash sees it: the
//! string's fragments with everything else blanked, its common indent
//! removed, and the lines of the file that each of its rows came from.
use vstd::prelude::*;

use crate::syntax::{NodeView, SyntaxTree};

verus! {

pub open spec fn blank_byte(b: u8) -> u8 {
    if b == 10u8 {
        10u8
    } else {
        32u8
    }
}

/// Byte `pos` lies in one of the fragments.
pub open spec fn covered(ns: Seq<NodeView>, frags: Seq<int>, pos: int) -> bool {
    exists|f: int|
        #![trigger frags[f]]
        0 <= f < frags.len() && ns[frags[f]].start_byte <= pos < ns[frags[f]].end_byte
}

/// Every fragment lies within `[start, end)`.
pub open spec fn frags_within(ns: Seq<NodeView>, frags: Seq<int>, start: int, end: int) -> bool {
    &&& start <= end
    &&& forall|f: int|
        #![trigger frags[f]]
        0 <= f < frags.len() ==> start <= ns[frags[f]].start_byte <= ns[frags[f]].end_byte <= end
}

/// The bytes `src[start..end]` with every byte outside the fragments blanked
/// to a space (a newline stays a newline).
pub open spec fn script_body(ns: Seq<NodeView>, src: Seq<u8>, frags: Seq<int>, start: int, end: int) -> Seq<u8> {
    Seq::new(
        (end - start) as nat,
        |k: int|
            if covered(ns, frags, start + k) {
                src[start + k]
            } else {
                blank_byte(src[start + k])
            },
    )
}

/// The lines of `b`, split at each `\n`; the last line follows the last `\n`.
pub open spec fn split_lines(b: Seq<u8>) -> Seq<Seq<u8>>
    decreases b.len(),
{
    if b.len() == 0 {
        seq![Seq::empty()]
    } else {
        let prev = split_lines(b.drop_last());
        if b.last() == 10u8 {
            prev.push(Seq::empty())
        } else {
            prev.update(prev.len() - 1, prev.last().push(b.last()))
        }
    }
}

pub open spec fn is_indent_byte(b: u8) -> bool {
    b == 32u8 || b == 9u8
}

/// The number of spaces and tabs that open `l` from index `i` on, plus `i`.
pub open spec fn lead_indent(l: Seq<u8>, i: int) -> int
    decreases l.len() - i,
{
    if 0 <= i < l.len() && is_indent_byte(l[i]) {
        lead_indent(l, i + 1)
    } else {
        i
    }
}

pub open spec fn is_blank_line(l: Seq<u8>) -> bool {
    forall|k: int| 0 <= k < l.len() ==> is_indent_byte(#[trigger] l[k])
}

/// The smallest indent among the lines that are not blank.
pub open spec fn min_indent(ls: Seq<Seq<u8>>) -> Option<int>
    decreases ls.len(),
{
    if ls.len() == 0 {
        None
    } else {
        let prev = min_indent(ls.drop_last());
        if is_blank_line(ls.last()) {
            prev
        } else {
            let w = lead_indent(ls.last(), 0);
            match prev {
                Some(m) => Some(
                    if w < m {
                        w
                    } else {
                        m
                    },
                ),
                None => Some(w),
            }
        }
    }
}

/// `l` without its first `indent` bytes (all of them when it is shorter).
pub open spec fn dedent_line(l: Seq<u8>, indent: int) -> Seq<u8> {
    l.skip(
        if indent < l.len() {
            indent
        } else {
            l.len() as int
        },
    )
}

/// The lines joined by `\n`.
pub open spec fn join_lines(ls: Seq<Seq<u8>>) -> Seq<u8>
    decreases ls.len(),
{
    if ls.len() == 0 {
        Seq::empty()
    } else if ls.len() == 1 {
        ls[0]
    } else {
        join_lines(ls.drop_last()) + seq![10u8] + ls.last()
    }
}

/// The indent common to the non-blank lines of `body`, or 0.
pub open spec fn body_indent(body: Seq<u8>) -> int {
    match min_indent(split_lines(body)) {
        Some(m) => m,
        None => 0,
    }
}

/// `body` with its common indent removed from every line.
pub open spec fn dedented(body: Seq<u8>) -> Seq<u8> {
    let ls = split_lines(body);
    let indent = body_indent(body);
    join_lines(Seq::new(ls.len(), |k: int| dedent_line(ls[k], indent)))
}

/// The byte offset at which each line of `src` starts.
pub open spec fn line_starts(src: Seq<u8>) -> Seq<int>
    decreases src.len(),
{
    if src.len() == 0 {
        seq![0]
    } else {
        let p = line_starts(src.drop_last());
        if src.last() == 10u8 {
            p.push(src.len() as int)
        } else {
            p
        }
    }
}

/// The number of `\n` in `b`.
pub open spec fn count_newlines(b: Seq<u8>) -> int
    decreases b.len(),
{
    if b.len() == 0 {
        0
    } else {
        count_newlines(b.drop_last()) + if b.last() == 10u8 {
            1int
        } else {
            0int
        }
    }
}

pub open spec fn bytes_view(v: Seq<Vec<u8>>) -> Seq<Seq<u8>> {
    v.map_values(|l: Vec<u8>| l@)
}

/// The body of the script whose fragments are `frags`, over `[start, end)`.
pub fn script_body_exec(t: &SyntaxTree, src: &[u8], frags: &Vec<usize>, start: usize, end: usize) -> (r: Vec<u8>)
    requires
        t.wf(src@.len() as int),
        start <= end <= src@.len(),
        forall|f: int| 0 <= f < frags@.len() ==> #[trigger] frags@[f] < t.nodes@.len(),
        frags_within(t.ns(), crate::generated::indices_view(frags@), start as int, end as int),
    ensures
        r@ == script_body(t.ns(), src@, crate::generated::indices_view(frags@), start as int, end as int),
{
    let ghost ns = t.ns();
    let ghost fv = crate::generated::indices_view(frags@);
    let mut body: Vec<u8> = Vec::new();
    let mut k = start;
    while k < end
        invariant
            start <= k <= end <= src@.len(),
            body@.len() == k - start,
            forall|m: int| 0 <= m < body@.len() ==> #[trigger] body@[m] == blank_byte(src@[start + m]),
        decreases end - k,
    {
        let b = src[k];
        body.push(if b == 10u8 { 10u8 } else { 32u8 });
        k = k + 1;
    }
    let mut fi: usize = 0;
    while fi < frags.len()
        invariant
            ns == t.ns(),
            fv == crate::generated::indices_view(frags@),
            start <= end <= src@.len(),
            fi <= frags@.len(),
            body@.len() == end - start,
            forall|f: int| 0 <= f < frags@.len() ==> #[trigger] frags@[f] < t.nodes@.len(),
            frags_within(ns, fv, start as int, end as int),
            forall|m: int| 0 <= m < body@.len() ==> #[trigger] body@[m] == if covered(ns, fv.take(fi as int), start + m) {
                src@[start + m]
            } else {
                blank_byte(src@[start + m])
            },
        decreases frags@.len() - fi,
    {
        let f = frags[fi];
        assert(fv[fi as int] == f);
        assert(ns[f as int] == t.nodes@[f as int]@);
        let fs = t.nodes[f].start_byte;
        let fe = t.nodes[f].end_byte;
        let ghost b0 = body@;
        let mut k = fs;
        while k < fe
            invariant
                ns == t.ns(),
                fv == crate::generated::indices_view(frags@),
                start <= fs <= fe <= end <= src@.len(),
                fs <= k <= fe,
                fi < frags@.len(),
                fv[fi as int] == f,
                fs == ns[f as int].start_byte,
                fe == ns[f as int].end_byte,
                body@.len() == end - start,
                b0.len() == end - start,
                forall|m: int| 0 <= m < body@.len() ==> #[trigger] body@[m] == if start + m >= fs && start + m < k {
                    src@[start + m]
                } else {
                    b0[m]
                },
            decreases fe - k,
        {
            body.set(k - start, src[k]);
            k = k + 1;
        }
        assert forall|m: int| 0 <= m < body@.len() implies #[trigger] body@[m] == if covered(ns, fv.take(fi + 1), start + m) {
            src@[start + m]
        } else {
            blank_byte(src@[start + m])
        } by {
            let pos = start + m;
            if covered(ns, fv.take(fi + 1), pos) {
                if !(fs <= pos < fe) {
                    let w = choose|g: int| #![trigger fv.take(fi + 1)[g]] 0 <= g < fv.take(fi + 1).len() && ns[fv.take(fi + 1)[g]].start_byte <= pos < ns[fv.take(fi + 1)[g]].end_byte;
                    assert(w != fi);
                    assert(fv.take(fi as int)[w] == fv.take(fi + 1)[w]);
                    assert(covered(ns, fv.take(fi as int), pos));
                }
            } else {
                if covered(ns, fv.take(fi as int), pos) {
                    let w = choose|g: int| #![trigger fv.take(fi as int)[g]] 0 <= g < fv.take(fi as int).len() && ns[fv.take(fi as int)[g]].start_byte <= pos < ns[fv.take(fi as int)[g]].end_byte;
                    assert(fv.take(fi + 1)[w] == fv.take(fi as int)[w]);
                }
                if fs <= pos < fe {
                    assert(fv.take(fi + 1)[fi as int] == f);
                }
            }
        }
        fi = fi + 1;
    }
    assert(fv.take(frags@.len() as int) =~= fv);
    assert(body@ =~= script_body(ns, src@, fv, start as int, end as int));
    body
}

/// The lines of `b`.
pub fn split_lines_exec(b: &Vec<u8>) -> (r: Vec<Vec<u8>>)
    ensures
        bytes_view(r@) == split_lines(b@),
{
    let mut done: Vec<Vec<u8>> = Vec::new();
    let mut cur: Vec<u8> = Vec::new();
    let mut i: usize = 0;
    assert(b@.take(0) =~= Seq::<u8>::empty());
    assert(bytes_view(done@).push(cur@) =~= seq![Seq::<u8>::empty()]);
    while i < b.len()
        invariant
            i <= b@.len(),
            split_lines(b@.take(i as int)) == bytes_view(done@).push(cur@),
        decreases b@.len() - i,
    {
        assert(b@.take(i + 1).drop_last() =~= b@.take(i as int));
        assert(b@.take(i + 1).last() == b@[i as int]);
        let ghost prev = split_lines(b@.take(i as int));
        if b[i] == 10u8 {
            let ghost d0 = bytes_view(done@);
            let ghost c0 = cur@;
            let finished = cur;
            done.push(finished);
            cur = Vec::new();
            assert(bytes_view(done@) =~= d0.push(c0));
            assert(bytes_view(done@).push(cur@) =~= prev.push(Seq::<u8>::empty()));
        } else {
            cur.push(b[i]);
            assert(bytes_view(done@).push(cur@) =~= prev.update(prev.len() - 1, prev.last().push(b@[i as int])));
        }
        i = i + 1;
    }
    assert(b@.take(b@.len() as int) =~= b@);
    let ghost d0 = bytes_view(done@);
    let ghost c0 = cur@;
    done.push(cur);
    assert(bytes_view(done@) =~= d0.push(c0));
    done
}

/// The number of leading spaces and tabs of `l`, and whether `l` is blank.
fn indent_of_line(l: &Vec<u8>) -> (r: (usize, bool))
    ensures
        r.0 == lead_indent(l@, 0),
        r.1 == is_blank_line(l@),
{
    let mut i: usize = 0;
    while i < l.len() && (l[i] == 32u8 || l[i] == 9u8)
        invariant
            i <= l@.len(),
            lead_indent(l@, 0) == lead_indent(l@, i as int),
            forall|k: int| 0 <= k < i ==> is_indent_byte(#[trigger] l@[k]),
        decreases l@.len() - i,
    {
        i = i + 1;
    }
    (i, i == l.len())
}

/// The common indent of the non-blank lines, or 0.
pub fn min_indent_exec(ls: &Vec<Vec<u8>>) -> (r: usize)
    ensures
        r == match min_indent(bytes_view(ls@)) {
            Some(m) => m,
            None => 0,
        },
{
    let ghost lv = bytes_view(ls@);
    let mut best: Option<usize> = None;
    let mut k: usize = 0;
    assert(lv.take(0) =~= Seq::<Seq<u8>>::empty());
    while k < ls.len()
        invariant
            lv == bytes_view(ls@),
            k <= ls@.len(),
            crate::nix::opt_index(best) == min_indent(lv.take(k as int)),
        decreases ls@.len() - k,
    {
        assert(lv.take(k + 1).drop_last() =~= lv.take(k as int));
        assert(lv.take(k + 1).last() == ls@[k as int]@);
        let (w, blank) = indent_of_line(&ls[k]);
        if !blank {
            best = match best {
                Some(m) => Some(if w < m { w } else { m }),
                None => Some(w),
            };
        }
        k = k + 1;
    }
    assert(lv.take(ls@.len() as int) =~= lv);
    match best {
        Some(m) => m,
        None => 0,
    }
}

/// The lines, each without its first `indent` bytes, joined by `\n`.
pub fn dedent_exec(ls: &Vec<Vec<u8>>, indent: usize) -> (r: Vec<u8>)
    ensures
        r@ == join_lines(Seq::new(ls@.len(), |k: int| dedent_line(ls@[k]@, indent as int))),
{
    let ghost all = Seq::new(ls@.len(), |k: int| dedent_line(ls@[k]@, indent as int));
    let mut out: Vec<u8> = Vec::new();
    let mut k: usize = 0;
    assert(all.take(0) =~= Seq::<Seq<u8>>::empty());
    while k < ls.len()
        invariant
            k <= ls@.len(),
            all == Seq::new(ls@.len(), |k: int| dedent_line(ls@[k]@, indent as int)),
            out@ == join_lines(all.take(k as int)),
        decreases ls@.len() - k,
    {
        let ghost o0 = out@;
        if k > 0 {
            out.push(10u8);
        }
        let l = &ls[k];
        let from = if indent < l.len() { indent } else { l.len() };
        let mut j = from;
        while j < l.len()
            invariant
                from <= j <= l@.len(),
                l == &ls@[k as int],
                out@ == (if k > 0 { o0 + seq![10u8] } else { o0 }) + l@.subrange(from as int, j as int),
            decreases l@.len() - j,
        {
            out.push(l[j]);
            assert(l@.subrange(from as int, j + 1) =~= l@.subrange(from as int, j as int).push(l@[j as int]));
            j = j + 1;
        }
        assert(l@.subrange(from as int, l@.len() as int) =~= dedent_line(l@, indent as int));
        assert(all.take(k + 1).drop_last() =~= all.take(k as int));
        assert(all.take(k + 1).last() == all[k as int]);
        proof {
            if k == 0 {
                assert(all.take(1) =~= seq![all[0]]);
                assert(out@ =~= all[0]);
            } else {
                assert(out@ =~= join_lines(all.take(k as int)) + seq![10u8] + all[k as int]);
            }
        }
        k = k + 1;
    }
    assert(all.take(ls@.len() as int) =~= all);
    out
}

/// The byte offset at which each line of `src` starts.
pub fn line_starts_exec(src: &[u8]) -> (r: Vec<usize>)
    ensures
        crate::generated::indices_view(r@) == line_starts(src@),
        forall|k: int| 0 <= k < r@.len() ==> #[trigger] r@[k] <= src@.len(),
{
    let mut out: Vec<usize> = Vec::new();
    out.push(0);
    let mut i: usize = 0;
    assert(src@.take(0) =~= Seq::<u8>::empty());
    assert(crate::generated::indices_view(out@) =~= seq![0int]);
    while i < src.len()
        invariant
            i <= src@.len(),
            crate::generated::indices_view(out@) == line_starts(src@.take(i as int)),
            forall|k: int| 0 <= k < out@.len() ==> #[trigger] out@[k] <= i,
        decreases src@.len() - i,
    {
        assert(src@.take(i + 1).drop_last() =~= src@.take(i as int));
        assert(src@.take(i + 1).last() == src@[i as int]);
        if src[i] == 10u8 {
            let ghost o0 = crate::generated::indices_view(out@);
            out.push(i + 1);
            assert(crate::generated::indices_view(out@) =~= o0.push(i + 1));
        }
        i = i + 1;
    }
    assert(src@.take(src@.len() as int) =~= src@);
    out
}

/// The number of `\n` among the first `n` bytes of `src`.
pub fn count_newlines_exec(src: &[u8], n: usize) -> (r: usize)
    requires
        n <= src@.len(),
    ensures
        r == count_newlines(src@.take(n as int)),
        r <= n,
{
    let mut c: usize = 0;
    let mut i: usize = 0;
    assert(src@.take(0) =~= Seq::<u8>::empty());
    while i < n
        invariant
            i <= n <= src@.len(),
            c <= i,
            c == count_newlines(src@.take(i as int)),
        decreases n - i,
    {
        assert(src@.take(i + 1).drop_last() =~= src@.take(i as int));
        assert(src@.take(i + 1).last() == src@[i as int]);
        if src[i] == 10u8 {
            c = c + 1;
        }
        i = i + 1;
    }
    c
}

} // verus!
