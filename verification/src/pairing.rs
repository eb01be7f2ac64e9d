//! What the collapse pass guarantees about the lines it removes.
//!
//! The pass is stated in [`crate::collapse`] step by step; here stand the
//! properties that make it safe: it removes lines two at a time and only
//! calls of the two runtime entries; in the watched mode a removed `drop`
//! always closes a removed `dup` of the same register above it with nothing
//! between that could look at the reference count; the watched mode never
//! removes a line the careless one keeps; and outside function bodies
//! nothing happens at all.

use vstd::prelude::*;

use crate::collapse::{
    drop_name, dup_name, spec_body_end, spec_call_to, spec_cleared, spec_collapse,
    spec_first_register, spec_harmless, spec_initial, spec_last_pending, spec_last_pending_below,
    spec_lines, spec_read, spec_scan_from, spec_step, spec_top_level, spec_walk, Between, Scan,
};
use crate::text::spec_trim;

verus! {

/// Whether a line of a body is code: neither blank nor a comment.
pub open spec fn spec_code(line: Seq<char>) -> bool {
    let text = spec_trim(line);
    !(text.len() == 0 || text[0] == ';')
}

/// The register by which a line calls `adamas_dup`, if it is such a call.
pub open spec fn spec_dup_register(line: Seq<char>) -> Option<Seq<char>> {
    let text = spec_trim(line);
    if spec_code(line) && spec_call_to(text, dup_name()) is Some {
        spec_first_register(spec_call_to(text, dup_name())->0)
    } else {
        None
    }
}

/// The register by which a line calls `adamas_drop`, if it is such a call.
pub open spec fn spec_drop_register(line: Seq<char>) -> Option<Seq<char>> {
    let text = spec_trim(line);
    if spec_code(line) && spec_call_to(text, dup_name()) is None && spec_call_to(
        text,
        drop_name(),
    ) is Some {
        spec_first_register(spec_top_level(spec_call_to(text, drop_name())->0)[0])
    } else {
        None
    }
}

/// Whether line `j` leaves every reference count alone: blank, a comment,
/// or an instruction without memory and control that calls neither runtime
/// entry.
pub open spec fn spec_quiet(lines: Seq<Seq<char>>, j: int) -> bool {
    let text = spec_trim(lines[j]);
    ||| !spec_code(lines[j])
    ||| (spec_call_to(text, dup_name()) is None && spec_call_to(text, drop_name()) is None
        && spec_harmless(text))
}

/// Line `d` is the removed `dup` that the removed `drop` on line `p` closes:
/// above it, by the same register, with only quiet lines between.
pub open spec fn spec_pair(lines: Seq<Seq<char>>, removed: Set<int>, d: int, p: int) -> bool {
    &&& removed.contains(d)
    &&& 0 <= d < p
    &&& spec_dup_register(lines[d]) == spec_drop_register(lines[p])
    &&& forall|j: int| d < j < p ==> #[trigger] spec_quiet(lines, j)
}

/// Every removed `drop` closes some removed `dup`.
pub open spec fn spec_paired(lines: Seq<Seq<char>>, removed: Set<int>) -> bool {
    forall|p: int|
        #[trigger] removed.contains(p) && spec_drop_register(lines[p]) is Some ==> exists|d: int|
            #[trigger] spec_pair(lines, removed, d, p)
}

/// Every removed line is a line of the text that calls `dup` or `drop`.
pub open spec fn spec_calls_only(lines: Seq<Seq<char>>, removed: Set<int>) -> bool {
    forall|x: int|
        #[trigger] removed.contains(x) ==> 0 <= x < lines.len() && (spec_dup_register(lines[x]) is Some
            || spec_drop_register(lines[x]) is Some)
}

/// What holds of the removed lines at any point of the pass, with every
/// removed line above `bound`.
pub open spec fn spec_removed_inv(lines: Seq<Seq<char>>, bound: int, between: Between, st: Scan) -> bool {
    &&& st.removed.finite()
    &&& st.removed.len() == 2 * st.cancelled
    &&& forall|x: int| #[trigger] st.removed.contains(x) ==> x < bound
    &&& spec_calls_only(lines, st.removed)
    &&& (between == Between::Watched ==> spec_paired(lines, st.removed))
}

/// What holds of the waiting `dup`s after the first `i` lines of the body
/// that starts at line `start`.
pub open spec fn spec_pending_inv(lines: Seq<Seq<char>>, start: int, i: int, between: Between, st: Scan) -> bool {
    &&& forall|k: int|
        0 <= k < st.pending.len() ==> start <= #[trigger] st.pending[k].0 < start + i
            && !st.removed.contains(st.pending[k].0) && spec_dup_register(lines[st.pending[k].0])
            == Some(st.pending[k].1)
    &&& between == Between::Watched ==> st.pending.len() <= 1
    &&& between == Between::Watched ==> forall|k: int, j: int|
        0 <= k < st.pending.len() && #[trigger] st.pending[k].0 < j < start + i ==> #[trigger] spec_quiet(
            lines,
            j,
        )
    &&& forall|k: int, m: int|
        0 <= k < m < st.pending.len() ==> #[trigger] st.pending[k].0 < #[trigger] st.pending[m].0
}

proof fn lemma_last_pending_below(pending: Seq<(int, Seq<char>)>, register: Seq<char>, k: int)
    requires
        k <= pending.len(),
    ensures
        spec_last_pending_below(pending, register, k) matches Some(m) ==> 0 <= m < k
            && pending[m].1 == register,
    decreases k,
{
    if k > 0 && pending[k - 1].1 != register {
        lemma_last_pending_below(pending, register, k - 1);
    }
}

proof fn lemma_paired_grows(lines: Seq<Seq<char>>, removed: Set<int>, d: int, a: int)
    requires
        spec_paired(lines, removed),
        !removed.contains(d),
        !removed.contains(a),
        0 <= d < a,
        spec_dup_register(lines[d]) is Some,
        spec_dup_register(lines[d]) == spec_drop_register(lines[a]),
        forall|j: int| d < j < a ==> #[trigger] spec_quiet(lines, j),
    ensures
        spec_paired(lines, removed.insert(d).insert(a)),
{
    let more = removed.insert(d).insert(a);
    assert forall|p: int|
        #[trigger] more.contains(p) && spec_drop_register(lines[p]) is Some implies exists|e: int|
            #[trigger] spec_pair(lines, more, e, p) by {
        if p == a {
            assert(spec_pair(lines, more, d, p));
        } else if p == d {
            assert(spec_drop_register(lines[p]) is None);
        } else {
            assert(removed.contains(p));
            let e = choose|e: int| #[trigger] spec_pair(lines, removed, e, p);
            assert(spec_pair(lines, more, e, p));
        }
    }
}

/// One line of a body keeps both invariants.
proof fn lemma_step(lines: Seq<Seq<char>>, start: int, end: int, i: int, between: Between, st: Scan)
    requires
        0 <= start <= end <= lines.len(),
        0 <= i < end - start,
        spec_removed_inv(lines, start + i, between, st),
        spec_pending_inv(lines, start, i, between, st),
    ensures
        spec_removed_inv(
            lines,
            start + i + 1,
            between,
            spec_step(lines.subrange(start, end), i, start, between, st),
        ),
        spec_pending_inv(
            lines,
            start,
            i + 1,
            between,
            spec_step(lines.subrange(start, end), i, start, between, st),
        ),
{
    let body = lines.subrange(start, end);
    let a = start + i;
    assert(body[i] == lines[a]);
    let text = spec_trim(lines[a]);
    let next = spec_step(body, i, start, between, st);
    if !spec_code(lines[a]) {
        assert(next == st);
        assert(spec_quiet(lines, a));
    } else if spec_call_to(text, dup_name()) is Some {
        assert(next.removed == st.removed);
        let base = if between == Between::Watched {
            seq![]
        } else {
            st.pending
        };
        match spec_first_register(spec_call_to(text, dup_name())->0) {
            None => {
                assert(next.pending == base);
            },
            Some(register) => {
                if next.pending != base {
                    assert(next.pending == base.push((a, register)));
                    assert(spec_dup_register(lines[a]) == Some(register));
                    assert forall|k: int, m: int|
                        0 <= k < m < next.pending.len() implies #[trigger] next.pending[k].0
                        < #[trigger] next.pending[m].0 by {
                        if m == base.len() {
                            assert(base[k] == st.pending[k]);
                            assert(st.pending[k].0 < a);
                        } else {
                            assert(base[k] == st.pending[k] && base[m] == st.pending[m]);
                        }
                    }
                    assert forall|k: int|
                        0 <= k < next.pending.len() implies start <= #[trigger] next.pending[k].0
                        < a + 1 && !next.removed.contains(next.pending[k].0)
                        && spec_dup_register(lines[next.pending[k].0]) == Some(
                        next.pending[k].1,
                    ) by {
                        if k < base.len() {
                            assert(base[k] == st.pending[k]);
                        }
                    }
                } else {
                    assert forall|k: int|
                        0 <= k < next.pending.len() implies start <= #[trigger] next.pending[k].0
                        < a + 1 && !next.removed.contains(next.pending[k].0)
                        && spec_dup_register(lines[next.pending[k].0]) == Some(
                        next.pending[k].1,
                    ) by {
                        assert(base[k] == st.pending[k]);
                    }
                }
            },
        }
    } else if spec_call_to(text, drop_name()) is Some {
        let args = spec_call_to(text, drop_name())->0;
        match spec_first_register(spec_top_level(args)[0]) {
            Some(register) => {
                assert(spec_drop_register(lines[a]) == Some(register));
                match spec_last_pending(st.pending, register) {
                    Some(k) => {
                        lemma_last_pending_below(st.pending, register, st.pending.len() as int);
                        let d = st.pending[k].0;
                        assert(next.pending == st.pending.remove(k));
                        assert(next.removed == st.removed.insert(d).insert(a));
                        assert(!st.removed.contains(a));
                        assert(d < a);
                        assert(spec_dup_register(lines[d]) == Some(register));
                        assert(st.removed.insert(d).len() == st.removed.len() + 1);
                        assert(next.removed.len() == st.removed.len() + 2);
                        assert forall|x: int| #[trigger] next.removed.contains(x) implies 0 <= x
                            < lines.len() && (spec_dup_register(lines[x]) is Some
                            || spec_drop_register(lines[x]) is Some) by {
                            if x != d && x != a {
                                assert(st.removed.contains(x));
                            }
                        }
                        if between == Between::Watched {
                            assert forall|j: int| d < j < a implies #[trigger] spec_quiet(
                                lines,
                                j,
                            ) by {
                                assert(0 <= k < st.pending.len() && st.pending[k].0 < j < start
                                    + i);
                            }
                            lemma_paired_grows(lines, st.removed, d, a);
                            assert(next.pending.len() == 0);
                        }
                        assert forall|k2: int|
                            0 <= k2 < next.pending.len() implies start <= #[trigger] next.pending[k2].0
                            < a + 1 && !next.removed.contains(next.pending[k2].0)
                            && spec_dup_register(lines[next.pending[k2].0]) == Some(
                            next.pending[k2].1,
                        ) by {
                            let o = if k2 < k {
                                k2
                            } else {
                                k2 + 1
                            };
                            assert(next.pending[k2] == st.pending[o]);
                            if o < k {
                                assert(st.pending[o].0 < st.pending[k].0);
                            } else {
                                assert(st.pending[k].0 < st.pending[o].0);
                            }
                        }
                        assert forall|k2: int, m: int|
                            0 <= k2 < m < next.pending.len() implies #[trigger] next.pending[k2].0
                            < #[trigger] next.pending[m].0 by {
                            let o = if k2 < k {
                                k2
                            } else {
                                k2 + 1
                            };
                            let q = if m < k {
                                m
                            } else {
                                m + 1
                            };
                            assert(next.pending[k2] == st.pending[o]);
                            assert(next.pending[m] == st.pending[q]);
                        }
                    },
                    None => {
                        assert(next.removed == st.removed);
                        assert(next.pending == st.pending || next.pending.len() == 0);
                        assert(between == Between::Watched ==> next.pending.len() == 0);
                    },
                }
            },
            None => {
                assert(next.removed == st.removed);
                assert(next.pending == st.pending || next.pending.len() == 0);
                assert(between == Between::Watched ==> next.pending.len() == 0);
            },
        }
    } else {
        assert(next.removed == st.removed);
        if between == Between::Watched && !spec_harmless(text) {
            assert(next.pending.len() == 0);
        } else {
            assert(next == st);
            if between == Between::Watched {
                assert(spec_quiet(lines, a));
            }
        }
    }
}

proof fn lemma_scan_from(lines: Seq<Seq<char>>, start: int, end: int, i: int, between: Between, st: Scan)
    requires
        0 <= start <= end <= lines.len(),
        0 <= i <= end - start,
        spec_removed_inv(lines, start + i, between, st),
        spec_pending_inv(lines, start, i, between, st),
    ensures
        spec_removed_inv(
            lines,
            end,
            between,
            spec_scan_from(lines.subrange(start, end), i, start, between, st),
        ),
    decreases end - start - i,
{
    if i < end - start {
        lemma_step(lines, start, end, i, between, st);
        lemma_scan_from(
            lines,
            start,
            end,
            i + 1,
            between,
            spec_step(lines.subrange(start, end), i, start, between, st),
        );
    }
}

proof fn lemma_body_end(lines: Seq<Seq<char>>, e: int)
    requires
        0 <= e <= lines.len(),
    ensures
        e <= spec_body_end(lines, e) <= lines.len(),
    decreases lines.len() - e,
{
    if e < lines.len() && lines[e] != seq!['}'] {
        lemma_body_end(lines, e + 1);
    }
}

proof fn lemma_walk(lines: Seq<Seq<char>>, at: int, between: Between, st: Scan)
    requires
        0 <= at,
        spec_removed_inv(lines, at, between, st),
    ensures
        spec_removed_inv(lines, lines.len() as int, between, spec_walk(lines, at, between, st)),
    decreases lines.len() - at,
{
    if at >= lines.len() {
        assert forall|x: int| #[trigger] st.removed.contains(x) implies x < lines.len() by {
        }
    } else if crate::text::spec_starts_with(lines[at], "define "@) {
        let start = at + 1;
        lemma_body_end(lines, start);
        let end = spec_body_end(lines, start);
        let first = spec_cleared(st);
        assert(spec_removed_inv(lines, start + 0, between, first));
        assert(spec_pending_inv(lines, start, 0, between, first));
        lemma_scan_from(lines, start, end, 0, between, first);
        let done = spec_cleared(spec_scan_from(lines.subrange(start, end), 0, start, between, first));
        if at <= end < lines.len() {
            lemma_walk(lines, end + 1, between, done);
        }
    } else {
        lemma_walk(lines, at + 1, between, st);
    }
}

proof fn lemma_collapse(text: Seq<char>, between: Between)
    ensures
        spec_removed_inv(
            spec_lines(text),
            spec_lines(text).len() as int,
            between,
            spec_collapse(text, between),
        ),
{
    let st = spec_initial();
    assert(st.removed =~= Set::<int>::empty());
    lemma_walk(spec_lines(text), 0, between, st);
}

/// The pass removes lines two at a time, one pair for each cancellation it
/// reports, and it removes nothing but lines that call `adamas_dup` or
/// `adamas_drop`; this holds in both modes.
pub proof fn lemma_removed_in_pairs(text: Seq<char>, between: Between)
    ensures
        spec_collapse(text, between).removed.finite(),
        spec_collapse(text, between).removed.len() == 2 * spec_collapse(text, between).cancelled,
        spec_calls_only(spec_lines(text), spec_collapse(text, between).removed),
{
    lemma_collapse(text, between);
}

/// In the watched mode every removed `drop` closes a removed `dup` of the
/// same register above it in the same body, and every line between them is
/// blank, a comment, or an instruction on the white list, without memory,
/// control or a call of either runtime entry: nothing between the two ever
/// looks at a reference count, and no terminator stands between, so the
/// pair lies in one basic block.
pub proof fn lemma_watched_pairs_are_quiet(text: Seq<char>)
    ensures
        spec_paired(spec_lines(text), spec_collapse(text, Between::Watched).removed),
{
    lemma_collapse(text, Between::Watched);
}

proof fn lemma_walk_without_bodies(lines: Seq<Seq<char>>, at: int, between: Between, st: Scan)
    requires
        forall|i: int| 0 <= i < lines.len() ==> !crate::text::spec_starts_with(#[trigger] lines[i], "define "@),
    ensures
        spec_walk(lines, at, between, st) == st,
    decreases lines.len() - at,
{
    if 0 <= at < lines.len() {
        lemma_walk_without_bodies(lines, at + 1, between, st);
    }
}

/// The pass reads only function bodies: a text with no `define` line has
/// nothing counted and nothing removed, so it comes back line by line.
pub proof fn lemma_outside_bodies_nothing_happens(text: Seq<char>, between: Between)
    requires
        forall|i: int|
            0 <= i < spec_lines(text).len() ==> !crate::text::spec_starts_with(
                #[trigger] spec_lines(text)[i],
                "define "@,
            ),
    ensures
        spec_collapse(text, between) == spec_initial(),
{
    lemma_walk_without_bodies(spec_lines(text), 0, between, spec_initial());
}

/// The watched run against the careless one on the same lines: what the
/// first removed the second removed too, both counted the same calls and
/// read results, the first cancelled no more, and the first's waiting
/// `dup`s are the last of the second's.
pub open spec fn spec_shadows(w: Scan, g: Scan) -> bool {
    &&& w.removed.subset_of(g.removed)
    &&& w.dups == g.dups
    &&& w.drops == g.drops
    &&& w.live == g.live
    &&& w.cancelled <= g.cancelled
    &&& w.pending.len() <= g.pending.len()
    &&& g.pending.subrange(g.pending.len() - w.pending.len(), g.pending.len() as int) == w.pending
}

proof fn lemma_below_prefix(
    p: Seq<(int, Seq<char>)>,
    q: Seq<(int, Seq<char>)>,
    register: Seq<char>,
    j: int,
)
    requires
        0 <= j <= p.len(),
    ensures
        spec_last_pending_below(p + q, register, j) == spec_last_pending_below(p, register, j),
    decreases j,
{
    if j > 0 {
        assert((p + q)[j - 1] == p[j - 1]);
        lemma_below_prefix(p, q, register, j - 1);
    }
}

proof fn lemma_below_suffix(
    p: Seq<(int, Seq<char>)>,
    q: Seq<(int, Seq<char>)>,
    register: Seq<char>,
    m: int,
)
    requires
        0 <= m <= q.len(),
    ensures
        spec_last_pending_below(p + q, register, p.len() + m) == match spec_last_pending_below(
            q,
            register,
            m,
        ) {
            Some(k) => Some(p.len() + k),
            None => spec_last_pending_below(p, register, p.len() as int),
        },
    decreases m,
{
    if m == 0 {
        lemma_below_prefix(p, q, register, p.len() as int);
    } else {
        assert((p + q)[p.len() + m - 1] == q[m - 1]);
        if q[m - 1].1 != register {
            lemma_below_suffix(p, q, register, m - 1);
        }
    }
}

proof fn lemma_step_shadows(body: Seq<Seq<char>>, i: int, offset: int, w: Scan, g: Scan)
    requires
        0 <= i < body.len(),
        spec_shadows(w, g),
    ensures
        spec_shadows(
            spec_step(body, i, offset, Between::Watched, w),
            spec_step(body, i, offset, Between::Ignored, g),
        ),
{
    let w2 = spec_step(body, i, offset, Between::Watched, w);
    let g2 = spec_step(body, i, offset, Between::Ignored, g);
    let text = spec_trim(body[i]);
    let front = g.pending.subrange(0, g.pending.len() - w.pending.len());
    assert(g.pending =~= front + w.pending);
    if text.len() == 0 || text[0] == ';' {
    } else if spec_call_to(text, dup_name()) is Some {
        match spec_first_register(spec_call_to(text, dup_name())->0) {
            None => {},
            Some(register) => {
                if spec_read(body, i, text) {
                    assert(w2.pending.len() == 0);
                } else {
                    let e = (offset + i, register);
                    assert(w2.pending == seq![e]);
                    assert(g2.pending == g.pending.push(e));
                    assert(g2.pending.subrange(g2.pending.len() - w2.pending.len(), g2.pending.len() as int)
                        =~= w2.pending);
                }
            },
        }
        assert(g2.pending.subrange(g2.pending.len() - w2.pending.len(), g2.pending.len() as int)
            =~= w2.pending);
    } else if spec_call_to(text, drop_name()) is Some {
        let args = spec_call_to(text, drop_name())->0;
        match spec_first_register(spec_top_level(args)[0]) {
            Some(register) => {
                lemma_below_suffix(front, w.pending, register, w.pending.len() as int);
                match spec_last_pending(w.pending, register) {
                    Some(k) => {
                        lemma_last_pending_below(w.pending, register, w.pending.len() as int);
                        let at = front.len() + k;
                        assert(spec_last_pending(g.pending, register) == Some(at));
                        assert(g.pending[at] == w.pending[k]);
                        assert(w2.pending == w.pending.remove(k));
                        assert(g2.pending == g.pending.remove(at));
                        assert(g2.pending =~= front + w2.pending);
                        assert(g2.pending.subrange(
                            g2.pending.len() - w2.pending.len(),
                            g2.pending.len() as int,
                        ) =~= w2.pending);
                        assert(w2.removed == w.removed.insert(w.pending[k].0).insert(offset + i));
                        assert(g2.removed == g.removed.insert(w.pending[k].0).insert(offset + i));
                    },
                    None => {
                        assert(w2.pending.len() == 0);
                        assert(w2.removed == w.removed);
                        assert(g.removed.subset_of(g2.removed));
                        assert(g2.pending.subrange(g2.pending.len() - 0, g2.pending.len() as int)
                            =~= w2.pending);
                    },
                }
            },
            None => {
                assert(w2.pending.len() == 0);
                assert(g2 == (Scan { drops: g.drops + 1, ..g }));
                assert(g2.pending.subrange(g2.pending.len() - 0, g2.pending.len() as int)
                    =~= w2.pending);
            },
        }
    } else {
        if !spec_harmless(text) {
            assert(w2.pending.len() == 0);
            assert(g2.pending.subrange(g2.pending.len() - 0, g2.pending.len() as int)
                =~= w2.pending);
        }
    }
}

proof fn lemma_scan_shadows(body: Seq<Seq<char>>, i: int, offset: int, w: Scan, g: Scan)
    requires
        0 <= i <= body.len(),
        spec_shadows(w, g),
    ensures
        spec_shadows(
            spec_scan_from(body, i, offset, Between::Watched, w),
            spec_scan_from(body, i, offset, Between::Ignored, g),
        ),
    decreases body.len() - i,
{
    if i < body.len() {
        lemma_step_shadows(body, i, offset, w, g);
        lemma_scan_shadows(
            body,
            i + 1,
            offset,
            spec_step(body, i, offset, Between::Watched, w),
            spec_step(body, i, offset, Between::Ignored, g),
        );
    }
}

/// What the two runs share once a body is done.
pub open spec fn spec_settled_alike(w: Scan, g: Scan) -> bool {
    &&& w.removed.subset_of(g.removed)
    &&& w.dups == g.dups
    &&& w.drops == g.drops
    &&& w.live == g.live
    &&& w.cancelled <= g.cancelled
}

proof fn lemma_walk_shadows(lines: Seq<Seq<char>>, at: int, w: Scan, g: Scan)
    requires
        spec_settled_alike(w, g),
    ensures
        spec_settled_alike(
            spec_walk(lines, at, Between::Watched, w),
            spec_walk(lines, at, Between::Ignored, g),
        ),
    decreases lines.len() - at,
{
    if 0 <= at < lines.len() {
        if crate::text::spec_starts_with(lines[at], "define "@) {
            let start = at + 1;
            let end = spec_body_end(lines, start);
            let body = lines.subrange(start, end);
            assert(spec_cleared(g).pending.subrange(0, 0) =~= spec_cleared(w).pending);
            lemma_scan_shadows(body, 0, start, spec_cleared(w), spec_cleared(g));
            let w2 = spec_cleared(spec_scan_from(body, 0, start, Between::Watched, spec_cleared(w)));
            let g2 = spec_cleared(spec_scan_from(body, 0, start, Between::Ignored, spec_cleared(g)));
            if at <= end < lines.len() {
                lemma_walk_shadows(lines, end + 1, w2, g2);
            }
        } else {
            lemma_walk_shadows(lines, at + 1, w, g);
        }
    }
}

/// The watched pass is never bolder than the careless one: every line it
/// removes, the pass that does not look between a pair removes as well, it
/// cancels no more pairs, and both count the same `dup` and `drop` calls and
/// the same `dup`s whose result is read. Looking at the middle only ever
/// refuses pairs.
pub proof fn lemma_watched_takes_no_more(text: Seq<char>)
    ensures
        spec_collapse(text, Between::Watched).removed.subset_of(
            spec_collapse(text, Between::Ignored).removed,
        ),
        spec_collapse(text, Between::Watched).cancelled <= spec_collapse(text, Between::Ignored).cancelled,
        spec_collapse(text, Between::Watched).dups == spec_collapse(text, Between::Ignored).dups,
        spec_collapse(text, Between::Watched).drops == spec_collapse(text, Between::Ignored).drops,
        spec_collapse(text, Between::Watched).live == spec_collapse(text, Between::Ignored).live,
{
    lemma_walk_shadows(spec_lines(text), 0, spec_initial(), spec_initial());
}

} // verus!
