//! Applying the patterns' fixes: collecting one edit per outermost match,
//! ordering them by start, setting aside every cluster of overlapping
//! edits, and splicing the rest into the source.

use crate::ast_grep::{ast_grep_rule_matches, first_edit, first_edit_of, rule_matches, RuleMatch};
use crate::error::NormaError;
use crate::models::{
    conflict_views, pair_views, CodeLocation, ConflictView, FixConflict, FixResult, Pattern,
};
use crate::pattern_engine::{is_selected, parse_rule, resolve_language, spec_parse_rule, spec_resolve_language};
use crate::text::{contains_str, owned, str_eq};
use vstd::prelude::*;
use vstd::utf8::*;

verus! {

broadcast use vstd::utf8::encode_utf8_decode_utf8;

/// One match's fix, ready to splice into the source: replace bytes
/// `start..end` by `inserted_text`; `line`/`column` locate the match.
pub struct FixEdit {
    pub pattern_id: String,
    pub start: usize,
    pub end: usize,
    pub inserted_text: Vec<u8>,
    pub line: usize,
    pub column: usize,
}

/// The mathematical content of a `FixEdit`.
pub struct EditView {
    pub pattern_id: Seq<char>,
    pub start: int,
    pub end: int,
    pub inserted: Seq<u8>,
    pub line: usize,
    pub column: usize,
}

impl View for FixEdit {
    type V = EditView;

    open spec fn view(&self) -> EditView {
        EditView {
            pattern_id: self.pattern_id@,
            start: self.start as int,
            end: self.end as int,
            inserted: self.inserted_text@,
            line: self.line,
            column: self.column,
        }
    }
}

/// The views of a sequence of edits.
pub open spec fn edit_views(v: Seq<FixEdit>) -> Seq<EditView> {
    v.map_values(|e: FixEdit| e@)
}

/// The views of a sequence of references to edits.
pub open spec fn edit_ref_views(v: Seq<&FixEdit>) -> Seq<EditView> {
    v.map_values(|e: &FixEdit| (*e)@)
}

// ---------------------------------------------------------------------
// Collecting edits
// ---------------------------------------------------------------------

/// Whether the byte range of `m` lies within that of one of `kept`.
pub open spec fn contained_in_any(kept: Seq<RuleMatch>, m: RuleMatch) -> bool {
    exists|j: int| 0 <= j < kept.len() && kept[j].start <= m.start && m.end <= #[trigger] kept[j].end
}

/// The matches of one pattern that are not nested inside an earlier kept
/// match of the same pattern: only the outermost match of a nesting chain
/// is kept (matches come in pre-order, so the outer one comes first).
pub open spec fn outermost_matches(ms: Seq<RuleMatch>) -> Seq<RuleMatch>
    decreases ms.len(),
{
    if ms.len() == 0 {
        Seq::empty()
    } else {
        let kept = outermost_matches(ms.drop_last());
        if contained_in_any(kept, ms.last()) {
            kept
        } else {
            kept.push(ms.last())
        }
    }
}

/// The edit that a match's fix makes, for the pattern with id `id`.
pub open spec fn edit_of(id: Seq<char>, m: RuleMatch) -> Seq<EditView> {
    match first_edit(m) {
        Some(e) => seq![
            EditView {
                pattern_id: id,
                start: e.0 as int,
                end: e.0 + e.1,
                inserted: e.2@,
                line: m.line,
                column: m.column,
            },
        ],
        None => Seq::empty(),
    }
}

/// The edits of a sequence of matches, in order.
pub open spec fn edits_of(id: Seq<char>, ms: Seq<RuleMatch>) -> Seq<EditView>
    decreases ms.len(),
{
    if ms.len() == 0 {
        Seq::empty()
    } else {
        edits_of(id, ms.drop_last()) + edit_of(id, ms.last())
    }
}

/// Whether pattern `p` takes part in fixing code of language `key`: it is
/// selected, its rule parses, and the rule has a `fix:`.
pub open spec fn is_fixer(p: Pattern, key: Seq<char>) -> bool {
    &&& is_selected(p, key)
    &&& spec_parse_rule(p.spec_rule()) matches Ok(h) && h.has_fix
}

/// Every edit the fixing patterns among `ps` make to `source`, pattern by
/// pattern, each pattern's outermost matches in match order.
pub open spec fn collected_edits(ps: Seq<Pattern>, key: Seq<char>, source: Seq<char>) -> Seq<EditView>
    decreases ps.len(),
{
    if ps.len() == 0 {
        Seq::empty()
    } else {
        let p = ps.last();
        collected_edits(ps.drop_last(), key, source) + if is_fixer(p, key) {
            edits_of(p.spec_id(), outermost_matches(ast_grep_rule_matches(p.spec_rule(), source)))
        } else {
            Seq::empty()
        }
    }
}

/// The selected patterns among `ps` whose rule no longer parses: their id
/// and the parse error's message.
pub open spec fn fix_skipped(ps: Seq<Pattern>, key: Seq<char>) -> Seq<(Seq<char>, Seq<char>)>
    decreases ps.len(),
{
    if ps.len() == 0 {
        Seq::empty()
    } else {
        let p = ps.last();
        fix_skipped(ps.drop_last(), key) + match spec_parse_rule(p.spec_rule()) {
            Err(e) => if is_selected(p, key) {
                seq![(p.spec_id(), e.spec_message())]
            } else {
                Seq::empty()
            },
            Ok(_) => Seq::empty(),
        }
    }
}

// ---------------------------------------------------------------------
// Ordering edits (a stable sort by start)
// ---------------------------------------------------------------------

/// Where an edit starting at `start` goes in `s`: after every element
/// that starts at or before it, scanning from the end.
pub open spec fn insertion_index(s: Seq<EditView>, start: int) -> int
    decreases s.len(),
{
    if s.len() == 0 {
        0
    } else if s.last().start > start {
        insertion_index(s.drop_last(), start)
    } else {
        s.len() as int
    }
}

/// `s` with `e` inserted at its insertion index.
pub open spec fn insert_sorted(s: Seq<EditView>, e: EditView) -> Seq<EditView> {
    s.insert(insertion_index(s, e.start), e)
}

/// The edits ordered by start, edits with equal starts kept in their
/// original order.
pub open spec fn sort_by_start(es: Seq<EditView>) -> Seq<EditView>
    decreases es.len(),
{
    if es.len() == 0 {
        Seq::empty()
    } else {
        insert_sorted(sort_by_start(es.drop_last()), es.last())
    }
}

/// Whether `s` is ordered by start.
pub open spec fn sorted_by_start(s: Seq<EditView>) -> bool {
    forall|i: int, j: int| 0 <= i < j < s.len() ==> s[i].start <= s[j].start
}

// ---------------------------------------------------------------------
// Clusters of overlapping edits
// ---------------------------------------------------------------------

/// The state of the sweep over the ordered edits: the edits accepted so
/// far, the clusters set aside, the cluster in progress and the furthest
/// end among its edits.
pub struct SweepState {
    pub accepted: Seq<EditView>,
    pub conflicts: Seq<Seq<EditView>>,
    pub cluster: Seq<EditView>,
    pub cluster_end: int,
}

/// Closes the cluster in progress: a lone edit is accepted, a cluster of
/// two or more is set aside whole.
pub open spec fn flush(st: SweepState) -> SweepState {
    if st.cluster.len() == 0 {
        st
    } else if st.cluster.len() == 1 {
        SweepState { accepted: st.accepted.push(st.cluster[0]), cluster: Seq::empty(), ..st }
    } else {
        SweepState { conflicts: st.conflicts.push(st.cluster), cluster: Seq::empty(), ..st }
    }
}

/// The sweep-line interval merge over edits ordered by start: an edit
/// that starts before the furthest end of the cluster in progress joins
/// it; any other edit closes that cluster and opens a new one.
pub open spec fn sweep(es: Seq<EditView>) -> SweepState
    decreases es.len(),
{
    if es.len() == 0 {
        SweepState {
            accepted: Seq::empty(),
            conflicts: Seq::empty(),
            cluster: Seq::empty(),
            cluster_end: 0,
        }
    } else {
        let st = sweep(es.drop_last());
        let e = es.last();
        if st.cluster.len() > 0 && e.start < st.cluster_end {
            SweepState {
                cluster: st.cluster.push(e),
                cluster_end: if e.end > st.cluster_end {
                    e.end
                } else {
                    st.cluster_end
                },
                ..st
            }
        } else {
            let f = flush(st);
            SweepState { cluster: seq![e], cluster_end: e.end, ..f }
        }
    }
}

/// The outcome of the sweep once the last cluster is closed.
pub open spec fn swept(es: Seq<EditView>) -> SweepState {
    flush(sweep(es))
}

/// The pattern ids of `ids`, each kept at its first occurrence.
pub open spec fn dedup(ids: Seq<Seq<char>>) -> Seq<Seq<char>>
    decreases ids.len(),
{
    if ids.len() == 0 {
        Seq::empty()
    } else {
        let prev = dedup(ids.drop_last());
        if prev.contains(ids.last()) {
            prev
        } else {
            prev.push(ids.last())
        }
    }
}

/// The conflict reported for a set-aside cluster: its distinct pattern
/// ids in first-seen order, located at its first edit.
pub open spec fn conflict_of(cluster: Seq<EditView>) -> ConflictView {
    ConflictView {
        pattern_ids: dedup(cluster.map_values(|e: EditView| e.pattern_id)),
        file: None,
        line: cluster[0].line,
        column: cluster[0].column,
    }
}

// ---------------------------------------------------------------------
// Splicing
// ---------------------------------------------------------------------

/// Where the last of the accepted edits ends (0 when there is none).
pub open spec fn last_end(acc: Seq<EditView>) -> int {
    if acc.len() == 0 {
        0
    } else {
        acc.last().end
    }
}

/// The new text up to the end of the last accepted edit: the original
/// bytes between edits, each edit's range replaced by its inserted text.
pub open spec fn spliced_prefix(bytes: Seq<u8>, acc: Seq<EditView>) -> Seq<u8>
    decreases acc.len(),
{
    if acc.len() == 0 {
        Seq::empty()
    } else {
        spliced_prefix(bytes, acc.drop_last()) + bytes.subrange(
            last_end(acc.drop_last()),
            acc.last().start,
        ) + acc.last().inserted
    }
}

/// The bytes of the source with every accepted edit applied.
pub open spec fn splice(bytes: Seq<u8>, acc: Seq<EditView>) -> Seq<u8> {
    spliced_prefix(bytes, acc) + bytes.subrange(last_end(acc), bytes.len() as int)
}

// ---------------------------------------------------------------------
// Laws of ordering and sweeping
// ---------------------------------------------------------------------

/// Every edit starts at a byte offset and ends no earlier than it starts.
pub open spec fn edits_well_formed(s: Seq<EditView>) -> bool {
    forall|i: int| 0 <= i < s.len() ==> 0 <= (#[trigger] s[i]).start <= s[i].end
}

/// Accepted edits come in order and never overlap.
pub open spec fn ordered_disjoint(s: Seq<EditView>) -> bool {
    forall|i: int, j: int| 0 <= i < j < s.len() ==> #[trigger] s[i].end <= #[trigger] s[j].start
}

proof fn insertion_index_facts(s: Seq<EditView>, x: int)
    ensures
        0 <= insertion_index(s, x) <= s.len(),
        forall|j: int| insertion_index(s, x) <= j < s.len() ==> (#[trigger] s[j]).start > x,
        insertion_index(s, x) > 0 ==> s[insertion_index(s, x) - 1].start <= x,
    decreases s.len(),
{
    if s.len() > 0 && s.last().start > x {
        insertion_index_facts(s.drop_last(), x);
        assert forall|j: int| insertion_index(s, x) <= j < s.len() implies (#[trigger] s[j]).start
            > x by {
            if j < s.len() - 1 {
                assert(s.drop_last()[j] == s[j]);
            }
        }
    }
}

/// Ordering by start keeps every edit, puts them in order, and keeps them
/// well formed.
pub proof fn sort_by_start_orders(es: Seq<EditView>)
    ensures
        sort_by_start(es).len() == es.len(),
        sorted_by_start(sort_by_start(es)),
        edits_well_formed(es) ==> edits_well_formed(sort_by_start(es)),
        forall|i: int|
            0 <= i < sort_by_start(es).len() ==> es.contains(#[trigger] sort_by_start(es)[i]),
    decreases es.len(),
{
    if es.len() > 0 {
        let prev = sort_by_start(es.drop_last());
        let e = es.last();
        sort_by_start_orders(es.drop_last());
        insertion_index_facts(prev, e.start);
        let k = insertion_index(prev, e.start);
        let r = prev.insert(k, e);
        assert(r.len() == prev.len() + 1);
        assert forall|i: int, j: int| 0 <= i < j < r.len() implies r[i].start <= r[j].start by {
            if j < k {
                assert(r[i] == prev[i] && r[j] == prev[j]);
            } else if j == k {
                assert(r[j] == e);
                if k > 0 {
                    assert(r[i] == prev[i]);
                    assert(prev[i].start <= prev[k - 1].start);
                }
            } else if i == k {
                assert(r[j] == prev[j - 1]);
            } else if i < k {
                assert(r[i] == prev[i] && r[j] == prev[j - 1]);
            } else {
                assert(r[i] == prev[i - 1] && r[j] == prev[j - 1]);
            }
        }
        assert forall|i: int| 0 <= i < r.len() implies es.contains(#[trigger] r[i]) by {
            if i == k {
                assert(es[es.len() - 1] == e);
            } else {
                let q = if i < k { i } else { i - 1 };
                assert(r[i] == prev[q]);
                assert(es.drop_last().contains(prev[q]));
                let w = choose|w: int| 0 <= w < es.drop_last().len() && es.drop_last()[w] == prev[q];
                assert(es[w] == prev[q]);
            }
        }
        if edits_well_formed(es) {
            assert(edits_well_formed(es.drop_last())) by {
                assert forall|i: int| 0 <= i < es.drop_last().len() implies 0 <= (
                #[trigger] es.drop_last()[i]).start <= es.drop_last()[i].end by {
                    assert(es.drop_last()[i] == es[i]);
                }
            }
            assert forall|i: int| 0 <= i < r.len() implies 0 <= (#[trigger] r[i]).start
                <= r[i].end by {
                if i == k {
                    assert(r[i] == es[es.len() - 1]);
                } else if i < k {
                    assert(r[i] == prev[i]);
                } else {
                    assert(r[i] == prev[i - 1]);
                }
            }
        }
    }
}

/// The total number of edits in a sequence of clusters.
pub open spec fn total_len(cs: Seq<Seq<EditView>>) -> nat
    decreases cs.len(),
{
    if cs.len() == 0 {
        0
    } else {
        total_len(cs.drop_last()) + cs.last().len()
    }
}

/// What the sweep keeps true of its state over ordered, well-formed edits.
pub open spec fn sweep_invariant(es: Seq<EditView>, st: SweepState) -> bool {
    &&& es.len() > 0 ==> st.cluster.len() > 0 && st.cluster[0].start <= es.last().start
    &&& st.cluster.len() > 0 ==> forall|i: int|
        0 <= i < st.accepted.len() ==> (#[trigger] st.accepted[i]).end <= st.cluster[0].start
    &&& st.cluster.len() == 1 ==> st.cluster_end == st.cluster[0].end
    &&& ordered_disjoint(st.accepted)
    &&& edits_well_formed(st.accepted)
    &&& edits_well_formed(st.cluster)
    &&& st.accepted.len() + total_len(st.conflicts) + st.cluster.len() == es.len()
    &&& forall|c: int| 0 <= c < st.conflicts.len() ==> (#[trigger] st.conflicts[c]).len() >= 2
}

proof fn sweep_keeps_invariant(es: Seq<EditView>)
    requires
        sorted_by_start(es),
        edits_well_formed(es),
    ensures
        sweep_invariant(es, sweep(es)),
    decreases es.len(),
{
    if es.len() > 0 {
        let pre = es.drop_last();
        assert(sorted_by_start(pre)) by {
            assert forall|i: int, j: int| 0 <= i < j < pre.len() implies pre[i].start
                <= pre[j].start by {
                assert(pre[i] == es[i] && pre[j] == es[j]);
            }
        }
        assert(edits_well_formed(pre)) by {
            assert forall|i: int| 0 <= i < pre.len() implies 0 <= (#[trigger] pre[i]).start
                <= pre[i].end by {
                assert(pre[i] == es[i]);
            }
        }
        sweep_keeps_invariant(pre);
        let st = sweep(pre);
        let e = es.last();
        assert(0 <= e.start <= e.end) by {
            assert(es[es.len() - 1] == e);
        }
        if pre.len() > 0 {
            assert(pre.last().start <= e.start) by {
                assert(pre.last() == es[es.len() - 2]);
            }
        }
        if st.cluster.len() > 0 && e.start < st.cluster_end {
            let nx = sweep(es);
            assert(nx.cluster =~= st.cluster.push(e));
            assert(edits_well_formed(nx.cluster)) by {
                assert forall|i: int| 0 <= i < nx.cluster.len() implies 0 <= (
                #[trigger] nx.cluster[i]).start <= nx.cluster[i].end by {
                    if i < st.cluster.len() {
                        assert(nx.cluster[i] == st.cluster[i]);
                    }
                }
            }
        } else {
            let f = flush(st);
            let nx = sweep(es);
            assert(f.accepted.len() + total_len(f.conflicts) == pre.len()) by {
                if st.cluster.len() >= 2 {
                    assert(f.conflicts.drop_last() =~= st.conflicts);
                }
            }
            assert forall|c: int| 0 <= c < f.conflicts.len() implies (
            #[trigger] f.conflicts[c]).len() >= 2 by {
                if c < st.conflicts.len() {
                    assert(f.conflicts[c] == st.conflicts[c]);
                }
            }
            if st.cluster.len() == 1 {
                assert(ordered_disjoint(f.accepted)) by {
                    assert forall|i: int, j: int| 0 <= i < j < f.accepted.len() implies #[trigger] f.accepted[i].end
                        <= #[trigger] f.accepted[j].start by {
                        if j < st.accepted.len() {
                            assert(f.accepted[i] == st.accepted[i] && f.accepted[j] == st.accepted[j]);
                        } else {
                            assert(f.accepted[i] == st.accepted[i]);
                            assert(f.accepted[j] == st.cluster[0]);
                        }
                    }
                }
                assert(edits_well_formed(f.accepted)) by {
                    assert forall|i: int| 0 <= i < f.accepted.len() implies 0 <= (
                    #[trigger] f.accepted[i]).start <= f.accepted[i].end by {
                        if i < st.accepted.len() {
                            assert(f.accepted[i] == st.accepted[i]);
                        } else {
                            assert(f.accepted[i] == st.cluster[0]);
                        }
                    }
                }
            }
            assert forall|i: int| 0 <= i < nx.accepted.len() implies (
            #[trigger] nx.accepted[i]).end <= nx.cluster[0].start by {
                assert(nx.cluster[0] == e);
                if i < st.accepted.len() {
                    assert(nx.accepted[i] == st.accepted[i]);
                } else {
                    assert(nx.accepted[i] == st.cluster[0]);
                }
            }
            assert(edits_well_formed(nx.cluster)) by {
                assert forall|i: int| 0 <= i < nx.cluster.len() implies 0 <= (
                #[trigger] nx.cluster[i]).start <= nx.cluster[i].end by {
                    assert(nx.cluster[i] == e);
                }
            }
        }
    }
}

/// The accepted edits of a sweep over edits ordered by start come in
/// order and never overlap; every edit is either accepted or in exactly
/// one set-aside cluster, and every set-aside cluster has at least two
/// edits.
pub proof fn swept_edits_are_disjoint(es: Seq<EditView>)
    requires
        sorted_by_start(es),
        edits_well_formed(es),
    ensures
        ordered_disjoint(swept(es).accepted),
        edits_well_formed(swept(es).accepted),
        swept(es).accepted.len() + total_len(swept(es).conflicts) == es.len(),
        forall|c: int|
            0 <= c < swept(es).conflicts.len() ==> (#[trigger] swept(es).conflicts[c]).len() >= 2,
{
    sweep_keeps_invariant(es);
    let st = sweep(es);
    let f = swept(es);
    if st.cluster.len() >= 2 {
        assert(f.conflicts.drop_last() =~= st.conflicts);
        assert forall|c: int| 0 <= c < f.conflicts.len() implies (
        #[trigger] f.conflicts[c]).len() >= 2 by {
            if c < st.conflicts.len() {
                assert(f.conflicts[c] == st.conflicts[c]);
            }
        }
    }
    if st.cluster.len() == 1 {
        assert forall|i: int, j: int| 0 <= i < j < f.accepted.len() implies #[trigger] f.accepted[i].end
            <= #[trigger] f.accepted[j].start by {
            if j < st.accepted.len() {
                assert(f.accepted[i] == st.accepted[i] && f.accepted[j] == st.accepted[j]);
            } else {
                assert(f.accepted[i] == st.accepted[i]);
                assert(f.accepted[j] == st.cluster[0]);
            }
        }
        assert forall|i: int| 0 <= i < f.accepted.len() implies 0 <= (
        #[trigger] f.accepted[i]).start <= f.accepted[i].end by {
            if i < st.accepted.len() {
                assert(f.accepted[i] == st.accepted[i]);
            } else {
                assert(f.accepted[i] == st.cluster[0]);
            }
        }
    }
}

/// Whether two edits' byte ranges are apart: one ends at or before the
/// other starts.
pub open spec fn apart(a: EditView, b: EditView) -> bool {
    a.end <= b.start || b.end <= a.start
}

/// What the sweep keeps true of every edit it has seen: each lies wholly
/// before the cluster in progress or belongs to it, no edit of the cluster
/// ends past the cluster's end, and every accepted edit is apart from
/// every other edit seen.
pub open spec fn separation_invariant(es: Seq<EditView>, st: SweepState) -> bool {
    &&& st.cluster.len() > 0 ==> forall|j: int|
        0 <= j < es.len() ==> (#[trigger] es[j]).end <= st.cluster[0].start || st.cluster.contains(es[j])
    &&& forall|k: int| 0 <= k < st.cluster.len() ==> (#[trigger] st.cluster[k]).end <= st.cluster_end
    &&& forall|i: int, j: int|
        0 <= i < st.accepted.len() && 0 <= j < es.len() ==> #[trigger] es[j] == #[trigger] st.accepted[i]
            || apart(st.accepted[i], es[j])
}

proof fn sweep_keeps_separation(es: Seq<EditView>)
    requires
        sorted_by_start(es),
        edits_well_formed(es),
    ensures
        separation_invariant(es, sweep(es)),
    decreases es.len(),
{
    if es.len() > 0 {
        let pre = es.drop_last();
        assert(sorted_by_start(pre)) by {
            assert forall|i: int, j: int| 0 <= i < j < pre.len() implies pre[i].start
                <= pre[j].start by {
                assert(pre[i] == es[i] && pre[j] == es[j]);
            }
        }
        assert(edits_well_formed(pre)) by {
            assert forall|i: int| 0 <= i < pre.len() implies 0 <= (#[trigger] pre[i]).start
                <= pre[i].end by {
                assert(pre[i] == es[i]);
            }
        }
        sweep_keeps_separation(pre);
        sweep_keeps_invariant(pre);
        let st = sweep(pre);
        let nx = sweep(es);
        let e = es.last();
        let n = es.len() - 1;
        assert(es[n] == e);
        assert forall|j: int| 0 <= j < n implies #[trigger] es[j] == pre[j] && es[j].start <= e.start by {}
        if st.cluster.len() > 0 && e.start < st.cluster_end {
            assert(nx.cluster =~= st.cluster.push(e));
            assert(nx.accepted == st.accepted);
            assert forall|j: int| 0 <= j < es.len() implies (#[trigger] es[j]).end <= nx.cluster[0].start
                || nx.cluster.contains(es[j]) by {
                if j == n {
                    assert(nx.cluster[nx.cluster.len() - 1] == e);
                } else {
                    assert(es[j] == pre[j]);
                    if st.cluster.contains(pre[j]) {
                        let w = choose|w: int| 0 <= w < st.cluster.len() && st.cluster[w] == pre[j];
                        assert(nx.cluster[w] == pre[j]);
                    }
                }
            }
            assert forall|k: int| 0 <= k < nx.cluster.len() implies (#[trigger] nx.cluster[k]).end
                <= nx.cluster_end by {
                if k < st.cluster.len() {
                    assert(nx.cluster[k] == st.cluster[k]);
                }
            }
            assert forall|i: int, j: int|
                0 <= i < nx.accepted.len() && 0 <= j < es.len() implies #[trigger] es[j]
                    == #[trigger] nx.accepted[i] || apart(nx.accepted[i], es[j]) by {
                if j < n {
                    assert(es[j] == pre[j]);
                } else {
                    assert(st.accepted[i].end <= st.cluster[0].start);
                }
            }
        } else {
            let f = flush(st);
            assert(nx.cluster =~= seq![e]);
            assert(nx.accepted == f.accepted);
            if pre.len() > 0 {
                assert(st.cluster[0].start <= e.start);
            }
            assert forall|j: int| 0 <= j < es.len() implies (#[trigger] es[j]).end <= nx.cluster[0].start
                || nx.cluster.contains(es[j]) by {
                if j == n {
                    assert(nx.cluster[0] == e);
                } else {
                    assert(es[j] == pre[j]);
                    if !(pre[j].end <= st.cluster[0].start) {
                        let w = choose|w: int| 0 <= w < st.cluster.len() && st.cluster[w] == pre[j];
                        assert(st.cluster[w].end <= st.cluster_end);
                    }
                }
            }
            assert forall|i: int, j: int|
                0 <= i < nx.accepted.len() && 0 <= j < es.len() implies #[trigger] es[j]
                    == #[trigger] nx.accepted[i] || apart(nx.accepted[i], es[j]) by {
                if i < st.accepted.len() {
                    assert(nx.accepted[i] == st.accepted[i]);
                    if j < n {
                        assert(es[j] == pre[j]);
                    } else {
                        assert(st.accepted[i].end <= st.cluster[0].start);
                    }
                } else {
                    assert(st.cluster.len() == 1);
                    let c = st.cluster[0];
                    assert(nx.accepted[i] == c);
                    if j < n {
                        assert(es[j] == pre[j]);
                        if !(pre[j].end <= c.start) {
                            let w = choose|w: int| 0 <= w < st.cluster.len() && st.cluster[w] == pre[j];
                            assert(w == 0);
                        }
                    } else {
                        assert(c.end <= st.cluster_end);
                    }
                }
            }
        }
    }
}

/// Overlapping fixes are never applied: over edits ordered by start, every
/// edit the sweep accepts is apart from every other edit swept (in
/// particular from every edit of a set-aside cluster), and every edit that
/// overlaps the range of an edit of a set-aside cluster lies in that same
/// set-aside territory rather than among the accepted ones.
pub proof fn accepted_edits_overlap_no_other_edit(es: Seq<EditView>)
    requires
        sorted_by_start(es),
        edits_well_formed(es),
    ensures
        forall|i: int, j: int|
            0 <= i < swept(es).accepted.len() && 0 <= j < es.len() ==> #[trigger] es[j]
                == #[trigger] swept(es).accepted[i] || apart(swept(es).accepted[i], es[j]),
        forall|i: int, c: int, k: int|
            0 <= i < swept(es).accepted.len() && 0 <= c < swept(es).conflicts.len() && 0 <= k
                < swept(es).conflicts[c].len() ==> #[trigger] swept(es).conflicts[c][k]
                == #[trigger] swept(es).accepted[i] || apart(
                swept(es).accepted[i],
                swept(es).conflicts[c][k],
            ),
{
    sweep_keeps_separation(es);
    sweep_keeps_invariant(es);
    sweep_keeps_edits(es);
    let st = sweep(es);
    let f = swept(es);
    assert forall|i: int, j: int|
        0 <= i < f.accepted.len() && 0 <= j < es.len() implies #[trigger] es[j] == #[trigger] f.accepted[i]
            || apart(f.accepted[i], es[j]) by {
        if i < st.accepted.len() {
            assert(f.accepted[i] == st.accepted[i]);
        } else {
            assert(st.cluster.len() == 1);
            assert(f.accepted[i] == st.cluster[0]);
            if !(es[j].end <= st.cluster[0].start) {
                let w = choose|w: int| 0 <= w < st.cluster.len() && st.cluster[w] == es[j];
                assert(w == 0);
            }
        }
    }
    assert forall|i: int, c: int, k: int|
        0 <= i < f.accepted.len() && 0 <= c < f.conflicts.len() && 0 <= k < f.conflicts[c].len()
            implies #[trigger] f.conflicts[c][k] == #[trigger] f.accepted[i] || apart(
            f.accepted[i],
            f.conflicts[c][k],
        ) by {
        let x = f.conflicts[c][k];
        assert(es.contains(x));
        let j = choose|j: int| 0 <= j < es.len() && es[j] == x;
        assert(es[j] == f.accepted[i] || apart(f.accepted[i], es[j]));
    }
}

/// What `apply_fixes` applies never overlaps another fix: every edit that
/// is spliced into the source is apart from every other edit the patterns
/// collected, so an edit nested in, or straddling, a set-aside cluster is
/// set aside with it.
pub proof fn applied_fixes_overlap_no_other_fix(ps: Seq<Pattern>, key: Seq<char>, source: Seq<char>)
    ensures
        forall|i: int, j: int|
            0 <= i < swept(sort_by_start(collected_edits(ps, key, source))).accepted.len() && 0 <= j
                < collected_edits(ps, key, source).len() ==> #[trigger] collected_edits(ps, key, source)[j]
                == #[trigger] swept(sort_by_start(collected_edits(ps, key, source))).accepted[i]
                || apart(
                swept(sort_by_start(collected_edits(ps, key, source))).accepted[i],
                collected_edits(ps, key, source)[j],
            ),
{
    let es = collected_edits(ps, key, source);
    let sorted = sort_by_start(es);
    collected_edits_well_formed(ps, key, source);
    sort_by_start_orders(es);
    sort_by_start_keeps_every_edit(es);
    accepted_edits_overlap_no_other_edit(sorted);
    assert forall|i: int, j: int|
        0 <= i < swept(sorted).accepted.len() && 0 <= j < es.len() implies #[trigger] es[j]
            == #[trigger] swept(sorted).accepted[i] || apart(swept(sorted).accepted[i], es[j]) by {
        assert(sorted.contains(es[j]));
        let w = choose|w: int| 0 <= w < sorted.len() && sorted[w] == es[j];
        assert(sorted[w] == swept(sorted).accepted[i] || apart(swept(sorted).accepted[i], sorted[w]));
    }
}

/// Ordering by start loses no edit.
pub proof fn sort_by_start_keeps_every_edit(es: Seq<EditView>)
    ensures
        forall|j: int| 0 <= j < es.len() ==> sort_by_start(es).contains(#[trigger] es[j]),
    decreases es.len(),
{
    if es.len() > 0 {
        let pre = es.drop_last();
        let prev = sort_by_start(pre);
        let e = es.last();
        sort_by_start_keeps_every_edit(pre);
        insertion_index_facts(prev, e.start);
        let idx = insertion_index(prev, e.start);
        let r = sort_by_start(es);
        assert(r == prev.insert(idx, e));
        assert forall|j: int| 0 <= j < es.len() implies r.contains(#[trigger] es[j]) by {
            if j == es.len() - 1 {
                assert(r[idx] == e);
            } else {
                assert(es[j] == pre[j]);
                let w = choose|w: int| 0 <= w < prev.len() && prev[w] == pre[j];
                if w < idx {
                    assert(r[w] == prev[w]);
                } else {
                    assert(r[w + 1] == prev[w]);
                }
            }
        }
    }
}

/// Applying no edit leaves the source unchanged.
pub proof fn no_accepted_edit_keeps_the_source(source: Seq<char>)
    ensures
        splice(encode_utf8(source), Seq::empty()) == encode_utf8(source),
        decode_utf8(splice(encode_utf8(source), Seq::empty())) == source,
{
    let bytes = encode_utf8(source);
    assert(splice(bytes, Seq::empty()) =~= bytes);
}

/// Only the enabled patterns registered for the language take part in
/// applying fixes: the outcome for `ps` is the outcome for the patterns of
/// `ps` that are selected.
pub proof fn only_selected_patterns_fix(ps: Seq<Pattern>, key: Seq<char>, source: Seq<char>)
    ensures
        collected_edits(ps, key, source) == collected_edits(
            ps.filter(|p: Pattern| is_selected(p, key)),
            key,
            source,
        ),
        fix_skipped(ps, key) == fix_skipped(ps.filter(|p: Pattern| is_selected(p, key)), key),
        spec_fixes(ps, key, source) == spec_fixes(
            ps.filter(|p: Pattern| is_selected(p, key)),
            key,
            source,
        ),
    decreases ps.len(),
{
    let sel = |p: Pattern| is_selected(p, key);
    let f = ps.filter(sel);
    reveal(Seq::filter);
    if ps.len() > 0 {
        let q = ps.drop_last();
        let p = ps.last();
        only_selected_patterns_fix(q, key, source);
        let fq = q.filter(sel);
        if sel(p) {
            assert(f == fq.push(p));
            assert(f.drop_last() =~= fq);
        } else {
            assert(f == fq);
        }
        assert(collected_edits(ps, key, source) == collected_edits(f, key, source));
        assert(fix_skipped(ps, key) == fix_skipped(f, key));
    }
}


// ---------------------------------------------------------------------
// Where conflicts and skips come from
// ---------------------------------------------------------------------

/// Whether `id` is the id of a pattern among `ps` that takes part in
/// fixing code of language `key` (see `is_fixer`).
pub open spec fn fixed_by(ps: Seq<Pattern>, key: Seq<char>, id: Seq<char>) -> bool {
    exists|j: int| 0 <= j < ps.len() && is_fixer(#[trigger] ps[j], key) && ps[j].spec_id() == id
}

/// Whether `s` is the id and parse error of a pattern among `ps` that is
/// enabled, registered for `key`, and whose stored rule does not parse.
pub open spec fn skipped_from(ps: Seq<Pattern>, key: Seq<char>, s: (Seq<char>, Seq<char>)) -> bool {
    exists|j: int|
        0 <= j < ps.len() && is_selected(#[trigger] ps[j], key) && ps[j].spec_id() == s.0
            && (spec_parse_rule(ps[j].spec_rule()) matches Err(e) && e.spec_message() == s.1)
}

proof fn dedup_facts(ids: Seq<Seq<char>>)
    ensures
        dedup(ids).no_duplicates(),
        forall|i: int| 0 <= i < dedup(ids).len() ==> ids.contains(#[trigger] dedup(ids)[i]),
        ids.len() > 0 ==> dedup(ids).len() > 0,
    decreases ids.len(),
{
    if ids.len() > 0 {
        let prev = dedup(ids.drop_last());
        dedup_facts(ids.drop_last());
        assert forall|i: int| 0 <= i < dedup(ids).len() implies ids.contains(#[trigger] dedup(ids)[i]) by {
            if i < prev.len() {
                assert(dedup(ids)[i] == prev[i]);
                let w = choose|w: int| 0 <= w < ids.drop_last().len() && ids.drop_last()[w] == prev[i];
                assert(ids[w] == prev[i]);
            } else {
                assert(dedup(ids)[i] == ids[ids.len() - 1]);
            }
        }
        if !prev.contains(ids.last()) {
            assert forall|a: int, b: int| 0 <= a < dedup(ids).len() && 0 <= b < dedup(ids).len() && a != b
                implies dedup(ids)[a] != dedup(ids)[b] by {
                if a < prev.len() && b < prev.len() {
                } else if a < prev.len() {
                    assert(dedup(ids)[a] == prev[a]);
                } else {
                    assert(dedup(ids)[b] == prev[b]);
                }
            }
        }
    }
}

proof fn edits_of_ids(id: Seq<char>, ms: Seq<RuleMatch>)
    ensures
        forall|i: int| 0 <= i < edits_of(id, ms).len() ==> (#[trigger] edits_of(id, ms)[i]).pattern_id == id,
    decreases ms.len(),
{
    if ms.len() > 0 {
        edits_of_ids(id, ms.drop_last());
        let prev = edits_of(id, ms.drop_last());
        assert forall|i: int| 0 <= i < edits_of(id, ms).len() implies (
        #[trigger] edits_of(id, ms)[i]).pattern_id == id by {
            if i < prev.len() {
                assert(edits_of(id, ms)[i] == prev[i]);
            } else {
                assert(edits_of(id, ms)[i] == edit_of(id, ms.last())[i - prev.len()]);
            }
        }
    }
}

proof fn collected_edits_ids(ps: Seq<Pattern>, key: Seq<char>, source: Seq<char>)
    ensures
        forall|i: int|
            0 <= i < collected_edits(ps, key, source).len() ==> fixed_by(
                ps,
                key,
                (#[trigger] collected_edits(ps, key, source)[i]).pattern_id,
            ),
    decreases ps.len(),
{
    if ps.len() > 0 {
        let q = ps.drop_last();
        let p = ps.last();
        collected_edits_ids(q, key, source);
        let prev = collected_edits(q, key, source);
        let all = collected_edits(ps, key, source);
        let ms = outermost_matches(ast_grep_rule_matches(p.spec_rule(), source));
        edits_of_ids(p.spec_id(), ms);
        assert forall|i: int| 0 <= i < all.len() implies fixed_by(ps, key, (#[trigger] all[i]).pattern_id) by {
            if i < prev.len() {
                assert(all[i] == prev[i]);
                assert(fixed_by(q, key, prev[i].pattern_id));
                let j = choose|j: int| 0 <= j < q.len() && is_fixer(#[trigger] q[j], key) && q[j].spec_id() == prev[i].pattern_id;
                assert(ps[j] == q[j]);
            } else {
                assert(is_fixer(p, key));
                assert(all[i] == edits_of(p.spec_id(), ms)[i - prev.len()]);
                assert(ps[ps.len() - 1] == p);
            }
        }
    }
}

/// Every edit of the sweep's state is one of the edits swept.
pub open spec fn sweep_from(es: Seq<EditView>, st: SweepState) -> bool {
    &&& forall|i: int| 0 <= i < st.accepted.len() ==> es.contains(#[trigger] st.accepted[i])
    &&& forall|i: int| 0 <= i < st.cluster.len() ==> es.contains(#[trigger] st.cluster[i])
    &&& forall|c: int, i: int|
        0 <= c < st.conflicts.len() && 0 <= i < st.conflicts[c].len() ==> es.contains(
            #[trigger] st.conflicts[c][i],
        )
}

proof fn sweep_keeps_edits(es: Seq<EditView>)
    ensures
        sweep_from(es, sweep(es)),
        sweep_from(es, swept(es)),
    decreases es.len(),
{
    if es.len() > 0 {
        let pre = es.drop_last();
        sweep_keeps_edits(pre);
        let st = sweep(pre);
        assert forall|x: EditView| pre.contains(x) implies es.contains(x) by {
            let w = choose|w: int| 0 <= w < pre.len() && pre[w] == x;
            assert(es[w] == x);
        }
        assert(es[es.len() - 1] == es.last());
        let f = flush(st);
        assert(sweep_from(es, st));
        assert(sweep_from(es, f)) by {
            if st.cluster.len() >= 2 {
                assert forall|c: int, i: int|
                    0 <= c < f.conflicts.len() && 0 <= i < f.conflicts[c].len() implies es.contains(
                        #[trigger] f.conflicts[c][i],
                    ) by {
                    if c < st.conflicts.len() {
                        assert(f.conflicts[c] == st.conflicts[c]);
                    } else {
                        assert(f.conflicts[c] == st.cluster);
                    }
                }
            } else if st.cluster.len() == 1 {
                assert forall|i: int| 0 <= i < f.accepted.len() implies es.contains(#[trigger] f.accepted[i]) by {
                    if i < st.accepted.len() {
                        assert(f.accepted[i] == st.accepted[i]);
                    } else {
                        assert(f.accepted[i] == st.cluster[0]);
                    }
                }
            }
        }
        let s2 = sweep(es);
        assert forall|i: int| 0 <= i < s2.cluster.len() implies es.contains(#[trigger] s2.cluster[i]) by {
            if st.cluster.len() > 0 && es.last().start < st.cluster_end {
                if i < st.cluster.len() {
                    assert(s2.cluster[i] == st.cluster[i]);
                } else {
                    assert(s2.cluster[i] == es.last());
                }
            } else {
                assert(s2.cluster[i] == es.last());
            }
        }
        assert(sweep_from(es, s2));
    }
    let st = sweep(es);
    let f = flush(st);
    assert(sweep_from(es, f)) by {
        if st.cluster.len() >= 2 {
            assert forall|c: int, i: int|
                0 <= c < f.conflicts.len() && 0 <= i < f.conflicts[c].len() implies es.contains(
                    #[trigger] f.conflicts[c][i],
                ) by {
                if c < st.conflicts.len() {
                    assert(f.conflicts[c] == st.conflicts[c]);
                } else {
                    assert(f.conflicts[c] == st.cluster);
                }
            }
        } else if st.cluster.len() == 1 {
            assert forall|i: int| 0 <= i < f.accepted.len() implies es.contains(#[trigger] f.accepted[i]) by {
                if i < st.accepted.len() {
                    assert(f.accepted[i] == st.accepted[i]);
                } else {
                    assert(f.accepted[i] == st.cluster[0]);
                }
            }
        }
    }
}

proof fn fix_skipped_from(ps: Seq<Pattern>, key: Seq<char>)
    ensures
        forall|k: int| 0 <= k < fix_skipped(ps, key).len() ==> skipped_from(ps, key, #[trigger] fix_skipped(ps, key)[k]),
    decreases ps.len(),
{
    if ps.len() > 0 {
        let q = ps.drop_last();
        fix_skipped_from(q, key);
        let prev = fix_skipped(q, key);
        let all = fix_skipped(ps, key);
        assert forall|k: int| 0 <= k < all.len() implies skipped_from(ps, key, #[trigger] all[k]) by {
            if k < prev.len() {
                assert(all[k] == prev[k]);
                assert(skipped_from(q, key, prev[k]));
                let j = choose|j: int|
                    0 <= j < q.len() && is_selected(#[trigger] q[j], key) && q[j].spec_id() == prev[k].0
                        && (spec_parse_rule(q[j].spec_rule()) matches Err(e) && e.spec_message() == prev[k].1);
                assert(ps[j] == q[j]);
            } else {
                assert(ps[ps.len() - 1] == ps.last());
            }
        }
    }
}

/// What an applied fix reports is accounted for: with no fix applied the
/// source comes back unchanged; every conflict names one or more distinct
/// pattern ids, each the id of an enabled pattern of the language that has
/// a fix; and every skipped rule is the id and parse error of an enabled
/// pattern of the language whose stored rule does not parse.
pub proof fn fix_outcome_is_accounted_for(ps: Seq<Pattern>, key: Seq<char>, source: Seq<char>)
    ensures
        spec_fixes(ps, key, source) matches Ok(v) ==> {
            &&& v.applied_count == 0 ==> v.fixed_source == source
            &&& forall|c: int|
                0 <= c < v.conflicts.len() ==> {
                    &&& (#[trigger] v.conflicts[c]).pattern_ids.len() > 0
                    &&& v.conflicts[c].pattern_ids.no_duplicates()
                    &&& forall|i: int|
                        0 <= i < v.conflicts[c].pattern_ids.len() ==> fixed_by(
                            ps,
                            key,
                            #[trigger] v.conflicts[c].pattern_ids[i],
                        )
                }
            &&& forall|k: int|
                0 <= k < v.skipped_rules.len() ==> skipped_from(ps, key, #[trigger] v.skipped_rules[k])
        },
{
    let es = collected_edits(ps, key, source);
    let sorted = sort_by_start(es);
    let st = swept(sorted);
    collected_edits_well_formed(ps, key, source);
    collected_edits_ids(ps, key, source);
    sort_by_start_orders(es);
    swept_edits_are_disjoint(sorted);
    sweep_keeps_edits(sorted);
    fix_skipped_from(ps, key);
    no_accepted_edit_keeps_the_source(source);
    if let Ok(v) = spec_fixes(ps, key, source) {
        if v.applied_count == 0 {
            assert(st.accepted =~= Seq::<EditView>::empty());
        }
        assert forall|c: int| 0 <= c < v.conflicts.len() implies {
            &&& (#[trigger] v.conflicts[c]).pattern_ids.len() > 0
            &&& v.conflicts[c].pattern_ids.no_duplicates()
            &&& forall|i: int|
                0 <= i < v.conflicts[c].pattern_ids.len() ==> fixed_by(
                    ps,
                    key,
                    #[trigger] v.conflicts[c].pattern_ids[i],
                )
        } by {
            let cl = st.conflicts[c];
            let ids = cl.map_values(|e: EditView| e.pattern_id);
            assert(v.conflicts[c] == conflict_of(cl));
            dedup_facts(ids);
            assert(cl.len() >= 2);
            assert forall|i: int| 0 <= i < v.conflicts[c].pattern_ids.len() implies fixed_by(
                ps,
                key,
                #[trigger] v.conflicts[c].pattern_ids[i],
            ) by {
                let id = dedup(ids)[i];
                assert(ids.contains(id));
                let w = choose|w: int| 0 <= w < ids.len() && ids[w] == id;
                assert(sorted.contains(cl[w]));
                let x = choose|x: int| 0 <= x < sorted.len() && sorted[x] == cl[w];
                assert(es.contains(sorted[x]));
                let y = choose|y: int| 0 <= y < es.len() && es[y] == sorted[x];
                assert(fixed_by(ps, key, es[y].pattern_id));
            }
        }
    }
}

// ---------------------------------------------------------------------
// The whole
// ---------------------------------------------------------------------

/// The mathematical content of a `FixResult`.
pub struct FixView {
    pub fixed_source: Seq<char>,
    pub applied_count: nat,
    pub conflicts: Seq<ConflictView>,
    pub skipped_rules: Seq<(Seq<char>, Seq<char>)>,
}

/// Whether some edit reaches past the end of the source, or past what a
/// byte offset can express.
pub open spec fn out_of_range(es: Seq<EditView>, acc: Seq<EditView>, len: int) -> bool {
    (exists|i: int| 0 <= i < es.len() && #[trigger] es[i].end > usize::MAX) || (exists|i: int|
        0 <= i < acc.len() && #[trigger] acc[i].end > len)
}

/// What applying the fixes of `ps` for language key `key` to `source`
/// gives: the accepted edits spliced into the source's UTF-8 bytes, every
/// set-aside cluster reported as a conflict, and every pattern whose rule
/// no longer parses reported as skipped.
pub open spec fn spec_fixes(ps: Seq<Pattern>, key: Seq<char>, source: Seq<char>) -> Result<
    FixView,
    NormaError,
> {
    let es = collected_edits(ps, key, source);
    let st = swept(sort_by_start(es));
    let bytes = encode_utf8(source);
    if out_of_range(es, st.accepted, bytes.len() as int) {
        Err(NormaError::FixOutOfRange)
    } else if !valid_utf8(splice(bytes, st.accepted)) {
        Err(NormaError::NonUtf8Output)
    } else {
        Ok(
            FixView {
                fixed_source: decode_utf8(splice(bytes, st.accepted)),
                applied_count: st.accepted.len(),
                conflicts: st.conflicts.map_values(|c: Seq<EditView>| conflict_of(c)),
                skipped_rules: fix_skipped(ps, key),
            },
        )
    }
}

/// A `FixResult` whose content is `v`.
pub open spec fn is_fix_result(r: FixResult, v: FixView) -> bool {
    &&& r.fixed_source@ == v.fixed_source
    &&& r.applied_count == v.applied_count
    &&& conflict_views(r.conflicts@) == v.conflicts
    &&& pair_views(r.skipped_rules@) == v.skipped_rules
}

// ---------------------------------------------------------------------
// Executable steps
// ---------------------------------------------------------------------

/// The byte ranges of the kept matches.
pub open spec fn ranges_of(ms: Seq<RuleMatch>) -> Seq<(usize, usize)> {
    ms.map_values(|m: RuleMatch| (m.start, m.end))
}

/// Whether `(start, end)` lies within one of `ranges`.
fn within_any(ranges: &Vec<(usize, usize)>, start: usize, end: usize) -> (r: bool)
    ensures
        r == exists|j: int|
            0 <= j < ranges@.len() && ranges@[j].0 <= start && end <= #[trigger] ranges@[j].1,
{
    let mut i: usize = 0;
    while i < ranges.len()
        invariant
            0 <= i <= ranges@.len(),
            forall|j: int| 0 <= j < i ==> !(ranges@[j].0 <= start && end <= #[trigger] ranges@[j].1),
        decreases ranges@.len() - i,
    {
        if ranges[i].0 <= start && end <= ranges[i].1 {
            return true;
        }
        i = i + 1;
    }
    false
}

/// Appends to `edits` one edit per outermost match of `rule_yaml` in
/// `source` that carries a fix; fails if an edit's end is past what a byte
/// offset can express.
fn push_pattern_edits(
    edits: &mut Vec<FixEdit>,
    pattern_id: &str,
    rule_yaml: &str,
    source: &str,
) -> (r: Result<(), NormaError>)
    ensures
        ({
            let added = edits_of(pattern_id@, outermost_matches(ast_grep_rule_matches(rule_yaml@, source@)));
            if exists|i: int| 0 <= i < added.len() && #[trigger] added[i].end > usize::MAX {
                r == Err::<(), NormaError>(NormaError::FixOutOfRange)
            } else {
                r is Ok && edit_views(final(edits)@) == edit_views(old(edits)@) + added
            }
        }),
{
    let matches = rule_matches(rule_yaml, source);
    let ghost ms = matches@;
    let mut kept: Vec<(usize, usize)> = Vec::new();
    let ghost start_edits = edit_views(edits@);
    let mut i: usize = 0;
    while i < matches.len()
        invariant
            ms == ast_grep_rule_matches(rule_yaml@, source@),
            matches@ == ms,
            0 <= i <= ms.len(),
            kept@ == ranges_of(outermost_matches(ms.take(i as int))),
            edit_views(edits@) == start_edits + edits_of(pattern_id@, outermost_matches(ms.take(i as int))),
            forall|k: int| 0 <= k < edits_of(pattern_id@, outermost_matches(ms.take(i as int))).len()
                ==> #[trigger] edits_of(pattern_id@, outermost_matches(ms.take(i as int)))[k].end <= usize::MAX,
            start_edits == edit_views(old(edits)@),
        decreases ms.len() - i,
    {
        let m = &matches[i];
        let ghost prev = outermost_matches(ms.take(i as int));
        assert(ms.take(i as int + 1).drop_last() =~= ms.take(i as int));
        assert(ms.take(i as int + 1).last() == ms[i as int]);
        let inside = within_any(&kept, m.start, m.end);
        proof {
            if inside {
                let j = choose|j: int| 0 <= j < kept@.len() && kept@[j].0 <= m.start && m.end <= #[trigger] kept@[j].1;
                assert(prev[j].start <= m.start && m.end <= prev[j].end);
                assert(contained_in_any(prev, ms[i as int]));
            } else {
                if contained_in_any(prev, ms[i as int]) {
                    let j = choose|j: int| 0 <= j < prev.len() && prev[j].start <= ms[i as int].start && ms[i as int].end <= #[trigger] prev[j].end;
                    assert(kept@[j] == (prev[j].start, prev[j].end));
                    assert(kept@[j].0 <= m.start && m.end <= kept@[j].1);
                }
                assert(outermost_matches(ms.take(i as int + 1)) == prev.push(ms[i as int]));
                edits_of_push(pattern_id@, prev, ms[i as int]);
            }
        }
        if !inside {
            kept.push((m.start, m.end));
            assert(kept@ =~= ranges_of(outermost_matches(ms.take(i as int + 1))));
            let ghost before = edits@;
            match first_edit_of(m) {
                Some(e) => {
                    if e.0 > usize::MAX - e.1 {
                        proof {
                            let added = edits_of(pattern_id@, outermost_matches(ms));
                            edits_of_prefix(pattern_id@, ms, i as int + 1);
                            let k = edits_of(pattern_id@, prev).len() as int;
                            let now = edits_of(pattern_id@, outermost_matches(ms.take(i as int + 1)));
                            assert(now[k] == edit_of(pattern_id@, ms[i as int])[0]);
                            assert(now[k].end > usize::MAX);
                            assert(added[k].end > usize::MAX);
                        }
                        return Err(NormaError::FixOutOfRange);
                    }
                    edits.push(
                        FixEdit {
                            pattern_id: owned(pattern_id),
                            start: e.0,
                            end: e.0 + e.1,
                            inserted_text: e.2.clone(),
                            line: m.line,
                            column: m.column,
                        },
                    );
                    assert(edit_views(edits@) =~= edit_views(before).push(edits@.last()@));
                },
                None => {},
            }
        }
        assert(edit_views(edits@) =~= start_edits + edits_of(pattern_id@, outermost_matches(ms.take(i as int + 1))));
        i = i + 1;
    }
    assert(ms.take(ms.len() as int) =~= ms);
    Ok(())
}

proof fn edits_of_push(id: Seq<char>, ks: Seq<RuleMatch>, m: RuleMatch)
    ensures
        edits_of(id, ks.push(m)) == edits_of(id, ks) + edit_of(id, m),
{
    assert(ks.push(m).drop_last() =~= ks);
}

/// The edits of a prefix of the matches are a prefix of the edits of all
/// of them.
proof fn edits_of_prefix(id: Seq<char>, ms: Seq<RuleMatch>, n: int)
    requires
        0 <= n <= ms.len(),
    ensures
        edits_of(id, outermost_matches(ms.take(n))).len() <= edits_of(id, outermost_matches(ms)).len(),
        forall|k: int| 0 <= k < edits_of(id, outermost_matches(ms.take(n))).len() ==>
            edits_of(id, outermost_matches(ms))[k] == #[trigger] edits_of(id, outermost_matches(ms.take(n)))[k],
    decreases ms.len() - n,
{
    if n < ms.len() {
        edits_of_prefix(id, ms, n + 1);
        assert(ms.take(n + 1).drop_last() =~= ms.take(n));
        let kp = outermost_matches(ms.take(n));
        let kq = outermost_matches(ms.take(n + 1));
        if !contained_in_any(kp, ms.take(n + 1).last()) {
            edits_of_push(id, kp, ms.take(n + 1).last());
        }
        assert forall|k: int| 0 <= k < edits_of(id, kp).len() implies edits_of(id, outermost_matches(ms))[k]
            == #[trigger] edits_of(id, kp)[k] by {
            assert(edits_of(id, kq)[k] == edits_of(id, kp)[k]);
        }
    } else {
        assert(ms.take(n) =~= ms);
    }
}

/// Whether some edit ends past what a byte offset can express.
pub open spec fn overflows(es: Seq<EditView>) -> bool {
    exists|i: int| 0 <= i < es.len() && #[trigger] es[i].end > usize::MAX
}

proof fn collected_prefix(ps: Seq<Pattern>, key: Seq<char>, source: Seq<char>, n: int)
    requires
        0 <= n <= ps.len(),
    ensures
        collected_edits(ps.take(n), key, source).len() <= collected_edits(ps, key, source).len(),
        forall|k: int| 0 <= k < collected_edits(ps.take(n), key, source).len() ==>
            collected_edits(ps, key, source)[k] == #[trigger] collected_edits(ps.take(n), key, source)[k],
    decreases ps.len() - n,
{
    if n < ps.len() {
        collected_prefix(ps, key, source, n + 1);
        assert(ps.take(n + 1).drop_last() =~= ps.take(n));
        let a = collected_edits(ps.take(n), key, source);
        let b = collected_edits(ps.take(n + 1), key, source);
        assert forall|k: int| 0 <= k < a.len() implies collected_edits(ps, key, source)[k]
            == #[trigger] a[k] by {
            assert(b[k] == a[k]);
        }
    } else {
        assert(ps.take(n) =~= ps);
    }
}

/// Collects the edits of every fixing pattern for language key `key`, and
/// the id and parse error of every selected pattern whose rule no longer
/// parses; fails if some edit's end is past what a byte offset can express.
fn collect_edits(source: &str, key: &str, patterns: &[Pattern]) -> (r: Result<
    (Vec<FixEdit>, Vec<(String, String)>),
    NormaError,
>)
    ensures
        if overflows(collected_edits(patterns@, key@, source@)) {
            r == Err::<(Vec<FixEdit>, Vec<(String, String)>), NormaError>(NormaError::FixOutOfRange)
        } else {
            r matches Ok((es, sk)) && edit_views(es@) == collected_edits(patterns@, key@, source@)
                && pair_views(sk@) == fix_skipped(patterns@, key@)
        },
{
    let mut edits: Vec<FixEdit> = Vec::new();
    let mut skipped: Vec<(String, String)> = Vec::new();
    let mut i: usize = 0;
    while i < patterns.len()
        invariant
            0 <= i <= patterns@.len(),
            edit_views(edits@) == collected_edits(patterns@.take(i as int), key@, source@),
            !overflows(collected_edits(patterns@.take(i as int), key@, source@)),
            pair_views(skipped@) == fix_skipped(patterns@.take(i as int), key@),
        decreases patterns@.len() - i,
    {
        let p = &patterns[i];
        proof {
            crate::models::pattern_accessors(*p);
            assert(patterns@.take(i as int + 1).drop_last() =~= patterns@.take(i as int));
            assert(patterns@.take(i as int + 1).last() == patterns@[i as int]);
        }
        let ghost before = edit_views(edits@);
        let ghost before_s = skipped@;
        if p.enabled && str_eq(p.language(), key) {
            match parse_rule(p.rule()) {
                Ok(h) => {
                    if h.has_fix {
                        let pushed = push_pattern_edits(&mut edits, p.id(), p.rule(), source);
                        match pushed {
                            Ok(()) => {
                                proof {
                                    let cur = collected_edits(patterns@.take(i as int + 1), key@, source@);
                                    assert forall|k: int| 0 <= k < cur.len() implies !(#[trigger] cur[k].end > usize::MAX) by {
                                        if k >= before.len() {
                                            let added = edits_of(p.spec_id(), outermost_matches(ast_grep_rule_matches(p.spec_rule(), source@)));
                                            assert(cur[k] == added[k - before.len()]);
                                        }
                                    }
                                }
                            },
                            Err(e) => {
                                proof {
                                    let added = edits_of(p.spec_id(), outermost_matches(ast_grep_rule_matches(p.spec_rule(), source@)));
                                    let w = choose|w: int| 0 <= w < added.len() && #[trigger] added[w].end > usize::MAX;
                                    let cur = collected_edits(patterns@.take(i as int + 1), key@, source@);
                                    assert(cur[before.len() + w] == added[w]);
                                    collected_prefix(patterns@, key@, source@, i as int + 1);
                                    assert(collected_edits(patterns@, key@, source@)[before.len() + w] == added[w]);
                                }
                                return Err(e);
                            },
                        }
                    }
                },
                Err(e) => {
                    skipped.push((owned(p.id()), e.message()));
                    proof {
                        crate::pattern_engine::parse_errors_have_plain_messages(p.spec_rule());
                    }
                    assert(pair_views(skipped@) =~= pair_views(before_s).push((p.spec_id(), e.spec_message())));
                },
            }
        }
        assert(edit_views(edits@) =~= collected_edits(patterns@.take(i as int + 1), key@, source@));
        i = i + 1;
    }
    assert(patterns@.take(patterns@.len() as int) =~= patterns@);
    Ok((edits, skipped))
}

/// Orders the edits by start, keeping edits with equal starts in their
/// original order (an insertion sort from the back).
fn sort_edits(edits: Vec<FixEdit>) -> (r: Vec<FixEdit>)
    ensures
        edit_views(r@) == sort_by_start(edit_views(edits@)),
{
    let ghost orig = edit_views(edits@);
    let mut rest = edits;
    let mut sorted: Vec<FixEdit> = Vec::new();
    let n = rest.len();
    let mut i: usize = 0;
    while i < n
        invariant
            n == orig.len(),
            0 <= i <= n,
            edit_views(rest@) == orig.skip(i as int),
            rest@.len() == n - i,
            edit_views(sorted@) == sort_by_start(orig.take(i as int)),
        decreases n - i,
    {
        assert(edit_views(rest@)[0] == orig[i as int]);
        let ghost before_rest = rest@;
        let e = rest.remove(0);
        assert(rest@ =~= before_rest.subrange(1, before_rest.len() as int));
        assert forall|j: int| 0 <= j < rest@.len() implies #[trigger] edit_views(rest@)[j] == orig.skip(
            i as int + 1,
        )[j] by {
            assert(rest@[j] == before_rest[j + 1]);
            assert(edit_views(before_rest)[j + 1] == orig.skip(i as int)[j + 1]);
        }
        assert(edit_views(rest@) =~= orig.skip(i as int + 1));
        let ghost sv = edit_views(sorted@);
        let mut k: usize = sorted.len();
        assert(sv.take(k as int) =~= sv);
        while k > 0 && sorted[k - 1].start > e.start
            invariant
                sv == edit_views(sorted@),
                0 <= k <= sorted@.len(),
                insertion_index(sv, e.start as int) == insertion_index(sv.take(k as int), e.start as int),
            decreases k,
        {
            assert(sv.take(k as int).drop_last() =~= sv.take(k as int - 1));
            assert(sv.take(k as int).last() == sv[k as int - 1]);
            k = k - 1;
        }
        proof {
            if k > 0 {
                assert(sv.take(k as int).last() == sv[k as int - 1]);
            }
            assert(insertion_index(sv, e.start as int) == k);
            assert(orig.take(i as int + 1).drop_last() =~= orig.take(i as int));
            assert(orig.take(i as int + 1).last() == e@);
        }
        sorted.insert(k, e);
        assert(edit_views(sorted@) =~= sv.insert(k as int, e@));
        i = i + 1;
    }
    assert(orig.take(n as int) =~= orig);
    sorted
}

/// The pattern ids of a cluster's edits.
pub open spec fn cluster_ids(c: Seq<EditView>) -> Seq<Seq<char>> {
    c.map_values(|e: EditView| e.pattern_id)
}

/// Closes the cluster in progress (see `flush`): a lone edit is accepted;
/// a cluster of two or more becomes one `FixConflict` listing its distinct
/// pattern ids (first-seen order) at its first edit's position.
pub fn flush_cluster<'a>(
    cluster: &mut Vec<&'a FixEdit>,
    accepted: &mut Vec<&'a FixEdit>,
    conflicts: &mut Vec<FixConflict>,
)
    ensures
        final(cluster)@.len() == 0,
        old(cluster)@.len() == 1 ==> edit_ref_views(final(accepted)@) == edit_ref_views(
            old(accepted)@,
        ).push(edit_ref_views(old(cluster)@)[0]),
        old(cluster)@.len() != 1 ==> final(accepted)@ == old(accepted)@,
        old(cluster)@.len() >= 2 ==> conflict_views(final(conflicts)@) == conflict_views(
            old(conflicts)@,
        ).push(conflict_of(edit_ref_views(old(cluster)@))),
        old(cluster)@.len() < 2 ==> final(conflicts)@ == old(conflicts)@,
{
    let ghost cv = edit_ref_views(cluster@);
    if cluster.len() == 1 {
        let ghost before = accepted@;
        accepted.push(cluster[0]);
        assert(edit_ref_views(accepted@) =~= edit_ref_views(before).push(cv[0]));
    } else if cluster.len() >= 2 {
        let first = cluster[0];
        let mut pattern_ids: Vec<String> = Vec::new();
        let mut k: usize = 0;
        while k < cluster.len()
            invariant
                cv == edit_ref_views(cluster@),
                0 <= k <= cluster@.len(),
                crate::text::views(pattern_ids@) == dedup(cluster_ids(cv).take(k as int)),
            decreases cluster@.len() - k,
        {
            let id = &cluster[k].pattern_id;
            assert(cluster_ids(cv).take(k as int + 1).drop_last() =~= cluster_ids(cv).take(k as int));
            assert(cluster_ids(cv).take(k as int + 1).last() == id@);
            let seen = contains_str(&pattern_ids, id.as_str());
            proof {
                let prev = dedup(cluster_ids(cv).take(k as int));
                if seen {
                    let w = choose|w: int| 0 <= w < pattern_ids@.len() && (#[trigger] pattern_ids@[w])@ == id@;
                    assert(prev[w] == id@);
                } else {
                    if prev.contains(id@) {
                        let w = choose|w: int| 0 <= w < prev.len() && prev[w] == id@;
                        assert(pattern_ids@[w]@ == id@);
                    }
                }
            }
            if !seen {
                let ghost before = pattern_ids@;
                pattern_ids.push(id.clone());
                assert(crate::text::views(pattern_ids@) =~= crate::text::views(before).push(id@));
            }
            k = k + 1;
        }
        assert(cluster_ids(cv).take(cluster@.len() as int) =~= cluster_ids(cv));
        let ghost before = conflicts@;
        conflicts.push(
            FixConflict {
                pattern_ids,
                location: CodeLocation { file: None, line: first.line, column: first.column },
            },
        );
        assert(conflict_views(conflicts@) =~= conflict_views(before).push(conflict_of(cv)));
    }
    cluster.clear();
}

proof fn edits_of_well_formed(id: Seq<char>, ms: Seq<RuleMatch>)
    ensures
        edits_well_formed(edits_of(id, ms)),
    decreases ms.len(),
{
    if ms.len() > 0 {
        edits_of_well_formed(id, ms.drop_last());
        let a = edits_of(id, ms.drop_last());
        let all = edits_of(id, ms);
        assert forall|i: int| 0 <= i < all.len() implies 0 <= (#[trigger] all[i]).start
            <= all[i].end by {
            if i < a.len() {
                assert(all[i] == a[i]);
            }
        }
    }
}

/// Every collected edit starts at a byte offset and ends no earlier.
pub proof fn collected_edits_well_formed(ps: Seq<Pattern>, key: Seq<char>, source: Seq<char>)
    ensures
        edits_well_formed(collected_edits(ps, key, source)),
    decreases ps.len(),
{
    if ps.len() > 0 {
        collected_edits_well_formed(ps.drop_last(), key, source);
        let p = ps.last();
        let a = collected_edits(ps.drop_last(), key, source);
        let all = collected_edits(ps, key, source);
        let b = edits_of(p.spec_id(), outermost_matches(ast_grep_rule_matches(p.spec_rule(), source)));
        edits_of_well_formed(p.spec_id(), outermost_matches(ast_grep_rule_matches(p.spec_rule(), source)));
        assert forall|i: int| 0 <= i < all.len() implies 0 <= (#[trigger] all[i]).start
            <= all[i].end by {
            if i < a.len() {
                assert(all[i] == a[i]);
            } else {
                assert(all[i] == b[i - a.len()]);
            }
        }
    }
}

/// Applies every enabled pattern's fix for `language` to `source` and
/// returns the rewritten text, how many fixes were applied, the clusters
/// of overlapping fixes that were left unapplied, and the patterns whose
/// stored rule no longer parses (skipped, and reported).
///
/// A pattern without a `fix:` is passed over. Of the matches a pattern
/// finds at several nesting levels of one construct only the outermost is
/// fixed (a later pass fixes the rest). When fix ranges overlap -- a
/// cluster found by a sweep over the edits ordered by start -- none of the
/// cluster is applied and it is reported as one conflict. Fails if
/// `language` is not supported, if a fix lies outside the source, or if the
/// result would not be valid UTF-8.
pub fn apply_fixes(source: &str, language: &str, patterns: &[Pattern]) -> (r: Result<
    FixResult,
    NormaError,
>)
    ensures
        match spec_resolve_language(language@) {
            Some(key) => match spec_fixes(patterns@, key, source@) {
                Ok(v) => r matches Ok(res) && is_fix_result(res, v),
                Err(e) => r == Err::<FixResult, NormaError>(e),
            },
            None => r matches Err(NormaError::UnsupportedLanguage { requested }) && requested@
                == language@,
        },
{
    let key = resolve_language(language)?;
    let ghost es = collected_edits(patterns@, key@, source@);
    let (edits, skipped_rules) = collect_edits(source, key.as_str(), patterns)?;
    proof {
        collected_edits_well_formed(patterns@, key@, source@);
        sort_by_start_orders(es);
        swept_edits_are_disjoint(sort_by_start(es));
    }
    let sorted = sort_edits(edits);
    let ghost sv = edit_views(sorted@);
    let mut accepted: Vec<&FixEdit> = Vec::new();
    let mut conflicts: Vec<FixConflict> = Vec::new();
    let mut cluster: Vec<&FixEdit> = Vec::new();
    let mut cluster_end: usize = 0;
    let mut j: usize = 0;
    while j < sorted.len()
        invariant
            sv == edit_views(sorted@),
            0 <= j <= sorted@.len(),
            edit_ref_views(accepted@) == sweep(sv.take(j as int)).accepted,
            conflict_views(conflicts@) == sweep(sv.take(j as int)).conflicts.map_values(
                |c: Seq<EditView>| conflict_of(c),
            ),
            edit_ref_views(cluster@) == sweep(sv.take(j as int)).cluster,
            cluster@.len() > 0 ==> cluster_end == sweep(sv.take(j as int)).cluster_end,
        decreases sorted@.len() - j,
    {
        let edit = &sorted[j];
        let ghost st = sweep(sv.take(j as int));
        assert(sv.take(j as int + 1).drop_last() =~= sv.take(j as int));
        assert(sv.take(j as int + 1).last() == edit@);
        if cluster.len() > 0 && edit.start < cluster_end {
            let ghost before = cluster@;
            cluster.push(edit);
            assert(edit_ref_views(cluster@) =~= edit_ref_views(before).push(edit@));
            if edit.end > cluster_end {
                cluster_end = edit.end;
            }
        } else {
            let ghost before_c = conflicts@;
            flush_cluster(&mut cluster, &mut accepted, &mut conflicts);
            proof {
                let f = flush(st);
                if st.cluster.len() >= 2 {
                    assert(conflict_views(conflicts@) =~= f.conflicts.map_values(
                        |c: Seq<EditView>| conflict_of(c),
                    ));
                }
            }
            cluster.push(edit);
            assert(edit_ref_views(cluster@) =~= seq![edit@]);
            cluster_end = edit.end;
        }
        j = j + 1;
    }
    assert(sv.take(sorted@.len() as int) =~= sv);
    let ghost st = sweep(sv);
    flush_cluster(&mut cluster, &mut accepted, &mut conflicts);
    proof {
        let f = flush(st);
        if st.cluster.len() >= 2 {
            assert(conflict_views(conflicts@) =~= f.conflicts.map_values(
                |c: Seq<EditView>| conflict_of(c),
            ));
        }
    }
    let ghost acc = swept(sv).accepted;
    let bytes = source.as_bytes();
    let mut fixed: Vec<u8> = Vec::new();
    let mut cursor: usize = 0;
    let mut k: usize = 0;
    while k < accepted.len()
        invariant
            acc == edit_ref_views(accepted@),
            es == collected_edits(patterns@, key@, source@),
            acc == swept(sort_by_start(es)).accepted,
            spec_resolve_language(language@) == Some(key@),
            ordered_disjoint(acc),
            edits_well_formed(acc),
            bytes@ == encode_utf8(source@),
            0 <= k <= acc.len(),
            forall|i: int| 0 <= i < k ==> (#[trigger] acc[i]).end <= bytes@.len(),
            cursor == last_end(acc.take(k as int)),
            fixed@ == spliced_prefix(bytes@, acc.take(k as int)),
        decreases acc.len() - k,
    {
        let edit = accepted[k];
        assert(acc[k as int] == edit@);
        if edit.end > bytes.len() {
            proof {
                assert(acc[k as int].end > encode_utf8(source@).len());
                assert(out_of_range(es, acc, encode_utf8(source@).len() as int));
            }
            return Err(NormaError::FixOutOfRange);
        }
        proof {
            if k > 0 {
                assert(acc.take(k as int).last() == acc[k as int - 1]);
            }
            assert(acc.take(k as int + 1).drop_last() =~= acc.take(k as int));
            assert(acc.take(k as int + 1).last() == acc[k as int]);
        }
        fixed.extend_from_slice(&bytes[cursor..edit.start]);
        fixed.extend_from_slice(edit.inserted_text.as_slice());
        cursor = edit.end;
        k = k + 1;
    }
    assert(acc.take(acc.len() as int) =~= acc);
    fixed.extend_from_slice(&bytes[cursor..bytes.len()]);
    assert(fixed@ =~= splice(bytes@, acc));
    let applied_count = accepted.len();
    match crate::stdlib::string_from_utf8(fixed) {
        Some(fixed_source) => Ok(FixResult { fixed_source, applied_count, conflicts, skipped_rules }),
        None => Err(NormaError::NonUtf8Output),
    }
}

} // verus!
