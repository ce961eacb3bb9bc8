//! The placeholder rewriter: replaces the backend-neutral two-character
//! marker `$$` with a backend's positional placeholder syntax, assigning
//! strictly increasing indices left to right.

use vstd::prelude::*;

use crate::backend::{
    dec_of, lemma_dec_no_dollar, NumberedBackend, QueryPrepare, UnindexedBackend,
};

verus! {

/// Whether `s` starts with a placeholder marker.
pub open spec fn starts_with_marker(s: Seq<char>) -> bool {
    s.len() >= 2 && s[0] == '$' && s[1] == '$'
}

/// The number of placeholder markers in `s`, counted by a single
/// left-to-right scan that never coalesces adjacent markers.
pub open spec fn marker_count(s: Seq<char>) -> nat
    decreases s.len(),
{
    if starts_with_marker(s) {
        1 + marker_count(s.skip(2))
    } else if s.len() == 0 {
        0
    } else {
        marker_count(s.skip(1))
    }
}

/// The fragment with every marker replaced by `Q`'s rendering of
/// successive indices starting at `idx`, scanning left to right; all
/// other text is kept unchanged.
pub open spec fn rewritten<Q: QueryPrepare + ?Sized>(s: Seq<char>, idx: int) -> Seq<char>
    decreases s.len(),
{
    if starts_with_marker(s) {
        Q::placeholder_spec(idx) + rewritten::<Q>(s.skip(2), idx + 1)
    } else if s.len() == 0 {
        s
    } else {
        seq![s[0]] + rewritten::<Q>(s.skip(1), idx)
    }
}

/// A fragment can hold at most one marker per character.
pub proof fn lemma_marker_count_le_len(s: Seq<char>)
    ensures
        marker_count(s) <= s.len(),
    decreases s.len(),
{
    if starts_with_marker(s) {
        lemma_marker_count_le_len(s.skip(2));
    } else if s.len() > 0 {
        lemma_marker_count_le_len(s.skip(1));
    }
}

/// A fragment free of the marker character holds no marker.
pub proof fn lemma_no_marker(s: Seq<char>)
    requires
        forall|i: int| 0 <= i < s.len() ==> s[i] != '$',
    ensures
        marker_count(s) == 0,
    decreases s.len(),
{
    if s.len() > 0 {
        assert(!starts_with_marker(s));
        assert forall|i: int| 0 <= i < s.skip(1).len() implies s.skip(1)[i] != '$' by {
            assert(s.skip(1)[i] == s[i + 1]);
        }
        lemma_no_marker(s.skip(1));
    }
}

/// Marker counting distributes over concatenation whenever no marker
/// straddles the boundary.
pub proof fn lemma_marker_concat(a: Seq<char>, b: Seq<char>)
    requires
        a.len() == 0 || b.len() == 0 || !(a.last() == '$' && b[0] == '$'),
    ensures
        marker_count(a + b) == marker_count(a) + marker_count(b),
    decreases a.len(),
{
    if a.len() == 0 {
        assert(a + b =~= b);
    } else if b.len() == 0 {
        assert(a + b =~= a);
    } else if starts_with_marker(a) {
        assert(starts_with_marker(a + b));
        assert((a + b).skip(2) =~= a.skip(2) + b);
        if a.len() > 2 {
            assert(a.skip(2).last() == a.last());
        }
        lemma_marker_concat(a.skip(2), b);
    } else {
        assert(!starts_with_marker(a + b));
        assert((a + b).skip(1) =~= a.skip(1) + b);
        if a.len() > 1 {
            assert(a.skip(1).last() == a.last());
        }
        lemma_marker_concat(a.skip(1), b);
    }
}

/// Replaces every placeholder marker in `filter` with the backend's
/// rendering of a strictly increasing index, starting at `start_index`,
/// and returns the rewritten fragment together with the next unused
/// index.
pub fn replace_arg_placeholders<Q: QueryPrepare + ?Sized>(filter: &str, start_index: i64) -> (r: (
    String,
    i64,
))
    requires
        0 <= start_index,
        start_index + marker_count(filter@) <= i64::MAX,
    ensures
        r.0@ == rewritten::<Q>(filter@, start_index as int),
        r.1 == start_index + marker_count(filter@),
{
    let n = filter.unicode_len();
    let mut out = String::new();
    let mut i: usize = 0;
    let mut idx: i64 = start_index;
    proof {
        assert(filter@.skip(0) =~= filter@);
        assert(out@ + rewritten::<Q>(filter@, start_index as int) =~= rewritten::<Q>(
            filter@,
            start_index as int,
        ));
    }
    while i < n
        invariant
            0 <= start_index,
            n == filter@.len(),
            i <= n,
            start_index <= idx,
            idx + marker_count(filter@.skip(i as int)) <= i64::MAX,
            rewritten::<Q>(filter@, start_index as int) == out@ + rewritten::<Q>(
                filter@.skip(i as int),
                idx as int,
            ),
            start_index + marker_count(filter@) == idx + marker_count(filter@.skip(i as int)),
        decreases n - i,
    {
        let ghost pre = filter@.skip(i as int);
        let ghost out0 = out@;
        let ghost idx0 = idx as int;
        if i + 1 < n && filter.get_char(i) == '$' && filter.get_char(i + 1) == '$' {
            proof {
                assert(starts_with_marker(pre));
                assert(pre.skip(2) =~= filter@.skip(i as int + 2));
            }
            let ph = Q::placeholder(idx);
            out.append(ph.as_str());
            idx = idx + 1;
            i = i + 2;
            proof {
                assert(out@ =~= out0 + Q::placeholder_spec(idx0));
                assert(out0 + rewritten::<Q>(pre, idx0) =~= out@ + rewritten::<Q>(
                    filter@.skip(i as int),
                    idx as int,
                ));
            }
        } else {
            proof {
                assert(!starts_with_marker(pre));
                assert(pre.skip(1) =~= filter@.skip(i as int + 1));
            }
            let c_str = filter.substring_char(i, i + 1);
            proof {
                assert(c_str@ =~= seq![pre[0]]);
            }
            out.append(c_str);
            i = i + 1;
            proof {
                assert(out0 + rewritten::<Q>(pre, idx0) =~= out@ + rewritten::<Q>(
                    filter@.skip(i as int),
                    idx as int,
                ));
            }
        }
    }
    proof {
        assert(filter@.skip(n as int) =~= Seq::<char>::empty());
        assert(out@ + Seq::<char>::empty() =~= out@);
    }
    (out, idx)
}

/// Rewriting leaves no marker behind whenever every rendered
/// placeholder is itself free of markers and does not end with the
/// marker character.
pub proof fn lemma_rewritten_no_marker<Q: QueryPrepare + ?Sized>(s: Seq<char>, idx: int)
    requires
        forall|j: int| idx <= j ==> marker_count(#[trigger] Q::placeholder_spec(j)) == 0,
        forall|j: int| idx <= j ==> (#[trigger] Q::placeholder_spec(j)).len() > 0,
        forall|j: int| idx <= j ==> (#[trigger] Q::placeholder_spec(j)).last() != '$',
    ensures
        marker_count(rewritten::<Q>(s, idx)) == 0,
    decreases s.len(),
{
    if starts_with_marker(s) {
        lemma_rewritten_no_marker::<Q>(s.skip(2), idx + 1);
        lemma_marker_concat(Q::placeholder_spec(idx), rewritten::<Q>(s.skip(2), idx + 1));
    } else if s.len() == 0 {
    } else {
        lemma_rewritten_no_marker::<Q>(s.skip(1), idx);
        let rest = rewritten::<Q>(s.skip(1), idx);
        assert(marker_count(seq![s[0]]) == 0) by {
            assert(!starts_with_marker(seq![s[0]]));
            assert(seq![s[0]].skip(1) =~= Seq::<char>::empty());
            assert(marker_count(Seq::<char>::empty()) == 0);
        }
        if s[0] == '$' && rest.len() > 0 {
            if s.len() >= 2 {
                assert(s[1] != '$');
                assert(s.skip(1)[0] == s[1]);
                assert(!starts_with_marker(s.skip(1)));
                assert(rest[0] == s.skip(1)[0]);
            } else {
                assert(s.skip(1).len() == 0);
                assert(rest.len() == 0);
            }
        }
        lemma_marker_concat(seq![s[0]], rest);
    }
}

/// The marker-elimination law for the numbered backend: rewriting a
/// fragment at any nonnegative starting index consumes every
/// backend-neutral marker, so none survives into the final statement
/// text.
pub proof fn lemma_numbered_rewrite_no_marker(s: Seq<char>, idx: int)
    requires
        0 <= idx,
    ensures
        marker_count(rewritten::<NumberedBackend>(s, idx)) == 0,
{
    assert forall|j: int| idx <= j implies marker_count(
        #[trigger] NumberedBackend::placeholder_spec(j),
    ) == 0 && NumberedBackend::placeholder_spec(j).len() > 0
        && NumberedBackend::placeholder_spec(j).last() != '$' by {
        let ph = NumberedBackend::placeholder_spec(j);
        reveal_strlit("$");
        lemma_dec_no_dollar(j);
        assert("$"@.len() == 1);
        assert(!starts_with_marker("$"@));
        assert("$"@.skip(1) =~= Seq::<char>::empty());
        assert(marker_count(Seq::<char>::empty()) == 0);
        assert(marker_count("$"@) == 0);
        lemma_no_marker(dec_of(j));
        lemma_marker_concat("$"@, dec_of(j));
        assert(ph.last() == dec_of(j).last());
        assert(ph.last() != '$');
    }
    lemma_rewritten_no_marker::<NumberedBackend>(s, idx);
}

/// The marker-elimination law for the unindexed backend: rewriting
/// consumes every backend-neutral marker, so none survives into the
/// final statement text.
pub proof fn lemma_unindexed_rewrite_no_marker(s: Seq<char>, idx: int)
    ensures
        marker_count(rewritten::<UnindexedBackend>(s, idx)) == 0,
{
    assert forall|j: int| idx <= j implies marker_count(
        #[trigger] UnindexedBackend::placeholder_spec(j),
    ) == 0 && UnindexedBackend::placeholder_spec(j).len() > 0
        && UnindexedBackend::placeholder_spec(j).last() != '$' by {
        reveal_strlit("?");
        assert("?"@.len() == 1);
        assert(!starts_with_marker("?"@));
        assert("?"@.skip(1) =~= Seq::<char>::empty());
        assert(marker_count(Seq::<char>::empty()) == 0);
        assert(marker_count("?"@) == 0);
        assert("?"@.last() == '?');
    }
    lemma_rewritten_no_marker::<UnindexedBackend>(s, idx);
}

/// The fragment with its markers replaced, left to right, by the
/// elements of `phs`: the k-th marker receives `phs[k]`.
pub open spec fn subst_markers(s: Seq<char>, phs: Seq<Seq<char>>) -> Seq<char>
    recommends
        phs.len() == marker_count(s),
    decreases s.len(),
{
    if starts_with_marker(s) && phs.len() > 0 {
        phs[0] + subst_markers(s.skip(2), phs.skip(1))
    } else if s.len() == 0 {
        s
    } else if starts_with_marker(s) {
        s
    } else {
        seq![s[0]] + subst_markers(s.skip(1), phs)
    }
}

/// Rewriting a fragment holding N markers at starting index S yields the
/// fragment whose k-th marker, left to right, is replaced by the
/// backend's rendering of index S + k: exactly N placeholders, with
/// indices S, S+1, ..., S+N-1 in order, and no other text changed.
pub proof fn lemma_rewritten_substitutes<Q: QueryPrepare + ?Sized>(s: Seq<char>, idx: int)
    ensures
        rewritten::<Q>(s, idx) == subst_markers(
            s,
            Seq::new(marker_count(s), |k: int| Q::placeholder_spec(idx + k)),
        ),
    decreases s.len(),
{
    let phs = Seq::new(marker_count(s), |k: int| Q::placeholder_spec(idx + k));
    if starts_with_marker(s) {
        lemma_rewritten_substitutes::<Q>(s.skip(2), idx + 1);
        assert(phs.skip(1) =~= Seq::new(
            marker_count(s.skip(2)),
            |k: int| Q::placeholder_spec(idx + 1 + k),
        ));
        assert(phs[0] == Q::placeholder_spec(idx));
    } else if s.len() == 0 {
    } else {
        lemma_rewritten_substitutes::<Q>(s.skip(1), idx);
        assert(phs =~= Seq::new(
            marker_count(s.skip(1)),
            |k: int| Q::placeholder_spec(idx + k),
        ));
    }
}

} // verus!
