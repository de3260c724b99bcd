//! Read views of operator changelogs: a changelog consolidated into rows with
//! multiplicities, and the rules a snapshot request must follow.
use crate::relational::{names_are_valid, names_ok, string_views};
use crate::text::{bytes_lt, str_eq};
use vstd::prelude::*;

verus! {

/// Why a view could not be read.
#[derive(Debug, Clone, Copy, PartialEq, Eq, Structural)]
pub enum ViewError {
    /// A row's multiplicity does not fit in an `i64`.
    Overflow,
    /// Some row was retracted more often than it was inserted.
    UnmatchedRetraction,
    /// A snapshot names no operator or more than 32.
    OperatorCount,
    /// A snapshot names an operator twice or names a blank one.
    InvalidOperators,
    /// The operator is a Process, whose outputs have no snapshots.
    ProcessOutput,
    /// The identifier is registered under more than one kind of operator.
    AmbiguousOperator,
    /// No operator is registered under the identifier.
    UnknownOperator,
    /// A snapshot of several views takes native filters only.
    FilterRequired,
    /// One view would hold more than 10000 distinct rows.
    TooManyRows,
}

/// The multiplicity of each row identity after the changes, in order, or the overflow that
/// stops the consolidation.
pub open spec fn spec_totals(changes: Seq<(Seq<u8>, i64)>) -> Result<Map<Seq<u8>, int>, ViewError>
    decreases changes.len(),
{
    if changes.len() == 0 {
        Ok(Map::empty())
    } else {
        match spec_totals(changes.drop_last()) {
            Err(e) => Err(e),
            Ok(totals) => {
                let (id, diff) = changes.last();
                let current = if totals.contains_key(id) {
                    totals[id]
                } else {
                    0
                };
                let next = current + diff;
                if next < i64::MIN || next > i64::MAX {
                    Err(ViewError::Overflow)
                } else {
                    Ok(totals.insert(id, next))
                }
            },
        }
    }
}

/// The position of the first change with the identity.
pub open spec fn first_with(changes: Seq<(Seq<u8>, i64)>, id: Seq<u8>) -> int {
    choose|i: int|
        0 <= i < changes.len() && changes[i].0 == id && forall|k: int|
            0 <= k < i ==> changes[k].0 != id
}

pub open spec fn change_ids(changes: Seq<(String, i64)>) -> Seq<(Seq<u8>, i64)> {
    changes.map_values(|c: (String, i64)| (vstd::utf8::encode_utf8(c.0@), c.1))
}

proof fn lemma_bytes_lt_irreflexive(a: Seq<u8>)
    ensures
        !bytes_lt(a, a),
    decreases a.len(),
{
    if a.len() > 0 {
        lemma_bytes_lt_irreflexive(a.drop_first());
    }
}

proof fn lemma_bytes_lt_transitive(a: Seq<u8>, b: Seq<u8>, c: Seq<u8>)
    requires
        bytes_lt(a, b),
        bytes_lt(b, c),
    ensures
        bytes_lt(a, c),
    decreases a.len(),
{
    if a.len() > 0 && b.len() > 0 && c.len() > 0 {
        if a[0] == b[0] && b[0] == c[0] {
            lemma_bytes_lt_transitive(a.drop_first(), b.drop_first(), c.drop_first());
        }
    }
}

proof fn lemma_bytes_lt_total(a: Seq<u8>, b: Seq<u8>)
    requires
        a != b,
    ensures
        bytes_lt(a, b) || bytes_lt(b, a),
    decreases a.len(),
{
    if a.len() > 0 && b.len() > 0 && a[0] == b[0] {
        if a.drop_first() == b.drop_first() {
            assert(a =~= seq![a[0]] + a.drop_first());
            assert(b =~= seq![b[0]] + b.drop_first());
        }
        lemma_bytes_lt_total(a.drop_first(), b.drop_first());
    } else if a.len() == 0 && b.len() == 0 {
        assert(a =~= b);
    }
}

proof fn lemma_bytes_lt_asymmetric(a: Seq<u8>, b: Seq<u8>)
    requires
        bytes_lt(a, b),
    ensures
        !bytes_lt(b, a),
    decreases a.len(),
{
    if a.len() > 0 && b.len() > 0 && a[0] == b[0] {
        lemma_bytes_lt_asymmetric(a.drop_first(), b.drop_first());
    }
}

/// `<` on byte strings, as `String`'s order compares UTF-8 bytes.
fn bytes_less(a: &[u8], b: &[u8]) -> (lt: bool)
    ensures
        lt == bytes_lt(a@, b@),
{
    let mut i: usize = 0;
    assert(a@.skip(0) =~= a@ && b@.skip(0) =~= b@);
    while i < a.len() && i < b.len() && a[i] == b[i]
        invariant
            i <= a@.len(),
            i <= b@.len(),
            bytes_lt(a@, b@) == bytes_lt(a@.skip(i as int), b@.skip(i as int)),
        decreases a.len() - i,
    {
        assert(a@.skip(i as int).drop_first() =~= a@.skip(i + 1));
        assert(b@.skip(i as int).drop_first() =~= b@.skip(i + 1));
        i = i + 1;
    }
    if i == a.len() {
        i < b.len()
    } else if i == b.len() {
        false
    } else {
        assert(a@.skip(i as int)[0] == a@[i as int]);
        assert(b@.skip(i as int)[0] == b@[i as int]);
        a[i] < b[i]
    }
}

/// Rows sorted strictly by identity, each standing for the first change with its identity.
pub open spec fn rows_sorted(ids: Seq<(Seq<u8>, i64)>, rows: Seq<(usize, i64)>) -> bool {
    &&& forall|p: int| 0 <= p < rows.len() ==> (#[trigger] rows[p]).0 < ids.len()
    &&& forall|a: int, b: int|
        0 <= a < b < rows.len() ==> bytes_lt(ids[(#[trigger] rows[a]).0 as int].0, ids[(#[trigger] rows[b]).0 as int].0)
}

/// No change before position `j` has the identity of the change at `j`.
pub open spec fn first_occurrence(ids: Seq<(Seq<u8>, i64)>, j: int) -> bool {
    forall|k: int| 0 <= k < j ==> #[trigger] ids[k].0 != ids[j].0
}

/// The rows hold the totals of the first `n` changes: one row per identity seen, with its
/// first change and its multiplicity so far.
pub open spec fn rows_hold(
    ids: Seq<(Seq<u8>, i64)>,
    n: int,
    rows: Seq<(usize, i64)>,
    totals: Map<Seq<u8>, int>,
) -> bool {
    &&& forall|p: int|
        0 <= p < rows.len() ==> (#[trigger] rows[p]).0 < n && totals.contains_key(
            ids[rows[p].0 as int].0,
        ) && totals[ids[rows[p].0 as int].0] == rows[p].1 && first_occurrence(ids, rows[p].0 as int)
    &&& forall|id: Seq<u8>|
        #[trigger] totals.contains_key(id) ==> exists|p: int|
            0 <= p < rows.len() && ids[(#[trigger] rows[p]).0 as int].0 == id
}

proof fn lemma_rows_distinct(ids: Seq<(Seq<u8>, i64)>, rows: Seq<(usize, i64)>, a: int, b: int)
    requires
        rows_sorted(ids, rows),
        0 <= a < rows.len(),
        0 <= b < rows.len(),
        a != b,
    ensures
        ids[rows[a].0 as int].0 != ids[rows[b].0 as int].0,
{
    if a < b {
        assert(bytes_lt(ids[rows[a].0 as int].0, ids[rows[b].0 as int].0));
        lemma_bytes_lt_irreflexive(ids[rows[a].0 as int].0);
    } else {
        assert(bytes_lt(ids[rows[b].0 as int].0, ids[rows[a].0 as int].0));
        lemma_bytes_lt_irreflexive(ids[rows[b].0 as int].0);
    }
}

proof fn lemma_totals_prefix_error(s: Seq<(Seq<u8>, i64)>, k: int)
    requires
        0 <= k <= s.len(),
        spec_totals(s.take(k)) is Err,
    ensures
        spec_totals(s) == spec_totals(s.take(k)),
    decreases s.len(),
{
    if k == s.len() {
        assert(s.take(k) =~= s);
    } else {
        let front = s.drop_last();
        assert(front.take(k) =~= s.take(k));
        lemma_totals_prefix_error(front, k);
    }
}

proof fn lemma_totals_domain(s: Seq<(Seq<u8>, i64)>, id: Seq<u8>)
    requires
        spec_totals(s) is Ok,
    ensures
        spec_totals(s)->Ok_0.contains_key(id) <==> exists|k: int| 0 <= k < s.len() && s[k].0 == id,
    decreases s.len(),
{
    if s.len() > 0 {
        let front = s.drop_last();
        lemma_totals_domain(front, id);
        if exists|k: int| 0 <= k < front.len() && front[k].0 == id {
            let k = choose|k: int| 0 <= k < front.len() && front[k].0 == id;
            assert(s[k] == front[k]);
        }
        if exists|k: int| 0 <= k < s.len() && s[k].0 == id {
            let k = choose|k: int| 0 <= k < s.len() && s[k].0 == id;
            if k < s.len() - 1 {
                assert(front[k] == s[k]);
            }
        }
    }
}

proof fn lemma_first_with_is(s: Seq<(Seq<u8>, i64)>, id: Seq<u8>, j: int)
    requires
        0 <= j < s.len(),
        s[j].0 == id,
        forall|k: int| 0 <= k < j ==> s[k].0 != id,
    ensures
        first_with(s, id) == j,
{
    let c = first_with(s, id);
    assert(0 <= c < s.len() && s[c].0 == id && forall|k: int| 0 <= k < c ==> s[k].0 != id);
    if c < j {
        assert(s[c].0 != id);
    } else if c > j {
        assert(s[j].0 != id);
    }
}

/// The first position whose row identity does not come before `key`, and whether that
/// row has `key` itself.
fn find_row(changes: &[(String, i64)], rows: &Vec<(usize, i64)>, key: &[u8]) -> (r: (usize, bool))
    requires
        rows_sorted(change_ids(changes@), rows@),
    ensures
        r.0 <= rows@.len(),
        forall|q: int| 0 <= q < r.0 ==> bytes_lt(change_ids(changes@)[(#[trigger] rows@[q]).0 as int].0, key@),
        r.0 < rows@.len() ==> !bytes_lt(change_ids(changes@)[rows@[r.0 as int].0 as int].0, key@),
        r.1 <==> (r.0 < rows@.len() && change_ids(changes@)[rows@[r.0 as int].0 as int].0 == key@),
{
    let ghost ids = change_ids(changes@);
    let mut p: usize = 0;
    while p < rows.len()
        invariant
            ids == change_ids(changes@),
            rows_sorted(ids, rows@),
            p <= rows@.len(),
            forall|q: int| 0 <= q < p ==> bytes_lt(ids[(#[trigger] rows@[q]).0 as int].0, key@),
        decreases rows.len() - p,
    {
        let row_key = changes[rows[p].0].0.as_str().as_bytes();
        assert(row_key@ == ids[rows@[p as int].0 as int].0);
        if !bytes_less(row_key, key) {
            let same = crate::text::bytes_eq(row_key, key);
            return (p, same);
        }
        p = p + 1;
    }
    (p, false)
}

/// The rows a consolidation returns: sorted, each with a positive total and its first
/// change, and every identity with a positive total among them.
pub open spec fn view_rows(ids: Seq<(Seq<u8>, i64)>, totals: Map<Seq<u8>, int>, out: Seq<(usize, i64)>) -> bool {
    &&& rows_sorted(ids, out)
    &&& forall|p: int|
        0 <= p < out.len() ==> (#[trigger] out[p]).1 > 0 && totals[ids[out[p].0 as int].0]
            == out[p].1 && out[p].0 == first_with(ids, ids[out[p].0 as int].0)
    &&& forall|id: Seq<u8>|
        #[trigger] totals.contains_key(id) && totals[id] > 0 ==> exists|p: int|
            0 <= p < out.len() && ids[(#[trigger] out[p]).0 as int].0 == id
}

/// Whether some row has a negative multiplicity.
fn any_negative(rows: &Vec<(usize, i64)>) -> (found: bool)
    ensures
        found <==> exists|q: int| 0 <= q < rows@.len() && (#[trigger] rows@[q]).1 < 0,
{
    let mut p: usize = 0;
    while p < rows.len()
        invariant
            forall|q: int| 0 <= q < p ==> (#[trigger] rows@[q]).1 >= 0,
            p <= rows@.len(),
        decreases rows.len() - p,
    {
        if rows[p].1 < 0 {
            return true;
        }
        p = p + 1;
    }
    false
}

/// The rows with a positive multiplicity, in order, and where each came from.
fn positive_rows(rows: &Vec<(usize, i64)>) -> (r: (Vec<(usize, i64)>, Ghost<Seq<int>>))
    ensures
        r.0@.len() == r.1@.len(),
        forall|k: int| 0 <= k < r.1@.len() ==> 0 <= #[trigger] r.1@[k] < rows@.len() && r.0@[k] == rows@[r.1@[k]],
        forall|a: int, b: int| 0 <= a < b < r.1@.len() ==> #[trigger] r.1@[a] < #[trigger] r.1@[b],
        forall|k: int| 0 <= k < r.0@.len() ==> (#[trigger] r.0@[k]).1 > 0,
        forall|k: int| 0 <= k < rows@.len() && rows@[k].1 > 0 ==> exists|m: int| 0 <= m < r.1@.len() && #[trigger] r.1@[m] == k,
{
    let mut out: Vec<(usize, i64)> = Vec::new();
    let ghost mut picked: Seq<int> = Seq::empty();
    let mut q: usize = 0;
    while q < rows.len()
        invariant
            q <= rows@.len(),
            out@.len() == picked.len(),
            forall|k: int| 0 <= k < picked.len() ==> 0 <= #[trigger] picked[k] < q && out@[k] == rows@[picked[k]],
            forall|a: int, b: int| 0 <= a < b < picked.len() ==> #[trigger] picked[a] < #[trigger] picked[b],
            forall|k: int| 0 <= k < out@.len() ==> (#[trigger] out@[k]).1 > 0,
            forall|k: int| 0 <= k < q && rows@[k].1 > 0 ==> exists|m: int| 0 <= m < picked.len() && #[trigger] picked[m] == k,
        decreases rows.len() - q,
    {
        let ghost before = picked;
        if rows[q].1 > 0 {
            out.push(rows[q]);
            proof {
                picked = picked.push(q as int);
                assert(picked[picked.len() - 1] == q);
            }
        }
        proof {
            assert forall|k: int| 0 <= k < q + 1 && rows@[k].1 > 0 implies exists|m: int|
                0 <= m < picked.len() && #[trigger] picked[m] == k by {
                if k < q {
                    let m = choose|m: int| 0 <= m < before.len() && #[trigger] before[m] == k;
                    assert(picked[m] == before[m]);
                } else {
                    assert(picked[picked.len() - 1] == q);
                }
            }
        }
        q = q + 1;
    }
    (out, Ghost(picked))
}

proof fn lemma_finish_rows(
    ids: Seq<(Seq<u8>, i64)>,
    totals: Map<Seq<u8>, int>,
    rows: Seq<(usize, i64)>,
    out: Seq<(usize, i64)>,
    picked: Seq<int>,
)
    requires
        rows_sorted(ids, rows),
        rows_hold(ids, ids.len() as int, rows, totals),
        out.len() == picked.len(),
        forall|k: int| 0 <= k < picked.len() ==> 0 <= #[trigger] picked[k] < rows.len() && out[k] == rows[picked[k]],
        forall|a: int, b: int| 0 <= a < b < picked.len() ==> #[trigger] picked[a] < #[trigger] picked[b],
        forall|k: int| 0 <= k < out.len() ==> (#[trigger] out[k]).1 > 0,
        forall|k: int| 0 <= k < rows.len() && rows[k].1 > 0 ==> exists|m: int| 0 <= m < picked.len() && #[trigger] picked[m] == k,
    ensures
        view_rows(ids, totals, out),
{
    assert forall|p: int| 0 <= p < out.len() implies (#[trigger] out[p]).1 > 0 && totals[ids[out[p].0 as int].0]
        == out[p].1 && out[p].0 == first_with(ids, ids[out[p].0 as int].0) by {
        let k = picked[p];
        assert(out[p] == rows[k]);
        assert(first_occurrence(ids, rows[k].0 as int));
        lemma_first_with_is(ids, ids[rows[k].0 as int].0, rows[k].0 as int);
    }
    assert forall|a: int, b: int| 0 <= a < b < out.len() implies bytes_lt(
        ids[(#[trigger] out[a]).0 as int].0,
        ids[(#[trigger] out[b]).0 as int].0,
    ) by {
        assert(out[a] == rows[picked[a]] && out[b] == rows[picked[b]]);
        assert(picked[a] < picked[b]);
    }
    assert forall|p: int| 0 <= p < out.len() implies (#[trigger] out[p]).0 < ids.len() by {
        assert(out[p] == rows[picked[p]]);
    }
    assert forall|id: Seq<u8>| #[trigger] totals.contains_key(id) && totals[id] > 0 implies exists|p: int|
        0 <= p < out.len() && ids[(#[trigger] out[p]).0 as int].0 == id by {
        let k = choose|k: int| 0 <= k < rows.len() && ids[(#[trigger] rows[k]).0 as int].0 == id;
        assert(rows[k].1 > 0);
        let m = choose|m: int| 0 <= m < picked.len() && #[trigger] picked[m] == k;
        assert(out[m] == rows[k]);
    }
}

/// The rows a finished consolidation returns: an error when some total is negative, and
/// otherwise the rows with a positive total, in order.
fn finish_rows(changes: &[(String, i64)], rows: Vec<(usize, i64)>, Ghost(totals): Ghost<Map<Seq<u8>, int>>) -> (r: Result<
    Vec<(usize, i64)>,
    ViewError,
>)
    requires
        rows_sorted(change_ids(changes@), rows@),
        rows_hold(change_ids(changes@), changes@.len() as int, rows@, totals),
    ensures
        if exists|id: Seq<u8>| #[trigger] totals.contains_key(id) && totals[id] < 0 {
            r == Err::<Vec<(usize, i64)>, ViewError>(ViewError::UnmatchedRetraction)
        } else {
            r matches Ok(out) && view_rows(change_ids(changes@), totals, out@)
        },
{
    let ghost ids = change_ids(changes@);
    if any_negative(&rows) {
        proof {
            let q = choose|q: int| 0 <= q < rows@.len() && (#[trigger] rows@[q]).1 < 0;
            let id = ids[rows@[q].0 as int].0;
            assert(totals.contains_key(id) && totals[id] < 0);
        }
        return Err(ViewError::UnmatchedRetraction);
    }
    proof {
        assert forall|id: Seq<u8>| #[trigger] totals.contains_key(id) implies totals[id] >= 0 by {
            let q = choose|q: int| 0 <= q < rows@.len() && ids[(#[trigger] rows@[q]).0 as int].0 == id;
        }
    }
    let (out, Ghost(picked)) = positive_rows(&rows);
    proof {
        lemma_finish_rows(ids, totals, rows@, out@, picked);
    }
    Ok(out)
}

proof fn lemma_step_found(
    ids: Seq<(Seq<u8>, i64)>,
    i: int,
    totals: Map<Seq<u8>, int>,
    old_rows: Seq<(usize, i64)>,
    p: int,
    next: i64,
)
    requires
        0 <= i < ids.len(),
        rows_sorted(ids, old_rows),
        rows_hold(ids, i, old_rows, totals),
        0 <= p < old_rows.len(),
        ids[old_rows[p].0 as int].0 == ids[i].0,
    ensures
        rows_sorted(ids, old_rows.update(p, (old_rows[p].0, next))),
        rows_hold(ids, i + 1, old_rows.update(p, (old_rows[p].0, next)), totals.insert(ids[i].0, next as int)),
{
    let rows = old_rows.update(p, (old_rows[p].0, next));
    let key = ids[i].0;
    let t2 = totals.insert(key, next as int);
    assert forall|q: int| 0 <= q < rows.len() implies (#[trigger] rows[q]).0 < i + 1
        && t2.contains_key(ids[rows[q].0 as int].0) && t2[ids[rows[q].0 as int].0]
        == rows[q].1 && first_occurrence(ids, rows[q].0 as int) by {
        if q != p {
            assert(rows[q] == old_rows[q]);
            lemma_rows_distinct(ids, old_rows, q, p);
        }
    }
    assert forall|id: Seq<u8>| #[trigger] t2.contains_key(id) implies exists|q: int|
        0 <= q < rows.len() && ids[(#[trigger] rows[q]).0 as int].0 == id by {
        if id != key {
            let q = choose|q: int|
                0 <= q < old_rows.len() && ids[(#[trigger] old_rows[q]).0 as int].0 == id;
            assert(rows[q].0 == old_rows[q].0);
        } else {
            assert(rows[p].0 == old_rows[p].0);
        }
    }
    assert forall|a: int, b: int| 0 <= a < b < rows.len() implies bytes_lt(
        ids[(#[trigger] rows[a]).0 as int].0,
        ids[(#[trigger] rows[b]).0 as int].0,
    ) by {
        assert(rows[a].0 == old_rows[a].0 && rows[b].0 == old_rows[b].0);
    }
    assert forall|q: int| 0 <= q < rows.len() implies (#[trigger] rows[q]).0 < ids.len() by {
        assert(rows[q].0 == old_rows[q].0);
    }
}

proof fn lemma_step_insert(
    ids: Seq<(Seq<u8>, i64)>,
    i: int,
    totals: Map<Seq<u8>, int>,
    old_rows: Seq<(usize, i64)>,
    p: int,
)
    requires
        0 <= i < ids.len(),
        i <= usize::MAX,
        rows_sorted(ids, old_rows),
        rows_hold(ids, i, old_rows, totals),
        spec_totals(ids.take(i)) == Ok::<Map<Seq<u8>, int>, ViewError>(totals),
        0 <= p <= old_rows.len(),
        forall|q: int| 0 <= q < p ==> bytes_lt(ids[(#[trigger] old_rows[q]).0 as int].0, ids[i].0),
        p < old_rows.len() ==> !bytes_lt(ids[old_rows[p].0 as int].0, ids[i].0),
        p < old_rows.len() ==> ids[old_rows[p].0 as int].0 != ids[i].0,
    ensures
        !totals.contains_key(ids[i].0),
        rows_sorted(ids, old_rows.insert(p, (i as usize, ids[i].1))),
        rows_hold(ids, i + 1, old_rows.insert(p, (i as usize, ids[i].1)), totals.insert(ids[i].0, ids[i].1 as int)),
{
    let key = ids[i].0;
    let diff = ids[i].1;
    if totals.contains_key(key) {
        let q = choose|q: int|
            0 <= q < old_rows.len() && ids[(#[trigger] old_rows[q]).0 as int].0 == key;
        if q < p {
            lemma_bytes_lt_irreflexive(key);
        } else if q > p {
            assert(bytes_lt(ids[old_rows[p].0 as int].0, ids[old_rows[q].0 as int].0));
        }
    }
    lemma_totals_domain(ids.take(i), key);
    assert forall|k: int| 0 <= k < i implies #[trigger] ids[k].0 != ids[i].0 by {
        assert(ids.take(i)[k] == ids[k]);
    }
    let rows = old_rows.insert(p, (i as usize, diff));
    let t2 = totals.insert(key, diff as int);
    assert(rows[p] == (i as usize, diff));
    assert forall|q: int| 0 <= q < rows.len() implies (#[trigger] rows[q]).0 < i + 1
        && t2.contains_key(ids[rows[q].0 as int].0) && t2[ids[rows[q].0 as int].0]
        == rows[q].1 && first_occurrence(ids, rows[q].0 as int) by {
        if q < p {
            assert(rows[q] == old_rows[q]);
            assert(bytes_lt(ids[old_rows[q].0 as int].0, key));
            lemma_bytes_lt_irreflexive(key);
        } else if q > p {
            assert(rows[q] == old_rows[q - 1]);
            if ids[old_rows[q - 1].0 as int].0 == key {
                if q - 1 > p {
                    assert(bytes_lt(ids[old_rows[p].0 as int].0, ids[old_rows[q - 1].0 as int].0));
                }
            }
        }
    }
    assert forall|id: Seq<u8>| #[trigger] t2.contains_key(id) implies exists|q: int|
        0 <= q < rows.len() && ids[(#[trigger] rows[q]).0 as int].0 == id by {
        if id != key {
            let q = choose|q: int|
                0 <= q < old_rows.len() && ids[(#[trigger] old_rows[q]).0 as int].0 == id;
            if q < p {
                assert(rows[q] == old_rows[q]);
            } else {
                assert(rows[q + 1] == old_rows[q]);
            }
        }
    }
    assert forall|q: int| 0 <= q < rows.len() implies (#[trigger] rows[q]).0 < ids.len() by {
        if q < p {
            assert(rows[q] == old_rows[q]);
        } else if q > p {
            assert(rows[q] == old_rows[q - 1]);
        }
    }
    assert forall|a: int, b: int| 0 <= a < b < rows.len() implies bytes_lt(
        ids[(#[trigger] rows[a]).0 as int].0,
        ids[(#[trigger] rows[b]).0 as int].0,
    ) by {
        let kb = ids[rows[b].0 as int].0;
        if b < p {
            assert(rows[a] == old_rows[a] && rows[b] == old_rows[b]);
        } else if b == p {
            assert(rows[a] == old_rows[a]);
        } else if a == p {
            assert(rows[b] == old_rows[b - 1]);
            let kp = ids[old_rows[p].0 as int].0;
            lemma_bytes_lt_total(kp, key);
            if b - 1 > p {
                assert(bytes_lt(kp, kb));
                lemma_bytes_lt_transitive(key, kp, kb);
            }
        } else if a < p {
            assert(rows[a] == old_rows[a] && rows[b] == old_rows[b - 1]);
        } else {
            assert(rows[a] == old_rows[a - 1] && rows[b] == old_rows[b - 1]);
        }
    }
}

fn step_rows(changes: &[(String, i64)], rows: &mut Vec<(usize, i64)>, i: usize) -> (r: Result<
    (),
    ViewError,
>)
    requires
        i < changes@.len(),
        spec_totals(change_ids(changes@).take(i as int)) is Ok,
        rows_sorted(change_ids(changes@), old(rows)@),
        rows_hold(
            change_ids(changes@),
            i as int,
            old(rows)@,
            spec_totals(change_ids(changes@).take(i as int))->Ok_0,
        ),
    ensures
        match r {
            Ok(()) => spec_totals(change_ids(changes@).take(i + 1)) is Ok && rows_sorted(
                change_ids(changes@),
                final(rows)@,
            ) && rows_hold(
                change_ids(changes@),
                i + 1,
                final(rows)@,
                spec_totals(change_ids(changes@).take(i + 1))->Ok_0,
            ),
            Err(e) => spec_totals(change_ids(changes@).take(i + 1)) == Err::<
                Map<Seq<u8>, int>,
                ViewError,
            >(e),
        },
{
    let ghost ids = change_ids(changes@);
    let ghost totals = spec_totals(ids.take(i as int))->Ok_0;
    let ghost old_rows = rows@;
    let key = changes[i].0.as_str().as_bytes();
    let diff = changes[i].1;
    proof {
        assert(ids.take(i + 1).drop_last() =~= ids.take(i as int));
        assert(ids.take(i + 1).last() == ids[i as int]);
        assert(ids[i as int] == (key@, diff));
    }
    let (p, found) = find_row(changes, rows, key);
    if found {
        let first = rows[p].0;
        let count = rows[p].1;
        assert(totals.contains_key(key@) && totals[key@] == count);
        match count.checked_add(diff) {
            None => {
                return Err(ViewError::Overflow);
            },
            Some(next) => {
                rows.set(p, (first, next));
                proof {
                    lemma_step_found(ids, i as int, totals, old_rows, p as int, next);
                    assert(rows@ == old_rows.update(p as int, (old_rows[p as int].0, next)));
                }
            },
        }
    } else {
        proof {
            lemma_step_insert(ids, i as int, totals, old_rows, p as int);
        }
        rows.insert(p, (i, diff));
    }
    Ok(())
}

/// Consolidates a changelog: rows of equal identity sum their changes. The rows come in
/// identity order, each named by its first change; rows whose changes cancel are left
/// out, and a negative total is an error.
pub fn materialize(changes: &[(String, i64)]) -> (r: Result<Vec<(usize, i64)>, ViewError>)
    ensures
        match spec_totals(change_ids(changes@)) {
            Err(e) => r == Err::<Vec<(usize, i64)>, ViewError>(e),
            Ok(totals) => if exists|id: Seq<u8>| #[trigger] totals.contains_key(id) && totals[id] < 0 {
                r == Err::<Vec<(usize, i64)>, ViewError>(ViewError::UnmatchedRetraction)
            } else {
                r matches Ok(rows) && view_rows(change_ids(changes@), totals, rows@)
            },
        },
{
    let ghost ids = change_ids(changes@);
    let mut rows: Vec<(usize, i64)> = Vec::new();
    let mut i: usize = 0;
    proof {
        assert(ids.take(0) =~= Seq::<(Seq<u8>, i64)>::empty());
    }
    while i < changes.len()
        invariant
            ids == change_ids(changes@),
            ids.len() == changes@.len(),
            i <= changes@.len(),
            spec_totals(ids.take(i as int)) is Ok,
            rows_sorted(ids, rows@),
            rows_hold(ids, i as int, rows@, spec_totals(ids.take(i as int))->Ok_0),
        decreases changes.len() - i,
    {
        match step_rows(changes, &mut rows, i) {
            Ok(()) => {},
            Err(e) => {
                proof {
                    lemma_totals_prefix_error(ids, i + 1);
                }
                return Err(e);
            },
        }
        i = i + 1;
    }
    proof {
        assert(ids.take(i as int) =~= ids);
    }
    finish_rows(changes, rows, Ghost(spec_totals(ids)->Ok_0))
}

/// A snapshot names between 1 and 32 operators, each non-blank and none twice.
pub open spec fn spec_check_view_operators(operators: Seq<Seq<char>>) -> Result<(), ViewError> {
    if operators.len() == 0 || operators.len() > 32 {
        Err(ViewError::OperatorCount)
    } else if !names_are_valid(operators) {
        Err(ViewError::InvalidOperators)
    } else {
        Ok(())
    }
}

pub fn check_view_operators(operators: &Vec<String>) -> (r: Result<(), ViewError>)
    ensures
        r == spec_check_view_operators(string_views(operators@)),
{
    if operators.len() == 0 || operators.len() > 32 {
        return Err(ViewError::OperatorCount);
    }
    if !names_ok(operators) {
        return Err(ViewError::InvalidOperators);
    }
    Ok(())
}

/// Why the native filters of a multi-view snapshot do not share one input cut.
#[derive(Debug, Clone, Copy, PartialEq, Eq, Structural)]
pub enum SharedCutError {
    /// A view reads another stream than the views before it.
    DifferentStream,
    /// A view's filter is not active.
    InactiveFilter,
    /// A view's filter has read a different number of records than the views before it.
    UnequalCoverage,
}

/// Adds one native filter to the cut shared by the views before it: the same stream, an
/// active filter and as many records read. Returns the shared stream and count.
pub fn join_shared_cut(
    shared: Option<(String, u64)>,
    stream: String,
    active: bool,
    records_received: u64,
) -> (r: Result<(String, u64), SharedCutError>)
    ensures
        match shared {
            Some((s, n)) => if s@ != stream@ {
                r == Err::<(String, u64), SharedCutError>(SharedCutError::DifferentStream)
            } else if !active {
                r == Err::<(String, u64), SharedCutError>(SharedCutError::InactiveFilter)
            } else if n != records_received {
                r == Err::<(String, u64), SharedCutError>(SharedCutError::UnequalCoverage)
            } else {
                r matches Ok((t, m)) && t@ == stream@ && m == records_received
            },
            None => if !active {
                r == Err::<(String, u64), SharedCutError>(SharedCutError::InactiveFilter)
            } else {
                r matches Ok((t, m)) && t@ == stream@ && m == records_received
            },
        },
{
    match shared {
        Some((s, n)) => {
            if !str_eq(s.as_str(), stream.as_str()) {
                return Err(SharedCutError::DifferentStream);
            }
            if !active {
                return Err(SharedCutError::InactiveFilter);
            }
            if n != records_received {
                return Err(SharedCutError::UnequalCoverage);
            }
        },
        None => {
            if !active {
                return Err(SharedCutError::InactiveFilter);
            }
        },
    }
    Ok((stream, records_received))
}

/// The checks each operator of a snapshot passes, in order: it is not a Process, it is
/// registered under exactly one kind of operator (`registered_kinds` counts the kinds
/// among window schedule, filter, deduplication, temporal join and interval join), and in
/// a snapshot of several views it is a native filter.
pub fn check_view_operator(is_process: bool, registered_kinds: usize, several: bool, is_filter: bool) -> (r: Result<(), ViewError>)
    ensures
        r == if is_process {
            Err::<(), ViewError>(ViewError::ProcessOutput)
        } else if registered_kinds > 1 {
            Err(ViewError::AmbiguousOperator)
        } else if registered_kinds == 0 {
            Err(ViewError::UnknownOperator)
        } else if several && !is_filter {
            Err(ViewError::FilterRequired)
        } else {
            Ok(())
        },
{
    if is_process {
        Err(ViewError::ProcessOutput)
    } else if registered_kinds > 1 {
        Err(ViewError::AmbiguousOperator)
    } else if registered_kinds == 0 {
        Err(ViewError::UnknownOperator)
    } else if several && !is_filter {
        Err(ViewError::FilterRequired)
    } else {
        Ok(())
    }
}

/// A view holds at most 10000 distinct rows.
pub fn check_view_rows(rows: usize) -> (r: Result<(), ViewError>)
    ensures
        r == if rows > 10000 {
            Err::<(), ViewError>(ViewError::TooManyRows)
        } else {
            Ok(())
        },
{
    if rows > 10000 {
        Err(ViewError::TooManyRows)
    } else {
        Ok(())
    }
}

/// The consistency a snapshot promises: several views share one input cut, a single view
/// is its operator's output as of the snapshot.
pub fn snapshot_consistency(operators: usize) -> (label: &'static str)
    ensures
        label@ == if operators > 1 {
            "shared_input_cut"@
        } else {
            "operator_output_cut"@
        },
{
    if operators > 1 {
        "shared_input_cut"
    } else {
        "operator_output_cut"
    }
}

} // verus!
