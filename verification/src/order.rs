//! Display order for the proxy list.
//!
//! A row shows a proxy's name and type tag.  Rows are ordered by the
//! composite key (type tag, name), ascending, comparing character
//! sequences lexicographically by code point.  `sort_rows` states the
//! order as a stable insertion sort; the lemmas show it sorts and keeps
//! exactly the rows it was given.

use vstd::prelude::*;
use vstd::seq_lib::{to_multiset_build, to_multiset_insert};

verus! {

/// One rendered row of the results list.
#[derive(Debug, Clone, PartialEq)]
pub struct Row {
    pub name: String,
    pub proxy_type: String,
}

/// The mathematical form of a `Row`.
pub struct RowV {
    pub name: Seq<char>,
    pub proxy_type: Seq<char>,
}

impl View for Row {
    type V = RowV;

    open spec fn view(&self) -> RowV {
        RowV { name: self.name@, proxy_type: self.proxy_type@ }
    }
}

/// The views of a sequence of rows.
pub open spec fn row_view(s: Seq<Row>) -> Seq<RowV> {
    Seq::new(
        s.len(),
        |k: int|
            if 0 <= k < s.len() {
                s[k]@
            } else {
                RowV { name: Seq::empty(), proxy_type: Seq::empty() }
            },
    )
}

/// Lexicographic order on character sequences, by code point; a prefix
/// comes before what extends it.
pub open spec fn seq_le(a: Seq<char>, b: Seq<char>) -> bool
    decreases a.len(),
{
    if a.len() == 0 {
        true
    } else if b.len() == 0 {
        false
    } else if (a[0] as int) < (b[0] as int) {
        true
    } else if (a[0] as int) > (b[0] as int) {
        false
    } else {
        seq_le(a.drop_first(), b.drop_first())
    }
}

/// The display order: by type tag first, then by name.
pub open spec fn row_le(a: RowV, b: RowV) -> bool {
    if a.proxy_type == b.proxy_type {
        seq_le(a.name, b.name)
    } else {
        seq_le(a.proxy_type, b.proxy_type)
    }
}

/// Whether a sequence of rows is in display order.
pub open spec fn sorted_rows(s: Seq<RowV>) -> bool {
    forall|i: int, j: int| 0 <= i < j < s.len() ==> row_le(s[i], s[j])
}

/// `r` placed into `s` after every row that is at or before it in the
/// display order; on a sorted `s` this is a stable insertion.
pub open spec fn insert_row(r: RowV, s: Seq<RowV>) -> Seq<RowV>
    decreases s.len(),
{
    if s.len() > 0 && row_le(s.first(), r) {
        seq![s.first()] + insert_row(r, s.drop_first())
    } else {
        seq![r] + s
    }
}

/// The display order of a sequence of rows: a stable insertion sort, so
/// rows with equal keys keep their relative order.
pub open spec fn sort_rows(s: Seq<RowV>) -> Seq<RowV>
    decreases s.len(),
{
    if s.len() == 0 {
        Seq::empty()
    } else {
        insert_row(s.last(), sort_rows(s.drop_last()))
    }
}

/// The order on character sequences is total.
pub proof fn lemma_seq_le_total(a: Seq<char>, b: Seq<char>)
    ensures
        seq_le(a, b) || seq_le(b, a),
    decreases a.len(),
{
    if a.len() > 0 && b.len() > 0 && a[0] as int == b[0] as int {
        lemma_seq_le_total(a.drop_first(), b.drop_first());
    }
}

/// The order on character sequences is transitive.
pub proof fn lemma_seq_le_trans(a: Seq<char>, b: Seq<char>, c: Seq<char>)
    requires
        seq_le(a, b),
        seq_le(b, c),
    ensures
        seq_le(a, c),
    decreases a.len(),
{
    if a.len() > 0 && b.len() > 0 && c.len() > 0 && a[0] as int == b[0] as int && b[0] as int
        == c[0] as int {
        lemma_seq_le_trans(a.drop_first(), b.drop_first(), c.drop_first());
    }
}

/// Two character sequences each at or before the other are equal.
pub proof fn lemma_seq_le_antisym(a: Seq<char>, b: Seq<char>)
    requires
        seq_le(a, b),
        seq_le(b, a),
    ensures
        a == b,
    decreases a.len(),
{
    if a.len() == 0 {
        assert(a =~= b);
    } else {
        lemma_seq_le_antisym(a.drop_first(), b.drop_first());
        assert(a[0] as int == b[0] as int);
        assert(a[0] == b[0]);
        assert(a.drop_first() == b.drop_first());
        assert(a.drop_first().len() == a.len() - 1);
        assert(b.drop_first().len() == b.len() - 1);
        assert(a.len() == b.len());
        assert forall|k: int| 0 <= k < a.len() implies a[k] == b[k] by {
            if k > 0 {
                assert(a[k] == a.drop_first()[k - 1]);
                assert(b[k] == b.drop_first()[k - 1]);
            }
        }
        assert(a =~= b);
    }
}

/// The order on character sequences is reflexive.
pub proof fn lemma_seq_le_refl(a: Seq<char>)
    ensures
        seq_le(a, a),
    decreases a.len(),
{
    if a.len() > 0 {
        lemma_seq_le_refl(a.drop_first());
    }
}

/// The display order is reflexive.
pub proof fn lemma_row_le_refl(a: RowV)
    ensures
        row_le(a, a),
{
    lemma_seq_le_refl(a.name);
}

/// Two rows each at or before the other are the same row.
pub proof fn lemma_row_le_antisym(a: RowV, b: RowV)
    requires
        row_le(a, b),
        row_le(b, a),
    ensures
        a == b,
{
    if a.proxy_type == b.proxy_type {
        lemma_seq_le_antisym(a.name, b.name);
    } else {
        lemma_seq_le_antisym(a.proxy_type, b.proxy_type);
    }
}

/// The display order is total.
pub proof fn lemma_row_le_total(a: RowV, b: RowV)
    ensures
        row_le(a, b) || row_le(b, a),
{
    if a.proxy_type == b.proxy_type {
        lemma_seq_le_total(a.name, b.name);
    } else {
        lemma_seq_le_total(a.proxy_type, b.proxy_type);
    }
}

/// The display order is transitive.
pub proof fn lemma_row_le_trans(a: RowV, b: RowV, c: RowV)
    requires
        row_le(a, b),
        row_le(b, c),
    ensures
        row_le(a, c),
{
    if a.proxy_type == b.proxy_type && b.proxy_type == c.proxy_type {
        lemma_seq_le_trans(a.name, b.name, c.name);
    } else if a.proxy_type != b.proxy_type && b.proxy_type != c.proxy_type {
        if a.proxy_type == c.proxy_type {
            lemma_seq_le_antisym(a.proxy_type, b.proxy_type);
        } else {
            lemma_seq_le_trans(a.proxy_type, b.proxy_type, c.proxy_type);
        }
    }
}

/// Inserting into a sorted sequence keeps it sorted and adds exactly the
/// inserted row.
pub proof fn lemma_insert_row(r: RowV, s: Seq<RowV>)
    requires
        sorted_rows(s),
    ensures
        sorted_rows(insert_row(r, s)),
        insert_row(r, s).to_multiset() == s.to_multiset().insert(r),
        insert_row(r, s).len() == s.len() + 1,
        insert_row(r, s)[0] == r || (s.len() > 0 && insert_row(r, s)[0] == s[0]),
    decreases s.len(),
{
    let res = insert_row(r, s);
    if s.len() > 0 && row_le(s.first(), r) {
        let tail = s.drop_first();
        assert(sorted_rows(tail)) by {
            assert(forall|i: int, j: int|
                0 <= i < j < tail.len() ==> tail[i] == s[i + 1] && tail[j] == s[j + 1]);
        }
        lemma_insert_row(r, tail);
        let rest = insert_row(r, tail);
        assert(res == seq![s.first()] + rest);
        assert(row_le(s.first(), rest[0])) by {
            if rest[0] != r {
                assert(rest[0] == tail[0]);
                assert(row_le(s[0], s[1]));
            }
        }
        assert forall|i: int, j: int| 0 <= i < j < res.len() implies row_le(res[i], res[j]) by {
            if i == 0 {
                assert(res[j] == rest[j - 1]);
                if j - 1 > 0 {
                    assert(row_le(rest[0], rest[j - 1]));
                    lemma_row_le_trans(s.first(), rest[0], rest[j - 1]);
                }
            } else {
                assert(res[i] == rest[i - 1] && res[j] == rest[j - 1]);
            }
        }
        assert(res.to_multiset() == s.to_multiset().insert(r)) by {
            assert(res =~= rest.insert(0, s.first()));
            to_multiset_insert(rest, 0, s.first());
            assert(s =~= tail.insert(0, s.first()));
            to_multiset_insert(tail, 0, s.first());
            assert(tail.to_multiset().insert(r).insert(s.first()) =~= tail.to_multiset().insert(
                s.first(),
            ).insert(r));
        }
    } else {
        assert(res == seq![r] + s);
        assert(res =~= s.insert(0, r));
        to_multiset_insert(s, 0, r);
        if s.len() > 0 {
            lemma_row_le_total(s.first(), r);
            assert(row_le(r, s.first()));
        }
        assert forall|i: int, j: int| 0 <= i < j < res.len() implies row_le(res[i], res[j]) by {
            if i == 0 {
                assert(res[j] == s[j - 1]);
                if j - 1 > 0 {
                    assert(row_le(s[0], s[j - 1]));
                    lemma_row_le_trans(r, s[0], s[j - 1]);
                }
            } else {
                assert(res[i] == s[i - 1] && res[j] == s[j - 1]);
            }
        }
    }
}

/// The display order of any rows is sorted and holds exactly those rows:
/// sorting permutes and orders, so it is the one ascending arrangement by
/// (type tag, name) up to rows with equal keys, which keep their order.
pub proof fn lemma_sort_rows(s: Seq<RowV>)
    ensures
        sorted_rows(sort_rows(s)),
        sort_rows(s).to_multiset() == s.to_multiset(),
        sort_rows(s).len() == s.len(),
    decreases s.len(),
{
    broadcast use vstd::seq_lib::group_to_multiset_ensures;

    if s.len() == 0 {
        assert(sort_rows(s).to_multiset() =~= s.to_multiset());
    } else {
        let head = s.drop_last();
        lemma_sort_rows(head);
        lemma_insert_row(s.last(), sort_rows(head));
        assert(s =~= head.push(s.last()));
        to_multiset_build(head, s.last());
        assert(sort_rows(s).to_multiset() =~= s.to_multiset());
    }
}

/// A sequence in display order is determined by the rows it holds: two
/// sorted sequences of the same rows are equal.  With `lemma_sort_rows`,
/// the display order is the one ascending arrangement of a collection's
/// rows.
pub proof fn lemma_sorted_unique(a: Seq<RowV>, b: Seq<RowV>)
    requires
        sorted_rows(a),
        sorted_rows(b),
        a.to_multiset() == b.to_multiset(),
    ensures
        a == b,
    decreases a.len(),
{
    broadcast use vstd::seq_lib::group_to_multiset_ensures;

    if a.len() == 0 {
        assert(b.to_multiset().len() == 0);
        assert(a =~= b);
    } else {
        assert(a.to_multiset().len() == a.len());
        assert(b.len() > 0);
        assert(row_le(b[0], a[0])) by {
            assert(a.contains(a[0])) by {
                assert(0 <= 0 < a.len() && a[a.len() - a.len()] == a[0]);
            }
            assert(b.to_multiset().contains(a[0]));
            assert(b.contains(a[0]));
            let ia = choose|i: int| 0 <= i < b.len() && b[i] == a[0];
            if ia == 0 {
                lemma_row_le_refl(a[0]);
            } else {
                assert(row_le(b[0], b[ia]));
            }
        }
        assert(row_le(a[0], b[0])) by {
            assert(b.contains(b[0])) by {
                assert(0 <= 0 < b.len() && b[b.len() - b.len()] == b[0]);
            }
            assert(a.to_multiset().contains(b[0]));
            assert(a.contains(b[0]));
            let ib = choose|i: int| 0 <= i < a.len() && a[i] == b[0];
            if ib == 0 {
                lemma_row_le_refl(b[0]);
            } else {
                assert(row_le(a[0], a[ib]));
            }
        }
        lemma_row_le_antisym(a[0], b[0]);
        let ta = a.drop_first();
        let tb = b.drop_first();
        assert(a.remove(0) =~= ta);
        assert(b.remove(0) =~= tb);
        vstd::seq_lib::to_multiset_remove(a, 0);
        vstd::seq_lib::to_multiset_remove(b, 0);
        assert(ta.to_multiset() == tb.to_multiset());
        assert(sorted_rows(ta)) by {
            assert(forall|i: int, j: int|
                0 <= i < j < ta.len() ==> ta[i] == a[i + 1] && ta[j] == a[j + 1]);
        }
        assert(sorted_rows(tb)) by {
            assert(forall|i: int, j: int|
                0 <= i < j < tb.len() ==> tb[i] == b[i + 1] && tb[j] == b[j + 1]);
        }
        lemma_sorted_unique(ta, tb);
        assert forall|k: int| 0 <= k < a.len() implies a[k] == b[k] by {
            if k > 0 {
                assert(a[k] == ta[k - 1]);
                assert(b[k] == tb[k - 1]);
            }
        }
        assert(a =~= b);
    }
}

/// Where the scan of a sorted prefix stops is where `insert_row` puts the
/// new row.
proof fn lemma_insert_row_at(r: RowV, s: Seq<RowV>, p: int)
    requires
        0 <= p <= s.len(),
        forall|k: int| 0 <= k < p ==> row_le(s[k], r),
        p < s.len() ==> !row_le(s[p], r),
    ensures
        insert_row(r, s) == s.insert(p, r),
    decreases p,
{
    if p == 0 {
        assert(insert_row(r, s) == seq![r] + s);
        assert(seq![r] + s =~= s.insert(0, r));
    } else {
        let tail = s.drop_first();
        assert(row_le(s.first(), r));
        lemma_insert_row_at(r, tail, p - 1);
        assert(insert_row(r, s) == seq![s.first()] + tail.insert(p - 1, r));
        assert(seq![s.first()] + tail.insert(p - 1, r) =~= s.insert(p, r));
    }
}

/// Whether two strings hold the same characters.
pub fn str_eq(a: &str, b: &str) -> (r: bool)
    ensures
        r == (a@ == b@),
{
    let na = a.unicode_len();
    let nb = b.unicode_len();
    if na != nb {
        return false;
    }
    let mut i: usize = 0;
    while i < na
        invariant
            i <= na,
            na == a@.len(),
            na == b@.len(),
            forall|k: int| 0 <= k < i ==> a@[k] == b@[k],
        decreases na - i,
    {
        if a.get_char(i) != b.get_char(i) {
            return false;
        }
        i = i + 1;
    }
    proof {
        assert(a@ =~= b@);
    }
    true
}

/// Compares the tails of two strings from position `i` on.
fn str_le_from(a: &str, b: &str, i: usize) -> (r: bool)
    requires
        i <= a@.len(),
        i <= b@.len(),
    ensures
        r == seq_le(a@.skip(i as int), b@.skip(i as int)),
    decreases a@.len() - i,
{
    if i == a.unicode_len() {
        proof {
            assert(a@.skip(i as int) =~= Seq::<char>::empty());
        }
        return true;
    }
    if i == b.unicode_len() {
        return false;
    }
    let ca = a.get_char(i);
    let cb = b.get_char(i);
    if (ca as u32) < (cb as u32) {
        true
    } else if (ca as u32) > (cb as u32) {
        false
    } else {
        proof {
            assert(a@.skip(i as int).drop_first() =~= a@.skip(i as int + 1));
            assert(b@.skip(i as int).drop_first() =~= b@.skip(i as int + 1));
        }
        str_le_from(a, b, i + 1)
    }
}

/// Whether `a` is at or before `b` in the lexicographic order.
pub fn str_le(a: &str, b: &str) -> (r: bool)
    ensures
        r == seq_le(a@, b@),
{
    proof {
        assert(a@.skip(0) =~= a@);
        assert(b@.skip(0) =~= b@);
    }
    str_le_from(a, b, 0)
}

/// Whether `a` is at or before `b` in the display order.
pub fn row_le_exec(a: &Row, b: &Row) -> (r: bool)
    ensures
        r == row_le(a@, b@),
{
    if str_eq(a.proxy_type.as_str(), b.proxy_type.as_str()) {
        str_le(a.name.as_str(), b.name.as_str())
    } else {
        str_le(a.proxy_type.as_str(), b.proxy_type.as_str())
    }
}

/// Places `r` where the display order says, exactly as `insert_row` does.
pub fn insert_sorted(out: &mut Vec<Row>, r: Row)
    ensures
        row_view(final(out)@) == insert_row(r@, row_view(old(out)@)),
{
    let ghost s0 = row_view(out@);
    let mut p: usize = 0;
    while p < out.len() && row_le_exec(&out[p], &r)
        invariant
            p <= out@.len(),
            s0 == row_view(out@),
            forall|k: int| 0 <= k < p ==> row_le(s0[k], r@),
        decreases out@.len() - p,
    {
        p = p + 1;
    }
    let ghost rv = r@;
    out.insert(p, r);
    proof {
        lemma_insert_row_at(rv, s0, p as int);
        assert(row_view(out@) =~= s0.insert(p as int, rv));
    }
}

} // verus!
