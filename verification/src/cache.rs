//! The rendered rows, kept in row order. The keyframe is the concatenation of
//! this cache.
use vstd::prelude::*;

verus! {

/// A rendered row: its stable row id and its markup.
pub struct RowText {
    pub id: int,
    pub html: Seq<char>,
}

/// Each row comes after those with a lower id, and none occurs twice.
pub open spec fn ascending(rows: Seq<RowText>) -> bool {
    forall|i: int, j: int| 0 <= i < j < rows.len() ==> (#[trigger] rows[i]).id < (#[trigger] rows[j]).id
}

/// The markup of row `id`, if it is among `rows`.
pub open spec fn lookup(rows: Seq<RowText>, id: int) -> Option<Seq<char>>
    decreases rows.len(),
{
    if rows.len() == 0 {
        None
    } else if rows.last().id == id {
        Some(rows.last().html)
    } else {
        lookup(rows.drop_last(), id)
    }
}

/// `rows` with row `id` set to `html`, at its place in row order.
pub open spec fn put(rows: Seq<RowText>, id: int, html: Seq<char>) -> Seq<RowText>
    decreases rows.len(),
{
    if rows.len() == 0 || rows.last().id < id {
        rows.push(RowText { id, html })
    } else if rows.last().id == id {
        rows.drop_last().push(RowText { id, html })
    } else {
        put(rows.drop_last(), id, html).push(rows.last())
    }
}

/// The rows with an id of at least `base`.
pub open spec fn rows_from(rows: Seq<RowText>, base: int) -> Seq<RowText>
    decreases rows.len(),
{
    if rows.len() == 0 {
        rows
    } else if rows.last().id >= base {
        rows_from(rows.drop_last(), base).push(rows.last())
    } else {
        rows_from(rows.drop_last(), base)
    }
}

/// The markup of all rows, one after the other.
pub open spec fn joined(rows: Seq<RowText>) -> Seq<char>
    decreases rows.len(),
{
    if rows.len() == 0 {
        seq![]
    } else {
        joined(rows.drop_last()) + rows.last().html
    }
}

/// `rows` with each of `fresh` set, in turn.
pub open spec fn put_all(rows: Seq<RowText>, fresh: Seq<RowText>) -> Seq<RowText>
    decreases fresh.len(),
{
    if fresh.len() == 0 {
        rows
    } else {
        put(put_all(rows, fresh.drop_last()), fresh.last().id, fresh.last().html)
    }
}

/// Those of `fresh` that `rows` does not hold just so already.
pub open spec fn differing(rows: Seq<RowText>, fresh: Seq<RowText>) -> Seq<RowText>
    decreases fresh.len(),
{
    if fresh.len() == 0 {
        seq![]
    } else if lookup(rows, fresh.last().id) == Some(fresh.last().html) {
        differing(rows, fresh.drop_last())
    } else {
        differing(rows, fresh.drop_last()).push(fresh.last())
    }
}

/// The ids of `rows`.
pub open spec fn row_ids(rows: Seq<RowText>) -> Seq<int> {
    Seq::new(rows.len(), |i: int| rows[i].id)
}

/// A row that is there is found by its id.
pub proof fn lookup_at(rows: Seq<RowText>, i: int)
    requires
        ascending(rows),
        0 <= i < rows.len(),
    ensures
        lookup(rows, rows[i].id) == Some(rows[i].html),
    decreases rows.len(),
{
    if i < rows.len() - 1 {
        assert(rows[i].id < rows[rows.len() - 1].id);
        assert(rows.drop_last()[i] == rows[i]);
        lookup_at(rows.drop_last(), i);
    }
}

/// An id that no row has is not found.
pub proof fn lookup_absent(rows: Seq<RowText>, id: int)
    requires
        forall|i: int| 0 <= i < rows.len() ==> (#[trigger] rows[i]).id != id,
    ensures
        lookup(rows, id) is None,
    decreases rows.len(),
{
    if rows.len() > 0 {
        assert(rows[rows.len() - 1].id != id);
        assert forall|i: int| 0 <= i < rows.drop_last().len() implies (#[trigger] rows.drop_last()[i]).id
            != id by {
            assert(rows.drop_last()[i] == rows[i]);
        }
        lookup_absent(rows.drop_last(), id);
    }
}

/// Where `put` leaves a row: in its place among lower and higher ids.
pub proof fn put_at(rows: Seq<RowText>, id: int, html: Seq<char>, p: int)
    requires
        0 <= p <= rows.len(),
        forall|i: int| 0 <= i < p ==> (#[trigger] rows[i]).id < id,
        forall|i: int| p <= i < rows.len() ==> id <= (#[trigger] rows[i]).id,
        ascending(rows),
    ensures
        put(rows, id, html) == if p < rows.len() && rows[p].id == id {
            rows.update(p, RowText { id, html })
        } else {
            rows.insert(p, RowText { id, html })
        },
        ascending(put(rows, id, html)),
    decreases rows.len(),
{
    let new = RowText { id, html };
    if p == rows.len() {
        if rows.len() > 0 {
            assert(rows[rows.len() - 1].id < id);
        }
        assert(rows.insert(p, new) =~= rows.push(new));
    } else {
        let n = rows.len() - 1;
        assert(id <= rows[n].id);
        if rows[n].id == id {
            if p < n {
                assert(rows[p].id < rows[n].id);
            }
            assert(rows.update(p, new) =~= rows.drop_last().push(new));
        } else {
            let rest = rows.drop_last();
            assert forall|i: int| 0 <= i < p implies (#[trigger] rest[i]).id < id by {
                assert(rest[i] == rows[i]);
            }
            assert forall|i: int| p <= i < rest.len() implies id <= (#[trigger] rest[i]).id by {
                assert(rest[i] == rows[i]);
            }
            put_at(rest, id, html, p);
            if p < rest.len() && rest[p].id == id {
                assert(rows.update(p, new) =~= rest.update(p, new).push(rows[n]));
            } else {
                assert(rows.insert(p, new) =~= rest.insert(p, new).push(rows[n]));
            }
        }
    }
}

/// Where the rows from `base` on begin.
pub proof fn rows_from_at(rows: Seq<RowText>, base: int, p: int)
    requires
        0 <= p <= rows.len(),
        forall|i: int| 0 <= i < p ==> (#[trigger] rows[i]).id < base,
        forall|i: int| p <= i < rows.len() ==> base <= (#[trigger] rows[i]).id,
    ensures
        rows_from(rows, base) == rows.skip(p),
    decreases rows.len(),
{
    if rows.len() == 0 {
        assert(rows.skip(p) =~= rows);
    } else {
        let n = rows.len() - 1;
        let rest = rows.drop_last();
        assert(rows[n] == rows.last());
        if p == rows.len() {
            assert forall|i: int| 0 <= i < n implies (#[trigger] rest[i]).id < base by {
                assert(rest[i] == rows[i]);
            }
            rows_from_at(rest, base, n);
            assert(rows.skip(p) =~= rest.skip(n));
        } else {
            assert forall|i: int| 0 <= i < p implies (#[trigger] rest[i]).id < base by {
                assert(rest[i] == rows[i]);
            }
            assert forall|i: int| p <= i < n implies base <= (#[trigger] rest[i]).id by {
                assert(rest[i] == rows[i]);
            }
            rows_from_at(rest, base, p);
            assert(rows.skip(p) =~= rest.skip(p).push(rows[n]));
        }
    }
}

// --- facts about the row operations ------------------------------------------

/// After `put` the row has the new markup, and every other row what it had.
pub proof fn put_lookup(rows: Seq<RowText>, key: int, html: Seq<char>, id: int)
    requires
        ascending(rows),
    ensures
        ascending(put(rows, key, html)),
        lookup(put(rows, key, html), id) == if id == key {
            Some(html)
        } else {
            lookup(rows, id)
        },
        forall|i: int|
            0 <= i < put(rows, key, html).len() ==> (#[trigger] put(rows, key, html)[i]).id
                == key || exists|j: int| 0 <= j < rows.len() && rows[j].id == put(rows, key, html)[i].id,
    decreases rows.len(),
{
    let res = put(rows, key, html);
    let new = RowText { id: key, html };
    if rows.len() == 0 || rows.last().id < key {
        assert(res.drop_last() =~= rows);
        assert forall|i: int, j: int| 0 <= i < j < res.len() implies (#[trigger] res[i]).id < (
        #[trigger] res[j]).id by {
            if j == rows.len() {
                if i < rows.len() - 1 {
                    assert(rows[i].id < rows[rows.len() - 1].id);
                }
            } else {
                assert(rows[i].id < rows[j].id);
            }
        }
        if id == key {
        } else {
            assert(lookup(res, id) == lookup(res.drop_last(), id));
        }
        assert forall|i: int| 0 <= i < res.len() implies (#[trigger] res[i]).id == key || exists|j: int|
            0 <= j < rows.len() && rows[j].id == res[i].id by {
            if i < rows.len() {
                assert(rows[i].id == res[i].id);
            }
        }
    } else if rows.last().id == key {
        assert(res.drop_last() =~= rows.drop_last());
        assert forall|i: int, j: int| 0 <= i < j < res.len() implies (#[trigger] res[i]).id < (
        #[trigger] res[j]).id by {
            assert(rows[i].id < rows[j].id);
        }
        assert forall|i: int| 0 <= i < res.len() implies (#[trigger] res[i]).id == key || exists|j: int|
            0 <= j < rows.len() && rows[j].id == res[i].id by {
            assert(rows[i].id == res[i].id);
        }
    } else {
        let rest = rows.drop_last();
        assert forall|i: int, j: int| 0 <= i < j < rest.len() implies (#[trigger] rest[i]).id < (
        #[trigger] rest[j]).id by {
            assert(rows[i].id < rows[j].id);
        }
        put_lookup(rest, key, html, id);
        let inner = put(rest, key, html);
        assert(res.drop_last() =~= inner);
        assert forall|i: int| 0 <= i < inner.len() implies (#[trigger] inner[i]).id < rows.last().id by {
            if inner[i].id != key {
                let j = choose|j: int| 0 <= j < rest.len() && rest[j].id == inner[i].id;
                assert(rows[j].id < rows[rows.len() - 1].id);
            }
        }
        assert forall|i: int, j: int| 0 <= i < j < res.len() implies (#[trigger] res[i]).id < (
        #[trigger] res[j]).id by {
            if j == res.len() - 1 {
                assert(inner[i].id < rows.last().id);
            } else {
                assert(inner[i].id < inner[j].id);
            }
        }
        assert forall|i: int| 0 <= i < res.len() implies (#[trigger] res[i]).id == key || exists|j: int|
            0 <= j < rows.len() && rows[j].id == res[i].id by {
            if i < inner.len() {
                if inner[i].id != key {
                    let j = choose|j: int| 0 <= j < rest.len() && rest[j].id == inner[i].id;
                    assert(rows[j].id == res[i].id);
                }
            } else {
                assert(rows[rows.len() - 1].id == res[i].id);
            }
        }
    }
}

/// Setting a row to what it holds already changes nothing.
pub proof fn put_same(rows: Seq<RowText>, key: int, html: Seq<char>)
    requires
        ascending(rows),
        lookup(rows, key) == Some(html),
    ensures
        put(rows, key, html) == rows,
    decreases rows.len(),
{
    let rest = rows.drop_last();
    assert forall|i: int, j: int| 0 <= i < j < rest.len() implies (#[trigger] rest[i]).id < (
    #[trigger] rest[j]).id by {
        assert(rows[i].id < rows[j].id);
    }
    if rows.last().id == key {
        assert(put(rows, key, html) =~= rows);
    } else {
        if rows.last().id < key {
            assert forall|i: int| 0 <= i < rest.len() implies (#[trigger] rest[i]).id != key by {
                assert(rows[i].id < rows[rows.len() - 1].id);
            }
            lookup_absent(rest, key);
        }
        put_same(rest, key, html);
        assert(put(rows, key, html) =~= rows);
    }
}

/// No two rows of `rows` share an id.
pub open spec fn distinct(rows: Seq<RowText>) -> bool {
    forall|i: int, j: int|
        0 <= i < j < rows.len() ==> (#[trigger] rows[i]).id != (#[trigger] rows[j]).id
}

/// After `put_all` the rows set have their new markup, and every other row
/// what it had.
pub proof fn put_all_lookup(rows: Seq<RowText>, fresh: Seq<RowText>, id: int)
    requires
        ascending(rows),
        distinct(fresh),
    ensures
        ascending(put_all(rows, fresh)),
        (forall|i: int| 0 <= i < fresh.len() ==> (#[trigger] fresh[i]).id != id) ==> lookup(
            put_all(rows, fresh),
            id,
        ) == lookup(rows, id),
        forall|i: int|
            0 <= i < fresh.len() && (#[trigger] fresh[i]).id == id ==> lookup(
                put_all(rows, fresh),
                id,
            ) == Some(fresh[i].html),
    decreases fresh.len(),
{
    if fresh.len() > 0 {
        let rest = fresh.drop_last();
        assert forall|i: int, j: int| 0 <= i < j < rest.len() implies (#[trigger] rest[i]).id != (
        #[trigger] rest[j]).id by {
            assert(fresh[i].id != fresh[j].id);
        }
        put_all_lookup(rows, rest, id);
        put_lookup(put_all(rows, rest), fresh.last().id, fresh.last().html, id);
        assert(fresh.last() == fresh[fresh.len() - 1]);
        if forall|i: int| 0 <= i < fresh.len() ==> (#[trigger] fresh[i]).id != id {
            assert forall|i: int| 0 <= i < rest.len() implies (#[trigger] rest[i]).id != id by {
                assert(fresh[i].id != id);
            }
        }
        assert forall|i: int| 0 <= i < fresh.len() && (#[trigger] fresh[i]).id == id implies lookup(
            put_all(rows, fresh),
            id,
        ) == Some(fresh[i].html) by {
            if i < rest.len() {
                assert(rest[i].id == id);
                assert(fresh[i].id != fresh[fresh.len() - 1].id);
            }
        }
    }
}

/// Setting rows in two goes is setting them in one.
pub proof fn put_all_join(rows: Seq<RowText>, a: Seq<RowText>, b: Seq<RowText>)
    ensures
        put_all(put_all(rows, a), b) == put_all(rows, a + b),
    decreases b.len(),
{
    if b.len() == 0 {
        assert(a + b =~= a);
    } else {
        put_all_join(rows, a, b.drop_last());
        assert((a + b).drop_last() =~= a + b.drop_last());
        assert((a + b).last() == b.last());
    }
}

/// Setting rows in row order after all that are there is appending them.
pub proof fn put_all_append(rows: Seq<RowText>, fresh: Seq<RowText>)
    requires
        ascending(rows + fresh),
    ensures
        put_all(rows, fresh) == rows + fresh,
    decreases fresh.len(),
{
    if fresh.len() == 0 {
        assert(rows + fresh =~= rows);
    } else {
        let all = rows + fresh;
        let rest = rows + fresh.drop_last();
        assert(rest =~= all.drop_last());
        assert forall|i: int, j: int| 0 <= i < j < rest.len() implies (#[trigger] rest[i]).id < (
        #[trigger] rest[j]).id by {
            assert(all[i].id < all[j].id);
        }
        put_all_append(rows, fresh.drop_last());
        if rest.len() > 0 {
            assert(all[rest.len() - 1].id < all[all.len() - 1].id);
        }
        assert(rest.push(fresh.last()) =~= all);
    }
}

/// The differing rows are among the fresh ones.
pub proof fn differing_are_fresh(rows: Seq<RowText>, fresh: Seq<RowText>, i: int)
    requires
        0 <= i < differing(rows, fresh).len(),
    ensures
        exists|j: int| 0 <= j < fresh.len() && fresh[j] == differing(rows, fresh)[i],
    decreases fresh.len(),
{
    let rest = fresh.drop_last();
    if i < differing(rows, rest).len() {
        differing_are_fresh(rows, rest, i);
        let j = choose|j: int| 0 <= j < rest.len() && rest[j] == differing(rows, rest)[i];
        assert(fresh[j] == differing(rows, fresh)[i]);
    } else {
        assert(fresh[fresh.len() - 1] == differing(rows, fresh)[i]);
    }
}

/// There are no more differing rows than fresh ones.
pub proof fn differing_len(rows: Seq<RowText>, fresh: Seq<RowText>)
    ensures
        differing(rows, fresh).len() <= fresh.len(),
    decreases fresh.len(),
{
    if fresh.len() > 0 {
        differing_len(rows, fresh.drop_last());
    }
}

/// The rows from `base` on are rows of the whole, still in order.
pub proof fn rows_from_ascending(rows: Seq<RowText>, base: int)
    requires
        ascending(rows),
    ensures
        ascending(rows_from(rows, base)),
        forall|i: int|
            0 <= i < rows_from(rows, base).len() ==> exists|j: int|
                0 <= j < rows.len() && rows[j] == #[trigger] rows_from(rows, base)[i],
    decreases rows.len(),
{
    if rows.len() > 0 {
        let rest = rows.drop_last();
        assert forall|i: int, j: int| 0 <= i < j < rest.len() implies (#[trigger] rest[i]).id < (
        #[trigger] rest[j]).id by {
            assert(rows[i].id < rows[j].id);
        }
        rows_from_ascending(rest, base);
        let inner = rows_from(rest, base);
        let res = rows_from(rows, base);
        assert forall|i: int| 0 <= i < inner.len() implies exists|j: int|
            0 <= j < rows.len() && rows[j] == #[trigger] inner[i] by {
            let j = choose|j: int| 0 <= j < rest.len() && rest[j] == inner[i];
            assert(rows[j] == inner[i]);
        }
        assert forall|i: int| 0 <= i < res.len() implies exists|j: int|
            0 <= j < rows.len() && rows[j] == #[trigger] res[i] by {
            if i < inner.len() {
                assert(res[i] == inner[i]);
            } else {
                assert(rows[rows.len() - 1] == res[i]);
            }
        }
        assert forall|i: int, j: int| 0 <= i < j < res.len() implies (#[trigger] res[i]).id < (
        #[trigger] res[j]).id by {
            if j < inner.len() {
                assert(inner[i].id < inner[j].id);
            } else {
                let k = choose|k: int| 0 <= k < rest.len() && rest[k] == inner[i];
                assert(rows[k].id < rows[rows.len() - 1].id);
            }
        }
    }
}

// --- the cache ---------------------------------------------------------------

/// The rendered rows by stable row id.
#[derive(Debug)]
pub struct RowCache {
    rows: Vec<(isize, String)>,
}

impl View for RowCache {
    type V = Seq<RowText>;

    closed spec fn view(&self) -> Seq<RowText> {
        Seq::new(self.rows@.len(), |i: int| RowText { id: self.rows@[i].0 as int, html: self.rows@[i].1@ })
    }
}

impl RowCache {
    /// The rows stand in row order.
    pub open spec fn valid(self) -> bool {
        ascending(self@)
    }

    /// No rows.
    pub fn new() -> (res: Self)
        ensures
            res.valid(),
            res@ == Seq::<RowText>::empty(),
    {
        let res = RowCache { rows: Vec::new() };
        assert(res@ =~= Seq::<RowText>::empty());
        res
    }

    /// The number of rows with an id below `id`.
    fn position(&self, id: isize) -> (p: usize)
        requires
            self.valid(),
        ensures
            p <= self@.len(),
            self@.len() == self.rows@.len(),
            forall|i: int| 0 <= i < p ==> (#[trigger] self@[i]).id < id,
            forall|i: int| p <= i < self@.len() ==> id <= (#[trigger] self@[i]).id,
    {
        let mut lo: usize = 0;
        let mut hi: usize = self.rows.len();
        while lo < hi
            invariant
                self.valid(),
                lo <= hi <= self@.len(),
                self@.len() == self.rows@.len(),
                forall|i: int| 0 <= i < lo ==> (#[trigger] self@[i]).id < id,
                forall|i: int| hi <= i < self@.len() ==> id <= (#[trigger] self@[i]).id,
            decreases hi - lo,
        {
            let mid: usize = lo + (hi - lo) / 2;
            assert(self@[mid as int].id == self.rows@[mid as int].0);
            if self.rows[mid].0 < id {
                lo = mid + 1;
            } else {
                hi = mid;
            }
        }
        lo
    }

    /// The markup of row `id`.
    pub fn get(&self, id: isize) -> (res: Option<&String>)
        requires
            self.valid(),
        ensures
            match res {
                Some(html) => lookup(self@, id as int) == Some(html@),
                None => lookup(self@, id as int) is None,
            },
    {
        let p: usize = self.position(id);
        if p < self.rows.len() && self.rows[p].0 == id {
            proof {
                assert(self@[p as int].id == id);
                lookup_at(self@, p as int);
            }
            Some(&self.rows[p].1)
        } else {
            proof {
                assert forall|i: int| 0 <= i < self@.len() implies (#[trigger] self@[i]).id != id by {
                    if i >= p {
                        assert(self@[p as int].id != id);
                        if i > p {
                            assert(self@[p as int].id < self@[i].id);
                        }
                    }
                }
                lookup_absent(self@, id as int);
            }
            None
        }
    }

    /// Sets row `id`.
    pub fn insert(&mut self, id: isize, html: String)
        requires
            old(self).valid(),
        ensures
            final(self).valid(),
            final(self)@ == put(old(self)@, id as int, html@),
    {
        let p: usize = self.position(id);
        let ghost before = self@;
        let ghost new = RowText { id: id as int, html: html@ };
        proof {
            put_at(before, id as int, html@, p as int);
        }
        if p < self.rows.len() && self.rows[p].0 == id {
            assert(before[p as int].id == id);
            self.rows[p] = (id, html);
            assert(self@ =~= before.update(p as int, new));
        } else {
            if p < self.rows.len() {
                assert(before[p as int].id == self.rows@[p as int].0);
            }
            self.rows.insert(p, (id, html));
            assert(self@ =~= before.insert(p as int, new));
        }
    }

    /// Drops the rows below `base`.
    pub fn drop_below(&mut self, base: isize)
        requires
            old(self).valid(),
        ensures
            final(self).valid(),
            final(self)@ == rows_from(old(self)@, base as int),
    {
        let p: usize = self.position(base);
        let ghost before = self@;
        let rest = self.rows.split_off(p);
        self.rows = rest;
        proof {
            rows_from_at(before, base as int, p as int);
            assert(self@ =~= before.skip(p as int));
        }
    }

    /// Drops every row.
    pub fn clear(&mut self)
        ensures
            final(self).valid(),
            final(self)@ == Seq::<RowText>::empty(),
    {
        self.rows.clear();
        assert(self@ =~= Seq::<RowText>::empty());
    }

    /// Appends the markup of all rows in row order.
    pub fn push_rows(&self, out: &mut String)
        ensures
            final(out)@ == old(out)@ + joined(self@),
    {
        let ghost before = out@;
        assert(before + joined(self@.take(0)) =~= before);
        for i in 0..self.rows.len()
            invariant
                self@.len() == self.rows@.len(),
                out@ == before + joined(self@.take(i as int)),
        {
            out.push_str(self.rows[i].1.as_str());
            assert(self@.take(i + 1).drop_last() =~= self@.take(i as int));
            assert(self@[i as int].html == self.rows@[i as int].1@);
            assert(out@ =~= before + joined(self@.take(i + 1)));
        }
        assert(self@.take(self@.len() as int) =~= self@);
    }
}

} // verus!
