//! Folding of per-batch count rows: a list of single-key `COUNT`
//! objects collapses into one object carrying the total.

use vstd::prelude::*;

use crate::strutil::{spec_starts_with, starts_with, str_eq};

verus! {

/// One result row, modelled as its key-to-count fields in order, keys
/// unique.
#[derive(Debug)]
pub struct CountObject {
    pub fields: Vec<(String, u64)>,
}

impl View for CountObject {
    type V = Seq<(Seq<char>, u64)>;

    open spec fn view(&self) -> Seq<(Seq<char>, u64)> {
        self.fields@.map_values(|p: (String, u64)| (p.0@, p.1))
    }
}

/// The views of a row list.
pub open spec fn obj_views(objs: Seq<CountObject>) -> Seq<Seq<(Seq<char>, u64)>> {
    objs.map_values(|o: CountObject| o@)
}

/// A key that takes part in the fold: it starts with `COUNT` and
/// equals the first key of the first row.
pub open spec fn good_key(k: Seq<char>, k0: Seq<char>) -> bool {
    spec_starts_with(k, "COUNT"@) && k == k0
}

/// Every key of the row is good.
pub open spec fn row_ok(row: Seq<(Seq<char>, u64)>, k0: Seq<char>) -> bool {
    forall|j: int| 0 <= j < row.len() ==> good_key((#[trigger] row[j]).0, k0)
}

/// The fold applies exactly when every key of every row starts with
/// `COUNT` and equals the first key of the first row.
pub open spec fn flatten_flag(objs: Seq<Seq<(Seq<char>, u64)>>) -> bool {
    forall|i: int| 0 <= i < objs.len() ==> row_ok(#[trigger] objs[i], objs[0][0].0)
}

/// The sum of one row's counts.
pub open spec fn row_sum(row: Seq<(Seq<char>, u64)>) -> int
    decreases row.len(),
{
    if row.len() == 0 {
        0
    } else {
        row_sum(row.drop_last()) + row.last().1
    }
}

/// The sum of every row's counts.
pub open spec fn total_sum(objs: Seq<Seq<(Seq<char>, u64)>>) -> int
    decreases objs.len(),
{
    if objs.len() == 0 {
        0
    } else {
        total_sum(objs.drop_last()) + row_sum(objs.last())
    }
}

proof fn lemma_row_sum_nonneg(row: Seq<(Seq<char>, u64)>)
    ensures
        row_sum(row) >= 0,
    decreases row.len(),
{
    if row.len() > 0 {
        lemma_row_sum_nonneg(row.drop_last());
    }
}

proof fn lemma_row_sum_prefix(row: Seq<(Seq<char>, u64)>, k: int)
    requires
        0 <= k <= row.len(),
    ensures
        row_sum(row.take(k)) <= row_sum(row),
    decreases row.len(),
{
    if k == row.len() {
        assert(row.take(k) =~= row);
    } else {
        assert(row.drop_last().take(k) =~= row.take(k));
        lemma_row_sum_prefix(row.drop_last(), k);
        lemma_row_sum_nonneg(row.take(k));
    }
}

proof fn lemma_total_sum_nonneg(objs: Seq<Seq<(Seq<char>, u64)>>)
    ensures
        total_sum(objs) >= 0,
    decreases objs.len(),
{
    if objs.len() > 0 {
        lemma_total_sum_nonneg(objs.drop_last());
        lemma_row_sum_nonneg(objs.last());
    }
}

proof fn lemma_total_sum_prefix(objs: Seq<Seq<(Seq<char>, u64)>>, k: int)
    requires
        0 <= k <= objs.len(),
    ensures
        total_sum(objs.take(k)) <= total_sum(objs),
    decreases objs.len(),
{
    if k == objs.len() {
        assert(objs.take(k) =~= objs);
    } else {
        assert(objs.drop_last().take(k) =~= objs.take(k));
        lemma_total_sum_prefix(objs.drop_last(), k);
        lemma_row_sum_nonneg(objs.last());
        lemma_total_sum_nonneg(objs.take(k));
    }
}

/// Sum one row's counts.
#[verifier::loop_isolation(false)]
fn sum_row(row: &CountObject) -> (r: u64)
    requires
        row_sum(row@) <= u64::MAX,
    ensures
        r == row_sum(row@),
{
    let mut acc: u64 = 0;
    let n = row.fields.len();
    for j in 0..n
        invariant
            acc == row_sum(row@.take(j as int)),
    {
        proof {
            assert(row@.take(j + 1).drop_last() =~= row@.take(j as int));
            assert(row@.take(j + 1).last() == row@[j as int]);
            lemma_row_sum_prefix(row@, j + 1);
            lemma_row_sum_nonneg(row@.take(j as int));
        }
        acc = acc + row.fields[j].1;
    }
    proof {
        assert(row@.take(n as int) =~= row@);
    }
    acc
}

/// Collapse a list of single-key `COUNT` rows into one row with their
/// total.  When the rows carry any other key the list is returned
/// unchanged.
#[verifier::loop_isolation(false)]
pub fn flatten_objects_for_count(objects: Vec<CountObject>) -> (r: Vec<CountObject>)
    requires
        objects@.len() > 0 ==> objects@[0]@.len() > 0,
        (objects@.len() > 0 && flatten_flag(obj_views(objects@))) ==> total_sum(
            obj_views(objects@),
        ) <= u64::MAX,
    ensures
        objects@.len() == 0 ==> r@ == objects@,
        (objects@.len() > 0 && !flatten_flag(obj_views(objects@))) ==> r@ == objects@,
        (objects@.len() > 0 && flatten_flag(obj_views(objects@))) ==> {
            &&& r@.len() == 1
            &&& r@[0]@ == seq![(objects@[0]@[0].0, total_sum(obj_views(objects@)) as u64)]
        },
{
    if objects.len() == 0 {
        return objects;
    }
    let ghost ov = obj_views(objects@);
    let ghost k0 = objects@[0]@[0].0;
    let first_key: String = objects[0].fields[0].0.clone();
    let mut flag = true;
    let n = objects.len();
    for i in 0..n
        invariant
            first_key@ == k0,
            n == ov.len(),
            flag == (forall|l: int| 0 <= l < i ==> row_ok(#[trigger] ov[l], k0)),
    {
        let m = objects[i].fields.len();
        for j in 0..m
            invariant
                first_key@ == k0,
                m == ov[i as int].len(),
                flag == ((forall|l: int| 0 <= l < i ==> row_ok(#[trigger] ov[l], k0)) && (
                forall|l: int| 0 <= l < j ==> good_key((#[trigger] ov[i as int][l]).0, k0))),
        {
            let key = &objects[i].fields[j].0;
            let ok = starts_with(key.as_str(), "COUNT") && str_eq(key.as_str(), first_key.as_str());
            assert(ok == good_key(ov[i as int][j as int].0, k0));
            flag = flag && ok;
        }
        proof {
            if flag {
                assert(row_ok(ov[i as int], k0));
            }
        }
    }
    proof {
        if flag {
            assert(flatten_flag(ov));
        } else {
            assert(!flatten_flag(ov));
        }
    }
    if !flag {
        return objects;
    }
    let mut accum: u64 = 0;
    for i in 0..n
        invariant
            n == ov.len(),
            accum == total_sum(ov.take(i as int)),
            total_sum(ov) <= u64::MAX,
    {
        proof {
            assert(ov.take(i + 1).drop_last() =~= ov.take(i as int));
            assert(ov.take(i + 1).last() == ov[i as int]);
            lemma_total_sum_prefix(ov, i + 1);
            lemma_total_sum_nonneg(ov.take(i as int));
            lemma_row_sum_nonneg(ov[i as int]);
        }
        let c = sum_row(&objects[i]);
        accum = accum + c;
    }
    proof {
        assert(ov.take(n as int) =~= ov);
    }
    let mut fields: Vec<(String, u64)> = Vec::new();
    fields.push((first_key, accum));
    let folded = CountObject { fields };
    let mut r: Vec<CountObject> = Vec::new();
    r.push(folded);
    proof {
        assert(r@[0]@ =~= seq![(objects@[0]@[0].0, total_sum(obj_views(objects@)) as u64)]);
    }
    r
}

} // verus!
