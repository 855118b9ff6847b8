//! Why a second run finds nothing to do: what the requests of a plan make of a device's table.

use crate::device::{blank, stored};
use crate::error::ErrorView;
use crate::plan::{
    additions, applied, distinct_ids, has_id, hidden_row, law_hidden_rows_are_added_again,
    law_plan_converges, law_plan_touches_only_current_rows, law_rows_left_out_are_not_touched,
    lemma_filter_contains, lemma_wish, plan_of, row_after, rows_kept, updatable, update_before,
    updates, wish, PlanView, Table,
};
use crate::request::{add_request, remove_request, set_request, Attribute, RequestView};
use crate::row::{value_of, RowView};
use vstd::prelude::*;

verus! {

/// What a device's table is once it has carried out a request, where it gives a row that is added
/// the id `new_id`.
pub open spec fn effect(
    path: Seq<char>,
    rows: Seq<RowView>,
    request: RequestView,
    new_id: Seq<char>,
) -> Seq<RowView> {
    if request.word == path + "/remove"@ {
        rows.filter(other_row(request.attributes[0].1))
    } else if request.word == path + "/set"@ {
        Seq::new(
            rows.len(),
            |i: int|
                if value_of(rows[i], ".id"@) == request.attributes[0].1 {
                    stored(rows[i], request.attributes.skip(1))
                } else {
                    rows[i]
                },
        )
    } else if request.word == path + "/add"@ {
        rows.push(stored(blank(new_id), request.attributes))
    } else {
        rows
    }
}

/// Whether a row has another `.id` than this one.
pub open spec fn other_row(id: Option<Seq<char>>) -> spec_fn(RowView) -> bool {
    |row: RowView| value_of(row, ".id"@) != id
}

/// The table once it has carried out the first `n` requests.
pub open spec fn carried_out(
    path: Seq<char>,
    rows: Seq<RowView>,
    requests: Seq<RequestView>,
    new_ids: Seq<Seq<char>>,
    n: int,
) -> Seq<RowView>
    decreases n,
{
    if n <= 0 {
        rows
    } else {
        effect(
            path,
            carried_out(path, rows, requests, new_ids, n - 1),
            requests[n - 1],
            new_ids[n - 1],
        )
    }
}

/// The words of the three kinds of requests differ.
pub proof fn lemma_words(path: Seq<char>)
    ensures
        path + "/remove"@ != path + "/set"@,
        path + "/remove"@ != path + "/add"@,
        path + "/set"@ != path + "/add"@,
{
    reveal_strlit("/remove");
    reveal_strlit("/set");
    reveal_strlit("/add");
    assert("/remove"@.len() == 7 && "/set"@.len() == 4 && "/add"@.len() == 4);
    assert((path + "/remove"@).len() == path.len() + 7);
    assert((path + "/set"@).len() == path.len() + 4);
    assert((path + "/add"@).len() == path.len() + 4);
    assert((path + "/set"@)[path.len() as int + 1] == 's');
    assert((path + "/add"@)[path.len() as int + 1] == 'a');
}

/// How the rows of a table are read and written.
#[verifier::reject_recursive_types(D)]
pub struct Wire<C, D> {
    pub path: Seq<char>,
    pub parse: spec_fn(RowView) -> Result<C, ErrorView>,
    pub to_add: spec_fn(D) -> Seq<Attribute>,
    pub to_set: spec_fn(D) -> Seq<Attribute>,
    /// Which rows the table can be asked to have.
    pub valid: spec_fn(D) -> bool,
}

/// Whether what is written to the table is what is read from it.
pub open spec fn faithful<T: Table>(w: Wire<T::CurrentView, T::DesiredView>) -> bool {
    &&& forall|row: RowView|
        (#[trigger] (w.parse)(row)) matches Ok(c) ==> value_of(row, ".id"@) == Some(T::row_id(c))
    &&& forall|id: Seq<char>, d: T::DesiredView|
        (w.valid)(d) ==> #[trigger] (w.parse)(stored(blank(id), (w.to_add)(d))) == Ok::<
            T::CurrentView,
            ErrorView,
        >(T::created(id, d))
    &&& forall|row: RowView, d: T::DesiredView|
        (w.valid)(d) ==> ((w.parse)(row) matches Ok(c) ==> T::current_key(c) == T::desired_key(d)
            ==> #[trigger] (w.parse)(stored(row, (w.to_set)(d))) == Ok::<
            T::CurrentView,
            ErrorView,
        >(T::written(c, d)))
}

/// Whether every row can be read.
pub open spec fn readable<C, D>(w: Wire<C, D>, rows: Seq<RowView>) -> bool {
    forall|i: int| 0 <= i < rows.len() ==> (w.parse)(#[trigger] rows[i]) is Ok
}

/// What the rows are read as.
pub open spec fn read<C, D>(w: Wire<C, D>, rows: Seq<RowView>) -> Seq<C> {
    Seq::new(rows.len(), |i: int| (w.parse)(rows[i])->Ok_0)
}

/// Whether a row's id is none of these.
pub open spec fn not_in<T: Table>(ids: Seq<Seq<char>>) -> spec_fn(T::CurrentView) -> bool {
    |c: T::CurrentView| !ids.contains(T::row_id(c))
}

/// A row once these updates have been written.
pub open spec fn updated<T: Table>(
    c: T::CurrentView,
    update: Seq<(Seq<char>, T::DesiredView)>,
) -> T::CurrentView {
    let e = update_before(update, T::row_id(c), update.len() as int);
    if e >= 0 {
        T::written(c, update[e].1)
    } else {
        c
    }
}

/// The rows once these updates have been written.
pub open spec fn all_updated<T: Table>(
    s: Seq<T::CurrentView>,
    update: Seq<(Seq<char>, T::DesiredView)>,
) -> Seq<T::CurrentView> {
    Seq::new(s.len(), |i: int| updated::<T>(s[i], update))
}

/// The rows that are added under these ids.
pub open spec fn all_created<T: Table>(ids: Seq<Seq<char>>, add: Seq<T::DesiredView>) -> Seq<
    T::CurrentView,
> {
    Seq::new(add.len(), |j: int| T::created(ids[j], add[j]))
}

/// What one removal makes of the rows.
proof fn lemma_remove<T: Table>(
    w: Wire<T::CurrentView, T::DesiredView>,
    rows: Seq<RowView>,
    id: Seq<char>,
    new_id: Seq<char>,
)
    requires
        faithful::<T>(w),
        readable(w, rows),
    ensures
        ({
            let after = effect(w.path, rows, remove_request(w.path, id), new_id);
            &&& readable(w, after)
            &&& read(w, after) == read(w, rows).filter(not_in::<T>(seq![id]))
        }),
    decreases rows.len(),
{
    lemma_words(w.path);
    reveal(Seq::filter);
    let request = remove_request(w.path, id);
    assert(request.attributes[0].1 == Some(id));
    let after = effect(w.path, rows, request, new_id);
    assert(after == rows.filter(other_row(Some(id))));
    if rows.len() > 0 {
        let t = rows.drop_last();
        lemma_remove::<T>(w, t, id, new_id);
        let before = effect(w.path, t, request, new_id);
        let last = rows.last();
        assert(rows[rows.len() - 1] == last);
        let c = (w.parse)(last)->Ok_0;
        assert(read(w, rows).drop_last() =~= read(w, t));
        assert(read(w, rows).last() == c);
        assert(seq![id].contains(T::row_id(c)) == (T::row_id(c) == id)) by {
            assert(seq![id][0] == id);
        }
        if other_row(Some(id))(last) {
            assert(after == before.push(last));
            assert(read(w, after) =~= read(w, before).push(c));
        } else {
            assert(after == before);
        }
    } else {
        assert(after =~= Seq::<RowView>::empty());
        assert(read(w, after) =~= read(w, rows).filter(not_in::<T>(seq![id])));
    }
}

/// What one update makes of the rows.
proof fn lemma_set<T: Table>(
    w: Wire<T::CurrentView, T::DesiredView>,
    rows: Seq<RowView>,
    id: Seq<char>,
    d: T::DesiredView,
    new_id: Seq<char>,
)
    requires
        faithful::<T>(w),
        readable(w, rows),
        (w.valid)(d),
        forall|i: int|
            0 <= i < rows.len() && T::row_id(#[trigger] read(w, rows)[i]) == id ==> T::current_key(
                read(w, rows)[i],
            ) == T::desired_key(d),
    ensures
        ({
            let after = effect(w.path, rows, set_request(w.path, id, (w.to_set)(d)), new_id);
            &&& readable(w, after)
            &&& read(w, after) == Seq::new(
                rows.len(),
                |i: int|
                    if T::row_id(read(w, rows)[i]) == id {
                        T::written(read(w, rows)[i], d)
                    } else {
                        read(w, rows)[i]
                    },
            )
        }),
{
    lemma_words(w.path);
    let request = set_request(w.path, id, (w.to_set)(d));
    assert(request.attributes[0].1 == Some(id));
    assert(request.attributes.skip(1) =~= (w.to_set)(d));
    let after = effect(w.path, rows, request, new_id);
    assert forall|i: int| 0 <= i < rows.len() implies {
        &&& (w.parse)(#[trigger] after[i]) is Ok
        &&& (w.parse)(after[i])->Ok_0 == (if T::row_id(read(w, rows)[i]) == id {
            T::written(read(w, rows)[i], d)
        } else {
            read(w, rows)[i]
        })
    } by {
        let row = rows[i];
        let c = read(w, rows)[i];
        assert((w.parse)(row) == Ok::<T::CurrentView, ErrorView>(c));
        if T::row_id(c) == id {
            assert(after[i] == stored(row, (w.to_set)(d)));
            assert((w.parse)(stored(row, (w.to_set)(d))) == Ok::<T::CurrentView, ErrorView>(
                T::written(c, d),
            ));
        } else {
            assert(after[i] == row);
        }
    }
    assert(read(w, after) =~= Seq::new(
        rows.len(),
        |i: int|
            if T::row_id(read(w, rows)[i]) == id {
                T::written(read(w, rows)[i], d)
            } else {
                read(w, rows)[i]
            },
    ));
}

/// What one addition makes of the rows.
proof fn lemma_add<T: Table>(
    w: Wire<T::CurrentView, T::DesiredView>,
    rows: Seq<RowView>,
    d: T::DesiredView,
    new_id: Seq<char>,
)
    requires
        faithful::<T>(w),
        readable(w, rows),
        (w.valid)(d),
    ensures
        ({
            let after = effect(w.path, rows, add_request(w.path, (w.to_add)(d)), new_id);
            &&& readable(w, after)
            &&& read(w, after) == read(w, rows).push(T::created(new_id, d))
        }),
{
    lemma_words(w.path);
    let after = effect(w.path, rows, add_request(w.path, (w.to_add)(d)), new_id);
    assert(after == rows.push(stored(blank(new_id), (w.to_add)(d))));
    assert((w.parse)(stored(blank(new_id), (w.to_add)(d))) == Ok::<T::CurrentView, ErrorView>(
        T::created(new_id, d),
    ));
    assert(read(w, after) =~= read(w, rows).push(T::created(new_id, d)));
}

proof fn lemma_filter_twice<V>(
    s: Seq<V>,
    p: spec_fn(V) -> bool,
    q: spec_fn(V) -> bool,
    both: spec_fn(V) -> bool,
)
    requires
        forall|x: V| #[trigger] both(x) == (p(x) && q(x)),
    ensures
        s.filter(p).filter(q) == s.filter(both),
    decreases s.len(),
{
    reveal(Seq::filter);
    if s.len() > 0 {
        let t = s.drop_last();
        let last = s.last();
        lemma_filter_twice(t, p, q, both);
        assert(both(last) == (p(last) && q(last)));
        if p(last) {
            let x = t.filter(p).push(last);
            assert(s.filter(p) == x);
            assert(x.drop_last() =~= t.filter(p));
            assert(x.last() == last);
        }
    }
}

proof fn lemma_filter_concat<V>(a: Seq<V>, b: Seq<V>, p: spec_fn(V) -> bool)
    ensures
        (a + b).filter(p) == a.filter(p) + b.filter(p),
    decreases b.len(),
{
    reveal(Seq::filter);
    if b.len() > 0 {
        lemma_filter_concat(a, b.drop_last(), p);
        assert((a + b).drop_last() =~= a + b.drop_last());
        assert((a + b).last() == b.last());
        assert((a + b).filter(p) =~= a.filter(p) + b.filter(p));
    } else {
        assert(a + b =~= a);
        assert(a.filter(p) + b.filter(p) =~= a.filter(p));
    }
}

proof fn lemma_filter_none<V>(s: Seq<V>, p: spec_fn(V) -> bool)
    requires
        forall|i: int| 0 <= i < s.len() ==> !p(#[trigger] s[i]),
    ensures
        s.filter(p) == Seq::<V>::empty(),
    decreases s.len(),
{
    reveal(Seq::filter);
    if s.len() > 0 {
        lemma_filter_none(s.drop_last(), p);
        assert(!p(s[s.len() - 1]));
    } else {
        assert(s.filter(p) =~= Seq::<V>::empty());
    }
}

proof fn lemma_filter_all<V>(s: Seq<V>, p: spec_fn(V) -> bool)
    requires
        forall|i: int| 0 <= i < s.len() ==> p(#[trigger] s[i]),
    ensures
        s.filter(p) == s,
    decreases s.len(),
{
    reveal(Seq::filter);
    if s.len() > 0 {
        lemma_filter_all(s.drop_last(), p);
        assert(p(s[s.len() - 1]));
        assert(s.drop_last().push(s.last()) =~= s);
    }
}

/// Carrying out one list of requests and then another is carrying out both.
pub proof fn lemma_concat(
    path: Seq<char>,
    rows: Seq<RowView>,
    a: Seq<RequestView>,
    b: Seq<RequestView>,
    a_ids: Seq<Seq<char>>,
    b_ids: Seq<Seq<char>>,
    n: int,
)
    requires
        a.len() == a_ids.len(),
        b.len() == b_ids.len(),
        0 <= n <= b.len(),
    ensures
        carried_out(path, rows, a + b, a_ids + b_ids, a.len() + n) == carried_out(
            path,
            carried_out(path, rows, a, a_ids, a.len() as int),
            b,
            b_ids,
            n,
        ),
    decreases n,
{
    if n > 0 {
        lemma_concat(path, rows, a, b, a_ids, b_ids, n - 1);
        assert((a + b)[a.len() + n - 1] == b[n - 1]);
        assert((a_ids + b_ids)[a.len() + n - 1] == b_ids[n - 1]);
    } else {
        lemma_prefix(path, rows, a, b, a_ids, b_ids, a.len() as int);
    }
}

proof fn lemma_prefix(
    path: Seq<char>,
    rows: Seq<RowView>,
    a: Seq<RequestView>,
    b: Seq<RequestView>,
    a_ids: Seq<Seq<char>>,
    b_ids: Seq<Seq<char>>,
    n: int,
)
    requires
        a.len() == a_ids.len(),
        0 <= n <= a.len(),
    ensures
        carried_out(path, rows, a + b, a_ids + b_ids, n) == carried_out(path, rows, a, a_ids, n),
    decreases n,
{
    if n > 0 {
        lemma_prefix(path, rows, a, b, a_ids, b_ids, n - 1);
        assert((a + b)[n - 1] == a[n - 1]);
        assert((a_ids + b_ids)[n - 1] == a_ids[n - 1]);
    }
}

/// The requests that remove the rows with these ids.
pub open spec fn removing(path: Seq<char>, ids: Seq<Seq<char>>) -> Seq<RequestView> {
    Seq::new(ids.len(), |i: int| remove_request(path, ids[i]))
}

/// The requests that add these rows.
pub open spec fn adding<C, D>(w: Wire<C, D>, add: Seq<D>) -> Seq<RequestView> {
    Seq::new(add.len(), |i: int| add_request(w.path, (w.to_add)(add[i])))
}

/// The requests that set these rows.
pub open spec fn setting<C, D>(w: Wire<C, D>, update: Seq<(Seq<char>, D)>) -> Seq<RequestView> {
    Seq::new(
        update.len(),
        |i: int| set_request(w.path, update[i].0, (w.to_set)(update[i].1)),
    )
}

proof fn lemma_removing<T: Table>(
    w: Wire<T::CurrentView, T::DesiredView>,
    rows: Seq<RowView>,
    ids: Seq<Seq<char>>,
    new_ids: Seq<Seq<char>>,
    n: int,
)
    requires
        faithful::<T>(w),
        readable(w, rows),
        0 <= n <= ids.len(),
    ensures
        ({
            let after = carried_out(w.path, rows, removing(w.path, ids), new_ids, n);
            &&& readable(w, after)
            &&& read(w, after) == read(w, rows).filter(not_in::<T>(ids.take(n)))
        }),
    decreases n,
{
    let s = read(w, rows);
    if n > 0 {
        lemma_removing::<T>(w, rows, ids, new_ids, n - 1);
        let before = carried_out(w.path, rows, removing(w.path, ids), new_ids, n - 1);
        lemma_remove::<T>(w, before, ids[n - 1], new_ids[n - 1]);
        let p = not_in::<T>(ids.take(n - 1));
        let q = not_in::<T>(seq![ids[n - 1]]);
        let both = not_in::<T>(ids.take(n));
        assert forall|c: T::CurrentView| #[trigger] both(c) == (p(c) && q(c)) by {
            let x = T::row_id(c);
            let short = ids.take(n - 1);
            let long = ids.take(n);
            let one = seq![ids[n - 1]];
            assert(one[0] == ids[n - 1]);
            if long.contains(x) {
                let k = choose|k: int| 0 <= k < long.len() && long[k] == x;
                if k < n - 1 {
                    assert(short[k] == x);
                }
            }
            if short.contains(x) {
                let k = choose|k: int| 0 <= k < short.len() && short[k] == x;
                assert(long[k] == x);
            }
            if one.contains(x) {
                assert(long[n - 1] == x);
            }
        }
        lemma_filter_twice(s, p, q, both);
    } else {
        assert forall|i: int| 0 <= i < s.len() implies not_in::<T>(ids.take(0))(
            #[trigger] s[i],
        ) by {}
        lemma_filter_all(s, not_in::<T>(ids.take(0)));
    }
}

proof fn lemma_adding<T: Table>(
    w: Wire<T::CurrentView, T::DesiredView>,
    rows: Seq<RowView>,
    add: Seq<T::DesiredView>,
    ids: Seq<Seq<char>>,
    n: int,
)
    requires
        faithful::<T>(w),
        readable(w, rows),
        forall|j: int| 0 <= j < add.len() ==> (w.valid)(#[trigger] add[j]),
        0 <= n <= add.len(),
        ids.len() == add.len(),
    ensures
        ({
            let after = carried_out(w.path, rows, adding(w, add), ids, n);
            &&& readable(w, after)
            &&& read(w, after) == read(w, rows) + all_created::<T>(ids, add).take(n)
        }),
    decreases n,
{
    let all = all_created::<T>(ids, add);
    if n > 0 {
        lemma_adding::<T>(w, rows, add, ids, n - 1);
        let before = carried_out(w.path, rows, adding(w, add), ids, n - 1);
        lemma_add::<T>(w, before, add[n - 1], ids[n - 1]);
        assert((read(w, rows) + all.take(n - 1)).push(all[n - 1]) =~= read(w, rows) + all.take(n));
    } else {
        assert(read(w, rows) + all.take(0) =~= read(w, rows));
    }
}

/// Whether each update is for a row of its own.
pub open spec fn distinct_updates<V>(update: Seq<(Seq<char>, V)>) -> bool {
    forall|a: int, b: int|
        0 <= a < b < update.len() ==> (#[trigger] update[a]).0 != (#[trigger] update[b]).0
}

/// Whether each row that is updated has the key that it is updated for.
pub open spec fn matching<T: Table>(
    s: Seq<T::CurrentView>,
    update: Seq<(Seq<char>, T::DesiredView)>,
) -> bool {
    forall|i: int, k: int|
        0 <= i < s.len() && 0 <= k < update.len() && T::row_id(#[trigger] s[i]) == (
        #[trigger] update[k]).0 ==> T::current_key(s[i]) == T::desired_key(update[k].1)
}

proof fn lemma_update_before<V>(update: Seq<(Seq<char>, V)>, id: Seq<char>, n: int)
    requires
        0 <= n <= update.len(),
    ensures
        -1 <= update_before(update, id, n) < n,
        update_before(update, id, n) >= 0 ==> update[update_before(update, id, n)].0 == id,
        update_before(update, id, n) < 0 ==> forall|k: int|
            0 <= k < n ==> (#[trigger] update[k]).0 != id,
        update_before(update.take(n), id, n) == update_before(update, id, n),
    decreases n,
{
    if n > 0 {
        lemma_update_before(update, id, n - 1);
        assert(update.take(n)[n - 1] == update[n - 1]);
        lemma_update_before_take(update, id, n - 1, n);
    }
}

proof fn lemma_update_before_take<V>(update: Seq<(Seq<char>, V)>, id: Seq<char>, n: int, m: int)
    requires
        0 <= n <= m <= update.len(),
    ensures
        update_before(update.take(m), id, n) == update_before(update, id, n),
    decreases n,
{
    if n > 0 {
        lemma_update_before_take(update, id, n - 1, m);
        assert(update.take(m)[n - 1] == update[n - 1]);
    }
}

proof fn lemma_setting<T: Table>(
    w: Wire<T::CurrentView, T::DesiredView>,
    rows: Seq<RowView>,
    update: Seq<(Seq<char>, T::DesiredView)>,
    new_ids: Seq<Seq<char>>,
    n: int,
)
    requires
        faithful::<T>(w),
        readable(w, rows),
        forall|k: int| 0 <= k < update.len() ==> (w.valid)((#[trigger] update[k]).1),
        distinct_updates(update),
        matching::<T>(read(w, rows), update),
        0 <= n <= update.len(),
    ensures
        ({
            let after = carried_out(w.path, rows, setting(w, update), new_ids, n);
            &&& readable(w, after)
            &&& read(w, after) == all_updated::<T>(read(w, rows), update.take(n))
        }),
    decreases n,
{
    let s = read(w, rows);
    if n > 0 {
        lemma_setting::<T>(w, rows, update, new_ids, n - 1);
        let before = carried_out(w.path, rows, setting(w, update), new_ids, n - 1);
        let id = update[n - 1].0;
        let d = update[n - 1].1;
        let was = read(w, before);
        assert(was.len() == before.len() && was.len() == s.len());
        assert forall|i: int| 0 <= i < s.len() implies {
            &&& T::row_id(#[trigger] was[i]) == T::row_id(s[i])
            &&& T::row_id(s[i]) == id ==> was[i] == s[i]
        } by {
            lemma_update_before(update, T::row_id(s[i]), n - 1);
            let e = update_before(update, T::row_id(s[i]), n - 1);
            if e >= 0 {
                T::writing(s[i], id, update[e].1);
                assert(update[e].0 != update[n - 1].0);
                assert(update.take(n - 1)[e] == update[e]);
            }
        }
        assert forall|i: int|
            0 <= i < before.len() && T::row_id(#[trigger] was[i]) == id implies T::current_key(
            was[i],
        ) == T::desired_key(d) by {
            assert(T::row_id(s[i]) == update[n - 1].0);
        }
        lemma_set::<T>(w, before, id, d, new_ids[n - 1]);
        let after = carried_out(w.path, rows, setting(w, update), new_ids, n);
        assert forall|i: int| 0 <= i < s.len() implies #[trigger] read(w, after)[i] == updated::<
            T,
        >(s[i], update.take(n)) by {
            let x = T::row_id(s[i]);
            assert(T::row_id(was[i]) == x);
            lemma_update_before(update, x, n);
            lemma_update_before(update, x, n - 1);
            let e = update_before(update, x, n);
            if e >= 0 {
                assert(update.take(n)[e] == update[e]);
                if e < n - 1 {
                    assert(update.take(n - 1)[e] == update[e]);
                }
            }
        }
        assert(read(w, after) =~= all_updated::<T>(s, update.take(n)));
    } else {
        assert(all_updated::<T>(s, update.take(0)) =~= s);
    }
}

/// Updating keeps the rows that a test keeps which updating does not change.
proof fn lemma_filter_updated<T: Table>(
    s: Seq<T::CurrentView>,
    update: Seq<(Seq<char>, T::DesiredView)>,
    p: spec_fn(T::CurrentView) -> bool,
)
    requires
        forall|i: int|
            0 <= i < s.len() ==> p(updated::<T>(#[trigger] s[i], update)) == p(s[i]),
    ensures
        all_updated::<T>(s, update).filter(p) == all_updated::<T>(s.filter(p), update),
    decreases s.len(),
{
    reveal(Seq::filter);
    let u = all_updated::<T>(s, update);
    if s.len() > 0 {
        let t = s.drop_last();
        let last = s.last();
        assert forall|i: int| 0 <= i < t.len() implies p(updated::<T>(#[trigger] t[i], update))
            == p(t[i]) by {
            assert(t[i] == s[i]);
        }
        lemma_filter_updated::<T>(t, update, p);
        assert(u.drop_last() =~= all_updated::<T>(t, update));
        assert(s[s.len() - 1] == last);
        assert(u.last() == updated::<T>(last, update));
        if p(last) {
            assert(all_updated::<T>(t.filter(p).push(last), update) =~= all_updated::<T>(
                t.filter(p),
                update,
            ).push(updated::<T>(last, update)));
        }
    } else {
        assert(u.filter(p) =~= all_updated::<T>(s.filter(p), update));
    }
}

proof fn lemma_updated_id<T: Table>(
    c: T::CurrentView,
    update: Seq<(Seq<char>, T::DesiredView)>,
)
    ensures
        T::row_id(updated::<T>(c, update)) == T::row_id(c),
{
    let e = update_before(update, T::row_id(c), update.len() as int);
    if e >= 0 {
        T::writing(c, T::row_id(c), update[e].1);
    }
}

/// What the removals and the updates of a plan make of its rows is what is kept of them.
proof fn lemma_kept_rows<T: Table>(
    current: Seq<T::CurrentView>,
    plan: PlanView<T::DesiredView>,
    n: int,
)
    requires
        0 <= n <= current.len(),
    ensures
        all_updated::<T>(current.take(n).filter(not_in::<T>(plan.remove)), plan.update)
            == rows_kept::<T>(current, plan, n),
    decreases n,
{
    reveal(Seq::filter);
    let p = not_in::<T>(plan.remove);
    if n > 0 {
        lemma_kept_rows::<T>(current, plan, n - 1);
        assert(current.take(n).drop_last() =~= current.take(n - 1));
        let c = current[n - 1];
        assert(current.take(n).last() == c);
        let before = current.take(n - 1).filter(p);
        if p(c) {
            assert(all_updated::<T>(before.push(c), plan.update) =~= all_updated::<T>(
                before,
                plan.update,
            ).push(updated::<T>(c, plan.update)));
            assert(updated::<T>(c, plan.update) == row_after::<T>(c, plan));
        }
    } else {
        assert(all_updated::<T>(current.take(0).filter(p), plan.update) =~= Seq::<
            T::CurrentView,
        >::empty());
    }
}

/// Whether an update is for one of the rows, and for the wish that the row's key has.
pub open spec fn is_update_for<T: Table>(
    current: Seq<T::CurrentView>,
    desired: Seq<T::DesiredView>,
    n: int,
    u: (Seq<char>, T::DesiredView),
) -> bool {
    exists|i: int|
        0 <= i < n && T::row_id(#[trigger] current[i]) == u.0 && wish::<T>(
            desired,
            T::current_key(current[i]),
        ) >= 0 && u.1 == desired[wish::<T>(desired, T::current_key(current[i]))]
}

proof fn lemma_plan_updates<T: Table>(
    current: Seq<T::CurrentView>,
    desired: Seq<T::DesiredView>,
    n: int,
)
    requires
        0 <= n <= current.len(),
        distinct_ids::<T>(current),
    ensures
        forall|k: int|
            0 <= k < updates::<T>(current, desired, n).len() ==> is_update_for::<T>(
                current,
                desired,
                n,
                #[trigger] updates::<T>(current, desired, n)[k],
            ),
        distinct_updates(updates::<T>(current, desired, n)),
    decreases n,
{
    if n > 0 {
        lemma_plan_updates::<T>(current, desired, n - 1);
        let before = updates::<T>(current, desired, n - 1);
        let after = updates::<T>(current, desired, n);
        assert forall|k: int| 0 <= k < after.len() implies is_update_for::<T>(
            current,
            desired,
            n,
            #[trigger] after[k],
        ) by {
            if k < before.len() {
                assert(after[k] == before[k]);
                assert(is_update_for::<T>(current, desired, n - 1, before[k]));
                let i = choose|i: int|
                    0 <= i < n - 1 && T::row_id(#[trigger] current[i]) == before[k].0 && wish::<T>(
                        desired,
                        T::current_key(current[i]),
                    ) >= 0 && before[k].1 == desired[wish::<T>(
                        desired,
                        T::current_key(current[i]),
                    )];
                assert(T::row_id(current[i]) == after[k].0);
            } else {
                assert(T::row_id(current[n - 1]) == after[k].0);
            }
        }
        assert forall|a: int, b: int| 0 <= a < b < after.len() implies (#[trigger] after[a]).0
            != (#[trigger] after[b]).0 by {
            assert(after[a] == before[a]);
            if b < before.len() {
                assert(after[b] == before[b]);
            } else {
                assert(is_update_for::<T>(current, desired, n - 1, before[a]));
                let i = choose|i: int|
                    0 <= i < n - 1 && T::row_id(#[trigger] current[i]) == before[a].0 && wish::<T>(
                        desired,
                        T::current_key(current[i]),
                    ) >= 0 && before[a].1 == desired[wish::<T>(
                        desired,
                        T::current_key(current[i]),
                    )];
                assert(T::row_id(current[i]) != T::row_id(current[n - 1]));
            }
        }
    }
}

proof fn lemma_plan_additions<T: Table>(
    current: Seq<T::CurrentView>,
    desired: Seq<T::DesiredView>,
    n: int,
)
    requires
        0 <= n <= desired.len(),
    ensures
        forall|k: int|
            0 <= k < additions::<T>(current, desired, n).len() ==> desired.contains(
                #[trigger] additions::<T>(current, desired, n)[k],
            ),
    decreases n,
{
    if n > 0 {
        lemma_plan_additions::<T>(current, desired, n - 1);
        let before = additions::<T>(current, desired, n - 1);
        let after = additions::<T>(current, desired, n);
        assert forall|k: int| 0 <= k < after.len() implies desired.contains(
            #[trigger] after[k],
        ) by {
            if k < before.len() {
                assert(after[k] == before[k]);
            } else {
                assert(desired[n - 1] == after[k]);
            }
        }
    }
}

proof fn lemma_filter_distinct<T: Table>(
    s: Seq<T::CurrentView>,
    keep: spec_fn(T::CurrentView) -> bool,
)
    requires
        distinct_ids::<T>(s),
    ensures
        distinct_ids::<T>(s.filter(keep)),
    decreases s.len(),
{
    reveal(Seq::filter);
    if s.len() > 0 {
        let t = s.drop_last();
        assert forall|i: int, j: int| 0 <= i < j < t.len() implies T::row_id(#[trigger] t[i])
            != T::row_id(#[trigger] t[j]) by {
            assert(t[i] == s[i] && t[j] == s[j]);
        }
        lemma_filter_distinct::<T>(t, keep);
        let before = t.filter(keep);
        let after = s.filter(keep);
        assert forall|i: int, j: int| 0 <= i < j < after.len() implies T::row_id(
            #[trigger] after[i],
        ) != T::row_id(#[trigger] after[j]) by {
            if j < before.len() {
                assert(after[i] == before[i] && after[j] == before[j]);
            } else {
                assert(after[i] == before[i]);
                assert(before.contains(before[i]));
                lemma_filter_contains(t, keep, before[i]);
                let m = choose|m: int| 0 <= m < t.len() && t[m] == before[i];
                assert(s[m] == before[i]);
                assert(s[s.len() - 1] == after[j]);
                assert(T::row_id(s[m]) != T::row_id(s[s.len() - 1]));
            }
        }
    }
}

/// Whether the device gives none of the new rows the id of a row that it has.
pub open spec fn fresh<T: Table>(all: Seq<T::CurrentView>, ids: Seq<Seq<char>>) -> bool {
    forall|i: int, j: int|
        0 <= i < all.len() && 0 <= j < ids.len() ==> T::row_id(#[trigger] all[i])
            != #[trigger] ids[j]
}

/// What a plan makes of all the rows of a table.
pub open spec fn outcome_rows<T: Table>(
    all: Seq<T::CurrentView>,
    plan: PlanView<T::DesiredView>,
    ids: Seq<Seq<char>>,
) -> Seq<T::CurrentView> {
    all_updated::<T>(all.filter(not_in::<T>(plan.remove)), plan.update) + all_created::<T>(
        ids,
        plan.add,
    )
}

/// Whether a plan can be carried out on the rows: its updates are for rows that have the keys, its
/// rows can be written, and the new ids are none that it speaks of.
spec fn feasible<T: Table>(
    w: Wire<T::CurrentView, T::DesiredView>,
    all: Seq<T::CurrentView>,
    plan: PlanView<T::DesiredView>,
    ids: Seq<Seq<char>>,
) -> bool {
    &&& distinct_updates(plan.update)
    &&& matching::<T>(all, plan.update)
    &&& forall|k: int| 0 <= k < plan.update.len() ==> (w.valid)((#[trigger] plan.update[k]).1)
    &&& forall|k: int| 0 <= k < plan.add.len() ==> (w.valid)(#[trigger] plan.add[k])
    &&& ids.len() == plan.add.len()
    &&& forall|j: int| 0 <= j < ids.len() ==> !plan.remove.contains(#[trigger] ids[j])
    &&& forall|j: int, k: int|
        0 <= j < ids.len() && 0 <= k < plan.update.len() ==> #[trigger] ids[j] != (
        #[trigger] plan.update[k]).0
}

proof fn lemma_feasible<T: Table>(
    w: Wire<T::CurrentView, T::DesiredView>,
    all: Seq<T::CurrentView>,
    keep: spec_fn(T::CurrentView) -> bool,
    desired: Seq<T::DesiredView>,
    ids: Seq<Seq<char>>,
)
    requires
        distinct_ids::<T>(all),
        forall|j: int| 0 <= j < desired.len() ==> (w.valid)(#[trigger] desired[j]),
        fresh::<T>(all, ids),
        ids.len() == plan_of::<T>(all.filter(keep), desired).add.len(),
    ensures
        feasible::<T>(w, all, plan_of::<T>(all.filter(keep), desired), ids),
{
    let current = all.filter(keep);
    let plan = plan_of::<T>(current, desired);
    lemma_filter_distinct::<T>(all, keep);
    lemma_plan_updates::<T>(current, desired, current.len() as int);
    lemma_plan_additions::<T>(current, desired, desired.len() as int);
    law_plan_touches_only_current_rows::<T>(current, desired);
    assert forall|id: Seq<char>| has_id::<T>(current, id) implies has_id::<T>(all, id) by {
        let i = choose|i: int| 0 <= i < current.len() && T::row_id(#[trigger] current[i]) == id;
        assert(current.contains(current[i]));
        lemma_filter_contains(all, keep, current[i]);
        let m = choose|m: int| 0 <= m < all.len() && all[m] == current[i];
        assert(T::row_id(all[m]) == id);
    }
    assert forall|k: int| 0 <= k < plan.update.len() implies (w.valid)(
        (#[trigger] plan.update[k]).1,
    ) by {
        let i = choose|i: int|
            0 <= i < current.len() && T::row_id(#[trigger] current[i]) == plan.update[k].0
                && wish::<T>(desired, T::current_key(current[i])) >= 0 && plan.update[k].1
                == desired[wish::<T>(desired, T::current_key(current[i]))];
        lemma_wish::<T>(desired, T::current_key(current[i]), desired.len() as int);
    }
    assert forall|k: int| 0 <= k < plan.add.len() implies (w.valid)(#[trigger] plan.add[k]) by {
        let j = choose|j: int| 0 <= j < desired.len() && desired[j] == plan.add[k];
        assert((w.valid)(desired[j]));
    }
    assert forall|i: int, k: int|
        0 <= i < all.len() && 0 <= k < plan.update.len() && T::row_id(#[trigger] all[i]) == (
        #[trigger] plan.update[k]).0 implies T::current_key(all[i]) == T::desired_key(
        plan.update[k].1,
    ) by {
        let j = choose|j: int|
            0 <= j < current.len() && T::row_id(#[trigger] current[j]) == plan.update[k].0
                && wish::<T>(desired, T::current_key(current[j])) >= 0 && plan.update[k].1
                == desired[wish::<T>(desired, T::current_key(current[j]))];
        assert(current.contains(current[j]));
        lemma_filter_contains(all, keep, current[j]);
        let m = choose|m: int| 0 <= m < all.len() && all[m] == current[j];
        if m < i {
            assert(T::row_id(all[m]) != T::row_id(all[i]));
        } else if i < m {
            assert(T::row_id(all[i]) != T::row_id(all[m]));
        }
        lemma_wish::<T>(desired, T::current_key(all[i]), desired.len() as int);
    }
    assert forall|j: int| 0 <= j < ids.len() implies !plan.remove.contains(#[trigger] ids[j]) by {
        if plan.remove.contains(ids[j]) {
            assert(has_id::<T>(all, ids[j]));
            let i = choose|i: int| 0 <= i < all.len() && T::row_id(#[trigger] all[i]) == ids[j];
            assert(T::row_id(all[i]) != ids[j]);
        }
    }
    assert forall|j: int, k: int|
        0 <= j < ids.len() && 0 <= k < plan.update.len() implies #[trigger] ids[j] != (
    #[trigger] plan.update[k]).0 by {
        assert(has_id::<T>(all, plan.update[k].0));
        let i = choose|i: int|
            0 <= i < all.len() && T::row_id(#[trigger] all[i]) == plan.update[k].0;
        assert(T::row_id(all[i]) != ids[j]);
    }
}

proof fn lemma_created_untouched<T: Table>(
    w: Wire<T::CurrentView, T::DesiredView>,
    all: Seq<T::CurrentView>,
    plan: PlanView<T::DesiredView>,
    ids: Seq<Seq<char>>,
)
    requires
        feasible::<T>(w, all, plan, ids),
    ensures
        all_updated::<T>(all_created::<T>(ids, plan.add), plan.update) == all_created::<T>(
            ids,
            plan.add,
        ),
        all_created::<T>(ids, plan.add).filter(not_in::<T>(plan.remove)) == all_created::<T>(
            ids,
            plan.add,
        ),
        forall|j: int|
            0 <= j < ids.len() ==> T::row_id(#[trigger] all_created::<T>(ids, plan.add)[j])
                == ids[j],
{
    let created = all_created::<T>(ids, plan.add);
    assert forall|j: int| 0 <= j < ids.len() implies T::row_id(#[trigger] created[j]) == ids[j]
        && updated::<T>(created[j], plan.update) == created[j] && not_in::<T>(plan.remove)(
        created[j],
    ) by {
        T::writing(created[j], ids[j], plan.add[j]);
        lemma_update_before(plan.update, ids[j], plan.update.len() as int);
        let e = update_before(plan.update, ids[j], plan.update.len() as int);
        if e >= 0 {
            assert(ids[j] != plan.update[e].0);
        }
    }
    assert(all_updated::<T>(created, plan.update) =~= created);
    lemma_filter_all(created, not_in::<T>(plan.remove));
}

/// The requests of a plan: removals first in a table of our own, last in a shared one.
pub open spec fn requests_of<C, D>(w: Wire<C, D>, plan: PlanView<D>, shared: bool) -> Seq<
    RequestView,
> {
    if shared {
        adding(w, plan.add) + setting(w, plan.update) + removing(w.path, plan.remove)
    } else {
        removing(w.path, plan.remove) + adding(w, plan.add) + setting(w, plan.update)
    }
}

/// Those of the ids that the device gives while it carries out the requests of a plan that go to
/// the rows that are added.
pub open spec fn ids_taken<V>(plan: PlanView<V>, new_ids: Seq<Seq<char>>, shared: bool) -> Seq<
    Seq<char>,
> {
    let first = if shared {
        0int
    } else {
        plan.remove.len() as int
    };
    new_ids.subrange(first, first + plan.add.len())
}

/// The table once the requests of a plan have been carried out.
pub open spec fn settled_table<C, D>(
    w: Wire<C, D>,
    rows: Seq<RowView>,
    plan: PlanView<D>,
    new_ids: Seq<Seq<char>>,
    shared: bool,
) -> Seq<RowView> {
    let requests = requests_of(w, plan, shared);
    carried_out(w.path, rows, requests, new_ids, requests.len() as int)
}

/// Whether the id that the device gives a row that it adds to the table is none that the table
/// has.
pub open spec fn gives_new_ids(
    path: Seq<char>,
    rows: Seq<RowView>,
    requests: Seq<RequestView>,
    new_ids: Seq<Seq<char>>,
) -> bool {
    forall|i: int, k: int|
        0 <= i < rows.len() && 0 <= k < requests.len() && requests[k].word == path + "/add"@
            ==> value_of(#[trigger] rows[i], ".id"@) != Some(#[trigger] new_ids[k])
}

proof fn lemma_fresh<T: Table>(
    w: Wire<T::CurrentView, T::DesiredView>,
    rows: Seq<RowView>,
    plan: PlanView<T::DesiredView>,
    new_ids: Seq<Seq<char>>,
    shared: bool,
)
    requires
        faithful::<T>(w),
        readable(w, rows),
        new_ids.len() == requests_of(w, plan, shared).len(),
        gives_new_ids(w.path, rows, requests_of(w, plan, shared), new_ids),
    ensures
        fresh::<T>(read(w, rows), ids_taken(plan, new_ids, shared)),
{
    let all = read(w, rows);
    let ids = ids_taken(plan, new_ids, shared);
    let requests = requests_of(w, plan, shared);
    assert forall|i: int, j: int| 0 <= i < all.len() && 0 <= j < ids.len() implies T::row_id(
        #[trigger] all[i],
    ) != #[trigger] ids[j] by {
        let k = if shared {
            j
        } else {
            plan.remove.len() + j
        };
        assert(requests[k] == adding(w, plan.add)[j]);
        assert(ids[j] == new_ids[k]);
        assert((w.parse)(rows[i]) == Ok::<T::CurrentView, ErrorView>(all[i]));
        assert(value_of(rows[i], ".id"@) != Some(new_ids[k]));
    }
}

proof fn lemma_settled_own<T: Table>(
    w: Wire<T::CurrentView, T::DesiredView>,
    rows: Seq<RowView>,
    plan: PlanView<T::DesiredView>,
    new_ids: Seq<Seq<char>>,
)
    requires
        faithful::<T>(w),
        readable(w, rows),
        feasible::<T>(w, read(w, rows), plan, ids_taken(plan, new_ids, false)),
        new_ids.len() == requests_of(w, plan, false).len(),
    ensures
        readable(w, settled_table(w, rows, plan, new_ids, false)),
        read(w, settled_table(w, rows, plan, new_ids, false)) == outcome_rows::<T>(
            read(w, rows),
            plan,
            ids_taken(plan, new_ids, false),
        ),
{
    let ids = ids_taken(plan, new_ids, false);
    let all = read(w, rows);
    let p = not_in::<T>(plan.remove);
    let r = removing(w.path, plan.remove);
    let a = adding(w, plan.add);
    let u = setting(w, plan.update);
    let nr = new_ids.take(r.len() as int);
    let nu = new_ids.skip((r.len() + a.len()) as int);
    assert(new_ids =~= nr + ids + nu);
    let created = all_created::<T>(ids, plan.add);
    let first = carried_out(w.path, rows, r, nr, r.len() as int);
    lemma_removing::<T>(w, rows, plan.remove, nr, plan.remove.len() as int);
    assert(plan.remove.take(plan.remove.len() as int) =~= plan.remove);
    let second = carried_out(w.path, first, a, ids, a.len() as int);
    lemma_adding::<T>(w, first, plan.add, ids, plan.add.len() as int);
    assert(created.take(plan.add.len() as int) =~= created);
    lemma_concat(w.path, rows, r, a, nr, ids, a.len() as int);
    let kept = all.filter(p);
    let mid = read(w, second);
    assert(mid == kept + created);
    lemma_created_untouched::<T>(w, all, plan, ids);
    assert forall|i: int, k: int|
        0 <= i < mid.len() && 0 <= k < plan.update.len() && T::row_id(#[trigger] mid[i]) == (
        #[trigger] plan.update[k]).0 implies T::current_key(mid[i]) == T::desired_key(
        plan.update[k].1,
    ) by {
        if i < kept.len() {
            assert(mid[i] == kept[i]);
            assert(kept.contains(kept[i]));
            lemma_filter_contains(all, p, kept[i]);
            let m = choose|m: int| 0 <= m < all.len() && all[m] == kept[i];
            assert(T::row_id(all[m]) == plan.update[k].0);
        } else {
            let j = i - kept.len();
            assert(mid[i] == created[j]);
            assert(ids[j] != plan.update[k].0);
        }
    }
    lemma_setting::<T>(w, second, plan.update, nu, plan.update.len() as int);
    assert(plan.update.take(plan.update.len() as int) =~= plan.update);
    lemma_concat(w.path, rows, r + a, u, nr + ids, nu, u.len() as int);
    assert(all_updated::<T>(kept + created, plan.update) =~= all_updated::<T>(kept, plan.update)
        + all_updated::<T>(created, plan.update));
}

proof fn lemma_settled_shared<T: Table>(
    w: Wire<T::CurrentView, T::DesiredView>,
    rows: Seq<RowView>,
    plan: PlanView<T::DesiredView>,
    new_ids: Seq<Seq<char>>,
)
    requires
        faithful::<T>(w),
        readable(w, rows),
        feasible::<T>(w, read(w, rows), plan, ids_taken(plan, new_ids, true)),
        new_ids.len() == requests_of(w, plan, true).len(),
    ensures
        readable(w, settled_table(w, rows, plan, new_ids, true)),
        read(w, settled_table(w, rows, plan, new_ids, true)) == outcome_rows::<T>(
            read(w, rows),
            plan,
            ids_taken(plan, new_ids, true),
        ),
{
    let ids = ids_taken(plan, new_ids, true);
    let all = read(w, rows);
    let p = not_in::<T>(plan.remove);
    let r = removing(w.path, plan.remove);
    let a = adding(w, plan.add);
    let u = setting(w, plan.update);
    let nu = new_ids.subrange(a.len() as int, (a.len() + u.len()) as int);
    let nr = new_ids.skip((a.len() + u.len()) as int);
    assert(new_ids =~= ids + nu + nr);
    let created = all_created::<T>(ids, plan.add);
    let first = carried_out(w.path, rows, a, ids, a.len() as int);
    lemma_adding::<T>(w, rows, plan.add, ids, plan.add.len() as int);
    assert(created.take(plan.add.len() as int) =~= created);
    let mid = read(w, first);
    assert(mid == all + created);
    lemma_created_untouched::<T>(w, all, plan, ids);
    assert forall|i: int, k: int|
        0 <= i < mid.len() && 0 <= k < plan.update.len() && T::row_id(#[trigger] mid[i]) == (
        #[trigger] plan.update[k]).0 implies T::current_key(mid[i]) == T::desired_key(
        plan.update[k].1,
    ) by {
        if i < all.len() {
            assert(mid[i] == all[i]);
        } else {
            let j = i - all.len();
            assert(mid[i] == created[j]);
            assert(ids[j] != plan.update[k].0);
        }
    }
    let second = carried_out(w.path, first, u, nu, u.len() as int);
    lemma_setting::<T>(w, first, plan.update, nu, plan.update.len() as int);
    assert(plan.update.take(plan.update.len() as int) =~= plan.update);
    lemma_concat(w.path, rows, a, u, ids, nu, u.len() as int);
    assert(all_updated::<T>(all + created, plan.update) =~= all_updated::<T>(all, plan.update)
        + all_updated::<T>(created, plan.update));
    lemma_removing::<T>(w, second, plan.remove, nr, plan.remove.len() as int);
    assert(plan.remove.take(plan.remove.len() as int) =~= plan.remove);
    lemma_concat(w.path, rows, a + u, r, ids + nu, nr, r.len() as int);
    lemma_filter_concat(all_updated::<T>(all, plan.update), created, p);
    assert forall|i: int| 0 <= i < all.len() implies p(
        updated::<T>(#[trigger] all[i], plan.update),
    ) == p(all[i]) by {
        lemma_updated_id::<T>(all[i], plan.update);
    }
    lemma_filter_updated::<T>(all, plan.update, p);
}

/// Whether a test by which a table's rows are told to be this tool's goes by their keys.
pub open spec fn by_key<T: Table>(keep: spec_fn(T::CurrentView) -> bool) -> bool {
    forall|a: T::CurrentView, b: T::CurrentView|
        #![trigger keep(a), keep(b)]
        T::current_key(a) == T::current_key(b) ==> keep(a) == keep(b)
}

/// Whether a row is told to be this tool's once it has been added.
pub open spec fn seen<T: Table>(
    keep: spec_fn(T::CurrentView) -> bool,
    d: T::DesiredView,
) -> bool {
    keep(T::created(Seq::empty(), d))
}

/// What a test does not hold of.
pub open spec fn unless<V>(keep: spec_fn(V) -> bool) -> spec_fn(V) -> bool {
    |x: V| !keep(x)
}

/// Whether a run can make the table what it should be: what is written is what is read, every row
/// can be read and no two have the same id, the desired rows can be written, each row that is
/// updated takes what it is set to, and the device gives ids of its own to the rows that are added.
pub open spec fn can_converge<T: Table>(
    w: Wire<T::CurrentView, T::DesiredView>,
    rows: Seq<RowView>,
    keep: spec_fn(T::CurrentView) -> bool,
    desired: Seq<T::DesiredView>,
    new_ids: Seq<Seq<char>>,
    shared: bool,
) -> bool {
    let current = read(w, rows).filter(keep);
    let requests = requests_of(w, plan_of::<T>(current, desired), shared);
    &&& faithful::<T>(w)
    &&& readable(w, rows)
    &&& distinct_ids::<T>(read(w, rows))
    &&& updatable::<T>(current, desired)
    &&& forall|j: int| 0 <= j < desired.len() ==> (w.valid)(#[trigger] desired[j])
    &&& by_key::<T>(keep)
    &&& new_ids.len() == requests.len()
    &&& gives_new_ids(w.path, rows, requests, new_ids)
}

/// Once the requests of a plan have been carried out, the table can be read, and the next plan
/// updates and removes nothing: it only adds what is never told to be this tool's. The rows that
/// were not this tool's are as they were, in front of any of those that were added.
pub proof fn law_second_run_only_adds_unseen_rows<T: Table>(
    w: Wire<T::CurrentView, T::DesiredView>,
    rows: Seq<RowView>,
    keep: spec_fn(T::CurrentView) -> bool,
    desired: Seq<T::DesiredView>,
    new_ids: Seq<Seq<char>>,
    shared: bool,
)
    requires
        can_converge::<T>(w, rows, keep, desired, new_ids, shared),
    ensures
        ({
            let plan = plan_of::<T>(read(w, rows).filter(keep), desired);
            let after = settled_table(w, rows, plan, new_ids, shared);
            let next = plan_of::<T>(read(w, after).filter(keep), desired);
            let others = read(w, after).filter(unless(keep));
            &&& readable(w, after)
            &&& next.remove.len() == 0
            &&& next.update.len() == 0
            &&& forall|k: int|
                0 <= k < next.add.len() ==> desired.contains(#[trigger] next.add[k])
                    && !seen::<T>(keep, next.add[k])
            &&& read(w, rows).filter(unless(keep)).is_prefix_of(others)
            &&& (forall|j: int| 0 <= j < desired.len() ==> seen::<T>(keep, #[trigger] desired[j]))
                ==> read(w, rows).filter(unless(keep)) == others
        }),
{
    let all = read(w, rows);
    let current = all.filter(keep);
    let plan = plan_of::<T>(current, desired);
    let ids = ids_taken(plan, new_ids, shared);
    let p = not_in::<T>(plan.remove);
    let created = all_created::<T>(ids, plan.add);
    lemma_fresh::<T>(w, rows, plan, new_ids, shared);
    lemma_feasible::<T>(w, all, keep, desired, ids);
    if shared {
        lemma_settled_shared::<T>(w, rows, plan, new_ids);
    } else {
        lemma_settled_own::<T>(w, rows, plan, new_ids);
    }
    let after = settled_table(w, rows, plan, new_ids, shared);
    let left = all.filter(p);
    let changed = all_updated::<T>(left, plan.update);
    assert(read(w, after) == changed + created);
    lemma_filter_distinct::<T>(all, keep);
    lemma_plan_updates::<T>(current, desired, current.len() as int);
    lemma_plan_additions::<T>(current, desired, desired.len() as int);
    lemma_filter_concat(changed, created, keep);
    assert forall|i: int| 0 <= i < left.len() implies keep(
        updated::<T>(#[trigger] left[i], plan.update),
    ) == keep(left[i]) by {
        let c = left[i];
        assert(left.contains(c));
        lemma_filter_contains(all, p, c);
        lemma_update_before(plan.update, T::row_id(c), plan.update.len() as int);
        let e = update_before(plan.update, T::row_id(c), plan.update.len() as int);
        if e >= 0 {
            let m = choose|m: int| 0 <= m < all.len() && all[m] == c;
            assert(T::row_id(all[m]) == plan.update[e].0);
            assert(T::current_key(c) == T::desired_key(plan.update[e].1));
            T::writing(c, T::row_id(c), plan.update[e].1);
        }
    }
    lemma_filter_updated::<T>(left, plan.update, keep);
    let both = |c: T::CurrentView| p(c) && keep(c);
    lemma_filter_twice(all, p, keep, both);
    lemma_filter_twice(all, keep, p, both);
    lemma_kept_rows::<T>(current, plan, current.len() as int);
    assert(current.take(current.len() as int) =~= current);
    let kept = rows_kept::<T>(current, plan, current.len() as int);
    assert(changed.filter(keep) == kept);
    let whole = applied::<T>(current, plan, ids);
    assert(whole =~= kept + created);
    lemma_filter_twice(changed, keep, keep, keep);
    lemma_filter_concat(kept, created, keep);
    assert(read(w, after).filter(keep) == whole.filter(keep));
    law_plan_converges::<T>(current, desired, ids);
    law_hidden_rows_are_added_again::<T>(whole, keep, desired);
    let next = plan_of::<T>(read(w, after).filter(keep), desired);
    assert forall|k: int| 0 <= k < next.add.len() implies desired.contains(#[trigger] next.add[k])
        && !seen::<T>(keep, next.add[k]) by {
        let d = next.add[k];
        assert(hidden_row::<T>(whole, keep, T::desired_key(d)));
        let i = choose|i: int|
            0 <= i < whole.len() && T::current_key(#[trigger] whole[i]) == T::desired_key(d)
                && !keep(whole[i]);
        T::writing(whole[i], Seq::empty(), d);
        assert(keep(whole[i]) == keep(T::created(Seq::empty(), d)));
    }
    let foreign = unless(keep);
    let others = all.filter(foreign);
    lemma_filter_concat(changed, created, foreign);
    lemma_filter_updated::<T>(left, plan.update, foreign);
    let apart = |c: T::CurrentView| p(c) && foreign(c);
    lemma_filter_twice(all, p, foreign, apart);
    lemma_filter_twice(all, foreign, p, apart);
    assert forall|i: int| 0 <= i < others.len() implies p(#[trigger] others[i]) && updated::<T>(
        others[i],
        plan.update,
    ) == others[i] by {
        let c = others[i];
        assert(others.contains(c));
        lemma_filter_contains(all, foreign, c);
        let m = choose|m: int| 0 <= m < all.len() && all[m] == c;
        law_rows_left_out_are_not_touched::<T>(all, keep, desired, m);
        lemma_update_before(plan.update, T::row_id(c), plan.update.len() as int);
    }
    lemma_filter_all(others, p);
    assert(all_updated::<T>(others, plan.update) =~= others);
    assert(read(w, after).filter(foreign) == others + created.filter(foreign));
    if forall|j: int| 0 <= j < desired.len() ==> seen::<T>(keep, #[trigger] desired[j]) {
        assert forall|j: int| 0 <= j < created.len() implies !foreign(#[trigger] created[j]) by {
            let k = choose|k: int| 0 <= k < desired.len() && desired[k] == plan.add[j];
            assert(seen::<T>(keep, desired[k]));
            T::writing(created[j], ids[j], plan.add[j]);
            T::writing(created[j], Seq::empty(), plan.add[j]);
            assert(keep(created[j]) == keep(T::created(Seq::empty(), plan.add[j])));
        }
        lemma_filter_none(created, foreign);
        assert(read(w, after).filter(foreign) =~= others);
    }
}

/// Where every desired row is told to be this tool's once it is there, the next plan is empty: a
/// second run finds nothing to do. The rows that are not this tool's are as they were.
pub proof fn law_second_run_finds_nothing<T: Table>(
    w: Wire<T::CurrentView, T::DesiredView>,
    rows: Seq<RowView>,
    keep: spec_fn(T::CurrentView) -> bool,
    desired: Seq<T::DesiredView>,
    new_ids: Seq<Seq<char>>,
    shared: bool,
)
    requires
        can_converge::<T>(w, rows, keep, desired, new_ids, shared),
        forall|j: int| 0 <= j < desired.len() ==> seen::<T>(keep, #[trigger] desired[j]),
    ensures
        ({
            let plan = plan_of::<T>(read(w, rows).filter(keep), desired);
            let after = settled_table(w, rows, plan, new_ids, shared);
            &&& readable(w, after)
            &&& plan_of::<T>(read(w, after).filter(keep), desired).is_empty()
            &&& read(w, after).filter(unless(keep)) == read(w, rows).filter(unless(keep))
        }),
{
    law_second_run_only_adds_unseen_rows::<T>(w, rows, keep, desired, new_ids, shared);
    let plan = plan_of::<T>(read(w, rows).filter(keep), desired);
    let after = settled_table(w, rows, plan, new_ids, shared);
    let next = plan_of::<T>(read(w, after).filter(keep), desired);
    if next.add.len() > 0 {
        assert(desired.contains(next.add[0]));
        let j = choose|j: int| 0 <= j < desired.len() && desired[j] == next.add[0];
        assert(seen::<T>(keep, desired[j]));
    }
}

} // verus!
