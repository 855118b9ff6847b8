//! What to do to a table so that it has the rows it should have, and why that converges.

use vstd::prelude::*;

verus! {

/// What to do to a table: `update` and `remove` carry the `.id` of the row to act on, `add` only
/// what the new row should be.
#[derive(Debug, Clone, PartialEq, Eq)]
pub struct Plan<D> {
    pub add: Vec<D>,
    pub update: Vec<(String, D)>,
    pub remove: Vec<String>,
}

/// What a [`Plan`] is.
#[verifier::ext_equal]
pub struct PlanView<V> {
    pub add: Seq<V>,
    pub update: Seq<(Seq<char>, V)>,
    pub remove: Seq<Seq<char>>,
}

impl<D: DeepView> DeepView for Plan<D> {
    type V = PlanView<D::V>;

    open spec fn deep_view(&self) -> PlanView<D::V> {
        PlanView {
            add: self.add.deep_view(),
            update: self.update.deep_view(),
            remove: self.remove.deep_view(),
        }
    }
}

impl<V> PlanView<V> {
    /// Whether the plan leaves the table as it is.
    pub open spec fn is_empty(self) -> bool {
        self.add.len() == 0 && self.update.len() == 0 && self.remove.len() == 0
    }
}

impl<D> Plan<D> {
    /// Whether the plan leaves the table as it is.
    pub fn is_empty(&self) -> (r: bool)
        ensures
            r == (self.add@.len() == 0 && self.update@.len() == 0 && self.remove@.len() == 0),
    {
        self.add.is_empty() && self.update.is_empty() && self.remove.is_empty()
    }
}

/// A table of rows that are found again by a key.
pub trait Table: Sized {
    /// What a row that was read is.
    type CurrentView;

    /// What a row should be.
    type DesiredView;

    /// A row that was read.
    type Current: DeepView<V = Self::CurrentView>;

    /// A row as it should be.
    type Desired: DeepView<V = Self::DesiredView>;

    /// What a row is found by.
    type Key;

    spec fn current_key(c: Self::CurrentView) -> Self::Key;

    spec fn desired_key(d: Self::DesiredView) -> Self::Key;

    /// The `.id` of a row.
    spec fn row_id(c: Self::CurrentView) -> Seq<char>;

    /// Whether a row already is what it should be, apart from its key.
    spec fn settled(c: Self::CurrentView, d: Self::DesiredView) -> bool;

    /// Whether setting the row `c` to `d` writes every field in which they differ.
    spec fn takes(c: Self::CurrentView, d: Self::DesiredView) -> bool;

    /// The row `c` once it has been set to `d`.
    spec fn written(c: Self::CurrentView, d: Self::DesiredView) -> Self::CurrentView;

    /// The row that adding `d` creates under `id`, with nothing in it but what was written.
    spec fn created(id: Seq<char>, d: Self::DesiredView) -> Self::CurrentView;

    /// Setting and adding a row keep its key and its `.id`. Adding makes it what it should be, and
    /// setting does where it writes every field in which they differ, and only there.
    proof fn writing(c: Self::CurrentView, id: Seq<char>, d: Self::DesiredView)
        ensures
            Self::current_key(c) == Self::desired_key(d) ==> Self::current_key(Self::written(c, d))
                == Self::desired_key(d),
            Self::row_id(Self::written(c, d)) == Self::row_id(c),
            Self::takes(c, d) == Self::settled(Self::written(c, d), d),
            Self::current_key(Self::created(id, d)) == Self::desired_key(d),
            Self::row_id(Self::created(id, d)) == id,
            Self::settled(Self::created(id, d), d),
    ;

    fn is_for(c: &Self::Current, d: &Self::Desired) -> (r: bool)
        ensures
            r == (Self::current_key(c.deep_view()) == Self::desired_key(d.deep_view())),
    ;

    fn same_row(a: &Self::Current, b: &Self::Current) -> (r: bool)
        ensures
            r == (Self::current_key(a.deep_view()) == Self::current_key(b.deep_view())),
    ;

    fn same_wish(a: &Self::Desired, b: &Self::Desired) -> (r: bool)
        ensures
            r == (Self::desired_key(a.deep_view()) == Self::desired_key(b.deep_view())),
    ;

    fn id_of(c: &Self::Current) -> (r: String)
        ensures
            r@ == Self::row_id(c.deep_view()),
    ;

    fn unchanged(c: &Self::Current, d: &Self::Desired) -> (r: bool)
        ensures
            r == Self::settled(c.deep_view(), d.deep_view()),
    ;

    fn copy_of(d: &Self::Desired) -> (r: Self::Desired)
        ensures
            r.deep_view() == d.deep_view(),
    ;
}

/// The last of the first `n` desired rows with the key `k`; `-1` if there is none. Where several
/// desired rows share a key, the last one stands.
pub open spec fn wish_before<T: Table>(desired: Seq<T::DesiredView>, k: T::Key, n: int) -> int
    decreases n,
{
    if n <= 0 {
        -1
    } else if T::desired_key(desired[n - 1]) == k {
        n - 1
    } else {
        wish_before::<T>(desired, k, n - 1)
    }
}

/// The desired row with the key `k`, by its index; `-1` if there is none.
pub open spec fn wish<T: Table>(desired: Seq<T::DesiredView>, k: T::Key) -> int {
    wish_before::<T>(desired, k, desired.len() as int)
}

/// Whether the current row `i` stays: a row with its key is desired, and it is the first current
/// row with that key.
pub open spec fn stays<T: Table>(
    current: Seq<T::CurrentView>,
    desired: Seq<T::DesiredView>,
    i: int,
) -> bool {
    &&& wish::<T>(desired, T::current_key(current[i])) >= 0
    &&& forall|j: int|
        0 <= j < i ==> T::current_key(#[trigger] current[j]) != T::current_key(current[i])
}

/// The ids of those of the first `n` current rows that do not stay.
pub open spec fn removals<T: Table>(
    current: Seq<T::CurrentView>,
    desired: Seq<T::DesiredView>,
    n: int,
) -> Seq<Seq<char>>
    decreases n,
{
    if n <= 0 {
        Seq::empty()
    } else {
        let before = removals::<T>(current, desired, n - 1);
        if stays::<T>(current, desired, n - 1) {
            before
        } else {
            before.push(T::row_id(current[n - 1]))
        }
    }
}

/// Those of the first `n` current rows that stay and are not what they should be, by their ids,
/// with what they should be.
pub open spec fn updates<T: Table>(
    current: Seq<T::CurrentView>,
    desired: Seq<T::DesiredView>,
    n: int,
) -> Seq<(Seq<char>, T::DesiredView)>
    decreases n,
{
    if n <= 0 {
        Seq::empty()
    } else {
        let before = updates::<T>(current, desired, n - 1);
        let c = current[n - 1];
        let d = desired[wish::<T>(desired, T::current_key(c))];
        if stays::<T>(current, desired, n - 1) && !T::settled(c, d) {
            before.push((T::row_id(c), d))
        } else {
            before
        }
    }
}

/// Whether the desired row `j` is added: it is the one that stands for its key, and no current
/// row has that key.
pub open spec fn is_new<T: Table>(
    current: Seq<T::CurrentView>,
    desired: Seq<T::DesiredView>,
    j: int,
) -> bool {
    &&& wish::<T>(desired, T::desired_key(desired[j])) == j
    &&& forall|i: int|
        0 <= i < current.len() ==> T::current_key(#[trigger] current[i]) != T::desired_key(
            desired[j],
        )
}

/// Those of the first `n` desired rows that are added.
pub open spec fn additions<T: Table>(
    current: Seq<T::CurrentView>,
    desired: Seq<T::DesiredView>,
    n: int,
) -> Seq<T::DesiredView>
    decreases n,
{
    if n <= 0 {
        Seq::empty()
    } else {
        let before = additions::<T>(current, desired, n - 1);
        if is_new::<T>(current, desired, n - 1) {
            before.push(desired[n - 1])
        } else {
            before
        }
    }
}

/// The plan that turns the current rows into the desired ones.
pub open spec fn plan_of<T: Table>(
    current: Seq<T::CurrentView>,
    desired: Seq<T::DesiredView>,
) -> PlanView<T::DesiredView> {
    PlanView {
        add: additions::<T>(current, desired, desired.len() as int),
        update: updates::<T>(current, desired, current.len() as int),
        remove: removals::<T>(current, desired, current.len() as int),
    }
}

/// The index of the desired row that stands for the key of a current row, if there is one.
fn find_wish<T: Table>(c: &T::Current, desired: &[T::Desired]) -> (r: Option<usize>)
    ensures
        match r {
            Some(j) => j < desired@.len() && wish::<T>(
                desired.deep_view(),
                T::current_key(c.deep_view()),
            ) == j,
            None => wish::<T>(desired.deep_view(), T::current_key(c.deep_view())) < 0,
        },
{
    let ghost d = desired.deep_view();
    let ghost k = T::current_key(c.deep_view());
    let mut n: usize = desired.len();
    while n > 0
        invariant
            n <= desired@.len(),
            d == desired.deep_view(),
            k == T::current_key(c.deep_view()),
            wish::<T>(d, k) == wish_before::<T>(d, k, n as int),
        decreases n,
    {
        assert(d[n - 1] == desired[n - 1].deep_view());
        if T::is_for(c, &desired[n - 1]) {
            return Some(n - 1);
        }
        n = n - 1;
    }
    None
}

/// Whether no current row before `i` has the key of the one at `i`.
fn is_first<T: Table>(current: &[T::Current], i: usize) -> (r: bool)
    requires
        i < current@.len(),
    ensures
        r == (forall|j: int|
            0 <= j < i ==> T::current_key(#[trigger] current.deep_view()[j]) != T::current_key(
                current.deep_view()[i as int],
            )),
{
    let ghost c = current.deep_view();
    let mut j: usize = 0;
    while j < i
        invariant
            j <= i < current@.len(),
            c == current.deep_view(),
            forall|k: int|
                0 <= k < j ==> T::current_key(#[trigger] c[k]) != T::current_key(c[i as int]),
        decreases i - j,
    {
        if T::same_row(&current[j], &current[i]) {
            assert(T::current_key(c[j as int]) == T::current_key(c[i as int]));
            return false;
        }
        j = j + 1;
    }
    true
}

/// Whether the desired row `j` is added.
fn wants_new<T: Table>(current: &[T::Current], desired: &[T::Desired], j: usize) -> (r: bool)
    requires
        j < desired@.len(),
    ensures
        r == is_new::<T>(current.deep_view(), desired.deep_view(), j as int),
{
    let ghost c = current.deep_view();
    let ghost d = desired.deep_view();
    let ghost k = T::desired_key(d[j as int]);
    let mut n: usize = desired.len();
    while n > j + 1
        invariant
            j < n <= desired@.len(),
            d == desired.deep_view(),
            k == T::desired_key(d[j as int]),
            wish::<T>(d, k) == wish_before::<T>(d, k, n as int),
        decreases n,
    {
        assert(d[n - 1] == desired[n - 1].deep_view());
        assert(d[j as int] == desired[j as int].deep_view());
        if T::same_wish(&desired[n - 1], &desired[j]) {
            return false;
        }
        n = n - 1;
    }
    assert(wish::<T>(d, k) == j);
    let mut i: usize = 0;
    while i < current.len()
        invariant
            i <= current@.len(),
            j < desired@.len(),
            c == current.deep_view(),
            d == desired.deep_view(),
            k == T::desired_key(d[j as int]),
            wish::<T>(d, k) == j,
            forall|m: int| 0 <= m < i ==> T::current_key(#[trigger] c[m]) != k,
        decreases current@.len() - i,
    {
        if T::is_for(&current[i], &desired[j]) {
            assert(T::current_key(c[i as int]) == k);
            return false;
        }
        i = i + 1;
    }
    true
}

/// Every current row whose key is not desired is removed, and so is every one after the first
/// with its key; every desired row whose key no current row has is added; a key that both have is
/// updated only if the row is not what it should be.
pub fn diff<T: Table>(current: &[T::Current], desired: &[T::Desired]) -> (r: Plan<T::Desired>)
    ensures
        r.deep_view() == plan_of::<T>(current.deep_view(), desired.deep_view()),
{
    let ghost c = current.deep_view();
    let ghost d = desired.deep_view();
    let mut remove: Vec<String> = Vec::new();
    let mut update: Vec<(String, T::Desired)> = Vec::new();
    let mut i: usize = 0;
    assert(remove.deep_view() =~= Seq::<Seq<char>>::empty());
    assert(update.deep_view() =~= Seq::<(Seq<char>, T::DesiredView)>::empty());
    while i < current.len()
        invariant
            i <= current@.len(),
            c == current.deep_view(),
            d == desired.deep_view(),
            remove.deep_view() == removals::<T>(c, d, i as int),
            update.deep_view() == updates::<T>(c, d, i as int),
        decreases current@.len() - i,
    {
        let ghost removed = remove.deep_view();
        let ghost updated = update.deep_view();
        assert(c[i as int] == current[i as int].deep_view());
        match find_wish::<T>(&current[i], desired) {
            Some(j) => {
                assert(d[j as int] == desired[j as int].deep_view());
                if is_first::<T>(current, i) {
                    if !T::unchanged(&current[i], &desired[j]) {
                        update.push((T::id_of(&current[i]), T::copy_of(&desired[j])));
                        assert(update.deep_view() =~= updated.push(
                            (T::row_id(c[i as int]), d[j as int]),
                        ));
                    }
                } else {
                    remove.push(T::id_of(&current[i]));
                    assert(remove.deep_view() =~= removed.push(T::row_id(c[i as int])));
                }
            },
            None => {
                remove.push(T::id_of(&current[i]));
                assert(remove.deep_view() =~= removed.push(T::row_id(c[i as int])));
            },
        }
        i = i + 1;
    }
    let mut add: Vec<T::Desired> = Vec::new();
    let mut j: usize = 0;
    assert(add.deep_view() =~= Seq::<T::DesiredView>::empty());
    while j < desired.len()
        invariant
            j <= desired@.len(),
            c == current.deep_view(),
            d == desired.deep_view(),
            add.deep_view() == additions::<T>(c, d, j as int),
        decreases desired@.len() - j,
    {
        let ghost added = add.deep_view();
        assert(d[j as int] == desired[j as int].deep_view());
        if wants_new::<T>(current, desired, j) {
            add.push(T::copy_of(&desired[j]));
            assert(add.deep_view() =~= added.push(d[j as int]));
        }
        j = j + 1;
    }
    Plan { add, update, remove }
}

/// The last of the first `n` updates that is for the row `id`; `-1` if there is none.
pub open spec fn update_before<V>(update: Seq<(Seq<char>, V)>, id: Seq<char>, n: int) -> int
    decreases n,
{
    if n <= 0 {
        -1
    } else if update[n - 1].0 == id {
        n - 1
    } else {
        update_before(update, id, n - 1)
    }
}

/// A row once the plan's updates have been written.
pub open spec fn row_after<T: Table>(
    c: T::CurrentView,
    plan: PlanView<T::DesiredView>,
) -> T::CurrentView {
    let e = update_before(plan.update, T::row_id(c), plan.update.len() as int);
    if e >= 0 {
        T::written(c, plan.update[e].1)
    } else {
        c
    }
}

/// What is left of the first `n` rows once the plan's removals and updates have been carried out.
pub open spec fn rows_kept<T: Table>(
    current: Seq<T::CurrentView>,
    plan: PlanView<T::DesiredView>,
    n: int,
) -> Seq<T::CurrentView>
    decreases n,
{
    if n <= 0 {
        Seq::empty()
    } else {
        let before = rows_kept::<T>(current, plan, n - 1);
        if plan.remove.contains(T::row_id(current[n - 1])) {
            before
        } else {
            before.push(row_after::<T>(current[n - 1], plan))
        }
    }
}

/// The table once the plan has been carried out, where the device gives the rows that are added
/// the ids `ids`.
pub open spec fn applied<T: Table>(
    current: Seq<T::CurrentView>,
    plan: PlanView<T::DesiredView>,
    ids: Seq<Seq<char>>,
) -> Seq<T::CurrentView> {
    rows_kept::<T>(current, plan, current.len() as int) + Seq::new(
        plan.add.len(),
        |j: int| T::created(ids[j], plan.add[j]),
    )
}

/// Whether every row that stays and is not what it should be takes what it is set to.
pub open spec fn updatable<T: Table>(
    current: Seq<T::CurrentView>,
    desired: Seq<T::DesiredView>,
) -> bool {
    forall|i: int|
        0 <= i < current.len() && #[trigger] stays::<T>(current, desired, i) ==> {
            let d = desired[wish::<T>(desired, T::current_key(current[i]))];
            T::settled(current[i], d) || T::takes(current[i], d)
        }
}

/// Whether no two rows have the same `.id`.
pub open spec fn distinct_ids<T: Table>(current: Seq<T::CurrentView>) -> bool {
    forall|i: int, j: int|
        0 <= i < j < current.len() ==> T::row_id(#[trigger] current[i]) != T::row_id(
            #[trigger] current[j],
        )
}

pub proof fn lemma_wish<T: Table>(desired: Seq<T::DesiredView>, k: T::Key, n: int)
    requires
        0 <= n <= desired.len(),
    ensures
        -1 <= wish_before::<T>(desired, k, n) < n,
        wish_before::<T>(desired, k, n) >= 0 ==> T::desired_key(
            desired[wish_before::<T>(desired, k, n)],
        ) == k,
        forall|j: int|
            0 <= j < n && T::desired_key(#[trigger] desired[j]) == k ==> j <= wish_before::<T>(
                desired,
                k,
                n,
            ),
    decreases n,
{
    if n > 0 && T::desired_key(desired[n - 1]) != k {
        lemma_wish::<T>(desired, k, n - 1);
    }
}

/// A row's id is among the removals exactly if the row does not stay.
proof fn lemma_removals<T: Table>(
    current: Seq<T::CurrentView>,
    desired: Seq<T::DesiredView>,
    n: int,
    i: int,
)
    requires
        0 <= n <= current.len(),
        0 <= i < current.len(),
        distinct_ids::<T>(current),
    ensures
        removals::<T>(current, desired, n).contains(T::row_id(current[i])) == (i < n && !stays::<T>(
            current,
            desired,
            i,
        )),
    decreases n,
{
    if n > 0 {
        lemma_removals::<T>(current, desired, n - 1, i);
        let before = removals::<T>(current, desired, n - 1);
        let id = T::row_id(current[n - 1]);
        let x = T::row_id(current[i]);
        if i != n - 1 {
            assert(current[i] == current[i] && current[n - 1] == current[n - 1]);
            assert(x != id);
        }
        if !stays::<T>(current, desired, n - 1) {
            let after = before.push(id);
            assert(after[before.len() as int] == id);
            if before.contains(x) {
                let m = choose|m: int| 0 <= m < before.len() && before[m] == x;
                assert(after[m] == x);
            }
            if after.contains(x) {
                let m = choose|m: int| 0 <= m < after.len() && after[m] == x;
                if m < before.len() {
                    assert(before[m] == x);
                }
            }
        }
    }
}

/// A row has an update exactly if it stays and is not settled, and then the one that its key
/// wishes for.
proof fn lemma_updates<T: Table>(
    current: Seq<T::CurrentView>,
    desired: Seq<T::DesiredView>,
    n: int,
    i: int,
)
    requires
        0 <= n <= current.len(),
        0 <= i < current.len(),
        distinct_ids::<T>(current),
    ensures
        ({
            let u = updates::<T>(current, desired, n);
            let e = update_before(u, T::row_id(current[i]), u.len() as int);
            let d = desired[wish::<T>(desired, T::current_key(current[i]))];
            if i < n && stays::<T>(current, desired, i) && !T::settled(current[i], d) {
                0 <= e < u.len() && u[e].1 == d
            } else {
                e < 0
            }
        }),
    decreases n,
{
    if n > 0 {
        lemma_updates::<T>(current, desired, n - 1, i);
        let before = updates::<T>(current, desired, n - 1);
        let after = updates::<T>(current, desired, n);
        let id = T::row_id(current[i]);
        let c = current[n - 1];
        let d = desired[wish::<T>(desired, T::current_key(c))];
        if i != n - 1 {
            assert(current[i] == current[i] && current[n - 1] == current[n - 1]);
            assert(T::row_id(c) != id);
        }
        if stays::<T>(current, desired, n - 1) && !T::settled(c, d) {
            assert(after == before.push((T::row_id(c), d)));
            lemma_update_push(before, (T::row_id(c), d), id, before.len() as int);
        }
    }
}

proof fn lemma_update_push<V>(u: Seq<(Seq<char>, V)>, x: (Seq<char>, V), id: Seq<char>, n: int)
    requires
        0 <= n <= u.len(),
    ensures
        update_before(u.push(x), id, n) == update_before(u, id, n),
        update_before(u, id, n) < n,
    decreases n,
{
    if n > 0 {
        lemma_update_push(u, x, id, n - 1);
        assert(u.push(x)[n - 1] == u[n - 1]);
    }
}

/// What `rows` has in common with a table that is as desired, for the keys of the first `n`
/// current rows.
spec fn kept_right<T: Table>(
    rows: Seq<T::CurrentView>,
    current: Seq<T::CurrentView>,
    desired: Seq<T::DesiredView>,
    n: int,
) -> bool {
    &&& forall|k: int|
        0 <= k < rows.len() ==> {
            let key = T::current_key(#[trigger] rows[k]);
            &&& wish::<T>(desired, key) >= 0
            &&& T::settled(rows[k], desired[wish::<T>(desired, key)])
            &&& exists|i: int| 0 <= i < n && T::current_key(#[trigger] current[i]) == key
        }
    &&& forall|k: int, m: int|
        0 <= k < m < rows.len() ==> T::current_key(#[trigger] rows[k]) != T::current_key(
            #[trigger] rows[m],
        )
    &&& forall|i: int|
        0 <= i < n && wish::<T>(desired, T::current_key(#[trigger] current[i])) >= 0 ==> exists|
            k: int,
        |
            0 <= k < rows.len() && T::current_key(#[trigger] rows[k]) == T::current_key(current[i])
}

proof fn lemma_kept<T: Table>(
    current: Seq<T::CurrentView>,
    desired: Seq<T::DesiredView>,
    n: int,
)
    requires
        0 <= n <= current.len(),
        distinct_ids::<T>(current),
        updatable::<T>(current, desired),
    ensures
        kept_right::<T>(
            rows_kept::<T>(current, plan_of::<T>(current, desired), n),
            current,
            desired,
            n,
        ),
    decreases n,
{
    let plan = plan_of::<T>(current, desired);
    if n > 0 {
        lemma_kept::<T>(current, desired, n - 1);
        let before = rows_kept::<T>(current, plan, n - 1);
        let rows = rows_kept::<T>(current, plan, n);
        let c = current[n - 1];
        let key = T::current_key(c);
        let w = wish::<T>(desired, key);
        lemma_removals::<T>(current, desired, current.len() as int, n - 1);
        lemma_updates::<T>(current, desired, current.len() as int, n - 1);
        lemma_wish::<T>(desired, key, desired.len() as int);
        if stays::<T>(current, desired, n - 1) {
            let r = row_after::<T>(c, plan);
            T::writing(c, T::row_id(c), desired[w]);
            assert(T::current_key(r) == key);
            assert(T::settled(r, desired[w]));
            assert(rows == before.push(r));
            assert forall|k: int| 0 <= k < rows.len() implies {
                let key = T::current_key(#[trigger] rows[k]);
                &&& wish::<T>(desired, key) >= 0
                &&& T::settled(rows[k], desired[wish::<T>(desired, key)])
                &&& exists|i: int| 0 <= i < n && T::current_key(#[trigger] current[i]) == key
            } by {
                if k < before.len() {
                    assert(rows[k] == before[k]);
                } else {
                    assert(T::current_key(current[n - 1]) == T::current_key(rows[k]));
                }
            }
            assert forall|k: int, m: int| 0 <= k < m < rows.len() implies T::current_key(
                #[trigger] rows[k],
            ) != T::current_key(#[trigger] rows[m]) by {
                assert(rows[k] == before[k]);
                if m < before.len() {
                    assert(rows[m] == before[m]);
                } else {
                    let i = choose|i: int|
                        0 <= i < n - 1 && T::current_key(#[trigger] current[i]) == T::current_key(
                            before[k],
                        );
                    assert(T::current_key(current[i]) != key);
                }
            }
            assert forall|i: int|
                0 <= i < n && wish::<T>(desired, T::current_key(#[trigger] current[i]))
                    >= 0 implies exists|k: int|
                0 <= k < rows.len() && T::current_key(#[trigger] rows[k]) == T::current_key(
                    current[i],
                ) by {
                if i == n - 1 {
                    assert(T::current_key(rows[before.len() as int]) == key);
                } else {
                    let k = choose|k: int|
                        0 <= k < before.len() && T::current_key(#[trigger] before[k])
                            == T::current_key(current[i]);
                    assert(T::current_key(rows[k]) == T::current_key(current[i]));
                }
            }
        } else {
            assert(rows == before);
            assert forall|i: int|
                0 <= i < n && wish::<T>(desired, T::current_key(#[trigger] current[i]))
                    >= 0 implies exists|k: int|
                0 <= k < rows.len() && T::current_key(#[trigger] rows[k]) == T::current_key(
                    current[i],
                ) by {
                if i == n - 1 {
                    let j = choose|j: int|
                        0 <= j < n - 1 && T::current_key(#[trigger] current[j]) == key;
                    assert(wish::<T>(desired, T::current_key(current[j])) >= 0);
                }
            }
        }
    }
}

/// Whether `d` is one of the first `n` desired rows, and new.
spec fn is_new_row<T: Table>(
    current: Seq<T::CurrentView>,
    desired: Seq<T::DesiredView>,
    n: int,
    d: T::DesiredView,
) -> bool {
    exists|j: int| 0 <= j < n && desired[j] == d && #[trigger] is_new::<T>(current, desired, j)
}

/// Whether `add` holds, once each, the keys of those of the first `n` desired rows that are new.
spec fn added_right<T: Table>(
    add: Seq<T::DesiredView>,
    current: Seq<T::CurrentView>,
    desired: Seq<T::DesiredView>,
    n: int,
) -> bool {
    &&& forall|k: int|
        0 <= k < add.len() ==> is_new_row::<T>(current, desired, n, #[trigger] add[k])
    &&& forall|k: int, m: int|
        0 <= k < m < add.len() ==> T::desired_key(#[trigger] add[k]) != T::desired_key(
            #[trigger] add[m],
        )
    &&& forall|j: int|
        0 <= j < n && #[trigger] is_new::<T>(current, desired, j) ==> add.contains(desired[j])
}

proof fn lemma_added<T: Table>(
    current: Seq<T::CurrentView>,
    desired: Seq<T::DesiredView>,
    n: int,
)
    requires
        0 <= n <= desired.len(),
    ensures
        added_right::<T>(additions::<T>(current, desired, n), current, desired, n),
    decreases n,
{
    if n > 0 {
        lemma_added::<T>(current, desired, n - 1);
        let before = additions::<T>(current, desired, n - 1);
        let add = additions::<T>(current, desired, n);
        let d = desired[n - 1];
        assert forall|k: int| 0 <= k < add.len() implies is_new_row::<T>(
            current,
            desired,
            n,
            #[trigger] add[k],
        ) by {
            if k < before.len() {
                assert(add[k] == before[k]);
                let j = choose|j: int|
                    0 <= j < n - 1 && desired[j] == before[k] && #[trigger] is_new::<T>(
                        current,
                        desired,
                        j,
                    );
                assert(is_new::<T>(current, desired, j));
            } else {
                assert(is_new::<T>(current, desired, n - 1));
            }
        }
        assert forall|k: int, m: int| 0 <= k < m < add.len() implies T::desired_key(
            #[trigger] add[k],
        ) != T::desired_key(#[trigger] add[m]) by {
            assert(add[k] == before[k]);
            if m < before.len() {
                assert(add[m] == before[m]);
            } else {
                let j = choose|j: int|
                    0 <= j < n - 1 && desired[j] == before[k] && #[trigger] is_new::<T>(
                        current,
                        desired,
                        j,
                    );
                assert(wish::<T>(desired, T::desired_key(desired[j])) == j);
            }
        }
        assert forall|j: int|
            0 <= j < n && #[trigger] is_new::<T>(current, desired, j) implies add.contains(
            desired[j],
        ) by {
            if j == n - 1 {
                assert(add[before.len() as int] == desired[j]);
            } else {
                let k = choose|k: int| 0 <= k < before.len() && before[k] == desired[j];
                assert(add[k] == desired[j]);
            }
        }
    }
}

/// Whether nothing in a table is too much or wrong: each of its rows has a key of its own that is
/// desired, and is what that key wishes for.
pub open spec fn tidy<T: Table>(rows: Seq<T::CurrentView>, desired: Seq<T::DesiredView>) -> bool {
    &&& forall|k: int|
        0 <= k < rows.len() ==> {
            let w = wish::<T>(desired, T::current_key(#[trigger] rows[k]));
            w >= 0 && T::settled(rows[k], desired[w])
        }
    &&& forall|k: int, m: int|
        0 <= k < m < rows.len() ==> T::current_key(#[trigger] rows[k]) != T::current_key(
            #[trigger] rows[m],
        )
}

/// Whether a table is as desired: nothing in it is too much or wrong, and every desired key has a
/// row.
pub open spec fn converged<T: Table>(
    rows: Seq<T::CurrentView>,
    desired: Seq<T::DesiredView>,
) -> bool {
    &&& tidy::<T>(rows, desired)
    &&& forall|j: int|
        0 <= j < desired.len() ==> exists|k: int|
            0 <= k < rows.len() && T::current_key(#[trigger] rows[k]) == T::desired_key(
                #[trigger] desired[j],
            )
}

/// A table that is as desired has nothing to be done to it.
pub proof fn law_converged_needs_no_plan<T: Table>(
    rows: Seq<T::CurrentView>,
    desired: Seq<T::DesiredView>,
)
    requires
        converged::<T>(rows, desired),
    ensures
        plan_of::<T>(rows, desired).is_empty(),
{
    lemma_nothing_removed::<T>(rows, desired, rows.len() as int);
    lemma_nothing_added::<T>(rows, desired, desired.len() as int);
}

proof fn lemma_nothing_removed<T: Table>(
    rows: Seq<T::CurrentView>,
    desired: Seq<T::DesiredView>,
    n: int,
)
    requires
        0 <= n <= rows.len(),
        tidy::<T>(rows, desired),
    ensures
        removals::<T>(rows, desired, n).len() == 0,
        updates::<T>(rows, desired, n).len() == 0,
    decreases n,
{
    if n > 0 {
        lemma_nothing_removed::<T>(rows, desired, n - 1);
        let r = rows[n - 1];
        assert(stays::<T>(rows, desired, n - 1));
    }
}

proof fn lemma_nothing_added<T: Table>(
    rows: Seq<T::CurrentView>,
    desired: Seq<T::DesiredView>,
    n: int,
)
    requires
        0 <= n <= desired.len(),
        converged::<T>(rows, desired),
    ensures
        additions::<T>(rows, desired, n).len() == 0,
    decreases n,
{
    if n > 0 {
        lemma_nothing_added::<T>(rows, desired, n - 1);
        let d = desired[n - 1];
        let k = choose|k: int|
            0 <= k < rows.len() && T::current_key(#[trigger] rows[k]) == T::desired_key(d);
        assert(!is_new::<T>(rows, desired, n - 1));
    }
}

/// Whether one of the rows has this `.id`.
pub open spec fn has_id<T: Table>(current: Seq<T::CurrentView>, id: Seq<char>) -> bool {
    exists|i: int| 0 <= i < current.len() && T::row_id(#[trigger] current[i]) == id
}

/// A plan removes and updates none but the rows that it was made for, so a row that was left out
/// of them is not touched.
pub proof fn law_plan_touches_only_current_rows<T: Table>(
    current: Seq<T::CurrentView>,
    desired: Seq<T::DesiredView>,
)
    ensures
        forall|id: Seq<char>| #[trigger]
            plan_of::<T>(current, desired).remove.contains(id) ==> has_id::<T>(current, id),
        forall|k: int|
            0 <= k < plan_of::<T>(current, desired).update.len() ==> has_id::<T>(
                current,
                (#[trigger] plan_of::<T>(current, desired).update[k]).0,
            ),
{
    let plan = plan_of::<T>(current, desired);
    lemma_touched::<T>(current, desired, current.len() as int);
    assert forall|id: Seq<char>| #[trigger] plan.remove.contains(id) implies has_id::<T>(
        current,
        id,
    ) by {
        let k = choose|k: int| 0 <= k < plan.remove.len() && plan.remove[k] == id;
        assert(has_id::<T>(current, plan.remove[k]));
    }
}

proof fn lemma_touched<T: Table>(
    current: Seq<T::CurrentView>,
    desired: Seq<T::DesiredView>,
    n: int,
)
    requires
        0 <= n <= current.len(),
    ensures
        forall|k: int|
            0 <= k < removals::<T>(current, desired, n).len() ==> has_id::<T>(
                current,
                #[trigger] removals::<T>(current, desired, n)[k],
            ),
        forall|k: int|
            0 <= k < updates::<T>(current, desired, n).len() ==> has_id::<T>(
                current,
                (#[trigger] updates::<T>(current, desired, n)[k]).0,
            ),
    decreases n,
{
    if n > 0 {
        lemma_touched::<T>(current, desired, n - 1);
        assert(has_id::<T>(current, T::row_id(current[n - 1])));
        let removed = removals::<T>(current, desired, n - 1);
        let updated = updates::<T>(current, desired, n - 1);
        assert forall|k: int| 0 <= k < removals::<T>(current, desired, n).len() implies has_id::<T>(
            current,
            #[trigger] removals::<T>(current, desired, n)[k],
        ) by {
            if k < removed.len() {
                assert(removals::<T>(current, desired, n)[k] == removed[k]);
            }
        }
        assert forall|k: int| 0 <= k < updates::<T>(current, desired, n).len() implies has_id::<T>(
            current,
            (#[trigger] updates::<T>(current, desired, n)[k]).0,
        ) by {
            if k < updated.len() {
                assert(updates::<T>(current, desired, n)[k] == updated[k]);
            }
        }
    }
}

/// Carrying out the plan makes the table as desired, whatever ids the device gives the rows that
/// are added, where each row that is set takes what it is set to; so a second run finds nothing to
/// do.
pub proof fn law_plan_converges<T: Table>(
    current: Seq<T::CurrentView>,
    desired: Seq<T::DesiredView>,
    ids: Seq<Seq<char>>,
)
    requires
        distinct_ids::<T>(current),
        updatable::<T>(current, desired),
    ensures
        converged::<T>(applied::<T>(current, plan_of::<T>(current, desired), ids), desired),
        plan_of::<T>(
            applied::<T>(current, plan_of::<T>(current, desired), ids),
            desired,
        ).is_empty(),
{
    let plan = plan_of::<T>(current, desired);
    let kept = rows_kept::<T>(current, plan, current.len() as int);
    let rows = applied::<T>(current, plan, ids);
    lemma_kept::<T>(current, desired, current.len() as int);
    lemma_added::<T>(current, desired, desired.len() as int);
    assert forall|k: int| kept.len() <= k < rows.len() implies {
        let d = plan.add[k - kept.len()];
        &&& T::current_key(#[trigger] rows[k]) == T::desired_key(d)
        &&& T::settled(rows[k], d)
    } by {
        let j = k - kept.len();
        T::writing(rows[k], ids[j], plan.add[j]);
    }
    assert forall|k: int| 0 <= k < rows.len() implies {
        let w = wish::<T>(desired, T::current_key(#[trigger] rows[k]));
        w >= 0 && T::settled(rows[k], desired[w])
    } by {
        if k < kept.len() {
            assert(rows[k] == kept[k]);
        } else {
            let d = plan.add[k - kept.len()];
            assert(is_new_row::<T>(current, desired, desired.len() as int, d));
            let j = choose|j: int|
                0 <= j < desired.len() && desired[j] == d && #[trigger] is_new::<T>(
                    current,
                    desired,
                    j,
                );
            assert(wish::<T>(desired, T::desired_key(desired[j])) == j);
        }
    }
    assert forall|k: int, m: int| 0 <= k < m < rows.len() implies T::current_key(
        #[trigger] rows[k],
    ) != T::current_key(#[trigger] rows[m]) by {
        if m < kept.len() {
            assert(rows[k] == kept[k] && rows[m] == kept[m]);
        } else if k < kept.len() {
            assert(rows[k] == kept[k]);
            let d = plan.add[m - kept.len()];
            assert(is_new_row::<T>(current, desired, desired.len() as int, d));
            let j = choose|j: int|
                0 <= j < desired.len() && desired[j] == d && #[trigger] is_new::<T>(
                    current,
                    desired,
                    j,
                );
            let i = choose|i: int|
                0 <= i < current.len() && T::current_key(#[trigger] current[i]) == T::current_key(
                    kept[k],
                );
            assert(T::current_key(current[i]) != T::desired_key(desired[j]));
        } else {
            assert(T::desired_key(plan.add[k - kept.len()]) != T::desired_key(
                plan.add[m - kept.len()],
            ));
        }
    }
    assert forall|j: int| 0 <= j < desired.len() implies exists|k: int|
        0 <= k < rows.len() && T::current_key(#[trigger] rows[k]) == T::desired_key(
            #[trigger] desired[j],
        ) by {
        let key = T::desired_key(desired[j]);
        lemma_wish::<T>(desired, key, desired.len() as int);
        let w = wish::<T>(desired, key);
        if exists|i: int| 0 <= i < current.len() && T::current_key(#[trigger] current[i]) == key {
            let i = choose|i: int|
                0 <= i < current.len() && T::current_key(#[trigger] current[i]) == key;
            let k = choose|k: int|
                0 <= k < kept.len() && T::current_key(#[trigger] kept[k]) == T::current_key(
                    current[i],
                );
            assert(rows[k] == kept[k]);
        } else {
            assert(is_new::<T>(current, desired, w));
            let k = choose|k: int| 0 <= k < plan.add.len() && plan.add[k] == desired[w];
            assert(T::current_key(rows[kept.len() + k]) == key);
        }
    }
    law_converged_needs_no_plan::<T>(rows, desired);
}

/// A plan that is made for those of a table's rows that `keep` holds of touches no other row of
/// the table.
pub proof fn law_rows_left_out_are_not_touched<T: Table>(
    all: Seq<T::CurrentView>,
    keep: spec_fn(T::CurrentView) -> bool,
    desired: Seq<T::DesiredView>,
    i: int,
)
    requires
        distinct_ids::<T>(all),
        0 <= i < all.len(),
        !keep(all[i]),
    ensures
        !plan_of::<T>(all.filter(keep), desired).remove.contains(T::row_id(all[i])),
        forall|k: int|
            0 <= k < plan_of::<T>(all.filter(keep), desired).update.len() ==> (
            #[trigger] plan_of::<T>(all.filter(keep), desired).update[k]).0 != T::row_id(all[i]),
{
    let rows = all.filter(keep);
    law_plan_touches_only_current_rows::<T>(rows, desired);
    if has_id::<T>(rows, T::row_id(all[i])) {
        let j = choose|j: int|
            0 <= j < rows.len() && T::row_id(#[trigger] rows[j]) == T::row_id(all[i]);
        lemma_filter_contains(all, keep, rows[j]);
        let m = choose|m: int| 0 <= m < all.len() && all[m] == rows[j];
        assert(all[m] == rows[j] && keep(all[m]));
        assert(m != i);
        if m < i {
            assert(T::row_id(all[m]) != T::row_id(all[i]));
        } else {
            assert(T::row_id(all[i]) != T::row_id(all[m]));
        }
    }
}

pub proof fn lemma_filter_contains<V>(s: Seq<V>, keep: spec_fn(V) -> bool, x: V)
    requires
        s.filter(keep).contains(x),
    ensures
        s.contains(x),
        keep(x),
    decreases s.len(),
{
    reveal(Seq::filter);
    if s.len() > 0 {
        let before = s.drop_last().filter(keep);
        let k = choose|k: int| 0 <= k < s.filter(keep).len() && s.filter(keep)[k] == x;
        if k < before.len() {
            assert(before[k] == x);
            lemma_filter_contains(s.drop_last(), keep, x);
            let m = choose|m: int| 0 <= m < s.drop_last().len() && s.drop_last()[m] == x;
            assert(s[m] == x);
        } else {
            assert(s[s.len() - 1] == x);
        }
    }
}

/// Whether one of the rows has this key, and `keep` does not hold of it.
pub open spec fn hidden_row<T: Table>(
    rows: Seq<T::CurrentView>,
    keep: spec_fn(T::CurrentView) -> bool,
    k: T::Key,
) -> bool {
    exists|i: int|
        0 <= i < rows.len() && T::current_key(#[trigger] rows[i]) == k && !keep(rows[i])
}

/// Where a table is as desired and only some of its rows are read, the plan adds what is there
/// already and was not read, and does nothing else.
pub proof fn law_hidden_rows_are_added_again<T: Table>(
    rows: Seq<T::CurrentView>,
    keep: spec_fn(T::CurrentView) -> bool,
    desired: Seq<T::DesiredView>,
)
    requires
        converged::<T>(rows, desired),
    ensures
        ({
            let plan = plan_of::<T>(rows.filter(keep), desired);
            &&& plan.remove.len() == 0
            &&& plan.update.len() == 0
            &&& forall|k: int|
                0 <= k < plan.add.len() ==> desired.contains(#[trigger] plan.add[k])
                    && hidden_row::<T>(rows, keep, T::desired_key(plan.add[k]))
        }),
{
    let seen = rows.filter(keep);
    let plan = plan_of::<T>(seen, desired);
    lemma_filter_tidy::<T>(rows, keep, desired);
    lemma_nothing_removed::<T>(seen, desired, seen.len() as int);
    lemma_added::<T>(seen, desired, desired.len() as int);
    assert forall|k: int| 0 <= k < plan.add.len() implies desired.contains(#[trigger] plan.add[k])
        && hidden_row::<T>(rows, keep, T::desired_key(plan.add[k])) by {
        let d = plan.add[k];
        assert(is_new_row::<T>(seen, desired, desired.len() as int, d));
        let j = choose|j: int|
            0 <= j < desired.len() && desired[j] == d && #[trigger] is_new::<T>(seen, desired, j);
        assert(desired[j] == d);
        let i = choose|i: int|
            0 <= i < rows.len() && T::current_key(#[trigger] rows[i]) == T::desired_key(
                desired[j],
            );
        if keep(rows[i]) {
            lemma_filter_keeps(rows, keep, i);
            let m = choose|m: int| 0 <= m < seen.len() && seen[m] == rows[i];
            assert(T::current_key(seen[m]) != T::desired_key(desired[j]));
        }
    }
}

proof fn lemma_filter_keeps<V>(s: Seq<V>, keep: spec_fn(V) -> bool, i: int)
    requires
        0 <= i < s.len(),
        keep(s[i]),
    ensures
        s.filter(keep).contains(s[i]),
    decreases s.len(),
{
    reveal(Seq::filter);
    let t = s.drop_last();
    let before = t.filter(keep);
    if i < t.len() {
        assert(t[i] == s[i]);
        lemma_filter_keeps(t, keep, i);
        let m = choose|m: int| 0 <= m < before.len() && before[m] == s[i];
        assert(s.filter(keep)[m] == s[i]);
    } else {
        assert(s.filter(keep)[before.len() as int] == s[i]);
    }
}

proof fn lemma_filter_tidy<T: Table>(
    rows: Seq<T::CurrentView>,
    keep: spec_fn(T::CurrentView) -> bool,
    desired: Seq<T::DesiredView>,
)
    requires
        tidy::<T>(rows, desired),
    ensures
        tidy::<T>(rows.filter(keep), desired),
    decreases rows.len(),
{
    reveal(Seq::filter);
    if rows.len() > 0 {
        let t = rows.drop_last();
        assert forall|k: int| 0 <= k < t.len() implies {
            let w = wish::<T>(desired, T::current_key(#[trigger] t[k]));
            w >= 0 && T::settled(t[k], desired[w])
        } by {
            assert(t[k] == rows[k]);
        }
        assert forall|k: int, m: int| 0 <= k < m < t.len() implies T::current_key(#[trigger] t[k])
            != T::current_key(#[trigger] t[m]) by {
            assert(t[k] == rows[k] && t[m] == rows[m]);
        }
        lemma_filter_tidy::<T>(t, keep, desired);
        let before = t.filter(keep);
        let after = rows.filter(keep);
        let last = rows.last();
        assert(rows[rows.len() - 1] == last);
        assert forall|k: int| 0 <= k < after.len() implies {
            let w = wish::<T>(desired, T::current_key(#[trigger] after[k]));
            w >= 0 && T::settled(after[k], desired[w])
        } by {
            if k < before.len() {
                assert(after[k] == before[k]);
            }
        }
        assert forall|k: int, m: int| 0 <= k < m < after.len() implies T::current_key(
            #[trigger] after[k],
        ) != T::current_key(#[trigger] after[m]) by {
            assert(after[k] == before[k]);
            if m < before.len() {
                assert(after[m] == before[m]);
            } else {
                assert(before.contains(before[k]));
                lemma_filter_contains(t, keep, before[k]);
                let i = choose|i: int| 0 <= i < t.len() && t[i] == before[k];
                assert(rows[i] == before[k]);
                assert(T::current_key(rows[i]) != T::current_key(rows[rows.len() - 1]));
            }
        }
    }
}

} // verus!
