//! Tasks, their status cycle, the display mode and the deadline order.
use vstd::prelude::*;

verus! {

#[derive(Clone, Copy, Debug, PartialEq, Eq, Structural)]
pub enum Status {
    NotStarted,
    InProgress,
    Completed,
}

/// The status that one toggle leads to.
pub open spec fn next_status(s: Status) -> Status {
    match s {
        Status::NotStarted => Status::InProgress,
        Status::InProgress => Status::Completed,
        Status::Completed => Status::NotStarted,
    }
}

impl Status {
    /// The next step of `NotStarted -> InProgress -> Completed -> NotStarted`.
    pub fn next(self) -> (r: Status)
        ensures
            r == next_status(self),
    {
        match self {
            Status::NotStarted => Status::InProgress,
            Status::InProgress => Status::Completed,
            Status::Completed => Status::NotStarted,
        }
    }
}

/// A point in time: seconds since the Unix epoch, and the offset from UTC in
/// seconds east at which it is shown.
#[derive(Clone, Copy, Debug, PartialEq, Eq, Structural)]
pub struct Deadline {
    pub timestamp: i64,
    pub offset: i32,
}

impl Deadline {
    pub open spec fn wf(self) -> bool {
        -86_400 < self.offset && self.offset < 86_400
    }
}

#[derive(Debug)]
pub struct Todo {
    pub name: String,
    pub status: Status,
    pub deadline: Deadline,
}

pub struct TodoView {
    pub name: Seq<char>,
    pub status: Status,
    pub deadline: Deadline,
}

impl View for Todo {
    type V = TodoView;

    open spec fn view(&self) -> TodoView {
        TodoView { name: self.name@, status: self.status, deadline: self.deadline }
    }
}

/// The views of a sequence of tasks.
pub open spec fn views(s: Seq<Todo>) -> Seq<TodoView> {
    s.map_values(|t: Todo| t@)
}

#[derive(Clone, Copy, Debug, PartialEq, Eq, Structural)]
pub enum TimeFormat {
    Absolute,
    Remaining,
}

pub open spec fn flipped(f: TimeFormat) -> TimeFormat {
    match f {
        TimeFormat::Absolute => TimeFormat::Remaining,
        TimeFormat::Remaining => TimeFormat::Absolute,
    }
}

/// How deadlines are shown: the one piece of display state.
#[derive(Clone, Copy, Debug, PartialEq, Eq, Structural)]
pub struct Viewer {
    pub time_format: TimeFormat,
}

impl Viewer {
    pub fn new() -> (r: Viewer)
        ensures
            r.time_format == TimeFormat::Remaining,
    {
        Viewer { time_format: TimeFormat::Remaining }
    }

    pub fn flip_time_format(&mut self)
        ensures
            final(self).time_format == flipped(old(self).time_format),
    {
        self.time_format = match self.time_format {
            TimeFormat::Absolute => TimeFormat::Remaining,
            TimeFormat::Remaining => TimeFormat::Absolute,
        };
    }
}

pub open spec fn key(t: TodoView) -> int {
    t.deadline.timestamp as int
}

pub open spec fn sorted_by_deadline(s: Seq<TodoView>) -> bool {
    forall|i: int, j: int| 0 <= i <= j < s.len() ==> key(#[trigger] s[i]) <= key(#[trigger] s[j])
}

/// Where `x` goes in the sorted `s`: after every task whose deadline is not later.
pub open spec fn insert_sorted(s: Seq<TodoView>, x: TodoView) -> Seq<TodoView>
    decreases s.len(),
{
    if s.len() == 0 {
        seq![x]
    } else if key(s.last()) <= key(x) {
        s.push(x)
    } else {
        insert_sorted(s.drop_last(), x).push(s.last())
    }
}

/// Stable insertion sort by deadline: tasks with equal deadlines keep their order.
pub open spec fn sort_spec(s: Seq<TodoView>) -> Seq<TodoView>
    decreases s.len(),
{
    if s.len() == 0 {
        s
    } else {
        insert_sorted(sort_spec(s.drop_last()), s.last())
    }
}

/// The number of trailing tasks of `s[..j]` whose deadline is later than `x`'s.
pub open spec fn insert_position(s: Seq<TodoView>, j: int, x: TodoView) -> int
    decreases j,
{
    if 0 < j <= s.len() && key(s[j - 1]) > key(x) {
        insert_position(s, j - 1, x)
    } else {
        j
    }
}

proof fn lemma_insert_at_position(s: Seq<TodoView>, x: TodoView)
    ensures
        0 <= insert_position(s, s.len() as int, x) <= s.len(),
        insert_sorted(s, x) == s.insert(insert_position(s, s.len() as int, x), x),
    decreases s.len(),
{
    if s.len() == 0 {
        assert(seq![x] =~= s.insert(0, x));
    } else if key(s.last()) <= key(x) {
        assert(s.push(x) =~= s.insert(s.len() as int, x));
    } else {
        let t = s.drop_last();
        lemma_insert_at_position(t, x);
        lemma_position_prefix(s, t, t.len() as int, x);
        let p = insert_position(s, s.len() as int, x);
        assert(insert_sorted(s, x) =~= s.insert(p, x));
    }
}

proof fn lemma_position_prefix(s: Seq<TodoView>, t: Seq<TodoView>, j: int, x: TodoView)
    requires
        s.len() > 0,
        t == s.drop_last(),
        0 <= j <= t.len(),
    ensures
        insert_position(s, j, x) == insert_position(t, j, x),
    decreases j,
{
    if 0 < j && key(s[j - 1]) > key(x) {
        lemma_position_prefix(s, t, j - 1, x);
    }
}

proof fn lemma_insert_sorted_ok(s: Seq<TodoView>, x: TodoView)
    requires
        sorted_by_deadline(s),
    ensures
        sorted_by_deadline(insert_sorted(s, x)),
        insert_sorted(s, x).to_multiset() == s.to_multiset().insert(x),
        insert_sorted(s, x).len() == s.len() + 1,
    decreases s.len(),
{
    broadcast use vstd::seq_lib::group_to_multiset_ensures;

    if s.len() == 0 {
        assert(seq![x] =~= Seq::<TodoView>::empty().push(x));
    } else if key(s.last()) <= key(x) {
    } else {
        let t = s.drop_last();
        lemma_insert_sorted_ok(t, x);
        lemma_insert_bounded(t, x, key(s.last()));
        assert(t.push(s.last()) =~= s);
    }
}

proof fn lemma_insert_bounded(s: Seq<TodoView>, x: TodoView, b: int)
    requires
        forall|i: int| 0 <= i < s.len() ==> key(#[trigger] s[i]) <= b,
        key(x) <= b,
    ensures
        forall|i: int|
            0 <= i < insert_sorted(s, x).len() ==> key(#[trigger] insert_sorted(s, x)[i]) <= b,
        insert_sorted(s, x).len() == s.len() + 1,
    decreases s.len(),
{
    if s.len() > 0 && key(s.last()) > key(x) {
        lemma_insert_bounded(s.drop_last(), x, b);
    }
}

/// The stable sort orders the tasks and keeps every one of them.
pub proof fn lemma_sort_spec_ok(s: Seq<TodoView>)
    ensures
        sorted_by_deadline(sort_spec(s)),
        sort_spec(s).to_multiset() == s.to_multiset(),
        sort_spec(s).len() == s.len(),
    decreases s.len(),
{
    broadcast use vstd::seq_lib::group_to_multiset_ensures;

    if s.len() == 0 {
    } else {
        let t = s.drop_last();
        lemma_sort_spec_ok(t);
        lemma_insert_sorted_ok(sort_spec(t), s.last());
        assert(t.push(s.last()) =~= s);
    }
}

/// The tasks of `s` whose deadline is `k`, in their order in `s`.
pub open spec fn same_deadline(s: Seq<TodoView>, k: int) -> Seq<TodoView>
    decreases s.len(),
{
    if s.len() == 0 {
        s
    } else if key(s.last()) == k {
        same_deadline(s.drop_last(), k).push(s.last())
    } else {
        same_deadline(s.drop_last(), k)
    }
}

proof fn lemma_insert_ties(s: Seq<TodoView>, x: TodoView, k: int)
    ensures
        same_deadline(insert_sorted(s, x), k) == if key(x) == k {
            same_deadline(s, k).push(x)
        } else {
            same_deadline(s, k)
        },
    decreases s.len(),
{
    if s.len() == 0 {
        assert(seq![x].drop_last() =~= s);
    } else if key(s.last()) <= key(x) {
        assert(s.push(x).drop_last() =~= s);
    } else {
        let u = insert_sorted(s.drop_last(), x);
        lemma_insert_ties(s.drop_last(), x, k);
        assert(u.push(s.last()).drop_last() =~= u);
    }
}

/// The sort is stable: for every deadline, the tasks that have it come out in
/// the order in which they went in.
pub proof fn lemma_sort_is_stable(s: Seq<TodoView>, k: int)
    ensures
        same_deadline(sort_spec(s), k) == same_deadline(s, k),
    decreases s.len(),
{
    if s.len() > 0 {
        lemma_sort_is_stable(s.drop_last(), k);
        lemma_insert_ties(sort_spec(s.drop_last()), s.last(), k);
    }
}

proof fn lemma_ties_prefix(x: Seq<TodoView>, a: int, k: int)
    requires
        0 <= a <= x.len(),
    ensures
        same_deadline(x.subrange(0, a), k).len() <= same_deadline(x, k).len(),
        same_deadline(x.subrange(0, a), k) == same_deadline(x, k).subrange(
            0,
            same_deadline(x.subrange(0, a), k).len() as int,
        ),
    decreases x.len(),
{
    if a == x.len() {
        assert(x.subrange(0, a) =~= x);
        assert(same_deadline(x, k).subrange(0, same_deadline(x, k).len() as int) =~= same_deadline(
            x,
            k,
        ));
    } else {
        let y = x.drop_last();
        assert(x.subrange(0, a) =~= y.subrange(0, a));
        lemma_ties_prefix(y, a, k);
        let p = same_deadline(y.subrange(0, a), k);
        assert(same_deadline(x, k).subrange(0, p.len() as int) =~= same_deadline(y, k).subrange(
            0,
            p.len() as int,
        ));
    }
}

/// Where the task at `i` stands among the tasks of `x` with its deadline.
proof fn lemma_tie_rank(x: Seq<TodoView>, i: int)
    requires
        0 <= i < x.len(),
    ensures
        ({
            let k = key(x[i]);
            let r = same_deadline(x.subrange(0, i), k).len() as int;
            r < same_deadline(x, k).len() && same_deadline(x, k)[r] == x[i]
                && same_deadline(x.subrange(0, i + 1), k).len() == r + 1
        }),
{
    let k = key(x[i]);
    let w = x.subrange(0, i + 1);
    assert(w.drop_last() =~= x.subrange(0, i));
    assert(w.last() == x[i]);
    let p = same_deadline(x.subrange(0, i), k);
    assert(same_deadline(w, k) == p.push(x[i]));
    lemma_ties_prefix(x, i + 1, k);
    let r = p.len() as int;
    assert(same_deadline(w, k)[r] == x[i]);
    assert(same_deadline(x, k).subrange(0, r + 1)[r] == same_deadline(x, k)[r]);
}

proof fn lemma_tie_lengths_grow(x: Seq<TodoView>, a: int, b: int, k: int)
    requires
        0 <= a <= b <= x.len(),
    ensures
        same_deadline(x.subrange(0, a), k).len() <= same_deadline(x.subrange(0, b), k).len(),
{
    assert(x.subrange(0, b).subrange(0, a) =~= x.subrange(0, a));
    lemma_ties_prefix(x.subrange(0, b), a, k);
}

proof fn lemma_tie_found(y: Seq<TodoView>, k: int, m: int)
    requires
        0 <= m < same_deadline(y, k).len(),
    ensures
        exists|p: int| 0 <= p < y.len() && y[p] == same_deadline(y, k)[m],
    decreases y.len(),
{
    let z = y.drop_last();
    if m < same_deadline(z, k).len() {
        lemma_tie_found(z, k, m);
        let p = choose|p: int| 0 <= p < z.len() && z[p] == same_deadline(z, k)[m];
        assert(y[p] == same_deadline(y, k)[m]);
    } else {
        assert(y[y.len() - 1] == same_deadline(y, k)[m]);
    }
}

proof fn lemma_ties_in_order(y: Seq<TodoView>, k: int, m1: int, m2: int)
    requires
        0 <= m1 < m2 < same_deadline(y, k).len(),
    ensures
        exists|a: int, b: int|
            0 <= a < b < y.len() && y[a] == same_deadline(y, k)[m1] && y[b] == same_deadline(
                y,
                k,
            )[m2],
    decreases y.len(),
{
    let z = y.drop_last();
    if m2 < same_deadline(z, k).len() {
        lemma_ties_in_order(z, k, m1, m2);
        let (a, b) = choose|a: int, b: int|
            0 <= a < b < z.len() && z[a] == same_deadline(z, k)[m1] && z[b] == same_deadline(
                z,
                k,
            )[m2];
        assert(y[a] == same_deadline(y, k)[m1] && y[b] == same_deadline(y, k)[m2]);
    } else {
        lemma_tie_found(z, k, m1);
        let a = choose|p: int| 0 <= p < z.len() && z[p] == same_deadline(z, k)[m1];
        let b = y.len() - 1;
        assert(y[a] == same_deadline(y, k)[m1] && y[b] == same_deadline(y, k)[m2]);
    }
}

/// Of two tasks with the same deadline, the one that came first before the sort
/// comes first after it.
pub proof fn lemma_sort_keeps_tie_order(s: Seq<TodoView>, i: int, j: int)
    requires
        0 <= i < j < s.len(),
        key(s[i]) == key(s[j]),
    ensures
        exists|a: int, b: int|
            0 <= a < b < sort_spec(s).len() && sort_spec(s)[a] == s[i] && sort_spec(s)[b]
                == s[j],
{
    let k = key(s[i]);
    lemma_tie_rank(s, i);
    lemma_tie_rank(s, j);
    lemma_tie_lengths_grow(s, i + 1, j, k);
    let ri = same_deadline(s.subrange(0, i), k).len() as int;
    let rj = same_deadline(s.subrange(0, j), k).len() as int;
    lemma_sort_is_stable(s, k);
    lemma_ties_in_order(sort_spec(s), k, ri, rj);
}

/// Sorts the tasks by deadline, ascending; tasks with equal deadlines keep their order.
pub fn sort_by_deadline(todos: &mut Vec<Todo>)
    ensures
        views(final(todos)@) == sort_spec(views(old(todos)@)),
        sorted_by_deadline(views(final(todos)@)),
        views(final(todos)@).to_multiset() == views(old(todos)@).to_multiset(),
        forall|k: int|
            #[trigger] same_deadline(views(final(todos)@), k) == same_deadline(
                views(old(todos)@),
                k,
            ),
{
    let ghost orig = views(todos@);
    let n = todos.len();
    let mut i: usize = 0;
    assert(orig.subrange(0, 0) =~= Seq::<TodoView>::empty());
    while i < n
        invariant
            n == todos@.len() == orig.len(),
            0 <= i <= n,
            orig == views(old(todos)@),
            views(todos@).subrange(0, i as int) == sort_spec(orig.subrange(0, i as int)),
            views(todos@).subrange(i as int, n as int) == orig.subrange(i as int, n as int),
        decreases n - i,
    {
        let ghost before = views(todos@);
        let ghost pre = before.subrange(0, i as int);
        let x = todos.remove(i);
        let ghost xv = x@;
        assert(xv == orig[i as int]) by {
            assert(before.subrange(i as int, n as int)[0] == before[i as int]);
        }
        let mut j: usize = i;
        while j > 0 && todos[j - 1].deadline.timestamp > x.deadline.timestamp
            invariant
                0 <= j <= i < n,
                todos@.len() == n - 1,
                views(todos@).subrange(0, i as int) == pre,
                insert_position(pre, j as int, xv) == insert_position(pre, i as int, xv),
                x@ == xv,
            decreases j,
        {
            assert(views(todos@)[j - 1] == pre[j - 1]);
            j = j - 1;
        }
        proof {
            if j > 0 {
                assert(views(todos@)[j - 1] == pre[j - 1]);
            }
        }
        todos.insert(j, x);
        proof {
            lemma_sort_spec_ok(orig.subrange(0, i as int));
            lemma_insert_at_position(pre, xv);
            let now = views(todos@);
            assert(orig.subrange(0, i + 1).drop_last() =~= orig.subrange(0, i as int));
            assert(now.subrange(0, i + 1) =~= pre.insert(j as int, xv));
            assert(now.subrange(i + 1, n as int) =~= orig.subrange(i + 1, n as int)) by {
                assert forall|k: int| i + 1 <= k < n implies now[k] == orig[k] by {
                    assert(now[k] == before[k]);
                    assert(before.subrange(i as int, n as int)[k - i] == orig.subrange(
                        i as int,
                        n as int,
                    )[k - i]);
                }
            }
        }
        i = i + 1;
    }
    proof {
        assert(views(todos@).subrange(0, n as int) =~= views(todos@));
        assert(orig.subrange(0, n as int) =~= orig);
        lemma_sort_spec_ok(orig);
        assert forall|k: int| #[trigger]
            same_deadline(views(todos@), k) == same_deadline(orig, k) by {
            lemma_sort_is_stable(orig, k);
        }
    }
}

} // verus!
