use vstd::prelude::*;
use vstd::arithmetic::div_mod::{lemma_fundamental_div_mod, lemma_fundamental_div_mod_converse};
use core::fmt::Debug;
use core::ops::{Add, Mul};
use crate::error::Error;
use crate::matrix::{
    Matrix, cell_at, check_compatible, is_product, lemma_cell_index, lemma_place_cell, product_cells,
    product_defined,
};
use crate::task::{MsgInput, MsgOutput};
use crate::vector::{is_default, is_dot, dot_computable};

verus! {

/// The number of workers that `multiply` hands its tasks to.
pub const NUM_THREADS: usize = 4;

/// The worker that is handed the task bound for place `inx`: the tasks go
/// round the workers in turn.
pub fn worker_for(inx: usize, workers: usize) -> (w: usize)
    requires
        workers > 0,
    ensures
        w == inx % workers,
        w < workers,
{
    inx % workers
}

/// The task of the cell in row `i` and column `j` of the product of `a` and
/// `b`: row `i` of `a`, column `j` of `b`, bound for place `i * b.cols() + j`.
pub fn task_for<T: Debug + Copy>(a: &Matrix<T>, b: &Matrix<T>, i: usize, j: usize) -> (task: MsgInput<T>)
    requires
        a.wf(),
        b.wf(),
        i < a.rows(),
        j < b.cols(),
        a.rows() * b.cols() <= usize::MAX,
    ensures
        task.inx == i * b.cols() + j,
        task.row@ == a.row_cells(i as int),
        task.col@ == b.col_cells(j as int),
{
    proof {
        lemma_cell_index(i as int, j as int, a.rows() as int, b.cols() as int);
    }
    let row = a.row(i);
    let col = b.col(j);
    let inx = i * b.cols() + j;
    MsgInput::new(inx, row, col)
}

/// How often `inx` stands in `log`.
pub open spec fn occurrences(log: Seq<int>, inx: int) -> nat
    decreases log.len(),
{
    if log.len() == 0 {
        0
    } else {
        occurrences(log.drop_last(), inx) + if log.last() == inx {
            1nat
        } else {
            0nat
        }
    }
}

/// The buffer of a product while its cells come in, with a record of the
/// places written so far, in the order in which they were written.
pub struct Collector<T> {
    data: Vec<T>,
    rows: usize,
    cols: usize,
    written: Ghost<Seq<int>>,
}

impl<T> View for Collector<T> {
    type V = Seq<T>;

    /// The row-major buffer as it stands.
    closed spec fn view(&self) -> Seq<T> {
        self.data@
    }
}

impl<T> Collector<T> {
    /// The number of rows of the product.
    pub closed spec fn rows(&self) -> usize {
        self.rows
    }

    /// The number of columns of the product.
    pub closed spec fn cols(&self) -> usize {
        self.cols
    }

    /// The places written so far, oldest first.
    pub closed spec fn written(&self) -> Seq<int> {
        self.written@
    }

    /// The buffer has one element for each cell, and every write went to a
    /// place inside it.
    pub open spec fn wf(&self) -> bool {
        &&& self@.len() == self.rows() * self.cols()
        &&& forall|k: int| 0 <= k < self.written().len() ==> 0 <= #[trigger] self.written()[k] < self@.len()
    }

    /// Every place of the buffer was written exactly once: none twice, none
    /// left out.
    pub open spec fn complete(&self) -> bool {
        forall|inx: int| 0 <= inx < self@.len() ==> #[trigger] occurrences(self.written(), inx) == 1
    }

    /// A buffer of `rows` times `cols` default values, nothing written yet.
    pub fn new(rows: usize, cols: usize) -> (collector: Self)
        where T: Default + Copy
        requires
            rows * cols <= usize::MAX,
        ensures
            collector.wf(),
            collector.rows() == rows,
            collector.cols() == cols,
            collector.written() == Seq::<int>::empty(),
            forall|k: int| 0 <= k < collector@.len() ==> is_default(#[trigger] collector@[k]),
    {
        let cells = rows * cols;
        let zero = T::default();
        let mut data: Vec<T> = Vec::with_capacity(cells);
        let mut k: usize = 0;
        while k < cells
            invariant
                k <= cells,
                data@.len() == k,
                is_default(zero),
                forall|n: int| 0 <= n < k ==> #[trigger] data@[n] == zero,
            decreases cells - k,
        {
            data.push(zero);
            k += 1;
        }
        Collector { data, rows, cols, written: Ghost(Seq::empty()) }
    }

    /// Takes what came back for one task. A result is written to the place
    /// that it names itself; `None` stands for a reply that will never come,
    /// which ends the collection.
    pub fn accept(&mut self, reply: Option<MsgOutput<T>>) -> (r: Result<(), Error>)
        requires
            old(self).wf(),
            reply matches Some(output) ==> output.inx < old(self)@.len(),
        ensures
            final(self).wf(),
            final(self).rows() == old(self).rows(),
            final(self).cols() == old(self).cols(),
            match reply {
                Some(output) => {
                    &&& r is Ok
                    &&& final(self)@ == old(self)@.update(output.inx as int, output.result)
                    &&& final(self).written() == old(self).written().push(output.inx as int)
                },
                None => {
                    &&& r is Err
                    &&& r->Err_0 == Error::Internal
                    &&& final(self)@ == old(self)@
                    &&& final(self).written() == old(self).written()
                },
            },
    {
        match reply {
            Some(output) => {
                self.data[output.inx] = output.result;
                proof {
                    self.written@ = self.written@.push(output.inx as int);
                    assert forall|k: int| 0 <= k < self.written().len() implies 0 <= #[trigger] self.written()[k]
                        < self@.len() by {
                        if k < old(self).written().len() {
                            assert(self.written()[k] == old(self).written()[k]);
                        }
                    }
                }
                Ok(())
            },
            None => Err(Error::Internal),
        }
    }

    /// The matrix that the buffer holds.
    pub fn finish(self) -> (m: Matrix<T>)
        where T: Debug
        requires
            self.wf(),
        ensures
            m.wf(),
            m@ == self@,
            m.rows() == self.rows(),
            m.cols() == self.cols(),
    {
        Matrix::new(self.data, self.rows, self.cols)
    }
}

/// The place of the task that stands at position `p` in the queue of worker
/// `w`, where the tasks go round `workers` workers in turn.
pub open spec fn place(p: int, w: int, workers: int) -> int {
    p * workers + w
}

/// The worker whose queue holds the task bound for place `inx`.
pub open spec fn queue_of(inx: int, workers: int) -> int {
    inx % workers
}

/// The position of the task bound for place `inx` in its worker's queue.
pub open spec fn position_of(inx: int, workers: int) -> int {
    inx / workers
}

/// Whether `task` is the task of the cell at place `inx` of the product of
/// `a` and `b`.
pub open spec fn is_task_of<T: Debug>(task: MsgInput<T>, a: &Matrix<T>, b: &Matrix<T>, inx: int) -> bool {
    &&& task.inx == inx
    &&& task.row@ == a.row_cells(inx / (b.cols() as int))
    &&& task.col@ == b.col_cells(inx % (b.cols() as int))
}

/// Whether `queues` holds the tasks of the first `count` places of the
/// product of `a` and `b`, dealt out to `workers` workers in turn: the queue
/// of worker `w` holds, in this order, the tasks bound for the places `w`,
/// `w + workers`, `w + 2 * workers` and so on below `count`.
pub open spec fn is_dispatch<T: Debug>(
    queues: Seq<Vec<MsgInput<T>>>,
    a: &Matrix<T>,
    b: &Matrix<T>,
    workers: int,
    count: int,
) -> bool {
    &&& queues.len() == workers
    &&& forall|w: int, p: int|
        #![trigger queues[w]@[p]]
        #![trigger place(p, w, workers)]
        0 <= w < workers && 0 <= p < queues[w]@.len() ==> place(p, w, workers) < count && is_task_of(
            queues[w]@[p],
            a,
            b,
            place(p, w, workers),
        )
    &&& forall|inx: int|
        0 <= inx < count ==> #[trigger] position_of(inx, workers) < queues[queue_of(inx, workers)]@.len()
}

/// The place of a position in a queue has that queue and that position.
proof fn lemma_place_slot(p: int, w: int, workers: int)
    requires
        0 <= p,
        0 <= w < workers,
    ensures
        0 <= place(p, w, workers),
        queue_of(place(p, w, workers), workers) == w,
        position_of(place(p, w, workers), workers) == p,
{
    assert(p * workers >= 0) by (nonlinear_arith)
        requires
            p >= 0,
            workers > 0,
    ;
    lemma_fundamental_div_mod_converse(p * workers + w, workers, p, w);
}

/// A place is the place of its own queue and position.
proof fn lemma_slot_place(inx: int, workers: int)
    requires
        0 <= inx,
        0 < workers,
    ensures
        0 <= queue_of(inx, workers) < workers,
        0 <= position_of(inx, workers),
        place(position_of(inx, workers), queue_of(inx, workers), workers) == inx,
{
    lemma_fundamental_div_mod(inx, workers);
    assert(workers * (inx / workers) == (inx / workers) * workers) by (nonlinear_arith);
    assert(0 <= inx / workers) by (nonlinear_arith)
        requires
            0 <= inx,
            0 < workers,
            inx == (inx / workers) * workers + inx % workers,
            0 <= inx % workers < workers,
    ;
}

/// The queue that the next task goes to has its next free position where
/// that task belongs.
proof fn lemma_next_slot(len: int, count: int, workers: int)
    requires
        0 < workers,
        0 <= count,
        0 <= len,
        forall|p: int| 0 <= p < len ==> #[trigger] place(p, queue_of(count, workers), workers) < count,
        forall|inx: int|
            0 <= inx < count && queue_of(inx, workers) == queue_of(count, workers) ==> #[trigger] position_of(
                inx,
                workers,
            ) < len,
    ensures
        len == position_of(count, workers),
        place(len, queue_of(count, workers), workers) == count,
{
    let w = queue_of(count, workers);
    let q = position_of(count, workers);
    lemma_slot_place(count, workers);
    if len > q {
        assert(place(q, w, workers) < count);
    }
    if len < q {
        let inx = place(len, w, workers);
        lemma_place_slot(len, w, workers);
        assert(inx < count) by (nonlinear_arith)
            requires
                inx == len * workers + w,
                count == q * workers + w,
                len < q,
                0 < workers,
        ;
        assert(position_of(inx, workers) < len);
    }
}

/// Every place below `count` is dealt out once: its task stands in the
/// queue of one worker, at one position, and nowhere else.
pub proof fn lemma_dispatch_once<T: Debug>(
    queues: Seq<Vec<MsgInput<T>>>,
    a: &Matrix<T>,
    b: &Matrix<T>,
    workers: int,
    count: int,
    inx: int,
)
    requires
        0 < workers,
        0 <= inx < count,
        is_dispatch(queues, a, b, workers, count),
    ensures
        0 <= queue_of(inx, workers) < workers,
        0 <= position_of(inx, workers) < queues[queue_of(inx, workers)]@.len(),
        queues[queue_of(inx, workers)]@[position_of(inx, workers)].inx == inx,
        forall|w: int, p: int|
            0 <= w < workers && 0 <= p < queues[w]@.len() && (#[trigger] queues[w]@[p]).inx == inx ==> w
                == queue_of(inx, workers) && p == position_of(inx, workers),
{
    lemma_slot_place(inx, workers);
    assert forall|w: int, p: int|
        0 <= w < workers && 0 <= p < queues[w]@.len() && (#[trigger] queues[w]@[p]).inx == inx implies w
        == queue_of(inx, workers) && p == position_of(inx, workers) by {
        lemma_place_slot(p, w, workers);
    }
}

/// Deals the tasks of all cells of the product of `a` and `b` out to
/// `workers` queues: cell by cell in row-major order, the task bound for
/// place `inx` to the queue of worker `inx % workers`.
pub fn dispatch<T: Debug + Copy>(a: &Matrix<T>, b: &Matrix<T>, workers: usize) -> (queues: Vec<
    Vec<MsgInput<T>>,
>)
    requires
        a.wf(),
        b.wf(),
        workers > 0,
        a.rows() * b.cols() <= usize::MAX,
    ensures
        is_dispatch(queues@, a, b, workers as int, a.rows() * b.cols()),
{
    let mut queues: Vec<Vec<MsgInput<T>>> = Vec::with_capacity(workers);
    let mut w: usize = 0;
    while w < workers
        invariant
            w <= workers,
            queues@.len() == w,
            forall|k: int| 0 <= k < w ==> (#[trigger] queues@[k])@.len() == 0,
        decreases workers - w,
    {
        queues.push(Vec::new());
        w += 1;
    }
    let rows = a.rows();
    let cols = b.cols();
    let mut i: usize = 0;
    while i < rows
        invariant
            a.wf(),
            b.wf(),
            workers > 0,
            rows == a.rows(),
            cols == b.cols(),
            rows * cols <= usize::MAX,
            i <= rows,
            is_dispatch(queues@, a, b, workers as int, i * cols),
        decreases rows - i,
    {
        let mut j: usize = 0;
        while j < cols
            invariant
                a.wf(),
                b.wf(),
                workers > 0,
                rows == a.rows(),
                cols == b.cols(),
                rows * cols <= usize::MAX,
                i < rows,
                j <= cols,
                is_dispatch(queues@, a, b, workers as int, i * cols + j),
            decreases cols - j,
        {
            let task = task_for(a, b, i, j);
            let w = worker_for(task.inx, workers);
            let ghost count = i * cols + j;
            let ghost before = queues@;
            proof {
                lemma_cell_index(i as int, j as int, rows as int, cols as int);
                assert forall|p: int| 0 <= p < before[w as int]@.len() implies #[trigger] place(
                    p,
                    queue_of(count, workers as int),
                    workers as int,
                ) < count by {
                    let t = before[w as int]@[p];
                }
                lemma_next_slot(before[w as int]@.len() as int, count, workers as int);
            }
            queues[w].push(task);
            j += 1;
            proof {
                let after = queues@;
                assert(after.len() == workers);
                assert(after[w as int]@ == before[w as int]@.push(task));
                assert(forall|k: int| 0 <= k < workers && k != w ==> after[k] == before[k]);
                assert forall|v: int, p: int|
                    #![trigger after[v]@[p]]
                    #![trigger place(p, v, workers as int)]
                    0 <= v < workers && 0 <= p < after[v]@.len() implies place(p, v, workers as int) < count + 1
                    && is_task_of(after[v]@[p], a, b, place(p, v, workers as int)) by {
                    if v == w && p == before[w as int]@.len() {
                        assert(after[v]@[p] == task);
                    } else {
                        assert(after[v]@[p] == before[v]@[p]);
                    }
                }
                assert forall|inx: int| 0 <= inx < count + 1 implies #[trigger] position_of(inx, workers as int)
                    < after[queue_of(inx, workers as int)]@.len() by {
                    lemma_slot_place(inx, workers as int);
                    if inx < count {
                        assert(position_of(inx, workers as int) < before[queue_of(inx, workers as int)]@.len());
                    }
                }
            }
        }
        proof {
            assert(i * cols + cols == (i + 1) * cols) by (nonlinear_arith);
        }
        i += 1;
    }
    queues
}

/// Whether `replies` answers the tasks of `queue` one for one, in their
/// order: each reply names the place of its task and holds a dot product of
/// the task's row and column.
pub open spec fn answers<T: Default + Add<Output = T> + Mul<Output = T>>(
    replies: Seq<MsgOutput<T>>,
    queue: Seq<MsgInput<T>>,
) -> bool {
    &&& replies.len() == queue.len()
    &&& forall|p: int|
        0 <= p < queue.len() ==> (#[trigger] replies[p]).inx == queue[p].inx && is_dot(
            queue[p].row@,
            queue[p].col@,
            replies[p].result,
        )
}

/// The run of one worker: serves the tasks of its queue first-in first-out.
/// The worker ends at the first task whose row and column differ in length.
pub fn serve_queue<T>(queue: Vec<MsgInput<T>>) -> (r: Result<Vec<MsgOutput<T>>, Error>)
    where T: Default + Add<Output = T> + Mul<Output = T> + Copy
    requires
        forall|p: int| 0 <= p < queue@.len() ==> dot_computable((#[trigger] queue@[p]).row@, queue@[p].col@),
    ensures
        r is Err <==> exists|p: int|
            0 <= p < queue@.len() && (#[trigger] queue@[p]).row@.len() != queue@[p].col@.len(),
        r is Err ==> r->Err_0 == Error::DimensionMismatch,
        r is Ok ==> answers(r->Ok_0@, queue@),
{
    let ghost tasks = queue@;
    let mut replies: Vec<MsgOutput<T>> = Vec::with_capacity(queue.len());
    for task in tit: queue
        invariant
            tit.seq() == tasks,
            forall|p: int| 0 <= p < tasks.len() ==> dot_computable((#[trigger] tasks[p]).row@, tasks[p].col@),
            forall|p: int| 0 <= p < tit.index() ==> (#[trigger] tasks[p]).row@.len() == tasks[p].col@.len(),
            answers(replies@, tasks.take(tit.index() as int)),
    {
        let ghost p = tit.index() as int;
        let ghost before = replies@;
        assert(task == tasks[p]);
        match task.compute() {
            Ok(output) => {
                replies.push(output);
                proof {
                    assert forall|q: int| 0 <= q < p + 1 implies (#[trigger] replies@[q]).inx == tasks.take(
                        p + 1,
                    )[q].inx && is_dot(tasks.take(p + 1)[q].row@, tasks.take(p + 1)[q].col@, replies@[q].result) by {
                        if q < p {
                            assert(replies@[q] == before[q]);
                            assert(tasks.take(p)[q] == tasks[q]);
                        }
                    }
                }
            },
            Err(e) => {
                return Err(e);
            },
        }
    }
    proof {
        assert(tasks.take(tasks.len() as int) =~= tasks);
    }
    Ok(replies)
}

/// The places `0`, `1`, and so on below `count`, in this order: the order in
/// which the tasks are made.
pub open spec fn in_order(count: nat) -> Seq<int> {
    Seq::new(count, |k: int| k)
}

/// Among the first `count` places in their order, each stands once, and no
/// other place stands at all.
pub proof fn lemma_in_order_once(count: nat, inx: int)
    ensures
        occurrences(in_order(count), inx) == if 0 <= inx < count {
            1nat
        } else {
            0nat
        },
    decreases count,
{
    if count > 0 {
        lemma_in_order_once((count - 1) as nat, inx);
        assert(in_order(count).drop_last() =~= in_order((count - 1) as nat));
    }
}

/// Runs the pool on the queues that the dispatcher filled: every worker
/// serves its own queue, and the replies are then taken in the order in
/// which the tasks were made, each written to the place that it names.
pub fn run_queues<T>(a: &Matrix<T>, b: &Matrix<T>, queues: Vec<Vec<MsgInput<T>>>) -> (r: Result<
    Collector<T>,
    Error,
>)
    where T: Debug + Default + Add<Output = T> + Mul<Output = T> + Copy
    requires
        a.wf(),
        b.wf(),
        a.cols() == b.rows(),
        a.rows() * b.cols() <= usize::MAX,
        product_defined(a, b),
        queues@.len() > 0,
        is_dispatch(queues@, a, b, queues@.len() as int, a.rows() * b.cols()),
    ensures
        r is Ok,
        r->Ok_0.wf(),
        r->Ok_0.rows() == a.rows(),
        r->Ok_0.cols() == b.cols(),
        r->Ok_0.written() == in_order((a.rows() * b.cols()) as nat),
        r->Ok_0.complete(),
        product_cells(a, b, r->Ok_0@),
{
    let ghost plan = queues@;
    let ghost cells = a.rows() * b.cols();
    let workers = queues.len();
    let mut replies: Vec<Vec<MsgOutput<T>>> = Vec::with_capacity(workers);
    for queue in qit: queues
        invariant
            a.wf(),
            b.wf(),
            a.cols() == b.rows(),
            cells == a.rows() * b.cols(),
            product_defined(a, b),
            workers == plan.len(),
            qit.seq() == plan,
            is_dispatch(plan, a, b, workers as int, cells),
            replies@.len() == qit.index(),
            forall|w: int| 0 <= w < qit.index() ==> answers((#[trigger] replies@[w])@, plan[w]@),
    {
        let ghost w = qit.index() as int;
        proof {
            assert forall|p: int| 0 <= p < queue@.len() implies dot_computable(
                (#[trigger] queue@[p]).row@,
                queue@[p].col@,
            ) by {
                assert(is_task_of(plan[w]@[p], a, b, place(p, w, workers as int)));
                lemma_place_cell(place(p, w, workers as int), a.rows() as int, b.cols() as int);
                let i = place(p, w, workers as int) / (b.cols() as int);
                let j = place(p, w, workers as int) % (b.cols() as int);
                assert(dot_computable(a.row_cells(i), b.col_cells(j)));
            }
        }
        match serve_queue(queue) {
            Ok(served) => {
                replies.push(served);
            },
            Err(e) => {
                return Err(e);
            },
        }
    }
    let mut collector: Collector<T> = Collector::new(a.rows(), b.cols());
    let total = a.rows() * b.cols();
    let mut inx: usize = 0;
    while inx < total
        invariant
            a.wf(),
            b.wf(),
            total == cells,
            cells == a.rows() * b.cols(),
            0 < workers == plan.len(),
            is_dispatch(plan, a, b, workers as int, cells),
            replies@.len() == workers,
            forall|w: int| 0 <= w < workers ==> answers((#[trigger] replies@[w])@, plan[w]@),
            inx <= total,
            collector.wf(),
            collector.rows() == a.rows(),
            collector.cols() == b.cols(),
            collector@.len() == cells,
            collector.written() == in_order(inx as nat),
            forall|k: int|
                0 <= k < inx ==> is_dot(
                    a.row_cells(k / (b.cols() as int)),
                    b.col_cells(k % (b.cols() as int)),
                    #[trigger] collector@[k],
                ),
        decreases total - inx,
    {
        let w = worker_for(inx, workers);
        let p = inx / workers;
        proof {
            lemma_slot_place(inx as int, workers as int);
            assert(position_of(inx as int, workers as int) < plan[queue_of(inx as int, workers as int)]@.len());
            assert(answers(replies@[w as int]@, plan[w as int]@));
            assert(is_task_of(plan[w as int]@[p as int], a, b, place(p as int, w as int, workers as int)));
        }
        let output = MsgOutput { inx: replies[w][p].inx, result: replies[w][p].result };
        let ghost before = collector@;
        match collector.accept(Some(output)) {
            Ok(()) => {},
            Err(e) => {
                return Err(e);
            },
        }
        inx += 1;
        proof {
            assert(collector.written() =~= in_order(inx as nat));
            assert forall|k: int| 0 <= k < inx implies is_dot(
                a.row_cells(k / (b.cols() as int)),
                b.col_cells(k % (b.cols() as int)),
                #[trigger] collector@[k],
            ) by {
                if k < inx - 1 {
                    assert(collector@[k] == before[k]);
                }
            }
        }
    }
    proof {
        assert forall|i: int, j: int| 0 <= i < a.rows() && 0 <= j < b.cols() implies is_dot(
            a.row_cells(i),
            b.col_cells(j),
            #[trigger] cell_at(collector@, b.cols() as int, i, j),
        ) by {
            lemma_cell_index(i, j, a.rows() as int, b.cols() as int);
            assert(is_dot(
                a.row_cells((i * b.cols() + j) / (b.cols() as int)),
                b.col_cells((i * b.cols() + j) % (b.cols() as int)),
                collector@[i * b.cols() + j],
            ));
        }
        assert forall|k: int| 0 <= k < collector@.len() implies #[trigger] occurrences(collector.written(), k)
            == 1 by {
            lemma_in_order_once(cells as nat, k);
        }
    }
    Ok(collector)
}

/// The product of `a` and `b`, computed cell by cell through a pool of
/// `workers` workers: the tasks are dealt out to the workers' queues, each
/// queue is served in order, and the results are collected by place.
pub fn multiply_with_workers<T>(a: &Matrix<T>, b: &Matrix<T>, workers: usize) -> (r: Result<Matrix<T>, Error>)
    where T: Debug + Default + Add<Output = T> + Mul<Output = T> + Copy
    requires
        a.wf(),
        b.wf(),
        workers > 0,
        a.cols() == b.rows() ==> a.rows() * b.cols() <= usize::MAX && product_defined(a, b),
    ensures
        a.cols() != b.rows() ==> r is Err && r->Err_0 == Error::DimensionMismatch,
        a.cols() == b.rows() ==> r is Ok && is_product(a, b, &r->Ok_0),
{
    match check_compatible(a, b) {
        Ok(()) => {},
        Err(e) => {
            return Err(e);
        },
    }
    let queues = dispatch(a, b, workers);
    match run_queues(a, b, queues) {
        Ok(collector) => Ok(collector.finish()),
        Err(e) => Err(e),
    }
}

/// The product of `a` and `b`, computed through a pool of `NUM_THREADS`
/// workers, or `DimensionMismatch` where `a` has not as many columns as `b`
/// has rows: nothing is dealt out then.
pub fn multiply<T>(a: &Matrix<T>, b: &Matrix<T>) -> (r: Result<Matrix<T>, Error>)
    where T: Debug + Default + Add<Output = T> + Mul<Output = T> + Copy
    requires
        a.wf(),
        b.wf(),
        a.cols() == b.rows() ==> a.rows() * b.cols() <= usize::MAX && product_defined(a, b),
    ensures
        a.cols() != b.rows() ==> r is Err && r->Err_0 == Error::DimensionMismatch,
        a.cols() == b.rows() ==> r is Ok && is_product(a, b, &r->Ok_0),
{
    multiply_with_workers(a, b, NUM_THREADS)
}

} // verus!
