use concurrency::error::Error;
use concurrency::matrix::Matrix;
use concurrency::pool::{dispatch, run_queues, serve_queue, task_for, worker_for, Collector, NUM_THREADS};
use concurrency::task::{Msg, MsgInput, MsgOutput};
use concurrency::text::{decimal_text, describe, render};
use concurrency::vector::Vector;

#[test]
fn tasks_go_round_the_workers() {
    assert_eq!(NUM_THREADS, 4);
    assert_eq!(worker_for(0, 4), 0);
    assert_eq!(worker_for(3, 4), 3);
    assert_eq!(worker_for(4, 4), 0);
    assert_eq!(worker_for(9, 4), 1);
    assert_eq!(worker_for(9, 1), 0);
    assert_eq!(worker_for(5, 8), 5);
}

#[test]
fn task_of_a_cell() {
    let a = Matrix::new(vec![1, 2, 3, 4, 5, 6], 2, 3);
    let b = Matrix::new(vec![7, 8, 9, 10, 11, 12], 3, 2);
    let task = task_for(&a, &b, 1, 0);
    assert_eq!(task.inx, 2);
    assert_eq!(*task.row, vec![4, 5, 6]);
    assert_eq!(*task.col, vec![7, 9, 11]);
    let task = task_for(&a, &b, 0, 1);
    assert_eq!(task.inx, 1);
    assert_eq!(*task.row, vec![1, 2, 3]);
    assert_eq!(*task.col, vec![8, 10, 12]);
}

#[test]
fn dispatch_hands_each_place_to_one_queue() {
    let a = Matrix::new((1..=15).collect::<Vec<i32>>(), 5, 3);
    let b = Matrix::new((1..=12).collect::<Vec<i32>>(), 3, 4);
    for workers in [1usize, 2, 3, 4, 7, 8, 20, 32] {
        let queues = dispatch(&a, &b, workers);
        assert_eq!(queues.len(), workers);
        let mut seen = vec![0usize; 20];
        for (w, queue) in queues.iter().enumerate() {
            for (p, task) in queue.iter().enumerate() {
                assert_eq!(task.inx, p * workers + w);
                assert_eq!(*task.row, *a.row(task.inx / 4));
                assert_eq!(*task.col, *b.col(task.inx % 4));
                seen[task.inx] += 1;
            }
        }
        assert_eq!(seen, vec![1usize; 20]);
    }
}

#[test]
fn dispatch_to_four_workers() {
    let a = Matrix::new(vec![1, 2, 3, 4, 5, 6], 2, 3);
    let b = Matrix::new(vec![1, 2, 3, 4, 5, 6, 7, 8, 9], 3, 3);
    let queues = dispatch(&a, &b, 4);
    let places: Vec<Vec<usize>> = queues.iter().map(|q| q.iter().map(|t| t.inx).collect()).collect();
    assert_eq!(places, vec![vec![0, 4], vec![1, 5], vec![2], vec![3]]);
}

#[test]
fn queues_are_served_into_the_product() {
    let a = Matrix::new(vec![1, 2, 3, 4, 5, 6], 2, 3);
    let b = Matrix::new(vec![1, 2, 3, 4, 5, 6], 3, 2);
    let queues = dispatch(&a, &b, 3);
    let collector = run_queues(&a, &b, queues).unwrap();
    let c = collector.finish();
    assert_eq!((c.rows(), c.cols()), (2, 2));
    assert_eq!(c.data(), &vec![22, 28, 49, 64]);
}

#[test]
fn worker_serves_its_queue_in_order() {
    let queue = vec![
        MsgInput::new(1, Vector::new(vec![1, 2, 3]), Vector::new(vec![2, 4, 6])),
        MsgInput::new(5, Vector::new(vec![4, 5, 6]), Vector::new(vec![1, 3, 5])),
        MsgInput::new(9, Vector::new(vec![]), Vector::new(vec![])),
    ];
    let replies = serve_queue(queue).unwrap();
    let seen: Vec<(usize, i32)> = replies.iter().map(|r| (r.inx, r.result)).collect();
    assert_eq!(seen, vec![(1, 28), (5, 49), (9, 0)]);
    assert!(serve_queue(Vec::<MsgInput<i32>>::new()).unwrap().is_empty());
}

#[test]
fn worker_ends_at_a_task_of_unequal_lengths() {
    let queue = vec![
        MsgInput::new(0, Vector::new(vec![1, 2]), Vector::new(vec![3, 4])),
        MsgInput::new(4, Vector::new(vec![1, 2]), Vector::new(vec![3])),
        MsgInput::new(8, Vector::new(vec![1]), Vector::new(vec![3])),
    ];
    assert!(matches!(serve_queue(queue), Err(Error::DimensionMismatch)));
}

#[test]
fn replies_of_all_queues_make_the_product() {
    let a = Matrix::new((1..=12).collect::<Vec<i64>>(), 4, 3);
    let b = Matrix::new((1..=15).collect::<Vec<i64>>(), 3, 5);
    let mut expected = vec![0i64; 20];
    for i in 0..4 {
        for j in 0..5 {
            for k in 0..3 {
                expected[i * 5 + j] += a.data()[i * 3 + k] * b.data()[k * 5 + j];
            }
        }
    }
    for workers in [1usize, 3, 4, 6, 20, 21] {
        let queues = dispatch(&a, &b, workers);
        let c = run_queues(&a, &b, queues).unwrap().finish();
        assert_eq!((c.rows(), c.cols()), (4, 5));
        assert_eq!(c.data(), &expected);
    }
}

#[test]
fn worker_computes_the_dot_product_for_its_place() {
    let input = MsgInput::new(5, Vector::new(vec![1, 2, 3]), Vector::new(vec![1, 3, 5]));
    assert_eq!(input.inx, 5);
    let output = input.compute().unwrap();
    assert_eq!(output.inx, 5);
    assert_eq!(output.result, 22);
}

#[test]
fn worker_refuses_a_task_of_unequal_lengths() {
    let input = MsgInput::new(0, Vector::new(vec![1, 2, 3]), Vector::new(vec![1, 3]));
    assert!(matches!(input.compute(), Err(Error::DimensionMismatch)));
}

#[test]
fn worker_answers_on_the_channel_of_the_task() {
    let (tx, rx) = oneshot::channel::<MsgOutput<i32>>();
    let input = MsgInput::new(3, Vector::new(vec![4, 5, 6]), Vector::new(vec![2, 4, 6]));
    let msg = Msg::new(input, tx);
    assert_eq!(msg.input.inx, 3);
    let undelivered = msg.serve().unwrap();
    assert!(undelivered.is_none());
    let output = rx.recv().unwrap();
    assert_eq!(output.inx, 3);
    assert_eq!(output.result, 64);
}

#[test]
fn task_with_its_own_reply_channel() {
    let input = MsgInput::new(2, Vector::new(vec![4i64, 5, 6]), Vector::new(vec![1i64, 3, 5]));
    let (msg, receiver) = Msg::with_reply(input);
    assert_eq!(msg.input.inx, 2);
    assert_eq!(*msg.input.row, vec![4i64, 5, 6]);
    assert_eq!(*msg.input.col, vec![1i64, 3, 5]);
    assert!(receiver.try_recv().is_err());
    assert!(msg.serve().unwrap().is_none());
    let output = receiver.recv().unwrap();
    assert_eq!((output.inx, output.result), (2, 49));
}

#[test]
fn worker_gets_the_result_back_when_nobody_listens() {
    let (tx, rx) = oneshot::channel::<MsgOutput<i32>>();
    drop(rx);
    let input = MsgInput::new(1, Vector::new(vec![1, 2, 3]), Vector::new(vec![2, 4, 6]));
    let undelivered = Msg::new(input, tx).serve().unwrap();
    let output = undelivered.unwrap();
    assert_eq!(output.inx, 1);
    assert_eq!(output.result, 28);
}

#[test]
fn worker_leaves_a_bad_task_unanswered() {
    let (tx, rx) = oneshot::channel::<MsgOutput<i32>>();
    let input = MsgInput::new(1, Vector::new(vec![1, 2, 3]), Vector::new(vec![2]));
    assert!(matches!(Msg::new(input, tx).serve(), Err(Error::DimensionMismatch)));
    assert!(rx.recv().is_err());
}

#[test]
fn collector_writes_each_result_to_its_own_place() {
    let mut collector: Collector<i32> = Collector::new(2, 2);
    assert_eq!(collector.accept(Some(MsgOutput { inx: 3, result: 64 })), Ok(()));
    assert_eq!(collector.accept(Some(MsgOutput { inx: 0, result: 22 })), Ok(()));
    assert_eq!(collector.accept(Some(MsgOutput { inx: 2, result: 49 })), Ok(()));
    assert_eq!(collector.accept(Some(MsgOutput { inx: 1, result: 28 })), Ok(()));
    let m = collector.finish();
    assert_eq!((m.rows(), m.cols()), (2, 2));
    assert_eq!(m.data(), &vec![22, 28, 49, 64]);
}

#[test]
fn collector_starts_from_default_values() {
    let mut collector: Collector<i32> = Collector::new(2, 3);
    assert_eq!(collector.accept(Some(MsgOutput { inx: 4, result: 9 })), Ok(()));
    let m = collector.finish();
    assert_eq!((m.rows(), m.cols()), (2, 3));
    assert_eq!(m.data(), &vec![0, 0, 0, 0, 9, 0]);
}

#[test]
fn collector_fails_on_a_missing_reply() {
    let mut collector: Collector<i32> = Collector::new(1, 2);
    assert_eq!(collector.accept(Some(MsgOutput { inx: 1, result: 5 })), Ok(()));
    assert_eq!(collector.accept(None), Err(Error::Internal));
    assert_eq!(collector.finish().data(), &vec![0, 5]);
}

#[test]
fn decimal_numerals() {
    assert_eq!(decimal_text(0), "0");
    assert_eq!(decimal_text(7), "7");
    assert_eq!(decimal_text(10), "10");
    assert_eq!(decimal_text(1234567890), "1234567890");
    assert_eq!(decimal_text(usize::MAX), usize::MAX.to_string());
}

#[test]
fn layout_of_cell_texts() {
    let texts: Vec<String> = vec!["a".to_string(), "bc".to_string(), "".to_string(), "d".to_string()];
    assert_eq!(render(&texts, 2, 2), "{a bc,  d}");
    assert_eq!(render(&texts, 1, 4), "{a bc  d}");
    assert_eq!(render(&texts, 4, 1), "{a, bc, , d}");
    assert_eq!(describe(&texts, 2, 2), "Matrix(rows=2,cols=2,{a bc,  d})");
    assert_eq!(render(&Vec::new(), 0, 0), "{}");
    assert_eq!(describe(&Vec::new(), 12, 0), "Matrix(rows=12,cols=0,{, , , , , , , , , , , })");
}
