use chat_graph::model::Thread;
use chat_graph::pipeline::{plan_batches, BatchWriter, THREAD_BATCH_SIZE};

fn thread(label: usize) -> Thread {
    Thread { messages: Vec::new(), participants: Vec::new(), labels: vec![label.to_string()] }
}

fn stream(n: usize) -> Vec<Thread> {
    (0..n).map(thread).collect()
}

fn sizes(plan: &Vec<Vec<Thread>>) -> Vec<usize> {
    plan.iter().map(|batch| batch.len()).collect()
}

#[test]
fn a_multiple_of_the_batch_size_gives_full_batches_only() {
    let plan = plan_batches(stream(12), 4);
    assert_eq!(sizes(&plan), vec![4, 4, 4]);
    let flat: Vec<Thread> = plan.into_iter().flatten().collect();
    assert_eq!(flat, stream(12));
}

#[test]
fn a_remainder_gives_one_last_smaller_batch() {
    let plan = plan_batches(stream(14), 4);
    assert_eq!(sizes(&plan), vec![4, 4, 4, 2]);
    let flat: Vec<Thread> = plan.into_iter().flatten().collect();
    assert_eq!(flat, stream(14));
}

#[test]
fn fewer_threads_than_the_batch_size_give_one_batch() {
    assert_eq!(sizes(&plan_batches(stream(1), THREAD_BATCH_SIZE)), vec![1]);
    assert_eq!(sizes(&plan_batches(stream(99), THREAD_BATCH_SIZE)), vec![99]);
    assert_eq!(sizes(&plan_batches(stream(100), THREAD_BATCH_SIZE)), vec![100]);
    assert_eq!(sizes(&plan_batches(stream(101), THREAD_BATCH_SIZE)), vec![100, 1]);
}

#[test]
fn an_empty_stream_gives_no_batch() {
    assert!(plan_batches(Vec::new(), 4).is_empty());
    assert_eq!(BatchWriter::new(4).finish(), None);
}

#[test]
fn a_batch_size_of_one_or_none_writes_every_thread_alone() {
    assert_eq!(sizes(&plan_batches(stream(3), 1)), vec![1, 1, 1]);
    assert_eq!(sizes(&plan_batches(stream(3), 0)), vec![1, 1, 1]);
}

#[test]
fn the_writer_hands_out_a_batch_when_it_is_full() {
    let mut writer = BatchWriter::new(2);
    assert_eq!(writer.accept(thread(0)), None);
    assert_eq!(writer.pending, vec![thread(0)]);
    assert_eq!(writer.accept(thread(1)), Some(vec![thread(0), thread(1)]));
    assert!(writer.pending.is_empty());
    assert_eq!(writer.accept(thread(2)), None);
    assert_eq!(writer.finish(), Some(vec![thread(2)]));
}
