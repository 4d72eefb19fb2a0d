use rustscripts::queue::{fetch_queue, BATCH_SIZE};

#[test]
fn fetch_takes_a_batch_from_the_end() {
    let mut queue: Vec<u32> = (0..250).collect();
    let mut local: Vec<u32> = vec![7];
    fetch_queue(&mut local, &mut queue);
    assert_eq!(queue.len(), 150);
    assert_eq!(local.len(), 1 + BATCH_SIZE);
    assert_eq!(local[0], 7);
    assert_eq!(local[1], 249);
    assert_eq!(local[100], 150);
}

#[test]
fn fetch_on_short_and_empty_queues() {
    let mut queue: Vec<u32> = vec![1, 2, 3];
    let mut local: Vec<u32> = Vec::new();
    fetch_queue(&mut local, &mut queue);
    assert_eq!(local, vec![3, 2, 1]);
    assert!(queue.is_empty());
    let mut local2: Vec<u32> = Vec::new();
    fetch_queue(&mut local2, &mut queue);
    assert!(local2.is_empty());
}

#[test]
fn workers_share_the_queue_exactly_once() {
    let total: u32 = 1037;
    let mut queue: Vec<u32> = (0..total).collect();
    let mut taken: Vec<Vec<u32>> = vec![Vec::new(); 5];
    let mut w = 0usize;
    loop {
        let mut local = Vec::new();
        fetch_queue(&mut local, &mut queue);
        if local.is_empty() {
            break;
        }
        taken[w % 5].extend(local);
        w += 3;
    }
    let mut all: Vec<u32> = taken.into_iter().flatten().collect();
    all.sort();
    assert_eq!(all, (0..total).collect::<Vec<u32>>());
}
