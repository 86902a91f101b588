use nexus::scheduler::{Request, RequestState, ScheduledDecode, Scheduler};

#[test]
fn test_request_lifecycle() {
    let req = Request::new("test".to_string(), vec![1, 2, 3], 5);
    assert!(matches!(req.state, RequestState::Pending));
    assert!(!req.is_running());
    assert!(!req.is_done());

    let mut req = req;
    req.mark_running(Vec::new());
    assert!(req.is_running());

    req.advance();
    if let RequestState::Running { generated, .. } = req.state {
        assert_eq!(generated, 1);
    } else {
        panic!("Expected Running state");
    }
}

#[test]
fn test_scheduler_add_and_batch() {
    let mut scheduler = Scheduler::new(4);
    scheduler.add_request("r1".to_string(), vec![1, 2], 3);
    scheduler.add_request("r2".to_string(), vec![3, 4], 3);

    let batch = scheduler.get_next_batch();
    assert_eq!(batch.len(), 2);
    assert_eq!(batch[0].id, "r1");
    assert_eq!(batch[1].id, "r2");

    let (pending, running, completed) = scheduler.stats();
    assert_eq!(pending, 0);
    assert_eq!(running, 2);
    assert_eq!(completed, 0);
}

#[test]
fn test_scheduler_step() {
    let mut scheduler = Scheduler::new(4);
    scheduler.add_request("r1".to_string(), vec![1], 2);

    let _batch = scheduler.get_next_batch();
    let results = scheduler.step();
    assert_eq!(results.len(), 1);
}

#[test]
fn test_scheduler_max_batch() {
    let mut scheduler = Scheduler::new(2);
    for i in 0..5 {
        scheduler.add_request(format!("r{}", i), vec![i as u32], 3);
    }

    let batch = scheduler.get_next_batch();
    assert!(batch.len() <= 2);
}

#[test]
fn test_scheduler_honors_request_max_tokens() {
    let mut scheduler = Scheduler::new(4);
    scheduler.add_request("r1".to_string(), vec![1], 1);

    scheduler.get_next_batch();
    let results = scheduler.step();
    assert_eq!(results, vec!["r1".to_string()]);

    let (pending, running, completed) = scheduler.stats();
    assert_eq!((pending, running, completed), (0, 0, 1));
}

#[test]
fn test_scheduler_respects_running_capacity() {
    let mut scheduler = Scheduler::new(2);
    scheduler.add_request("r1".to_string(), vec![1], 3);
    scheduler.add_request("r2".to_string(), vec![2], 3);
    scheduler.add_request("r3".to_string(), vec![3], 3);

    let first = scheduler.get_next_batch();
    assert_eq!(first.len(), 2);

    let second = scheduler.get_next_batch();
    assert!(second.is_empty());
    let (pending, running, completed) = scheduler.stats();
    assert_eq!((pending, running, completed), (1, 2, 0));
}

#[test]
fn test_scheduler_complete_request() {
    let mut scheduler = Scheduler::new(2);
    scheduler.add_request("r1".to_string(), vec![1], 10);
    scheduler.get_next_batch();

    assert!(scheduler.complete_request("r1"));
    let (pending, running, completed) = scheduler.stats();
    assert_eq!((pending, running, completed), (0, 0, 1));
}

#[test]
fn test_decode_batch_and_append_generated() {
    let mut scheduler = Scheduler::new(2);
    scheduler.add_request("r1".to_string(), vec![10, 11], 2);

    let batch = scheduler.decode_batch();
    assert_eq!(
        batch,
        vec![ScheduledDecode {
            id: "r1".to_string(),
            token: 11,
            position: 2,
            generated: 0,
            prompt_len: 2,
            kv_pages: vec![0],
        }]
    );

    assert!(scheduler.append_generated("r1", 12));
    let batch = scheduler.decode_batch();
    assert_eq!(batch[0].token, 12);
    assert_eq!(batch[0].position, 3);
    assert_eq!(batch[0].generated, 1);

    assert!(scheduler.append_generated("r1", 13));
    let (pending, running, completed) = scheduler.stats();
    assert_eq!((pending, running, completed), (0, 0, 1));
}

#[test]
fn test_scheduler_kv_page_capacity_and_release() {
    let mut scheduler = Scheduler::with_kv_pages(4, 4, 2);
    scheduler.add_request("r1".to_string(), vec![1, 2, 3, 4], 4);
    scheduler.add_request("r2".to_string(), vec![5, 6, 7, 8], 4);

    let first = scheduler.get_next_batch();
    assert_eq!(first.len(), 1);
    let allocation = scheduler.kv_allocation("r1").unwrap();
    assert_eq!(allocation.page_ids, vec![0, 1]);
    assert_eq!(scheduler.kv_page_stats(), (2, 2));

    let second = scheduler.get_next_batch();
    assert!(second.is_empty());

    assert!(scheduler.complete_request("r1"));
    assert_eq!(scheduler.kv_page_stats(), (0, 2));

    let third = scheduler.get_next_batch();
    assert_eq!(third.len(), 1);
    assert_eq!(third[0].id, "r2");
}

#[test]
fn completed_requests_are_handed_out_once() {
    let mut scheduler = Scheduler::default();
    scheduler.add_request("r1".to_string(), vec![1, 2], 1);
    scheduler.decode_batch();
    assert!(scheduler.append_generated("r1", 7));
    let done = scheduler.get_completed();
    assert_eq!(done.len(), 1);
    assert!(done[0].is_done());
    assert_eq!(done[0].tokens, vec![1, 2, 7]);
    assert_eq!(done[0].generated_tokens(), 1);
    assert!(scheduler.get_completed().is_empty());
    assert_eq!(scheduler.stats(), (0, 0, 0));
}

#[test]
fn unknown_requests_are_refused() {
    let mut scheduler = Scheduler::new(2);
    assert!(!scheduler.append_generated("nobody", 1));
    assert!(!scheduler.complete_request("nobody"));
    assert!(scheduler.kv_allocation("nobody").is_none());
    scheduler.add_request("waiting".to_string(), vec![1], 1);
    assert!(!scheduler.append_generated("waiting", 1));
}

#[test]
fn pages_of_running_requests_differ() {
    let mut scheduler = Scheduler::with_kv_pages(8, 2, 100);
    for i in 0..6usize {
        scheduler.add_request(format!("r{}", i), vec![1; i + 1], 3);
    }
    scheduler.get_next_batch();
    scheduler.complete_request("r1");
    scheduler.add_request("late".to_string(), vec![1; 5], 3);
    scheduler.get_next_batch();
    let mut pages: Vec<u64> = Vec::new();
    let mut count = 0;
    for id in ["r0", "r2", "r3", "r4", "r5", "late"] {
        let allocation = scheduler.kv_allocation(id).unwrap();
        assert_eq!(allocation.request_id, id);
        assert!(allocation.capacity_tokens >= 4);
        count += allocation.page_ids.len();
        pages.extend(allocation.page_ids);
    }
    pages.sort();
    pages.dedup();
    assert_eq!(pages.len(), count);
    assert_eq!(scheduler.kv_page_stats().0, count);
}

#[test]
fn positions_follow_the_prompt() {
    let mut req = Request::new("r".to_string(), vec![4, 5, 6], 2);
    assert_eq!(req.position(), 3);
    req.mark_running(vec![9]);
    assert_eq!(req.position(), 3);
    assert!(req.advance());
    assert_eq!(req.position(), 4);
    assert!(req.advance());
    assert!(req.is_done());
    assert!(!req.advance());
}

#[test]
fn every_running_request_gets_a_decode_item() {
    let mut scheduler = Scheduler::new(2);
    scheduler.add_request("e".to_string(), Vec::new(), 2);
    scheduler.add_request("f".to_string(), vec![7, 8], 2);
    let items = scheduler.decode_batch();
    assert_eq!(items.len(), 2);
    assert_eq!((items[0].id.as_str(), items[0].token, items[0].position), ("e", 0, 0));
    assert_eq!((items[1].id.as_str(), items[1].token, items[1].position), ("f", 8, 2));
    assert!(scheduler.append_generated("e", 5));
    assert_eq!(scheduler.decode_batch()[0].token, 5);
}

#[test]
fn a_request_advances_as_often_as_it_asked() {
    for limit in [0usize, 1, 3] {
        let mut request = Request::new("r".to_string(), vec![1, 2], limit);
        request.mark_running(vec![4]);
        for call in 1..6usize {
            assert_eq!(request.advance(), call <= limit);
            assert_eq!(request.is_done(), call >= limit.max(1));
            if !request.is_done() {
                assert_eq!((request.generated_tokens(), request.position()), (call, 2 + call));
            }
        }
        assert_eq!((request.tokens.len(), request.prompt_len, request.kv_pages.len()), (2, 2, 1));
    }
}

#[test]
fn no_request_is_lost_and_only_running_ones_hold_pages() {
    let mut scheduler = Scheduler::with_kv_pages(2, 4, 100);
    for (i, limit) in [3usize, 9, 2, 5].iter().enumerate() {
        scheduler.add_request(format!("r{}", i), vec![1; i + 1], *limit);
    }
    let needed = [1usize, 3, 2, 3];
    let mut fetched = Vec::new();
    for round in 0..30 {
        scheduler.decode_batch();
        if round == 2 {
            assert!(scheduler.complete_request("r3"));
        }
        scheduler.step();
        for request in scheduler.get_completed() {
            assert!(request.is_done());
            fetched.push(request.id);
        }
        assert!(scheduler.get_completed().is_empty());
        let (pending, running, completed) = scheduler.stats();
        assert_eq!(pending + running + completed + fetched.len(), 4);
        let held: usize = (0..4)
            .filter(|i| scheduler.kv_allocation(&format!("r{}", i)).is_some())
            .map(|i| needed[i])
            .sum();
        assert_eq!(scheduler.kv_page_stats(), (held, 100));
    }
    fetched.sort();
    assert_eq!(fetched, ["r0", "r1", "r2", "r3"]);
    assert_eq!(scheduler.kv_page_stats().0, 0);
}
