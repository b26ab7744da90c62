use httpserver::httpserver::HttpServer;
use httpserver::threadpool::{pool_size, JobQueue, PoolShutdown, Step};

fn run(step: Step<u32>) -> Option<u32> {
    match step {
        Step::Run(j) => Some(j),
        _ => None,
    }
}

#[test]
fn jobs_run_once_in_order() {
    let mut q: JobQueue<u32> = JobQueue::new();
    for j in 1..=5 {
        assert_eq!(q.execute(j), Ok(()));
    }
    assert_eq!(q.pending(), 5);
    let mut seen = Vec::new();
    while let Some(j) = run(q.next_step()) {
        seen.push(j);
    }
    assert_eq!(seen, vec![1, 2, 3, 4, 5]);
    assert!(matches!(q.next_step(), Step::Wait));
}

#[test]
fn closed_queue_refuses_and_stops() {
    let mut q: JobQueue<u32> = JobQueue::new();
    q.execute(1).unwrap();
    q.execute(2).unwrap();
    assert_eq!(run(q.next_step()), Some(1));
    q.close();
    assert!(q.is_closed());
    assert_eq!(q.pending(), 0);
    assert_eq!(q.execute(3), Err(PoolShutdown));
    assert!(matches!(q.next_step(), Step::Exit));
    assert!(matches!(q.next_step(), Step::Exit));
}

#[test]
fn pool_has_at_least_one_worker() {
    assert_eq!(pool_size(0), 1);
    assert_eq!(pool_size(4), 4);
}

#[test]
fn server_configuration() {
    let s = HttpServer::new("127.0.0.1", 7878, "/srv/www");
    assert_eq!(s.host_name(), "127.0.0.1");
    assert_eq!(s.port_number(), 7878);
    assert_eq!(s.root(), "/srv/www");
}
