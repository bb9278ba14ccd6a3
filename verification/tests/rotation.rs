use link_search::protocol::WorkerMsg;
use link_search::rotation::Rotation;
use link_search::worker::Worker;

#[test]
fn new_rotation_holds_the_ids_in_order() {
    assert_eq!(Rotation::new(1).ids(), vec![0]);
    assert_eq!(Rotation::new(4).ids(), vec![0, 1, 2, 3]);
    assert_eq!(Rotation::new(10).ids(), (0..10).collect::<Vec<usize>>());
    assert_eq!(Rotation::new(10).len(), 10);
}

#[test]
fn back_is_the_last_handle() {
    assert_eq!(Rotation::new(1).back().id(), 0);
    assert_eq!(Rotation::new(10).back().id(), 9);
}

#[test]
fn dispatch_serves_the_front_and_puts_it_to_the_back() {
    let mut rotation = Rotation::new(3);
    let item = rotation.dispatch("http://a".to_string());
    assert_eq!(item.worker, 0);
    assert_eq!(item.msg.url(), "http://a");
    assert_eq!(rotation.ids(), vec![1, 2, 0]);
    assert_eq!(rotation.back().id(), 0);
    let item = rotation.dispatch("http://b".to_string());
    assert_eq!(item.worker, 1);
    assert_eq!(rotation.ids(), vec![2, 0, 1]);
}

#[test]
fn dispatch_goes_round_the_pool() {
    let mut rotation = Rotation::new(3);
    let mut served = Vec::new();
    for k in 0..7 {
        served.push(rotation.dispatch(format!("http://{}", k)).worker);
    }
    assert_eq!(served, vec![0, 1, 2, 0, 1, 2, 0]);
    assert_eq!(rotation.ids(), vec![1, 2, 0]);
    assert_eq!(rotation.len(), 3);
}

#[test]
fn a_pool_of_one_always_serves_the_same_worker() {
    let mut rotation = Rotation::new(1);
    for k in 0..3 {
        assert_eq!(rotation.dispatch(format!("http://{}", k)).worker, 0);
        assert_eq!(rotation.ids(), vec![0]);
    }
}

#[test]
fn a_full_round_restores_the_rotation() {
    let mut rotation = Rotation::new(5);
    let before = rotation.ids();
    for k in 0..5 {
        rotation.dispatch(format!("http://{}", k));
    }
    assert_eq!(rotation.ids(), before);
}

#[test]
fn process_addresses_the_worker() {
    let worker = Worker::start(7);
    assert_eq!(worker.id(), 7);
    let item = worker.process("http://a".to_string());
    assert_eq!(item.worker, 7);
    match item.msg {
        WorkerMsg::Process(url) => assert_eq!(url, "http://a"),
    }
}
