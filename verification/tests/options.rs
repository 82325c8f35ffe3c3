use relay_bench::options::ReqOpts;
use relay_bench::options::DEFAULT_COUNT;
use relay_bench::options::DEFAULT_KEEPALIVE;
use relay_bench::options::DEFAULT_RATE;
use relay_bench::spawner::SpawnAction;

#[test]
fn defaults_of_a_run() {
    let opts = ReqOpts::new("ws://127.0.0.1:8080".to_string());
    assert_eq!(
        opts,
        ReqOpts {
            url: "ws://127.0.0.1:8080".to_string(),
            count: 100,
            rate: 50,
            keepalive: 600,
            threads: 0,
            interface: None,
        }
    );
    assert_eq!((DEFAULT_COUNT, DEFAULT_RATE, DEFAULT_KEEPALIVE), (100, 50, 600));
    assert_eq!(opts.interface_count(), 0);
}

#[test]
fn interface_count_is_the_length_of_the_list() {
    let mut opts = ReqOpts::new("ws://relay".to_string());
    opts.interface = Some(vec![]);
    assert_eq!(opts.interface_count(), 0);
    opts.interface = Some(vec!["10.0.0.1:0".to_string(), "10.0.0.2:0".to_string()]);
    assert_eq!(opts.interface_count(), 2);
}

#[test]
fn spawner_of_the_options_follows_them() {
    let mut opts = ReqOpts::new("ws://relay".to_string());
    opts.count = 3;
    opts.rate = 2;
    opts.interface = Some(vec!["10.0.0.1:0".to_string(), "10.0.0.2:0".to_string()]);
    let mut spawner = opts.spawner().unwrap();
    assert_eq!(spawner.next(), SpawnAction::Launch { index: 0, interface: Some(0) });
    assert_eq!(spawner.next(), SpawnAction::Launch { index: 1, interface: Some(1) });
    assert_eq!(spawner.next(), SpawnAction::Pause { secs: 1 });
    assert_eq!(spawner.next(), SpawnAction::Launch { index: 2, interface: Some(0) });
    assert_eq!(spawner.next(), SpawnAction::Done);
}

#[test]
fn rate_of_zero_is_launchable_only_with_nothing_to_launch() {
    let mut opts = ReqOpts::new("ws://relay".to_string());
    opts.rate = 0;
    assert!(opts.spawner().is_none());
    opts.count = 0;
    let mut spawner = opts.spawner().unwrap();
    assert_eq!(spawner.next(), SpawnAction::Done);
}
