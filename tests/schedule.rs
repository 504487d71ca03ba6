use isok::config::{get_possible_paths, AgentTestingRunner, Config, ConfigCheckAdapter, ResultSenderAdapter};
use isok::jobs::{HttpJob, Job, JobInnerConfig, TcpJob};
use isok::schedule::{JobRegistry, JobState};

fn tcp_job(name: &str, interval: u64) -> Job {
    Job::new(interval, JobInnerConfig::Tcp(TcpJob::new("127.0.0.1:1".to_string())), name.to_string())
}

#[test]
fn dispatch_is_spaced_by_interval() {
    let mut reg = JobRegistry::from_static_config(vec![tcp_job("a", 10_000), tcp_job("b", 3_000)], 0);
    assert_eq!(reg.tick(0), vec![0, 1]);
    assert_eq!(reg.tick(100), Vec::<usize>::new());
    assert_eq!(reg.tick(2_999), Vec::<usize>::new());
    assert_eq!(reg.tick(3_050), vec![1]);
    assert_eq!(reg.tick(6_000), Vec::<usize>::new());
    assert_eq!(reg.tick(9_999), vec![1]);
    assert_eq!(reg.tick(10_000), vec![0]);
    assert_eq!(reg.jobs[0].next_run(), 20_000);
    assert_eq!(reg.jobs[1].next_run(), 12_999);
}

#[test]
fn late_ticks_do_not_catch_up() {
    let mut reg = JobRegistry::from_static_config(vec![tcp_job("a", 1_000)], 0);
    assert_eq!(reg.tick(0), vec![0]);
    assert_eq!(reg.tick(5_500), vec![0]);
    assert_eq!(reg.tick(6_000), Vec::<usize>::new());
    assert_eq!(reg.jobs[0].next_run(), 6_500);
}

#[test]
fn same_name_replaces() {
    let reg = JobRegistry::from_static_config(vec![tcp_job("a", 1_000), tcp_job("b", 1_000), tcp_job("a", 7_000)], 5);
    assert_eq!(reg.len(), 2);
    assert_eq!(reg.job(0).interval(), 7_000);
    assert_eq!(reg.job(0).pretty_name(), "a");
    assert_eq!(reg.job(1).pretty_name(), "b");
}

#[test]
fn job_state_next_run() {
    let mut s = JobState::new(tcp_job("a", 250), 40);
    assert_eq!(s.next_run(), 40);
    assert_eq!(s.interval(), 250);
    s.set_next_run(100);
    assert_eq!(s.next_run(), 350);
    s.set_next_run(u64::MAX - 1);
    assert_eq!(s.next_run(), u64::MAX);
}

#[test]
fn agent_runner_configuration() {
    let job = Job::new(10_000, JobInnerConfig::Http(HttpJob::new("http://127.0.0.1:1/".to_string())), "h".to_string());
    let runner = AgentTestingRunner::new().add_check(job.clone()).use_socket_sender("/tmp/isok.sock".to_string());
    match &runner.config.check_config_adapter {
        ConfigCheckAdapter::Static(a) => assert_eq!(a.checks, vec![job]),
        ConfigCheckAdapter::File(_) => panic!("static expected"),
    }
    match &runner.config.result_sender_adapter {
        ResultSenderAdapter::Socket(s) => assert_eq!(s.path, "/tmp/isok.sock"),
        _ => panic!("socket expected"),
    }
    let d = Config::default();
    assert_eq!(d.result_sender_adapter, ResultSenderAdapter::Stdout);
}

#[test]
fn config_search_paths() {
    assert_eq!(
        get_possible_paths("isok-agent", "agent.yaml"),
        vec![
            "/etc/isok-agent/agent.yaml".to_string(),
            "./isok-agent/agent.yaml".to_string(),
            "./agent.yaml".to_string()
        ]
    );
}
