use shvcall::opts::{Opts, RunMode};

fn opts() -> Opts {
    Opts {
        url: "tcp://localhost".to_string(),
        method: None,
        param: None,
        timeout: 5000,
        output_format: "cpon".to_string(),
        tunnel: None,
        burst: None,
        verbose: None,
        version: false,
    }
}

#[test]
fn options_choose_what_a_run_does() {
    let mut opts = opts();
    assert_eq!(opts.run_mode(), RunMode::Call);
    opts.tunnel = Some(String::new());
    assert_eq!(opts.run_mode(), RunMode::Tunnel);
    opts.burst = Some(String::new());
    assert_eq!(opts.run_mode(), RunMode::Burst);
    opts.version = true;
    assert_eq!(opts.run_mode(), RunMode::Version);
}
