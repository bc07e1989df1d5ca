use shvcall::endpoint::{
    find_endpoint, is_known_scheme, plan_login, Endpoint, LoginError, LoginPlan, UrlParts,
};

#[test]
fn a_tcp_url_leads_to_a_broker() {
    assert_eq!(
        plan_login("tcp://admin@localhost:3755?password=dj4j5HHb"),
        Ok(LoginPlan {
            endpoint: Endpoint::Tcp("localhost:3755".to_string()),
            user: "admin".to_string(),
            password: "dj4j5HHb".to_string(),
            reset_session: false
        })
    );
    assert_eq!(
        plan_login("tcp://u:p@10.0.0.1:80").unwrap(),
        LoginPlan {
            endpoint: Endpoint::Tcp("10.0.0.1:80".to_string()),
            user: "u".to_string(),
            password: "p".to_string(),
            reset_session: false
        }
    );
}

#[test]
fn a_tcp_url_has_defaults() {
    assert_eq!(plan_login("tcp://broker").unwrap().endpoint, Endpoint::Tcp("broker:3755".to_string()));
    assert_eq!(plan_login("tcp:x").unwrap().endpoint, Endpoint::Tcp("localhost:3755".to_string()));
    assert_eq!(plan_login("tcp://[::1]:5").unwrap().endpoint, Endpoint::Tcp("[::1]:5".to_string()));
}

#[test]
fn local_sockets_are_reached_by_path() {
    let plan = plan_login("localsocket:path/to/socket").unwrap();
    assert_eq!(plan.endpoint, Endpoint::Local("path/to/socket".to_string()));
    assert!(!plan.reset_session);
    let plan = plan_login("unix:/run/shv.sock?user=u&password=p").unwrap();
    assert_eq!(plan.endpoint, Endpoint::Local("/run/shv.sock".to_string()));
    assert_eq!((plan.user.as_str(), plan.password.as_str()), ("u", "p"));
    let plan = plan_login("unixs:/run/shv.sock").unwrap();
    assert_eq!(plan.endpoint, Endpoint::LocalSerial("/run/shv.sock".to_string()));
    assert!(plan.reset_session);
}

#[test]
fn other_schemes_are_refused() {
    assert_eq!(
        plan_login("http://localhost"),
        Err(LoginError::Scheme("Scheme http is not supported".to_string()))
    );
    assert!(!is_known_scheme("serial"));
    assert!(is_known_scheme("tcp") && is_known_scheme("unix"));
    assert!(is_known_scheme("unixs") && is_known_scheme("localsocket"));
}

#[test]
fn a_text_that_is_no_url_is_refused() {
    let error = url::Url::parse("no url").unwrap_err().to_string();
    assert_eq!(plan_login("no url"), Err(LoginError::Url(error)));
}

#[test]
fn endpoints_depend_on_the_parts() {
    let parts = |scheme: &str, host: Option<&str>, port: Option<u16>| UrlParts {
        scheme: scheme.to_string(),
        host: host.map(str::to_owned),
        port,
        path: "/p".to_string(),
    };
    assert_eq!(find_endpoint(&parts("tcp", None, None)), Endpoint::Tcp("localhost:3755".to_string()));
    assert_eq!(find_endpoint(&parts("tcp", Some("h"), Some(0))), Endpoint::Tcp("h:0".to_string()));
    assert_eq!(find_endpoint(&parts("unix", Some("h"), None)), Endpoint::Local("/p".to_string()));
    assert_eq!(find_endpoint(&parts("unixs", None, None)), Endpoint::LocalSerial("/p".to_string()));
}
