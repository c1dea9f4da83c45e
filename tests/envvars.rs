use scalesocket::envvars::{child_env, keys_upper, replace_template_env, CGIEnv, Env};

fn create_query() -> Vec<(String, String)> {
    vec![("foo".to_string(), "bar baz".to_string())]
}

fn create_cgi() -> CGIEnv {
    CGIEnv {
        query_string: "foo=".to_string(),
        remote_addr: "127.0.0.1:1234".to_string(),
        room: "room".to_string(),
    }
}

#[test]
fn test_replace_template_env() {
    let env = Env {
        cgi: create_cgi(),
        query: create_query(),
    };
    let result = replace_template_env("test #ID #REMOTE_ADDR #QUERY_FOO", 1, &env);

    assert_eq!(result, "test 1 127.0.0.1:1234 bar%20baz");
}

#[test]
fn test_replace_template_env_omits_query_overrides() {
    let query = vec![
        ("remote_addr".to_string(), "overridden".to_string()),
        ("string".to_string(), "overridden".to_string()),
        ("hack".to_string(), "#SOMETHING".to_string()),
    ];
    let env = Env {
        cgi: create_cgi(),
        query,
    };
    let result = replace_template_env("test #REMOTE_ADDR #QUERY_STRING #QUERY_HACK", 1, &env);

    assert_eq!(result, "test 127.0.0.1:1234 foo= %23SOMETHING");
}

#[test]
fn template_join_and_leave_ids() {
    let env = Env::default();
    assert_eq!(replace_template_env("hi #ID", 1, &env), "hi 1");
    assert_eq!(replace_template_env("bye #ID", 1, &env), "bye 1");
    assert_eq!(replace_template_env("#ID/#ID", 4294967295, &env), "4294967295/4294967295");
    assert_eq!(replace_template_env("{\"t\":\"Join\",\"_from\":#ID}", 0, &env), "{\"t\":\"Join\",\"_from\":0}");
}

#[test]
fn template_room_and_query_string() {
    let mut env = Env {
        cgi: create_cgi(),
        query: vec![],
    };
    env.set_room("lobby");
    assert_eq!(
        replace_template_env("#ROOM #QUERY_STRING #MISSING", 2, &env),
        "lobby foo= #MISSING"
    );
}

#[test]
fn from_filter_defaults_to_empty() {
    let cgi = CGIEnv::from_filter(None, None);
    assert_eq!(cgi.query_string, "");
    assert_eq!(cgi.remote_addr, "");
    assert_eq!(cgi.room, "");
    let cgi = CGIEnv::from_filter(Some("a=1".to_string()), Some("10.0.0.1:80".to_string()));
    assert_eq!(cgi.query_string, "a=1");
    assert_eq!(cgi.remote_addr, "10.0.0.1:80");
}

#[test]
fn cgi_vars_are_upper_case() {
    let vars = create_cgi().vars();
    assert_eq!(
        vars,
        vec![
            ("QUERY_STRING".to_string(), "foo=".to_string()),
            ("REMOTE_ADDR".to_string(), "127.0.0.1:1234".to_string()),
            ("ROOM".to_string(), "room".to_string()),
        ]
    );
}

#[test]
fn keys_upper_changes_names_only() {
    let vars = vec![("MiXed".to_string(), "vAlue".to_string())];
    assert_eq!(keys_upper(&vars), vec![("MIXED".to_string(), "vAlue".to_string())]);
}

#[test]
fn child_env_filters_host_and_sets_port() {
    let host = vec![
        ("PATH".to_string(), "/bin".to_string()),
        ("SECRET".to_string(), "x".to_string()),
        ("HOME".to_string(), "/root".to_string()),
    ];
    let allow = vec!["PATH".to_string(), "HOME".to_string()];
    let env = child_env(&host, &allow, &CGIEnv::default(), Some(10000));
    assert_eq!(
        env,
        vec![
            ("PATH".to_string(), "/bin".to_string()),
            ("HOME".to_string(), "/root".to_string()),
            ("QUERY_STRING".to_string(), String::new()),
            ("REMOTE_ADDR".to_string(), String::new()),
            ("ROOM".to_string(), String::new()),
            ("PORT".to_string(), "10000".to_string()),
        ]
    );
    let env = child_env(&host, &vec![], &CGIEnv::default(), None);
    assert_eq!(env.len(), 3);
}
