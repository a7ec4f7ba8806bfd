use skadi::runner::{
    require_structured,
    event_name_of, exec_failure_response, file_name, label_or_default, oneshot_response,
    plan_spawn, poll_started_response, spawn_failure_response, ws_exec_command, SpawnPlan,
};

#[test]
fn an_existing_target_is_executed_directly() {
    // the spawn policy: an existing path runs directly, anything else goes to
    // the shell unmodified
    match plan_spawn("/bin/ls".to_string(), true) {
        SpawnPlan::Direct(c) => assert_eq!(c, "/bin/ls"),
        SpawnPlan::Shell(_) => panic!("an existing target must run directly"),
    }
}

#[test]
fn any_other_target_goes_to_the_shell_unmodified() {
    match plan_spawn("echo hi && echo bye".to_string(), false) {
        SpawnPlan::Shell(c) => assert_eq!(c, "echo hi && echo bye"),
        SpawnPlan::Direct(_) => panic!("a non-path target must go to the shell"),
    }
}

#[test]
fn event_names_derive_from_the_file_name() {
    assert_eq!(event_name_of(&"echo hello".to_string()), "echo hello");
    assert_eq!(event_name_of(&"/bin/ls".to_string()), "ls");
    assert_eq!(event_name_of(&"scripts/poll.sh".to_string()), "poll.sh");
    assert_eq!(event_name_of(&"dir/".to_string()), "dir");
}

#[test]
fn targets_without_a_file_name_get_the_placeholder() {
    assert_eq!(event_name_of(&"".to_string()), "unknown-command");
    assert_eq!(event_name_of(&"/".to_string()), "unknown-command");
    assert_eq!(event_name_of(&"a/..".to_string()), "unknown-command");
    assert_eq!(event_name_of(&".".to_string()), "unknown-command");
}

#[test]
fn file_name_skips_trailing_dot_segments() {
    assert_eq!(file_name("a/b/."), Some("b".to_string()));
    assert_eq!(file_name("a//"), Some("a".to_string()));
    assert_eq!(file_name(".."), None);
    assert_eq!(file_name("..a"), Some("..a".to_string()));
}

#[test]
fn the_label_header_wins_over_the_sentinel() {
    assert_eq!(label_or_default(Some("main".to_string())), "main");
    assert_eq!(label_or_default(None), "unknown-label");
}

#[test]
fn the_polling_acknowledgement_is_immediate_and_fixed() {
    let r = poll_started_response();
    assert_eq!(r.status, 200);
    assert_eq!(r.body, "{\"message\":\"Polling command started\"}");
}

#[test]
fn oneshot_output_is_returned_as_a_json_string() {
    // the one-shot scenario: the body decodes back to the literal output text
    let r = oneshot_response(b"{\"a\":1}\n");
    assert_eq!(r.status, 200);
    let text: String = serde_json::from_str(&r.body).unwrap();
    assert_eq!(text, "{\"a\":1}\n");
}

#[test]
fn oneshot_output_keeps_plain_text_verbatim() {
    let r = oneshot_response(b"hello\n");
    let text: String = serde_json::from_str(&r.body).unwrap();
    assert_eq!(text, "hello\n");
}

#[test]
fn spawn_failure_is_a_500_with_the_error() {
    let r = spawn_failure_response(&"No such file or directory".to_string());
    assert_eq!(r.status, 500);
    let v: serde_json::Value = serde_json::from_str(&r.body).unwrap();
    assert_eq!(
        v.get("error").unwrap().as_str().unwrap(),
        "Failed to spawn command: No such file or directory"
    );
}

#[test]
fn exec_failure_is_a_500_with_the_error() {
    let r = exec_failure_response(&"permission denied".to_string());
    assert_eq!(r.status, 500);
    let v: serde_json::Value = serde_json::from_str(&r.body).unwrap();
    assert_eq!(
        v.get("error").unwrap().as_str().unwrap(),
        "Failed to execute command: permission denied"
    );
}

#[test]
fn structured_output_is_required_to_parse() {
    assert_eq!(require_structured("{\"a\":1}".to_string()), Ok("{\"a\":1}".to_string()));
    assert_eq!(require_structured("[1,2]".to_string()), Ok("[1,2]".to_string()));
    assert_eq!(require_structured("not json".to_string()), Err("not json".to_string()));
    assert_eq!(require_structured(String::new()), Err(String::new()));
}

#[test]
fn the_streaming_channel_acts_only_on_exec_messages() {
    assert_eq!(
        ws_exec_command("{\"type\":\"exec\",\"path\":\"echo hi\"}"),
        Some("echo hi".to_string())
    );
    assert_eq!(ws_exec_command("{\"type\":\"other\",\"path\":\"x\"}"), None);
    assert_eq!(ws_exec_command("{\"path\":\"x\"}"), None);
    assert_eq!(ws_exec_command("{\"type\":\"exec\"}"), None);
    assert_eq!(ws_exec_command("{\"type\":\"exec\",\"path\":5}"), None);
    assert_eq!(ws_exec_command("not json at all"), None);
    assert_eq!(ws_exec_command(""), None);
}

#[test]
fn the_streaming_channel_hands_the_path_over_verbatim() {
    assert_eq!(
        ws_exec_command("{\"type\":\"exec\",\"path\":\"say \\\"hi\\\" && ls\"}"),
        Some("say \"hi\" && ls".to_string())
    );
}
