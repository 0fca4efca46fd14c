use ssh_hub::connection::auth::{
    default_key_name, ladder_failure_message, next_step, plan_attempts, AgentStatus, Attempt, LadderStep,
    agent_keys_to_try, auth_steps, auto_failure_message, negotiated_rsa_hash, rsa_hash_for_key,
    AuthConfigError, AuthStep, RsaHash, RsaHashAnswer,
};
use ssh_hub::connection::session::{
    glob_output_paths, host_key_decision, stdin_chunks, wrap_command, ChannelCollector, ChannelEvent, HostKeyCheck,
    HostKeyDecision, SshHandler,
};
use ssh_hub::server_registry::AuthMethod;

#[test]
fn command_wrapping_keeps_tilde_expansion() {
    assert_eq!(wrap_command("~", "ls"), "cd $HOME && ls");
    assert_eq!(wrap_command("~/pro ject", "ls"), "cd $HOME/'pro ject' && ls");
    assert_eq!(wrap_command("/srv/a b", "pwd"), "cd '/srv/a b' && pwd");
}

#[test]
fn stdin_is_chunked_by_32_kib() {
    assert!(stdin_chunks(0).is_empty());
    assert_eq!(stdin_chunks(10), vec![(0, 10)]);
    assert_eq!(stdin_chunks(32768), vec![(0, 32768)]);
    assert_eq!(stdin_chunks(70000), vec![(0, 32768), (32768, 65536), (65536, 70000)]);
}

#[test]
fn collector_sorts_streams() {
    let mut c = ChannelCollector::new();
    c.on_event(ChannelEvent::Data(b"out".to_vec()));
    c.on_event(ChannelEvent::ExtendedData { data: b"err".to_vec(), ext: 1 });
    c.on_event(ChannelEvent::ExtendedData { data: b"other".to_vec(), ext: 2 });
    c.on_event(ChannelEvent::Other);
    c.on_event(ChannelEvent::Data(b"put".to_vec()));
    c.on_event(ChannelEvent::ExitStatus(3));
    let out = c.finish();
    assert_eq!(out.stdout, b"output".to_vec());
    assert_eq!(out.stderr, b"err".to_vec());
    assert_eq!(out.exit_code, 3);
}

#[test]
fn collector_defaults_and_signed_status() {
    let c = ChannelCollector::new();
    assert_eq!(c.finish().exit_code, -1);
    let mut c = ChannelCollector::new();
    c.on_event(ChannelEvent::ExitStatus(4294967295));
    assert_eq!(c.finish().exit_code, -1);
}

#[test]
fn host_keys_trusted_on_first_use() {
    assert_eq!(host_key_decision(&HostKeyCheck::Known), HostKeyDecision::Accept);
    assert_eq!(host_key_decision(&HostKeyCheck::Unknown), HostKeyDecision::Learn);
    assert_eq!(
        host_key_decision(&HostKeyCheck::Changed { line: 7 }),
        HostKeyDecision::Reject { line: 7 }
    );
    assert_eq!(host_key_decision(&HostKeyCheck::Unverifiable), HostKeyDecision::Accept);
}

#[test]
fn ladder_order() {
    assert_eq!(
        auth_steps(AuthMethod::Auto, true),
        Ok(vec![AuthStep::IdentityFile, AuthStep::Agent, AuthStep::DefaultKeys])
    );
    assert_eq!(
        auth_steps(AuthMethod::Auto, false),
        Ok(vec![AuthStep::Agent, AuthStep::DefaultKeys])
    );
    assert_eq!(auth_steps(AuthMethod::Agent, true), Ok(vec![AuthStep::Agent]));
    assert_eq!(auth_steps(AuthMethod::Key, true), Ok(vec![AuthStep::IdentityFile]));
    assert_eq!(
        auth_steps(AuthMethod::Key, false),
        Err(AuthConfigError::MissingIdentity)
    );
}

#[test]
fn agent_keys_capped_at_ten() {
    assert_eq!(agent_keys_to_try(3), vec![0, 1, 2]);
    let eleven = agent_keys_to_try(11);
    assert_eq!(eleven, (0..10).collect::<Vec<usize>>());
    assert!(!eleven.contains(&10));
    assert!(agent_keys_to_try(0).is_empty());
}

#[test]
fn rsa_hash_negotiation() {
    assert_eq!(negotiated_rsa_hash(&RsaHashAnswer::NotAdvertised), Some(RsaHash::Sha256));
    assert_eq!(negotiated_rsa_hash(&RsaHashAnswer::Failed), Some(RsaHash::Sha256));
    assert_eq!(
        negotiated_rsa_hash(&RsaHashAnswer::Advertised(Some(RsaHash::Sha512))),
        Some(RsaHash::Sha512)
    );
    assert_eq!(rsa_hash_for_key(true, Some(RsaHash::Sha512)), Some(RsaHash::Sha512));
    assert_eq!(rsa_hash_for_key(false, Some(RsaHash::Sha512)), None);
}

#[test]
fn auto_failure_names_rungs() {
    assert_eq!(
        auto_failure_message(true),
        "Authentication failed. Tried: identity file, agent, default keys. Check your credentials and run 'ssh-hub add' to reconfigure."
    );
    assert_eq!(
        auto_failure_message(false),
        "Authentication failed. Tried: agent, default keys. Check your credentials and run 'ssh-hub add' to reconfigure."
    );
}

#[test]
fn handler_keeps_host() {
    let h = SshHandler::new("h".to_string(), 2222);
    assert_eq!(h.host, "h");
    assert_eq!(h.port, 2222);
}

#[test]
fn glob_listing_paths() {
    assert_eq!(
        glob_output_paths("./a.rs\n\n././b/c.rs\nd\n"),
        vec!["a.rs".to_string(), "b/c.rs".to_string(), "d".to_string()]
    );
    assert!(glob_output_paths("").is_empty());
}

#[test]
fn attempt_plan_orders_rungs() {
    let plan = plan_attempts(AuthMethod::Auto, true, AgentStatus::Keys(2)).unwrap();
    assert_eq!(
        plan,
        vec![
            Attempt::IdentityFile,
            Attempt::AgentKey(0),
            Attempt::AgentKey(1),
            Attempt::DefaultKey(0),
            Attempt::DefaultKey(1),
            Attempt::DefaultKey(2),
        ]
    );
    let many = plan_attempts(AuthMethod::Agent, false, AgentStatus::Keys(11)).unwrap();
    assert_eq!(many.len(), 10);
    assert!(!many.contains(&Attempt::AgentKey(10)));
    assert_eq!(
        plan_attempts(AuthMethod::Auto, false, AgentStatus::Unavailable).unwrap(),
        vec![Attempt::DefaultKey(0), Attempt::DefaultKey(1), Attempt::DefaultKey(2)]
    );
    assert_eq!(
        plan_attempts(AuthMethod::Key, false, AgentStatus::Keys(0)),
        Err(AuthConfigError::MissingIdentity)
    );
    assert_eq!(default_key_name(0), "id_ed25519");
    assert_eq!(default_key_name(1), "id_rsa");
    assert_eq!(default_key_name(2), "id_ecdsa");
}

#[test]
fn ladder_stops_at_first_accept() {
    let plan = vec![Attempt::IdentityFile, Attempt::AgentKey(0)];
    assert_eq!(next_step(&plan, 0, false), LadderStep::Try(Attempt::IdentityFile));
    assert_eq!(next_step(&plan, 1, false), LadderStep::Try(Attempt::AgentKey(0)));
    assert_eq!(next_step(&plan, 1, true), LadderStep::Succeeded);
    assert_eq!(next_step(&plan, 2, false), LadderStep::Exhausted);
}

#[test]
fn ladder_failure_messages() {
    assert_eq!(
        ladder_failure_message(AuthMethod::Agent, false, AgentStatus::Keys(12)),
        "SSH agent has 12 key(s) but none of the first 10 were accepted"
    );
    assert_eq!(
        ladder_failure_message(AuthMethod::Agent, false, AgentStatus::Keys(0)),
        "SSH agent has no keys. Run 'ssh-add' first."
    );
    assert_eq!(
        ladder_failure_message(AuthMethod::Key, true, AgentStatus::Keys(0)),
        "Key authentication failed"
    );
    assert_eq!(
        ladder_failure_message(AuthMethod::Auto, false, AgentStatus::Unavailable),
        auto_failure_message(false)
    );
}
