use scanpipe::dispatcher::{DispatcherState, ScoutIpsError};
use scanpipe::intake::{
    parse_sample, plan_player_action, resolve_playerdb_reply, resolve_updated_username,
    ClientReport, ClientReportBody, ClientReportOutcome, LookupReplyError, PlayerAction,
    PlayerRow, SampleError, StatusPayload, StatusSample, ValidationFault,
};
use scanpipe::ip::{format_ipv4, is_reserved, parse_ipv4};
use scanpipe::persist::{decode_state, encode_state};

fn ip(text: &str) -> u32 {
    parse_ipv4(text).unwrap()
}

fn report(status: Option<&str>, addr: Option<&str>, response: Option<StatusPayload>) -> ClientReportBody {
    ClientReportBody::Parsed(ClientReport {
        status: status.map(|s| s.to_string()),
        ip: addr.map(|s| s.to_string()),
        response,
    })
}

fn empty_payload() -> StatusPayload {
    StatusPayload {
        version_name: None,
        online_count: None,
        max_count: None,
        description_json: None,
        favicon: None,
        sample: None,
    }
}

#[test]
fn scout_intake_then_two_client_jobs_in_order() {
    let mut st = DispatcherState::new();
    st.post_ips("[\"1.2.3.4\", \"1.2.3.4\", \"5.6.7.8\"]").unwrap();
    assert_eq!(st.valid_ips, vec![ip("1.2.3.4"), ip("5.6.7.8")]);
    let first = st.client_job(0).unwrap();
    assert_eq!(first.ip, ip("1.2.3.4"));
    let second = st.client_job(0).unwrap();
    assert_eq!(second.ip, ip("5.6.7.8"));
    assert_eq!(second.id, first.id + 1);
    assert!(st.client_job(0).is_none());
}

#[test]
fn empty_queue_yields_no_job() {
    let mut st = DispatcherState::new();
    assert!(st.client_job(0).is_none());
    assert_eq!(st.outstanding_client_jobs.len(), 0);
}

#[test]
fn scout_intake_rejects_bad_json_and_bad_ip() {
    let mut st = DispatcherState::new();
    assert_eq!(st.post_ips("not json"), Err(ScoutIpsError::InvalidJson));
    assert_eq!(st.post_ips("[\"999.1.1.1\"]"), Err(ScoutIpsError::InvalidIp));
    assert_eq!(st.valid_ips.len(), 0);
    assert_eq!(st.post_ips("[]"), Ok(()));
    assert_eq!(st.valid_ips.len(), 0);
}

#[test]
fn scout_intake_skips_addresses_already_queued() {
    let mut st = DispatcherState::new();
    st.post_ips("[\"9.9.9.9\"]").unwrap();
    st.post_ips("[\"9.9.9.9\", \"8.8.8.8\"]").unwrap();
    assert_eq!(st.valid_ips, vec![ip("9.9.9.9"), ip("8.8.8.8")]);
}

#[test]
fn scout_job_issues_distinct_public_addresses() {
    let mut st = DispatcherState::new();
    let job = st.scout_job(3).unwrap();
    assert_eq!(job.id, 0);
    assert_eq!(job.ips.len(), 3);
    assert!(job.ips[0] != job.ips[1] && job.ips[1] != job.ips[2] && job.ips[0] != job.ips[2]);
    for addr in &job.ips {
        assert!(!is_reserved(*addr));
    }
    let next = st.scout_job(2).unwrap();
    assert_eq!(next.id, 1);
}

#[test]
fn scout_job_with_fixed_sweep_is_deterministic() {
    let mut st = DispatcherState::new();
    st.ip_range = scanpipe::ip_iter::IpChunkIterator::from_parts(2, 0);
    let job = st.scout_job(2).unwrap();
    assert_eq!(format_ipv4(job.ips[0]), "150.200.51.228");
    assert_eq!(format_ipv4(job.ips[1]), "126.113.92.97");
}

#[test]
fn unanswered_job_is_reclaimed_to_the_front_after_a_minute() {
    let mut st = DispatcherState::new();
    st.post_ips("[\"1.1.1.1\"]").unwrap();
    let job = st.client_job(0).unwrap();
    let issued_id = job.id;
    st.reclaim(60);
    assert_eq!(st.outstanding_client_jobs.len(), 1);
    st.reclaim(61);
    assert_eq!(st.outstanding_client_jobs.len(), 0);
    assert_eq!(st.valid_ips, vec![ip("1.1.1.1")]);
    let again = st.client_job(61).unwrap();
    assert_eq!(again.ip, ip("1.1.1.1"));
    assert_eq!(again.id, issued_id + 1);
}

#[test]
fn reclaim_keeps_jobs_with_future_issue_times() {
    let mut st = DispatcherState::new();
    st.post_ips("[\"4.4.4.4\"]").unwrap();
    let _job = st.client_job(1000).unwrap();
    st.reclaim(0);
    assert_eq!(st.outstanding_client_jobs.len(), 1);
}

#[test]
fn down_report_removes_job_and_is_idempotent() {
    let mut st = DispatcherState::new();
    st.post_ips("[\"5.6.7.8\"]").unwrap();
    let job = st.client_job(0).unwrap();
    let body = report(Some("down"), Some("5.6.7.8"), None);
    let outcome = st.handle_client_report(job.id, body);
    assert!(matches!(outcome, ClientReportOutcome::Removed));
    assert_eq!(st.outstanding_client_jobs.len(), 0);
    let body2 = report(Some("down"), Some("5.6.7.8"), None);
    let outcome2 = st.handle_client_report(job.id, body2);
    assert!(matches!(outcome2, ClientReportOutcome::Removed));
    assert_eq!(st.outstanding_client_jobs.len(), 0);
}

#[test]
fn status_comparison_is_case_insensitive() {
    let mut st = DispatcherState::new();
    let outcome = st.handle_client_report(0, report(Some("DOWN"), Some("5.6.7.8"), None));
    assert!(matches!(outcome, ClientReportOutcome::Removed));
    let outcome2 = st.handle_client_report(
        0,
        report(Some("UP"), Some("5.6.7.8"), Some(empty_payload())),
    );
    assert!(matches!(outcome2, ClientReportOutcome::Persist(_)));
}

#[test]
fn report_validation_faults_in_request_order() {
    let mut st = DispatcherState::new();
    let cases: Vec<(ClientReportBody, ValidationFault)> = vec![
        (ClientReportBody::Empty, ValidationFault::EmptyBody),
        (ClientReportBody::Malformed, ValidationFault::MalformedJson),
        (report(None, Some("1.2.3.4"), None), ValidationFault::MissingStatus),
        (report(Some("up"), None, None), ValidationFault::MissingIp),
        (report(Some("up"), Some("1.2.3"), None), ValidationFault::InvalidIp),
        (report(Some("up"), Some("1.2.3.4"), None), ValidationFault::MissingResponse),
    ];
    for (body, fault) in cases {
        match st.handle_client_report(7, body) {
            ClientReportOutcome::BadRequest(f) => assert_eq!(f, fault),
            _ => panic!("expected a refusal with {:?}", fault),
        }
    }
    assert!(ValidationFault::MissingStatus.message().contains("status"));
}

#[test]
fn up_report_builds_the_scan_plan() {
    let mut st = DispatcherState::new();
    st.post_ips("[\"5.6.7.8\"]").unwrap();
    let job = st.client_job(0).unwrap();
    let payload = StatusPayload {
        version_name: Some("X".to_string()),
        online_count: Some(1),
        max_count: Some(20),
        description_json: Some("\"hi\"".to_string()),
        favicon: None,
        sample: Some(vec![StatusSample {
            name: Some("alice".to_string()),
            id: Some("550e8400-e29b-41d4-a716-446655440000".to_string()),
        }]),
    };
    let outcome = st.handle_client_report(job.id, report(Some("up"), Some("5.6.7.8"), Some(payload)));
    let plan_ip = match outcome {
        ClientReportOutcome::Persist(plan) => {
            assert_eq!(plan.ip, ip("5.6.7.8"));
            assert_eq!(plan.version.as_deref(), Some("X"));
            assert_eq!(plan.online_count, Some(1));
            assert_eq!(plan.max_count, Some(20));
            assert_eq!(plan.description.as_deref(), Some("\"hi\""));
            assert_eq!(plan.favicon, None);
            assert_eq!(plan.players.len(), 1);
            plan.ip
        },
        _ => panic!("expected a persistence plan"),
    };
    assert_eq!(st.outstanding_client_jobs.len(), 1);
    st.confirm_persisted(job.id, plan_ip);
    assert_eq!(st.outstanding_client_jobs.len(), 0);
}

#[test]
fn unconfirmed_persist_leaves_the_job_for_reclaim() {
    let mut st = DispatcherState::new();
    st.post_ips("[\"5.6.7.8\"]").unwrap();
    let job = st.client_job(0).unwrap();
    let outcome = st.handle_client_report(
        job.id,
        report(Some("up"), Some("5.6.7.8"), Some(empty_payload())),
    );
    assert!(matches!(outcome, ClientReportOutcome::Persist(_)));
    assert_eq!(st.outstanding_client_jobs.len(), 1);
    st.reclaim(61);
    assert_eq!(st.outstanding_client_jobs.len(), 0);
    assert_eq!(st.valid_ips, vec![ip("5.6.7.8")]);
}

#[test]
fn mismatched_report_leaves_other_jobs_in_place() {
    let mut st = DispatcherState::new();
    st.post_ips("[\"5.6.7.8\", \"9.9.9.9\"]").unwrap();
    let job = st.client_job(0).unwrap();
    let outcome = st.handle_client_report(job.id, report(Some("down"), Some("9.9.9.9"), None));
    assert!(matches!(outcome, ClientReportOutcome::Removed));
    assert_eq!(st.outstanding_client_jobs.len(), 1);
}

#[test]
fn state_survives_shutdown_and_restart() {
    let mut st = DispatcherState::new();
    st.ip_range = scanpipe::ip_iter::IpChunkIterator::from_parts(42, 7);
    st.post_ips("[\"1.2.3.4\", \"5.6.7.8\"]").unwrap();
    let _job = st.client_job(0).unwrap();
    assert_eq!(st.valid_ips, vec![ip("5.6.7.8")]);
    st.drain_outstanding();
    assert_eq!(st.valid_ips, vec![ip("1.2.3.4"), ip("5.6.7.8")]);
    let bytes = encode_state(&st);
    let restored = decode_state(bytes.as_slice()).unwrap();
    assert_eq!(restored.ip_range.offset(), 42);
    assert_eq!(restored.ip_range.cursor(), 7);
    assert_eq!(restored.valid_ips, st.valid_ips);
    assert_eq!(restored.outstanding_client_jobs.len(), 0);
    assert_eq!(restored.client_job_counter, 0);
}

#[test]
fn restart_after_drain_reissues_outstanding_address_first() {
    let mut st = DispatcherState::new();
    st.post_ips("[\"1.2.3.4\", \"5.6.7.8\"]").unwrap();
    let job = st.client_job(0).unwrap();
    assert_eq!(job.ip, ip("1.2.3.4"));
    st.drain_outstanding();
    let bytes = encode_state(&st);
    let mut restored = decode_state(bytes.as_slice()).unwrap();
    let first = restored.client_job(0).unwrap();
    assert_eq!(first.ip, ip("1.2.3.4"));
    let second = restored.client_job(0).unwrap();
    assert_eq!(second.ip, ip("5.6.7.8"));
}

#[test]
fn corrupt_state_bytes_are_refused() {
    assert!(decode_state(&[1, 2, 3]).is_none());
    let mut st = DispatcherState::new();
    st.post_ips("[\"1.2.3.4\"]").unwrap();
    let mut bytes = encode_state(&st);
    bytes.pop();
    assert!(decode_state(bytes.as_slice()).is_none());
}

#[test]
fn queue_listing_formats_every_address() {
    let mut st = DispatcherState::new();
    st.post_ips("[\"1.2.3.4\", \"5.6.7.8\"]").unwrap();
    let listed = st.valid_ips_strings();
    assert_eq!(listed, vec!["1.2.3.4".to_string(), "5.6.7.8".to_string()]);
}

#[test]
fn sample_entries_resolve_in_field_order() {
    let ok = parse_sample(&StatusSample {
        name: Some("alice".to_string()),
        id: Some("550e8400-e29b-41d4-a716-446655440000".to_string()),
    })
    .unwrap();
    assert_eq!(ok.name, "alice");
    assert_eq!(ok.uuid, 0x550e8400e29b41d4a716446655440000u128);
    let no_name = parse_sample(&StatusSample { name: None, id: None });
    assert!(matches!(no_name, Err(SampleError::MissingName)));
    let no_id = parse_sample(&StatusSample { name: Some("a".to_string()), id: None });
    assert!(matches!(no_id, Err(SampleError::MissingId)));
    let bad = parse_sample(&StatusSample {
        name: Some("a".to_string()),
        id: Some("zzz".to_string()),
    });
    assert!(matches!(bad, Err(SampleError::BadUuid)));
}

#[test]
fn player_rows_are_kept_renamed_or_inserted() {
    let row = PlayerRow { id: 3, username: "alice".to_string(), player_uuid: Some(5) };
    match plan_player_action(Some(row.clone()), "alice".to_string(), Some(5)) {
        PlayerAction::Keep(p) => assert_eq!(p.id, 3),
        _ => panic!("expected the row to be kept"),
    }
    match plan_player_action(Some(row), "bob".to_string(), Some(5)) {
        PlayerAction::Rename { row, new_name } => {
            assert_eq!(row.id, 3);
            assert_eq!(new_name, "bob");
        },
        _ => panic!("expected a rename"),
    }
    match plan_player_action(None, "carol".to_string(), None) {
        PlayerAction::Insert { username, player_uuid } => {
            assert_eq!(username, "carol");
            assert_eq!(player_uuid, None);
        },
        _ => panic!("expected an insert"),
    }
}

#[test]
fn lookup_replies_resolve_exactly() {
    assert_eq!(resolve_playerdb_reply(false, None), Ok(None));
    let ok = resolve_playerdb_reply(
        true,
        Some("550e8400-e29b-41d4-a716-446655440000".to_string()),
    );
    assert_eq!(ok, Ok(Some(0x550e8400e29b41d4a716446655440000u128)));
    assert!(matches!(
        resolve_playerdb_reply(true, None),
        Err(LookupReplyError::MalformedReply)
    ));
    assert!(matches!(
        resolve_playerdb_reply(true, Some("bad".to_string())),
        Err(LookupReplyError::MalformedReply)
    ));
    assert_eq!(resolve_updated_username(true, Some("dan".to_string())), Ok("dan".to_string()));
    assert!(matches!(
        resolve_updated_username(false, Some("dan".to_string())),
        Err(LookupReplyError::Gone)
    ));
    assert!(matches!(
        resolve_updated_username(true, None),
        Err(LookupReplyError::MalformedReply)
    ));
}
