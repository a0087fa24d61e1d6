use scanpipe::config::{ClientConfig, Config};
use scanpipe::ip::parse_ipv4;
use scanpipe::ip_dispatcher::IpDispatcher;
use scanpipe::probe::{
    parse_client_job, parse_status_response, parse_u32_dec, probe_report, status_request_bytes,
    InvalidServerError,
};
use scanpipe::receiver::{parse_scout_job, ReceiverAction, ReceiverEvent, ReceiverState};
use scanpipe::scout_frame::{
    generate_syn_packet, checksum, micros_per_packet, validate_response, validate_sanity_reply,
};

fn ip(text: &str) -> u32 {
    parse_ipv4(text).unwrap()
}

#[test]
fn syn_frame_bytes_are_exact() {
    let mac = [2u8, 0, 0, 0, 0, 1];
    let frame = generate_syn_packet(&mac, ip("10.0.0.2"), ip("93.184.216.34"), 25565, 0x1234);
    let expected: Vec<u8> = vec![
        255, 255, 255, 255, 255, 255, 2, 0, 0, 0, 0, 1, 8, 0, 69, 0, 0, 52, 18, 52, 64, 0, 64, 6,
        232, 179, 10, 0, 0, 2, 93, 184, 216, 34, 26, 244, 99, 221, 0, 0, 0, 0, 0, 0, 0, 0, 128,
        2, 250, 240, 175, 121, 0, 0, 2, 4, 5, 180, 4, 2, 1, 1, 3, 3, 7, 0,
    ];
    assert_eq!(frame, expected);
    assert_eq!(frame.len(), 66);
    assert_eq!(frame[14], 0x45);
}

#[test]
fn internet_checksum_matches_reference() {
    assert_eq!(checksum(&[]), 0xffff);
    assert_eq!(checksum(&[0x00, 0x01]), 0xfffe);
    assert_eq!(checksum(&[0xff, 0xff]), 0x0000);
    assert_eq!(checksum(&[0x45, 0x00, 0x00, 0x34]), 0xffff - 0x4534);
    assert_eq!(checksum(&[0x80, 0x00, 0x80, 0x00, 0x01]), 0xffff - 0x0101);
}

fn reply_frame(source: [u8; 4], src_port: u16, flags: u8) -> Vec<u8> {
    let mut frame = vec![0u8; 14];
    let mut iph = vec![0x45u8, 0, 0, 40, 0, 0, 0, 0, 64, 6, 0, 0];
    iph.extend_from_slice(&source);
    iph.extend_from_slice(&[10, 0, 0, 2]);
    frame.extend_from_slice(&iph);
    let mut tcp = vec![
        (src_port >> 8) as u8,
        (src_port & 0xff) as u8,
        0x1a,
        0xf4,
        0,
        0,
        0,
        1,
        0,
        0,
        0,
        1,
        0x50,
        flags,
        0xfa,
        0xf0,
        0,
        0,
        0,
        0,
    ];
    frame.append(&mut tcp);
    frame
}

#[test]
fn syn_ack_replies_classify_as_hits() {
    let frame = reply_frame([93, 184, 216, 34], 25565, 0x12);
    assert_eq!(validate_response(frame.as_slice(), 25565), Some((ip("93.184.216.34"), true)));
}

#[test]
fn rst_replies_classify_as_misses() {
    let frame = reply_frame([93, 184, 216, 34], 25565, 0x14);
    assert_eq!(validate_response(frame.as_slice(), 25565), Some((ip("93.184.216.34"), false)));
}

#[test]
fn wrong_port_and_short_frames_are_ignored() {
    let frame = reply_frame([93, 184, 216, 34], 80, 0x12);
    assert_eq!(validate_response(frame.as_slice(), 25565), None);
    assert_eq!(validate_response(&[0u8; 20], 25565), None);
}

#[test]
fn short_declared_total_length_is_ignored() {
    let mut frame = reply_frame([93, 184, 216, 34], 25565, 0x12);
    frame[17] = 39;
    assert_eq!(validate_response(frame.as_slice(), 25565), None);
    frame[17] = 40;
    assert!(validate_response(frame.as_slice(), 25565).is_some());
}

#[test]
fn sanity_replies_come_only_from_the_probe_target() {
    let good = reply_frame([1, 1, 1, 1], 80, 0x12);
    assert!(validate_sanity_reply(good.as_slice()));
    let wrong_source = reply_frame([2, 2, 2, 2], 80, 0x12);
    assert!(!validate_sanity_reply(wrong_source.as_slice()));
    let not_syn_ack = reply_frame([1, 1, 1, 1], 80, 0x14);
    assert!(!validate_sanity_reply(not_syn_ack.as_slice()));
}

#[test]
fn receiver_collects_hits_and_counts_misses() {
    let mut rx = ReceiverState::new(0);
    let hit = reply_frame([93, 184, 216, 34], 25565, 0x12);
    let act = rx.step(ReceiverEvent::Packet(hit), false, 5, 25565, 10);
    assert_eq!(act, ReceiverAction::Continue);
    assert_eq!(rx.batch, vec![ip("93.184.216.34")]);
    assert_eq!(rx.valid_count, 1);
    assert_eq!(rx.last_packet_time, 5);
    let miss = reply_frame([9, 9, 9, 9], 25565, 0x14);
    rx.step(ReceiverEvent::Packet(miss), false, 6, 25565, 10);
    assert_eq!(rx.batch.len(), 1);
    assert_eq!(rx.invalid_count, 1);
    assert_eq!(rx.last_packet_time, 6);
}

#[test]
fn receiver_sends_sanity_probe_then_backs_off() {
    let mut rx = ReceiverState::new(0);
    let act = rx.step(ReceiverEvent::Timeout, false, 1, 25565, 10);
    assert_eq!(act, ReceiverAction::SendSanityProbe);
    assert!(rx.awaiting_sanity);
    for k in 0..5u32 {
        let act = rx.step(ReceiverEvent::Timeout, false, 2 + k as u64, 25565, 10);
        assert_eq!(act, ReceiverAction::SleepBackoff);
        assert_eq!(rx.sanity_count, k + 1);
    }
    let act = rx.step(ReceiverEvent::Timeout, false, 10, 25565, 10);
    assert_eq!(act, ReceiverAction::SendSanityProbe);
    assert_eq!(rx.sanity_count, 0);
}

#[test]
fn receiver_consumes_sanity_reply_without_counting_it() {
    let mut rx = ReceiverState::new(0);
    rx.step(ReceiverEvent::Timeout, false, 1, 25565, 10);
    assert!(rx.awaiting_sanity);
    let reply = reply_frame([1, 1, 1, 1], 80, 0x12);
    let act = rx.step(ReceiverEvent::Packet(reply), false, 2, 25565, 10);
    assert_eq!(act, ReceiverAction::Continue);
    assert!(!rx.awaiting_sanity);
    assert_eq!(rx.batch.len(), 0);
    assert_eq!(rx.valid_count, 0);
}

#[test]
fn receiver_stops_after_the_quiet_period() {
    let mut rx = ReceiverState::new(100);
    let act = rx.step(ReceiverEvent::Timeout, true, 105, 25565, 10);
    assert_eq!(act, ReceiverAction::WaitRemaining(5));
    let act = rx.step(ReceiverEvent::Timeout, true, 110, 25565, 10);
    assert_eq!(act, ReceiverAction::WaitRemaining(0));
    let act = rx.step(ReceiverEvent::Timeout, true, 111, 25565, 10);
    assert_eq!(act, ReceiverAction::Stop);
}

#[test]
fn receiver_hands_over_the_batch_and_clears_it() {
    let mut rx = ReceiverState::new(0);
    let hit = reply_frame([93, 184, 216, 34], 25565, 0x12);
    rx.step(ReceiverEvent::Packet(hit), false, 1, 25565, 10);
    let batch = rx.take_batch();
    assert_eq!(batch, vec![ip("93.184.216.34")]);
    assert_eq!(rx.batch.len(), 0);
}

#[test]
fn pacing_is_a_million_microseconds_over_the_rate() {
    assert_eq!(micros_per_packet(1), 1000000);
    assert_eq!(micros_per_packet(3), 333333);
    assert_eq!(micros_per_packet(1000000), 1);
    assert_eq!(micros_per_packet(2000000), 0);
}

#[test]
fn fetched_scout_jobs_parse_exactly() {
    let fields = parse_scout_job(
        Some(7),
        Some(vec!["1.2.3.4".to_string(), "5.6.7.8".to_string()]),
    )
    .unwrap();
    assert_eq!(fields.0, 7);
    assert_eq!(fields.1, vec![ip("1.2.3.4"), ip("5.6.7.8")]);
    assert!(parse_scout_job(None, Some(vec![])).is_none());
    assert!(parse_scout_job(Some(1), None).is_none());
    assert!(parse_scout_job(Some(1), Some(vec!["bad".to_string()])).is_none());
    let truncated = parse_scout_job(Some(0x1_0000_0001), Some(vec![])).unwrap();
    assert_eq!(truncated.0, 1);
}

#[test]
fn status_request_bytes_are_exact() {
    let bytes = status_request_bytes("1.2.3.4", 25565);
    let expected: Vec<u8> = vec![
        0x0e, 0x00, 0xf8, 0x05, 0x07, b'1', b'.', b'2', b'.', b'3', b'.', b'4', 0x63, 0xdd, 0x01,
        0x01, 0x00,
    ];
    assert_eq!(bytes, expected);
}

#[test]
fn status_response_parses_the_framed_json() {
    let json = "{\"version\":{\"name\":\"X\"},\"players\":{\"online\":1,\"max\":20},\"description\":\"hi\"}";
    let mut wire: Vec<u8> = Vec::new();
    let body_len = 1 + 1 + json.len();
    wire.push(body_len as u8);
    wire.push(0x00);
    wire.push(json.len() as u8);
    wire.extend_from_slice(json.as_bytes());
    let text = parse_status_response(wire.as_slice()).unwrap();
    assert_eq!(text, json);
}

#[test]
fn truncated_status_responses_fail() {
    assert!(parse_status_response(&[]).is_err());
    assert!(parse_status_response(&[5, 0]).is_err());
    assert!(parse_status_response(&[5, 0, 10, b'a']).is_err());
}

#[test]
fn probe_reports_say_up_with_a_reply_and_down_without() {
    let up = probe_report(ip("5.6.7.8"), Some("{}".to_string()));
    assert_eq!(up.status, "up");
    assert_eq!(up.ip, "5.6.7.8");
    assert_eq!(up.response.as_deref(), Some("{}"));
    let down = probe_report(ip("5.6.7.8"), None);
    assert_eq!(down.status, "down");
    assert_eq!(down.ip, "5.6.7.8");
    assert!(down.response.is_none());
}

#[test]
fn fetched_client_jobs_parse_exactly() {
    let parsed = parse_client_job(Some("17".to_string()), Some("5.6.7.8".to_string())).unwrap();
    assert_eq!(parsed, (17, ip("5.6.7.8")));
    assert!(parse_client_job(None, Some("5.6.7.8".to_string())).is_none());
    assert!(parse_client_job(Some("17".to_string()), None).is_none());
    assert!(parse_client_job(Some("x".to_string()), Some("5.6.7.8".to_string())).is_none());
    assert!(parse_client_job(Some("17".to_string()), Some("bad".to_string())).is_none());
}

#[test]
fn decimal_ids_parse_within_range() {
    assert_eq!(parse_u32_dec("0"), Some(0));
    assert_eq!(parse_u32_dec("007"), Some(7));
    assert_eq!(parse_u32_dec("4294967295"), Some(u32::MAX));
    assert_eq!(parse_u32_dec("4294967296"), None);
    assert_eq!(parse_u32_dec(""), None);
    assert_eq!(parse_u32_dec("12a"), None);
    assert_eq!(parse_u32_dec("-1"), None);
}

#[test]
fn scout_config_requires_every_field_in_order() {
    let ok = Config::from_fields(Some(10), Some(256), Some(1000), Some("http://d".to_string()))
        .unwrap();
    assert_eq!(ok.get_receive_timeout(), 10);
    assert_eq!(ok.get_job_size(), 256);
    assert_eq!(ok.get_send_rate(), 1000);
    assert_eq!(ok.get_dispatcher_base(), "http://d");
    let err = Config::from_fields(None, Some(1), Some(1), Some("x".to_string())).unwrap_err();
    assert!(err.message().contains("stop_timeout"));
    let err = Config::from_fields(Some(1), None, Some(1), Some("x".to_string())).unwrap_err();
    assert!(err.message().contains("job_size"));
    let err = Config::from_fields(Some(1), Some(1), None, Some("x".to_string())).unwrap_err();
    assert!(err.message().contains("send_rate"));
    let err = Config::from_fields(Some(1), Some(1), Some(1), None).unwrap_err();
    assert!(err.message().contains("dispatcher_base"));
}

#[test]
fn client_config_requires_the_base_url() {
    let ok = ClientConfig::from_fields(Some("http://d".to_string())).unwrap();
    assert_eq!(ok.get_dispatcher_base(), "http://d");
    assert!(ClientConfig::from_fields(None).is_err());
}

#[test]
fn error_wrappers_carry_their_message() {
    let e = InvalidServerError::new("Timed out connecting to host");
    assert_eq!(e.message(), "Timed out connecting to host");
    let p = scanpipe::mc_packet::PacketParseError::new("boom");
    assert_eq!(p.message(), "boom");
}

#[test]
fn stand_alone_range_walks_in_batches() {
    let mut d = IpDispatcher::new();
    let first = d.get_job();
    assert_eq!(first.len(), 256);
    assert_eq!(first[0], ip("1.0.6.0"));
    assert_eq!(first[255], ip("1.0.6.255"));
    let second = d.get_job();
    assert_eq!(second[0], ip("1.0.7.0"));
}
