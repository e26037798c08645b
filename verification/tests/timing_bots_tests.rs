use chiyocore::crypto::HardwareAES;
use chiyocore::bots::{bot_command, listens_on, ping_user, stop_request, wants_cafe_advert, PingBot};
use chiyocore::timing::{
    ack_wait_ms, cad_backoff_ms, needs_rx_restart, ntp_micros, CadState, RadioEvent,
    RetryState, Timestamp,
};
use chiyocore::ttc::{
    arrivals, reply_parts, summary, Arrival, TtcDirection, TtcDirectionalPrediction, TtcPrediction,
};

#[test]
fn retry_floods_once_then_gives_up() {
    let mut s = RetryState::new();
    let mut sends = 0;
    let mut floods = 0;
    while s.keeps_trying() {
        sends += 1;
        if s.on_timeout() {
            floods += 1;
        }
    }
    assert_eq!(sends, 7);
    assert_eq!(floods, 1);
    assert!(s.has_flooded);
    assert_eq!(s.attempt, 4);
}

#[test]
fn third_timeout_falls_back_to_flood() {
    let mut s = RetryState::new();
    assert!(!s.on_timeout());
    assert!(!s.on_timeout());
    assert!(s.on_timeout());
    assert_eq!(s, RetryState { attempt: 0, has_flooded: true });
}

#[test]
fn ack_wait_is_at_least_a_second() {
    assert_eq!(ack_wait_ms(10), 1000);
    assert_eq!(ack_wait_ms(4321), 4321);
}

#[test]
fn cad_backoff_grows_quadratically() {
    assert_eq!(cad_backoff_ms(100, 1), 0);
    assert_eq!(cad_backoff_ms(100, 2), 100);
    assert_eq!(cad_backoff_ms(199, 4), 1791);
    assert_eq!(cad_backoff_ms(199, 5), 3184);
    let mut c = CadState::new();
    let mut waits = vec![];
    while c.may_check() {
        waits.push(c.on_busy(150));
    }
    assert_eq!(waits, vec![0, 150, 600, 1350, 2400]);
}

#[test]
fn ntp_time_in_microseconds() {
    assert_eq!(ntp_micros(2, 0), 2_000_000);
    assert_eq!(ntp_micros(1, 0x8000_0000), 1_500_000);
    assert_eq!(ntp_micros(0, 0xFFFF_FFFF), 999_999);
    let t = Timestamp { current_time_us: 3_000_042 };
    assert_eq!(t.timestamp_sec(), 3);
    assert_eq!(t.timestamp_subsec_micros(), 42);
}

#[test]
fn aes_padding() {
    assert_eq!(HardwareAES::padded_len(0), 0);
    assert_eq!(HardwareAES::padded_len(1), 16);
    assert_eq!(HardwareAES::padded_len(16), 16);
    assert_eq!(HardwareAES::padded_len(17), 32);
}

#[test]
fn receiver_restarts() {
    assert!(needs_rx_restart(RadioEvent::Sent));
    assert!(needs_rx_restart(RadioEvent::PacketDone));
    assert!(!needs_rx_restart(RadioEvent::PreambleReceived));
    assert!(!needs_rx_restart(RadioEvent::Idle));
}

#[test]
fn bot_commands_split_at_first_colon() {
    assert_eq!(bot_command("  alice: !ping \0\0"), Some(("alice", "!ping")));
    assert_eq!(bot_command("no colon"), None);
    assert_eq!(bot_command("a:b:c"), Some(("a", "b:c")));
    assert_eq!(ping_user("bob:   !ping\u{3000}"), Some("bob"));
    assert_eq!(ping_user("bob: !pong"), None);
    assert_eq!(ping_user("!ping"), None);
    assert!(wants_cafe_advert("emi: !cafe_advert"));
    assert!(!wants_cafe_advert("emi: !cafe"));
}

#[test]
fn bots_listen_on_their_channels() {
    let channels = vec!["#test".to_string(), "#emitestcorner".to_string()];
    assert!(listens_on(&channels, &"#test".to_string()));
    assert!(!listens_on(&channels, &"public".to_string()));
}

#[test]
fn stop_requests_parse_like_rust() {
    assert_eq!(stop_request(" 5900\0"), Some(5900));
    assert_eq!(stop_request("+12"), Some(12));
    assert_eq!(stop_request("65535"), Some(65535));
    assert_eq!(stop_request("65536"), None);
    assert_eq!(stop_request("12a"), None);
    assert_eq!(stop_request("+"), None);
    assert_eq!(stop_request(""), None);
    assert_eq!(stop_request("-1"), None);
}

fn prediction(title: &str, minutes: &str, vehicle: &str) -> TtcPrediction {
    TtcPrediction {
        direction: Some(TtcDirection {
            title: title.to_string(),
            prediction: vec![TtcDirectionalPrediction {
                minutes: minutes.to_string(),
                vehicle: vehicle.to_string(),
            }],
        }),
    }
}

#[test]
fn arrivals_sorted_soonest_first() {
    let preds = vec![
        prediction("East", "7", "1001"),
        TtcPrediction { direction: None },
        prediction("West", "1", "1002"),
        prediction("North", "soon", "1003"),
        TtcPrediction { direction: Some(TtcDirection { title: "Empty".to_string(), prediction: vec![] }) },
    ];
    let found = arrivals(&preds);
    assert_eq!(
        found,
        vec![
            Arrival { route: "West", minutes: 1, vehicle: "1002" },
            Arrival { route: "East", minutes: 7, vehicle: "1001" },
        ]
    );
    assert_eq!(summary(&found), b"West - 1 MINUTE\nEast - 7 MINUTES\n".to_vec());
}

#[test]
fn summary_stops_at_capacity() {
    let long = "x".repeat(320);
    let items = vec![
        Arrival { route: &long, minutes: 12, vehicle: "" },
        Arrival { route: "ab", minutes: 3, vehicle: "" },
    ];
    let out = summary(&items);
    let mut expected = long.as_bytes().to_vec();
    expected.extend_from_slice(b" - 12 ");
    expected.extend_from_slice(b"ab");
    assert_eq!(out, expected);
    assert_eq!(out.len(), 328);
}

#[test]
fn replies_split_long_answers_into_lines() {
    assert_eq!(reply_parts("short\n"), vec!["short"]);
    let long = format!("{}\n\n{}\n", "a".repeat(70), "b".repeat(70));
    let parts = reply_parts(&long);
    assert_eq!(parts, vec!["a".repeat(70), String::new(), "b".repeat(70)]);
}

fn ping_bot() -> PingBot {
    PingBot { name: "cafe".to_string(), channels: vec!["#test".to_string(), "#bots".to_string()] }
}

#[test]
fn ping_bot_answers_pings_on_its_channels() {
    let bot = ping_bot();
    let reply = bot.group_text(&"#bots".to_string(), "alice: !ping\0\0", "[1, 2]");
    assert_eq!(reply, Some("cafe: pong @[alice] ＼(≧▽≦)／\npath: [1, 2]".to_string()));
}

#[test]
fn ping_bot_ignores_other_channels_and_messages() {
    let bot = ping_bot();
    assert_eq!(bot.group_text(&"#other".to_string(), "alice: !ping", "[]"), None);
    assert_eq!(bot.group_text(&"#test".to_string(), "alice: hello", "[]"), None);
    assert_eq!(bot.group_text(&"#test".to_string(), "no colon here", "[]"), None);
}
