use intervals_fetch::events::select_workout;
use intervals_fetch::events::Workout;
use intervals_fetch::flow::config_step;
use intervals_fetch::flow::download_request;
use intervals_fetch::flow::download_step;
use intervals_fetch::flow::lookup_request;
use intervals_fetch::flow::lookup_step;
use intervals_fetch::flow::AfterDownload;
use intervals_fetch::flow::AfterLookup;
use intervals_fetch::flow::ConfigError;
use intervals_fetch::flow::Credentials;
use intervals_fetch::flow::FlowError;
use intervals_fetch::flow::HttpMethod;
use intervals_fetch::json::parse_events;
use intervals_fetch::text::format_date;
use intervals_fetch::text::i32_to_string;
use intervals_fetch::text::render_date;

fn creds() -> Credentials {
    match config_step(Some("ath1".to_string()), Some("abc".to_string())) {
        Ok(c) => c,
        Err(_) => panic!("both values given"),
    }
}

fn wk(id: i32, t: &str, n: &str) -> Workout {
    Workout {
        id,
        workout_type: t.to_string(),
        name: n.to_string(),
    }
}

#[test]
fn second_event_is_first_ride() {
    let body =
        br#"[{"id":1,"type":"Run","name":"Easy jog"},{"id":2,"type":"Ride","name":"Hill repeats"}]"#
            .to_vec();
    let ws = parse_events(&body).unwrap_or_else(|_| panic!("well-formed list"));
    assert_eq!(ws.len(), 2);
    assert_eq!(ws[1].id, 2);
    assert_eq!(ws[1].workout_type, "Ride");
    let sel = select_workout(&ws);
    match sel {
        Some((id, name)) => {
            assert_eq!(id, 2);
            assert_eq!(name, "Hill repeats");
        }
        None => panic!("a ride is scheduled"),
    }
}

#[test]
fn run_only_gives_no_workout() {
    let body = br#"[{"id":1,"type":"Run","name":"Easy jog"}]"#.to_vec();
    let ws = parse_events(&body).unwrap_or_else(|_| panic!("well-formed list"));
    assert!(select_workout(&ws).is_none());
}

#[test]
fn empty_list_gives_no_workout() {
    let body = b"[]".to_vec();
    let ws = parse_events(&body).unwrap_or_else(|_| panic!("well-formed list"));
    assert!(ws.is_empty());
    assert!(select_workout(&ws).is_none());
}

#[test]
fn first_cycling_match_wins_in_list_order() {
    let ws = vec![
        wk(1, "Run", "Easy jog"),
        wk(7, "Ride", "First ride"),
        wk(9, "VirtualRide", "Second ride"),
        wk(3, "Run", "Cooldown"),
    ];
    match select_workout(&ws) {
        Some((id, name)) => {
            assert_eq!(id, 7);
            assert_eq!(name, "First ride");
        }
        None => panic!("rides are scheduled"),
    }
}

#[test]
fn virtual_ride_tag_matches() {
    let ws = vec![wk(4, "VirtualRide", "Trainer session")];
    match select_workout(&ws) {
        Some((id, name)) => {
            assert_eq!(id, 4);
            assert_eq!(name, "Trainer session");
        }
        None => panic!("a virtual ride is scheduled"),
    }
}

#[test]
fn tag_match_is_exact_and_case_sensitive() {
    let ws = vec![
        wk(1, "ride", "lower case"),
        wk(2, "Virtual Ride", "with space"),
        wk(3, "RIDE", "upper case"),
        wk(4, "Rides", "longer tag"),
    ];
    assert!(select_workout(&ws).is_none());
}

#[test]
fn unknown_members_are_skipped() {
    let body = br#"
        [ {"start_date":"2026-10-11T00:00:00",
           "extra": {"a": [1, -2.5e3, {"b": null}], "c": "x\"y", "d": false},
           "id": 5, "type": "Ride", "name": "Openers", "moving": true} ]"#
        .to_vec();
    let ws = parse_events(&body).unwrap_or_else(|_| panic!("well-formed list"));
    assert_eq!(ws.len(), 1);
    assert_eq!(ws[0].id, 5);
    assert_eq!(ws[0].workout_type, "Ride");
    assert_eq!(ws[0].name, "Openers");
}

#[test]
fn string_escapes_are_decoded() {
    let body = r#"[{"id":1,"type":"Ride","name":"A\nB\t\"\\/\b\f\r Aé€"}]"#
        .as_bytes()
        .to_vec();
    let ws = parse_events(&body).unwrap_or_else(|_| panic!("well-formed list"));
    assert_eq!(ws[0].name, "A\nB\t\"\\/\u{8}\u{c}\r A\u{e9}\u{20ac}");
}

#[test]
fn unicode_escapes_are_decoded() {
    let body = br#"[{"id":1,"type":"Ride","name":"\u0041\u00e9\u20aC"}]"#.to_vec();
    let ws = parse_events(&body).unwrap_or_else(|_| panic!("well-formed list"));
    assert_eq!(ws[0].name, "A\u{e9}\u{20ac}");
}

#[test]
fn surrogate_pairs_decode_to_astral_characters() {
    let body = br#"[{"id":1,"type":"Ride","name":"\uD834\uDD1E \ud83d\ude00"}]"#.to_vec();
    let ws = parse_events(&body).unwrap_or_else(|_| panic!("well-formed list"));
    assert_eq!(ws[0].name, "\u{1d11e} \u{1f600}");
}

#[test]
fn astral_characters_in_skipped_members_are_no_error() {
    let body = br#"[{"note":"\ud83d\udeb4 done","id":6,"type":"Ride","name":"x"}]"#.to_vec();
    let ws = parse_events(&body).unwrap_or_else(|_| panic!("well-formed list"));
    assert_eq!(ws[0].id, 6);
}

#[test]
fn escaped_keys_count_as_the_plain_key() {
    let body = br#"[{"\u0069d":3,"type":"Ride","name":"x"}]"#.to_vec();
    let ws = parse_events(&body).unwrap_or_else(|_| panic!("well-formed list"));
    assert_eq!(ws[0].id, 3);
    let dup = br#"[{"id":3,"\u0069d":4,"type":"Ride","name":"x"}]"#.to_vec();
    assert!(parse_events(&dup).is_err());
}

#[test]
fn utf8_names_survive() {
    let body = "[{\"id\":1,\"type\":\"Ride\",\"name\":\"Col du Galibier — café\"}]"
        .as_bytes()
        .to_vec();
    let ws = parse_events(&body).unwrap_or_else(|_| panic!("well-formed list"));
    assert_eq!(ws[0].name, "Col du Galibier — café");
}

#[test]
fn malformed_bodies_are_refused() {
    let cases: Vec<&[u8]> = vec![
        b"",
        b"{}",
        b"[",
        b"[{}]",
        br#"[{"id":1,"type":"Ride"}]"#,
        br#"[{"id":1,"type":"Ride","name":"x"},]"#,
        br#"[{"id":1,"id":2,"type":"Ride","name":"x"}]"#,
        br#"[{"id":1.5,"type":"Ride","name":"x"}]"#,
        br#"[{"id":1e2,"type":"Ride","name":"x"}]"#,
        br#"[{"id":"1","type":"Ride","name":"x"}]"#,
        br#"[{"id":01,"type":"Ride","name":"x"}]"#,
        br#"[{"id":2147483648,"type":"Ride","name":"x"}]"#,
        br#"[{"id":1,"type":7,"name":"x"}]"#,
        br#"[{"id":1,"type":"Ride","name":"x"}] trailing"#,
        br#"[{"id":1,"type":"Ride","name":"bad \q escape"}]"#,
        br#"[{"id":1,"type":"Ride","name":"lone \ud800 surrogate"}]"#,
        br#"[{"id":1,"type":"Ride","name":"reversed \udc00\ud800 pair"}]"#,
        br#"[{"id":1,"type":"Ride","name":"half \ud834A pair"}]"#,
        br#"[{"id":1,"type":"Ride","name":"cut \ud834"}]"#,
        b"[1,2]",
    ];
    for c in cases {
        assert!(parse_events(&c.to_vec()).is_err(), "accepted: {:?}", c);
    }
}

#[test]
fn invalid_utf8_body_is_refused() {
    let mut body = br#"[{"id":1,"type":"Ride","name":""#.to_vec();
    body.push(0xFF);
    body.extend_from_slice(br#""}]"#);
    assert!(parse_events(&body).is_err());
}

#[test]
fn id_bounds_are_those_of_i32() {
    let body = br#"[{"id":2147483647,"type":"Ride","name":"max"},
                    {"id":-2147483648,"type":"Run","name":"min"}]"#
        .to_vec();
    let ws = parse_events(&body).unwrap_or_else(|_| panic!("well-formed list"));
    assert_eq!(ws[0].id, 2147483647);
    assert_eq!(ws[1].id, -2147483648);
}

#[test]
fn config_missing_id_is_fatal_first() {
    assert!(matches!(config_step(None, Some("t".to_string())), Err(ConfigError::MissingId)));
    assert!(matches!(config_step(None, None), Err(ConfigError::MissingId)));
}

#[test]
fn config_missing_token_is_fatal() {
    assert!(matches!(config_step(Some("a".to_string()), None), Err(ConfigError::MissingToken)));
}

#[test]
fn config_complete_keeps_both_values() {
    let c = creds();
    assert_eq!(c.athlete_id, "ath1");
    assert_eq!(c.token, "abc");
}

#[test]
fn auth_header_is_basic_with_fixed_username() {
    let plan = lookup_request(&creds(), "2026-10-11");
    assert_eq!(plan.authorization, "Basic QVBJX0tFWTphYmM=");
    let expected = format!("Basic {}", base64::encode("API_KEY:abc"));
    assert_eq!(plan.authorization, expected);
}

#[test]
fn lookup_request_has_single_day_range() {
    let plan = lookup_request(&creds(), "2026-10-11");
    assert!(matches!(plan.method, HttpMethod::Get));
    assert_eq!(
        plan.uri,
        "https://intervals.icu/api/v1/athlete/ath1/events?oldest=2026-10-11&newest=2026-10-11"
    );
    assert_eq!(plan.body, "test");
}

#[test]
fn download_request_names_the_workout() {
    let plan = download_request(&creds(), 42);
    assert!(matches!(plan.method, HttpMethod::Get));
    assert_eq!(plan.uri, "https://intervals.icu/api/v1/athlete/ath1/events/42/downloadzwo");
    assert_eq!(plan.body, "test");
}

#[test]
fn decimal_rendering_is_exact() {
    assert_eq!(i32_to_string(0), "0");
    assert_eq!(i32_to_string(42), "42");
    assert_eq!(i32_to_string(-5), "-5");
    assert_eq!(i32_to_string(2147483647), "2147483647");
    assert_eq!(i32_to_string(-2147483648), "-2147483648");
}

#[test]
fn dates_are_zero_padded() {
    assert_eq!(format_date(2026, 1, 5), "2026-01-05");
    assert_eq!(format_date(0, 12, 31), "0000-12-31");
    assert_eq!(format_date(999, 10, 2), "0999-10-02");
}

#[test]
fn rendering_succeeds_exactly_on_four_digit_years() {
    assert_eq!(render_date(2026, 1, 5), Some("2026-01-05".to_string()));
    assert_eq!(render_date(9999, 12, 31), Some("9999-12-31".to_string()));
    assert_eq!(render_date(0, 1, 1), Some("0000-01-01".to_string()));
    assert_eq!(render_date(10000, 1, 1), None);
    assert_eq!(render_date(-1, 1, 1), None);
}

#[test]
fn lookup_step_selects_and_plans_download() {
    let body =
        br#"[{"id":1,"type":"Run","name":"Easy jog"},{"id":2,"type":"Ride","name":"Hill repeats"}]"#
            .to_vec();
    match lookup_step(&creds(), 200, &body) {
        AfterLookup::Download { request, workout_id, workout_name } => {
            assert_eq!(workout_id, 2);
            assert_eq!(workout_name, "Hill repeats");
            assert_eq!(
                request.uri,
                "https://intervals.icu/api/v1/athlete/ath1/events/2/downloadzwo"
            );
        }
        _ => panic!("a ride is scheduled"),
    }
}

#[test]
fn lookup_step_reports_no_workout() {
    let body = br#"[{"id":1,"type":"Run","name":"Easy jog"}]"#.to_vec();
    assert!(matches!(lookup_step(&creds(), 200, &body), AfterLookup::NoWorkout));
}

#[test]
fn lookup_bad_status_prevents_download() {
    let body = br#"[{"id":2,"type":"Ride","name":"Hill repeats"}]"#.to_vec();
    match lookup_step(&creds(), 404, &body) {
        AfterLookup::Fail(FlowError::BadStatus(s)) => assert_eq!(s, 404),
        _ => panic!("a non-200 status is fatal"),
    }
}

#[test]
fn lookup_malformed_body_is_fatal() {
    let body = b"not json".to_vec();
    assert!(matches!(
        lookup_step(&creds(), 200, &body),
        AfterLookup::Fail(FlowError::MalformedEvents)
    ));
}

#[test]
fn download_step_saves_exact_bytes() {
    match download_step(200, b"<workout/>".to_vec()) {
        AfterDownload::Save(bytes) => assert_eq!(bytes, b"<workout/>".to_vec()),
        AfterDownload::Fail(_) => panic!("a 200 download is saved"),
    }
}

#[test]
fn download_bad_status_prevents_write() {
    match download_step(500, b"<workout/>".to_vec()) {
        AfterDownload::Fail(FlowError::BadStatus(s)) => assert_eq!(s, 500),
        _ => panic!("a non-200 download fails with its status code"),
    }
}

#[test]
fn today_is_a_padded_date() {
    let s = intervals_fetch::clock::today_string().expect("years have four digits for a while");
    let b = s.as_bytes();
    assert_eq!(b.len(), 10);
    assert_eq!(b[4], b'-');
    assert_eq!(b[7], b'-');
    for i in [0usize, 1, 2, 3, 5, 6, 8, 9] {
        assert!(b[i].is_ascii_digit());
    }
}
