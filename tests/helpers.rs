use amsat_status::board::{get_latest_valid_status, SatelliteStatus, StatusFlag};
use amsat_status::catalog::{get_notify_id_list, get_track_sat_list, AllSatInfo};
use amsat_status::files::FileFormat;
use amsat_status::i18n::I18n;
use amsat_status::message::{MessageEvent, Sender};
use amsat_status::response::ApiResponse;
use amsat_status::status::ReportStatus;
use amsat_status::text::text_contains;
use amsat_status::validate::{callsign_auth, is_valid_callsign, is_valid_maidenhead_grid};

#[test]
fn status_strings() {
    assert_eq!(ReportStatus::Blue.to_string(), "Transponder/Repeater active");
    assert_eq!(ReportStatus::Red.to_string_report_format(), "Not Heard");
    assert_eq!(ReportStatus::Orange.to_string_report_format(), "Unknown status");
    assert_eq!(ReportStatus::Yellow.to_chinese_string(), "只有遥测/信标");
    assert_eq!(ReportStatus::Purple.to_color_hex(), "#946af5ff");
}

#[test]
fn status_from_report_word_ignores_case() {
    assert_eq!(ReportStatus::from_string("HEARD"), ReportStatus::Blue);
    assert_eq!(ReportStatus::from_string("Telemetry Only"), ReportStatus::Yellow);
    assert_eq!(ReportStatus::from_string("not heard"), ReportStatus::Red);
    assert_eq!(ReportStatus::from_string("Crew Active"), ReportStatus::Purple);
    assert_eq!(ReportStatus::from_string("Conflicting Reports"), ReportStatus::Orange);
    assert_eq!(ReportStatus::from_string("whatever"), ReportStatus::Grey);
    assert_eq!(ReportStatus::string_to_color_hex("NOT HEARD"), "#ed3f3fff");
}

#[test]
fn status_mapper_reads_colour_keywords() {
    assert_eq!(ReportStatus::status_mapper("B"), ReportStatus::Blue);
    assert_eq!(ReportStatus::status_mapper("Yellow"), ReportStatus::Yellow);
    assert_eq!(ReportStatus::status_mapper("红"), ReportStatus::Red);
    assert_eq!(ReportStatus::status_mapper("p"), ReportStatus::Purple);
    assert_eq!(ReportStatus::status_mapper("teal"), ReportStatus::Grey);
}

#[test]
fn file_extensions() {
    assert_eq!(FileFormat::Text.to_extension(), "txt");
    assert_eq!(FileFormat::from_extension("JSON"), Some(FileFormat::Json));
    assert_eq!(FileFormat::from_extension("toml"), Some(FileFormat::Toml));
    assert_eq!(FileFormat::from_extension("jpg"), None);
}

#[test]
fn callsign_validation() {
    assert!(is_valid_callsign(&"BA1ABC".to_string()));
    assert!(is_valid_callsign(&"BA1ABC/P".to_string()));
    assert!(!is_valid_callsign(&"".to_string()));
    assert!(!is_valid_callsign(&"BA1-ABC".to_string()));
    assert!(!is_valid_callsign(&"呼号".to_string()));
}

#[test]
fn grid_validation() {
    assert!(is_valid_maidenhead_grid("PM01"));
    assert!(is_valid_maidenhead_grid("om89ab"));
    assert!(is_valid_maidenhead_grid("PM01aa12"));
    assert!(!is_valid_maidenhead_grid("PM0"));
    assert!(!is_valid_maidenhead_grid("PM012"));
    assert!(!is_valid_maidenhead_grid("SM01"));
    assert!(!is_valid_maidenhead_grid("PMA1"));
    assert!(!is_valid_maidenhead_grid("PM01zz"));
    assert!(!is_valid_maidenhead_grid("PM01aaXY"));
}

fn event(card: &str, user_id: u64) -> MessageEvent {
    MessageEvent {
        self_id: 1,
        user_id,
        time: 0,
        message_id: 0,
        message_seq: 0,
        message_type: "group".to_string(),
        sender: Sender {
            user_id,
            nickname: String::new(),
            card: card.to_string(),
            role: String::new(),
            title: String::new(),
        },
        raw_message: String::new(),
        font: 0,
        sub_type: String::new(),
        message: Vec::new(),
        message_format: String::new(),
        post_type: String::new(),
        group_id: 0,
    }
}

#[test]
fn callsign_auth_reads_card_case_insensitively() {
    let admins = vec![42u64];
    assert!(callsign_auth(&"BA1ABC".to_string(), &event("Tom ba1abc", 5), &admins));
    assert!(!callsign_auth(&"BA1ABC".to_string(), &event("Tom", 5), &admins));
    assert!(callsign_auth(&"BA1ABC".to_string(), &event("Tom", 42), &admins));
}

#[test]
fn substring_search() {
    assert!(text_contains("hello world", "o w"));
    assert!(text_contains("abc", ""));
    assert!(!text_contains("abc", "abcd"));
    assert!(!text_contains("abc", "ac"));
}

#[test]
fn i18n_falls_back_to_english_then_marker() {
    let mut i = I18n::new();
    assert_eq!(i.get_lang(), "en");
    i.load_locale("en", vec![("hi".to_string(), "Hello".to_string()), ("bye".to_string(), "Bye".to_string())]);
    i.load_locale("zh", vec![("hi".to_string(), "你好".to_string())]);
    i.set_lang("zh");
    assert_eq!(i.get_lang(), "zh");
    assert_eq!(i.text("hi"), "你好");
    assert_eq!(i.text("bye"), "Bye");
    assert_eq!(i.text("nope"), ">_< missing:nope");
    i.load_locale("zh", vec![("hi".to_string(), "嗨".to_string())]);
    assert_eq!(i.text("hi"), "嗨");
}

#[test]
fn api_response_constructors() {
    let r: ApiResponse<Vec<String>> = ApiResponse::ok(vec!["x".to_string()]);
    assert!(r.success && r.data.is_some() && r.message.is_none());
    let e: ApiResponse<u8> = ApiResponse::error("bad".to_string());
    assert!(!e.success && e.data.is_none());
    assert_eq!(e.message.as_deref(), Some("bad"));
    let n = ApiResponse::new(true, 3u8, "m".to_string());
    assert_eq!(n.data, Some(3));
    let z: ApiResponse<u8> = ApiResponse::empty();
    assert!(!z.success && z.data.is_none() && z.message.is_none());
}

#[test]
fn board_colours() {
    let f = StatusFlag::match_status_with_color("yellow", 4).unwrap();
    assert_eq!((f.report_nums, f.description.as_str()), (4, "Telemetry/Beacon Only"));
    let g = StatusFlag::match_status_with_color("#123456", 4).unwrap();
    assert_eq!((g.report_nums, g.description.as_str()), (0, "Unknown Status"));
}

#[test]
fn catalogue_filters() {
    let info = |id: Option<u32>, track: bool, notify: bool| AllSatInfo { aliases: None, id, track, notify };
    let sats = vec![
        ("ISS".to_string(), info(Some(25544), true, true)),
        ("AO-91".to_string(), info(Some(43017), false, true)),
        ("XX".to_string(), info(None, true, true)),
        ("SO-50".to_string(), info(Some(27607), true, false)),
    ];
    let t: Vec<(String, u32)> = get_track_sat_list(&sats).into_iter().map(|(n, s)| (n, s.id)).collect();
    assert_eq!(t, vec![("ISS".to_string(), 25544), ("SO-50".to_string(), 27607)]);
    assert_eq!(get_notify_id_list(&sats), vec![25544, 43017]);
}

#[test]
fn latest_valid_board_status() {
    let cell = |c: &str| StatusFlag::match_status_with_color(c, 2).unwrap();
    let row = SatelliteStatus::new(
        "AO-91".to_string(),
        vec![Vec::new(), vec![cell("#000000"), cell("red")], vec![cell("yellow")], vec![cell("red")]],
    );
    assert_eq!(get_latest_valid_status(&row), Some("Telemetry/Beacon Only".to_string()));
    let unknown = SatelliteStatus::new("AO-91".to_string(), vec![vec![cell("#000000")]]);
    assert_eq!(get_latest_valid_status(&unknown), None);
}
