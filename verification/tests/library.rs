//! The smaller parts: text, JSON, settings, ports, state, tray.

use fabrix_proxy::commands::{
    model_list, must_restart, test_result, trial_config, with_default_model, ModelRow,
};
use fabrix_proxy::config::{skip_byte_order_mark, token_of, Config, Stats, DEFAULT_PORT};
use fabrix_proxy::json::{Json, RESERVED};
use fabrix_proxy::logstore::{
    preview, short_client, Kind, LogEntry, LogStore, RawBuf, RawWire, CAPACITY, RAW_CAP,
};
use fabrix_proxy::number::{Mark, Real};
use fabrix_proxy::port::{
    find_free_from, inspect, is_free, listening_pid, owner_of, process_name, PortOwner, PortStatus,
};
use fabrix_proxy::proxy::chat_reply::completion_id_of;
use fabrix_proxy::proxy::fabrix::{
    build_aliases, classify_status, extract_array, models_in_body, FabrixError, FabrixModel,
    LocalizedText,
};
use fabrix_proxy::proxy::fingerprint::system_fingerprint;
use fabrix_proxy::proxy::gate::response_head;
use fabrix_proxy::proxy::models::{look_up, Lookup, ModelsCache, ModelsCall, MODELS_CACHE_TTL};
use fabrix_proxy::proxy::request::clamp_temperature;
use fabrix_proxy::proxy::tools::call_id_of;
use fabrix_proxy::state::{AppState, STATS_FLUSH_INTERVAL};
use fabrix_proxy::text::{
    dec_u64, includes, is_white, lines_of, lowered, read_u32, split_once, trimmed, words_of,
};
use fabrix_proxy::tray::TrayTexts;

#[test]
fn white_space_is_what_the_standard_library_says() {
    for n in 0..=0x3100u32 {
        if let Some(c) = char::from_u32(n) {
            assert_eq!(is_white(c), c.is_whitespace(), "{n:x}");
        }
    }
    assert_eq!(trimmed("\u{3000} 안녕 \n"), "안녕");
    assert_eq!(trimmed("\u{feff}a"), "\u{feff}a");
    assert_eq!(lowered("ÄBC가"), "Äbc가");
}

#[test]
fn numbers_are_read_and_written() {
    for n in [0u64, 7, 10, 100, 8787, u64::MAX] {
        assert_eq!(dec_u64(n), n.to_string());
    }
    for s in ["0", "12", "+5", "", "+", "-1", "4294967295", "4294967296", "1a", "٣"] {
        assert_eq!(read_u32(s), s.parse::<u32>().ok(), "{s}");
    }
}

#[test]
fn words_and_lines_are_split() {
    for s in ["", "  ", "a", " a b  c ", "가 나\u{3000}다\n"] {
        assert_eq!(words_of(s), s.split_whitespace().collect::<Vec<_>>(), "{s:?}");
        assert_eq!(lines_of(s), s.split('\n').collect::<Vec<_>>(), "{s:?}");
    }
    assert_eq!(split_once("a,b,c", ','), Some(("a", "b,c")));
    assert_eq!(split_once("abc", ','), None);
    assert!(includes("한글 문장", "글 문"));
    assert!(!includes("한글", "글 "));
}

#[test]
fn broken_bytes_are_replaced() {
    let mut buf = RawBuf::new(true);
    buf.push(&[b'a', 0xff, b'b']);
    assert_eq!(buf.text(), "a\u{fffd}b");
}

#[test]
fn json_goes_there_and_back() {
    let text = r#"{"a":[1,2.5,null,true],"b":{"c":"한\n글"}}"#;
    let tree = Json::parse(text).unwrap();
    assert_eq!(tree.compact(), text);
    assert_eq!(tree.copy().compact(), text);
    assert_eq!(Json::parse_bytes(text.as_bytes()).unwrap().compact(), text);
    assert_eq!(Json::parse("[1]").unwrap().pretty(), "[\n  1\n]");
    assert!(Json::parse("{").is_err());
    assert!(Json::parse_bytes(&[0xff]).is_err());
    let twice = Json::Object(vec![
        ("k".into(), Json::text("first")),
        ("k".into(), Json::text("second")),
    ]);
    assert_eq!(twice.get_text("k"), Some("second"));
    assert_eq!(twice.compact(), r#"{"k":"second"}"#);
    assert_eq!(Json::number(7).as_u64(), Some(7));
    assert_eq!(Json::number(7).as_i64(), Some(7));
    assert_eq!(Json::number(u64::MAX).as_i64(), None);
    assert_eq!(Json::parse("-7").unwrap().as_u64(), None);
    assert_eq!(Json::parse("-7").unwrap().as_i64(), Some(-7));
    assert_eq!(Json::parse("-7").unwrap().compact(), "-7");
    assert_eq!(Json::parse("0.5").unwrap().as_i64(), None);
    assert_eq!(Json::Object(Vec::new()).compact(), "{}");
}

fn double(v: f64) -> Real {
    Real { bits: v.to_bits(), shown: v.to_string() }
}

#[test]
fn names_come_in_the_order_of_their_bytes() {
    let tree = Json::parse(r#"{"나":1,"b":2,"가":3,"B":4,"ab":5,"a":6}"#).unwrap();
    let names: Vec<&str> = match &tree {
        Json::Object(list) => list.iter().map(|e| e.0.as_str()).collect(),
        other => panic!("{other:?}"),
    };
    assert_eq!(names, vec!["B", "a", "ab", "b", "가", "나"]);
}

/// `serde_json` reads an object that begins with this member as what its text says.
#[test]
fn the_reserved_member_is_not_read_back() {
    let text = format!(r#"{{"a":1,"{RESERVED}":"x"}}"#);
    let tree = Json::parse(&text).unwrap();
    assert_eq!(tree.get_text(RESERVED), Some("x"));
    assert!(Json::parse(&tree.compact()).is_err());
    let one = Json::Object(vec![(RESERVED.to_string(), Json::text("1"))]);
    assert_eq!(Json::parse(&one.compact()).unwrap().as_u64(), Some(1));
}

#[test]
fn numbers_are_ordered_as_floats_are() {
    for v in [-9.0, -2.0, -0.0, 0.0, 0.3, 1.0, 1.5, 2.0, 2.1, f64::INFINITY, f64::NAN] {
        assert_eq!(double(v).is_within(Mark::Zero, Mark::Two), (0.0..=2.0).contains(&v), "{v}");
        assert_eq!(double(v).is_within(Mark::MinusTwo, Mark::One), (-2.0..=1.0).contains(&v), "{v}");
        let sent = clamp_temperature(&double(v));
        assert_eq!(f64::from_bits(sent.bits), v.min(1.0), "{v}");
    }
}

#[test]
fn secrets_are_masked() {
    assert_eq!(Config::mask(""), "(미설정)");
    assert_eq!(Config::mask("  "), "(미설정)");
    assert_eq!(Config::mask("ab"), "●●●●ab");
    assert_eq!(Config::mask(" secret-한글키 "), "●●●●한글키");
}

#[test]
fn the_base_url_is_cleaned() {
    let of = |url: &str| {
        Config { fabrix_base_url: url.into(), ..Config::default() }.normalized_base_url()
    };
    assert_eq!(of(" https://ai.corp.internal/// "), "https://ai.corp.internal");
    assert_eq!(of("https://ai.corp.internal/openapi/chat/v1"), "https://ai.corp.internal");
    assert_eq!(of("https://ai.corp.internal"), "https://ai.corp.internal");
    assert_eq!(skip_byte_order_mark("\u{feff}\u{feff}{}"), "{}");
    assert_eq!(skip_byte_order_mark("{}"), "{}");
}

#[test]
fn a_token_is_made_of_both_draws() {
    let a = "0123456789abcdef0123456789abcdef";
    let b = "fedcba9876543210fedcba9876543210";
    assert_eq!(token_of(a, b), format!("sk-{a}fedcba9876543210"));
    assert_eq!(completion_id_of(a), format!("chatcmpl-{a}"));
    assert_eq!(call_id_of(b), "call_fedcba9876543210fedcba98");
}

#[test]
fn settings_are_made_ready_to_be_saved() {
    let cfg = Config { port: 0, ..Config::default() };
    assert_eq!(cfg.ready_to_save().unwrap_err(), "포트 번호가 올바르지 않습니다.");
    let cfg = Config { token_mode: true, ..Config::default() };
    assert!(cfg.ready_to_save().unwrap().issued_token.starts_with("sk-"));
    let cfg = Config { token_mode: true, issued_token: "sk-own".into(), ..Config::default() };
    assert_eq!(cfg.ready_to_save().unwrap().issued_token, "sk-own");
    assert_eq!(Config::default().ready_to_save().unwrap().issued_token, "");
}

fn entry(id: &str, kind: Kind) -> LogEntry {
    LogEntry {
        id: id.into(),
        ts: "14:31".into(),
        ts_full: String::new(),
        kind,
        method: kind.method(),
        path: kind.path().into(),
        status: 200,
        latency_ms: 1,
        stream: false,
        cached: false,
        model_requested: None,
        model_alias: None,
        model_id: None,
        model_label: None,
        client: None,
        note: None,
        summary: None,
        is_error: false,
        req_openai: String::new(),
        req_fabrix: String::new(),
        req_fabrix_headers: String::new(),
        fabrix_url: String::new(),
        resp_body: String::new(),
        resp_meta: String::new(),
        raw: RawWire {
            upstream_captured: true,
            client_captured: true,
            upstream: "up".into(),
            client: "down".into(),
        },
    }
}

#[test]
fn the_log_keeps_the_latest_fifty() {
    let mut logs = LogStore::default();
    for i in 0..CAPACITY + 7 {
        logs.push(entry(&i.to_string(), Kind::Chat));
    }
    let all = logs.snapshot();
    assert_eq!(all.len(), CAPACITY);
    assert_eq!(all[0].id, "56");
    assert_eq!(all[49].id, "7");
    assert_eq!(all[0].raw.upstream, "up");
    let recent = logs.recent(4);
    assert_eq!(recent.len(), 4);
    assert_eq!(recent[3].id, "53");
    assert_eq!(recent[0].raw.upstream, "");
    assert!(recent[0].raw.upstream_captured);
    logs.clear();
    assert!(logs.snapshot().is_empty());
    assert!(logs.recent(4).is_empty());
}

#[test]
fn the_wire_does_not_depend_on_how_it_is_cut() {
    let data = vec![b'x'; RAW_CAP + 300];
    let mut whole = RawBuf::new(true);
    whole.push(&data);
    let mut cut = RawBuf::new(true);
    for piece in data.chunks(1000) {
        cut.push(piece);
    }
    assert_eq!(whole.text(), cut.text());
    assert!(whole.text().contains("300바이트를 버렸습니다"));
}

#[test]
fn clients_and_previews_are_short() {
    assert_eq!(short_client(Some("opencode/1.2.3 (linux)")).as_deref(), Some("opencode"));
    assert_eq!(short_client(Some("  ")), None);
    assert_eq!(short_client(None), None);
    assert_eq!(short_client(Some("abcdefghijklmnopqrstuvwxyz")).unwrap().len(), 24);
    assert_eq!(preview("가나다", 3), "가나다");
    assert_eq!(preview("가나다라", 3), "가나다…");
}

#[test]
fn a_new_day_starts_over() {
    let mut s = Stats::default();
    s.count(Kind::Chat, "09:00", "2025-01-01");
    s.count(Kind::Images, "09:01", "2025-01-01");
    s.count(Kind::Models, "09:02", "2025-01-01");
    assert_eq!((s.total, s.chat, s.models, s.images), (3, 1, 1, 1));
    assert_eq!(s.last_call_at.as_deref(), Some("09:02"));
    s.count(Kind::Chat, "00:01", "2025-01-02");
    assert_eq!((s.total, s.chat, s.models, s.images), (1, 1, 0, 0));
    assert_eq!(s.date, "2025-01-02");
}

// ── ports ──

#[test]
fn the_next_free_port_is_found() {
    assert!(!is_free(0, &|_| true));
    assert!(is_free(1, &|_| true));
    assert_eq!(find_free_from(8787, &|p| p >= 8790), Some(8790));
    assert_eq!(find_free_from(8787, &|p| p > 8847), None);
    assert_eq!(find_free_from(8787, &|p| p == 8847), Some(8847));
    assert_eq!(find_free_from(u16::MAX, &|_| true), Some(u16::MAX));
    assert_eq!(find_free_from(u16::MAX - 1, &|_| false), None);
}

#[test]
fn a_port_is_inspected() {
    let nobody = |_: u16| None;
    let s = inspect(8787, Some(8787), &|_| false, &nobody);
    assert!(s.free && s.owner.is_none() && s.suggestion.is_none());
    let s = inspect(8787, None, &|_| true, &nobody);
    assert!(s.free);
    let s = inspect(8787, Some(9000), &|p| p != 8787, &|_| {
        Some(PortOwner { pid: 8124, name: "node.exe".into() })
    });
    assert!(!s.free);
    assert_eq!(s.owner.unwrap().pid, 8124);
    assert_eq!(s.suggestion, Some(8788));
    assert!(!inspect(0, None, &|_| true, &nobody).free);
}

const NETSTAT: &str = "\r\nActive Connections\r\n\r\n  Proto  Local Address  Foreign Address  State  PID\r\n  \
TCP    0.0.0.0:135      0.0.0.0:0    LISTENING   900\r\n  \
TCP    127.0.0.1:8787   127.0.0.1:5  ESTABLISHED 901\r\n  \
tcp    [::]:8787        [::]:0       listening   8124\r\n";

#[test]
fn the_owner_of_a_port_is_read_off() {
    assert_eq!(listening_pid(NETSTAT, 8787), Some(8124));
    assert_eq!(listening_pid(NETSTAT, 135), Some(900));
    assert_eq!(listening_pid(NETSTAT, 87), None);
    let row = "\"node.exe\",\"8124\",\"Console\",\"1\",\"52,164 K\"\r\n";
    assert_eq!(process_name(row).as_deref(), Some("node.exe"));
    assert_eq!(process_name("\"No tasks are running\""), None);
    assert_eq!(process_name("\"정보 없음\""), None);
    assert_eq!(process_name("INFO: nothing"), None);
    let owner = owner_of(8787, Some(NETSTAT), &|_| Some(row.to_string())).unwrap();
    assert_eq!((owner.pid, owner.name.as_str()), (8124, "node.exe"));
    let owner = owner_of(8787, Some(NETSTAT), &|_| None).unwrap();
    assert_eq!(owner.name, "알 수 없음");
    assert!(owner_of(9999, Some(NETSTAT), &|_| None).is_none());
    assert!(owner_of(8787, None, &|_| None).is_none());
}

// ── models ──

fn gateway_models() -> Vec<FabrixModel> {
    let named = |id: &str, name: &str| FabrixModel {
        model_id: id.into(),
        name: vec![LocalizedText { language_code: Some("en".into()), content: Some(name.into()) }],
        description: vec![],
    };
    vec![named("u1", "Chat 4"), named("u2", "Chat, 4!"), named("u3", "Chat 4")]
}

#[test]
fn equal_names_get_different_aliases() {
    let models = build_aliases(&gateway_models());
    let aliases: Vec<&str> = models.iter().map(|m| m.alias.as_str()).collect();
    assert_eq!(aliases, vec!["fabrix-chat-4", "fabrix-chat-4-2", "fabrix-chat-4-3"]);
}

#[test]
fn models_are_found_in_a_body() {
    assert_eq!(models_in_body(r#"[{"modelId":"a"},{"x":1}]"#).unwrap().len(), 1);
    assert_eq!(models_in_body(r#"{"result":{"items":[{"modelId":"a"}]}}"#).unwrap()[0].model_id, "a");
    for body in ["no json", "{}", "[]"] {
        let err = models_in_body(body).unwrap_err();
        assert!(matches!(err, FabrixError::BadPayload(_)), "{body}");
    }
    let tree = Json::parse(r#"{"data":{"list":[1,2]}}"#).unwrap();
    assert_eq!(extract_array(&tree).unwrap().len(), 2);
}

#[test]
fn statuses_are_classified() {
    assert!(matches!(classify_status(429, "x"), FabrixError::Quota(m) if m == "x"));
    assert!(matches!(
        classify_status(503, r#"{"error":{"message":"down"}}"#),
        FabrixError::Unreachable(m) if m == "down"
    ));
    assert!(matches!(
        classify_status(418, r#"{"message":" ","detail":"teapot"}"#),
        FabrixError::Upstream { status: 418, message } if message == "teapot"
    ));
}

#[test]
fn a_list_is_kept_for_a_minute() {
    let cfg = Config {
        fabrix_base_url: "u".into(),
        fabrix_client: "c".into(),
        openapi_token: "t".into(),
        ..Config::default()
    };
    let cache = Some(ModelsCache::fill(&gateway_models(), "raw".into(), 1_000, "noon".into()));
    match look_up(&cache, &cfg, false, 1_000 + MODELS_CACHE_TTL - 1) {
        Lookup::Cached(loaded) => {
            assert!(loaded.cached);
            assert_eq!(loaded.models.len(), 3);
            assert_eq!(loaded.fetched_at, "noon");
            assert_eq!(loaded.raw, "raw");
        }
        other => panic!("{other:?}"),
    }
    assert!(matches!(look_up(&cache, &cfg, true, 1_001), Lookup::Ask));
    assert!(matches!(look_up(&cache, &cfg, false, 1_000 + MODELS_CACHE_TTL), Lookup::Ask));
}

#[test]
fn a_call_for_the_models_is_logged() {
    let cfg = Config { fabrix_base_url: "https://x/".into(), ..Config::default() };
    let call = ModelsCall::begin(&cfg, "/v1/models", None, true, Some("curl/8"));
    assert_eq!(
        call.req_openai,
        "GET /v1/models\nAuthorization: Bearer ●●●●(값 무시)\nUser-Agent: curl/8"
    );
    assert_eq!(call.fabrix_url, "https://x/openapi/chat/v1/models");
    let stamp = || fabrix_proxy::logstore::Stamp {
        id: "i".into(),
        ts: "t".into(),
        ts_full: "f".into(),
        latency_ms: 3,
    };
    let models = build_aliases(&gateway_models());
    let e = call.listed(stamp(), &models, true, "raw");
    assert_eq!(e.note.as_deref(), Some("캐시 히트"));
    assert_eq!(e.summary.as_deref(), Some("3개"));
    assert_eq!(e.resp_meta, "모델 3개 · 캐시에서 반환 · 캐시 60초");
    assert!(e.raw.upstream.ends_with("\n\nraw"));
    let e = call.listed(stamp(), &models, false, "raw");
    assert_eq!(e.raw.upstream, "raw");
    assert_eq!(e.note, None);
    let e = call.failed(stamp(), &FabrixError::Quota("q".into()), "body");
    assert_eq!(e.status, 429);
    assert_eq!(e.resp_meta, "실패 · HTTP 429");
    assert_eq!(e.raw.upstream, "body");
}

#[test]
fn a_response_head_leaves_cookies_out() {
    let headers = vec![
        ("content-type".to_string(), "text/event-stream".to_string()),
        ("Set-Cookie".to_string(), "secret".to_string()),
        ("x-trace".to_string(), "7".to_string()),
    ];
    assert_eq!(
        response_head("HTTP/1.1 200 OK", &headers),
        "HTTP/1.1 200 OK\ncontent-type: text/event-stream\nx-trace: 7\n"
    );
}

#[test]
fn a_fingerprint_tells_models_apart() {
    let a = system_fingerprint("u1");
    assert!(a.starts_with("fp_"));
    assert_eq!(a.len(), 19);
    assert_eq!(a, system_fingerprint("u1"));
    assert_ne!(a, system_fingerprint("u2"));
}

// ── state ──

fn free(port: u16) -> PortStatus {
    PortStatus { port, free: true, owner: None, suggestion: None }
}

#[test]
fn a_snapshot_shows_the_state() {
    let cfg = Config { token_mode: false, issued_token: "sk-hidden".into(), ..Config::default() };
    let mut app = AppState::new(cfg, Stats::default(), true, "2025-01-01");
    assert_eq!(app.base_url(), format!("http://127.0.0.1:{DEFAULT_PORT}/v1"));
    assert_eq!(
        app.endpoint_to_copy().unwrap_err(),
        "프록시가 꺼져 있어 복사할 주소가 없습니다."
    );
    app.serving = Some(9000);
    assert_eq!(app.endpoint_to_copy().unwrap(), "http://127.0.0.1:9000/v1");
    for i in 0..6 {
        app.record(entry(&i.to_string(), Kind::Chat), "2025-01-01");
    }
    app.models_cache = Some(ModelsCache::fill(&gateway_models(), String::new(), 0, String::new()));
    let s = app.snapshot(free(9000), 59_999);
    assert!(s.running && s.first_run && !s.configured);
    assert_eq!(s.port, 9000);
    assert_eq!(s.issued_token, "");
    assert_eq!(s.stats.total, 6);
    assert_eq!(s.recent.len(), 4);
    assert_eq!(s.recent[0].id, "5");
    assert_eq!(s.model_count, Some(3));
    assert_eq!(app.snapshot(free(9000), 60_000).model_count, None);

    let tray = TrayTexts::of(&s);
    assert_eq!(tray.status, "● 프록시 실행 중");
    assert_eq!(tray.url, "http://127.0.0.1:9000/v1");
    assert!(tray.can_copy);
    app.serving = None;
    let tray = TrayTexts::of(&app.snapshot(free(8787), 0));
    assert_eq!(tray.status, "○ 프록시 꺼짐");
    assert_eq!(tray.url, "포트 8787");
    assert_eq!(tray.tooltip, "AI 프록시 · 꺼짐");
    assert!(!tray.can_copy);

    app.replace_config(Config { token_mode: true, issued_token: "sk-x".into(), ..Config::default() });
    let s = app.snapshot(free(8787), 0);
    assert!(!s.first_run);
    assert_eq!(s.model_count, None);
    assert_eq!(s.issued_token, "sk-x");
}

#[test]
fn figures_are_written_now_and_then() {
    let mut app = AppState::new(Config::default(), Stats::default(), false, "d");
    assert!(app.flush_due(false, 0));
    assert!(!app.flush_due(false, STATS_FLUSH_INTERVAL - 1));
    assert!(app.flush_due(true, 5));
    assert!(!app.flush_due(false, 5 + STATS_FLUSH_INTERVAL - 1));
    assert!(app.flush_due(false, 5 + STATS_FLUSH_INTERVAL));
}

#[test]
fn a_later_notice_stays() {
    let mut app = AppState::new(Config::default(), Stats::default(), false, "d");
    let first = app.show_notice();
    let second = app.show_notice();
    assert!(!app.may_hide_notice(first));
    assert!(app.may_hide_notice(second));
}

#[test]
fn rows_mark_the_default() {
    let models = build_aliases(&gateway_models());
    let rows = ModelRow::rows(&models, "fabrix-chat-4-2");
    assert_eq!(rows.iter().map(|r| r.is_default).collect::<Vec<_>>(), vec![false, true, false]);
    let cfg = with_default_model(Config::default(), "  fabrix-chat-4 ");
    assert_eq!(cfg.default_model_alias, "fabrix-chat-4");
    let cache = ModelsCache::fill(&gateway_models(), String::new(), 0, "noon".into());
    let list = model_list(&cache.load(false), &cfg);
    assert_eq!(list.cache_ttl_secs, 60);
    assert_eq!(list.fetched_at, "noon");
    assert!(list.models[0].is_default);
    assert!(!list.cached);
}

#[test]
fn a_connection_is_tried_with_complete_settings_only() {
    assert_eq!(
        trial_config("u".into(), " ".into(), "t".into()).unwrap_err(),
        "주소 · 인증키 · 토큰을 모두 입력하세요."
    );
    let cfg = trial_config("u".into(), "c".into(), "t".into()).unwrap();
    assert_eq!(cfg.port, DEFAULT_PORT);
    assert!(cfg.auto_start && cfg.tool_emulation && cfg.raw_wire_log);
    assert!(!cfg.token_mode && !cfg.image_stub_mode && !cfg.insecure_skip_verify);
    assert_eq!(cfg.default_model_alias, "");
    let out = test_result(&gateway_models(), &cfg);
    assert_eq!(out.model_count, 3);
    assert_eq!(out.models[2].alias, "fabrix-chat-4-3");
    assert!(must_restart(Some(1), 2));
    assert!(!must_restart(Some(2), 2));
    assert!(!must_restart(None, 2));
}
