use milter_separator::clock::{later, stamp_at};
use milter_separator::store::{next_step, start_storing, StoreAction};
use milter_separator::clock::current_time;
use milter_separator::db::{
    find_database, init_db, insert_download_record, plan_insert, Database, DownloadRecord,
    CREATE_TABLE_SQL,
};
use milter_separator::delivery::{
    begin_delivery, canonical_auth_mode, download_link, download_user, expiry, expiry_at, lifetime_hours,
    make_counter,
    make_first_rules, note_delivery, pack_attachments, plan_delivery, plan_note, to_signed,
};
use milter_separator::download::{
    extract_query_param, generate_download, make_token, AuthInfo, BasicConfig, GenerateConfig,
    GenerateRequest, TokenConfig,
};
use milter_separator::init::{default_config, Config, PasswordStrength};
use milter_separator::mailinfo::{mailinfo_text, read_mailinfo, SavedFile};
use milter_separator::parse::{Attachment, HandledMail};
use std::io::{Cursor, Read};

fn config(mode: &str) -> Config {
    let mut c = default_config();
    c.base_url = "https://d.example/".to_string();
    c.download_auth_mode = mode.to_string();
    c
}

fn mail() -> HandledMail {
    HandledMail {
        remote_host: "mx".to_string(),
        remote_ip: "192.0.2.7".to_string(),
        from: "ann".to_string(),
        to: "eve".to_string(),
        subject: "hi".to_string(),
        original_queue_id: Some("Q1".to_string()),
        attachments: vec![
            Attachment { name: "a.txt".to_string(), data: b"one".to_vec() },
            Attachment { name: "b.txt".to_string(), data: b"two".to_vec() },
        ],
    }
}

fn is_stamp(s: &str) -> bool {
    let b = s.as_bytes();
    b.len() == 26 && b[4] == b'-' && b[10] == b' ' && b[13] == b':' && b[19] == b' ' && b[23] == b':'
}

#[test]
fn modes_are_known() {
    assert_eq!(canonical_auth_mode("TOKEN"), "token");
    assert_eq!(canonical_auth_mode("Basic"), "basic");
    assert_eq!(canonical_auth_mode("minimal"), "minimal");
    assert_eq!(canonical_auth_mode("open"), "minimal");
}

#[test]
fn links_go_by_the_settings() {
    assert_eq!(download_link(&config("minimal"), "u"), "https://d.example/u");
    assert_eq!(download_link(&config("token"), "u"), "https://d.example/u");
    let mut c = config("Token");
    c.token_auth_key = Some("k".to_string());
    let token = make_token("k", "u", &Some("hmac-sha256".to_string()));
    assert_eq!(download_link(&c, "u"), format!("https://d.example/u?token={}", token));
    assert!(download_user(&c).is_none());
    let mut c = config("basic");
    c.basic_auth_user = Some("ann".to_string());
    let user = download_user(&c).unwrap();
    assert_eq!((user.username.as_str(), user.password.as_str()), ("ann", ""));
}

#[test]
fn requests_and_settings_agree() {
    for mode in ["minimal", "Token", "BASIC", "odd"] {
        let mut c = config(mode);
        c.token_auth_key = Some("k".to_string());
        c.token_auth_type = Some("hmac-sha512".to_string());
        c.basic_auth_password = Some("pw".to_string());
        let r = generate_download(&GenerateRequest {
            uuid: "u".to_string(),
            base_url: c.base_url.clone(),
            download_auth_mode: mode.to_string(),
            config: Some(GenerateConfig {
                basic: Some(BasicConfig {
                    basic_auth_user: None,
                    basic_auth_password: Some("pw".to_string()),
                }),
                token: Some(TokenConfig {
                    token_auth_key: Some("k".to_string()),
                    token_auth_type: Some("hmac-sha512".to_string()),
                }),
            }),
        });
        assert_eq!(r.download_url, download_link(&c, "u"));
        assert_eq!(
            r.auth_info.map(|a| (a.username, a.password)),
            download_user(&c).map(|a| (a.username, a.password))
        );
    }
}

#[test]
fn numbers_get_a_sign() {
    assert_eq!(to_signed(0), 0);
    assert_eq!(to_signed(168), 168);
    assert_eq!(to_signed(i64::MAX as u64), i64::MAX);
    assert_eq!(to_signed(i64::MAX as u64 + 1), i64::MIN);
    assert_eq!(to_signed(u64::MAX), -1);
}

#[test]
fn downloads_expire() {
    let now = current_time();
    assert!(is_stamp(&now));
    let week = expiry(168).unwrap();
    assert!(is_stamp(&week));
    assert!(week > now);
    let century = expiry(0).unwrap();
    let years: i32 = century[..4].parse::<i32>().unwrap() - now[..4].parse::<i32>().unwrap();
    assert!(years == 99 || years == 100);
    assert!(expiry(u64::MAX).unwrap() < now);
    assert!(expiry(2_000_000_000).is_some());
    assert!(expiry(2_100_000_000).is_some());
    assert!(expiry(4_600_000_001).is_none());
}

#[test]
fn expiry_is_counted_from_the_clock() {
    assert_eq!(lifetime_hours(168), 168);
    assert_eq!(lifetime_hours(0), 52 * 100 * 7 * 24);
    assert_eq!(lifetime_hours(u64::MAX), -1);
    assert_eq!(expiry_at(168, 0, 32_400).as_deref(), Some("1970-01-08 09:00:00 +09:00"));
    assert_eq!(expiry_at(1, 1_775_003_400, 0).as_deref(), Some("2026-04-01 01:30:00 +00:00"));
    assert_eq!(expiry_at(u64::MAX, 3600, -19_800).as_deref(), Some("1969-12-31 18:30:00 -05:30"));
    assert_eq!(later(8_210_266_876_799, 0), Some(8_210_266_876_799));
    assert_eq!(later(8_210_266_876_799 - 3599, 1), None);
    assert_eq!(later(-8_334_601_228_800, 0), Some(-8_334_601_228_800));
    assert_eq!(later(-8_334_601_228_801, 0), None);
    assert_eq!(later(0, i64::MAX), None);
    assert!(later(0, 2_280_629_687).is_some());
    assert_eq!(later(0, 2_280_629_688), None);
    assert_eq!(later(0, -2_315_167_008), Some(-8_334_601_228_800));
    assert_eq!(later(0, -2_315_167_009), None);
    assert!(later(8_210_266_876_799, -4_595_796_695).is_some());
    assert_eq!(later(8_210_266_876_799, -4_595_796_696), None);
    let last = stamp_at(8_210_266_876_799, 0, 86_399).unwrap();
    assert!(last.starts_with("+262143-"), "{}", last);
    assert_eq!(stamp_at(-8_334_601_228_800, 0, 0).unwrap(), "-262143-01-01 00:00:00 +00:00");
}

fn walk(outcomes: &[bool]) -> (Vec<StoreAction>, bool) {
    let mut state = start_storing(&mail());
    let mut actions = Vec::new();
    let mut i = 0;
    while state.action != StoreAction::Finish {
        actions.push(state.action);
        state = next_step(state, outcomes[i]);
        i += 1;
    }
    (actions, state.handled)
}

#[test]
fn messages_are_stored_step_by_step() {
    let all = [
        StoreAction::Save,
        StoreAction::WriteCounter,
        StoreAction::WriteRules,
        StoreAction::Record,
        StoreAction::Pack,
        StoreAction::WriteNote,
        StoreAction::WritePage,
        StoreAction::Remove,
    ];
    assert_eq!(walk(&[true; 8]), (all.to_vec(), true));
    assert_eq!(walk(&[false]), (all[..1].to_vec(), false));
    let (actions, handled) = walk(&[true, true, true, true, false, true, true]);
    assert_eq!((actions, handled), (all[..7].to_vec(), true));
    let (actions, _) = walk(&[true, false, false, false, true, false, true]);
    assert!(!actions.contains(&StoreAction::WritePage));
    assert_eq!(actions.last(), Some(&StoreAction::Remove));
    let mut bare = mail();
    bare.attachments.clear();
    let state = start_storing(&bare);
    assert_eq!(state.action, StoreAction::Finish);
    assert!(state.handled);
    assert_eq!(next_step(state, false), state);
}

#[test]
fn counters_are_filled() {
    let mut c = config("minimal");
    c.database_port = Some(3306);
    c.database_user = Some("me".to_string());
    let t = "{{db_type}}|{{db_path}}|{{db_host}}|{{db_port}}|{{db_user}}|{{db_password}}|{{db_name}}";
    assert_eq!(
        make_counter(&c, &Some(t.to_string())),
        "sqlite|/var/lib/milterseparator/db.sqlite3||3306|me||"
    );
    c.database_port = None;
    let built_in = make_counter(&c, &None);
    assert!(built_in.starts_with("<?php\n$uuid = $_GET[\"uuid\"] ?? \"\";\n"));
    assert!(built_in.contains("new PDO(\"sqlite:/var/lib/milterseparator/db.sqlite3\")"));
    assert!(built_in.contains("port=;dbname="));
    assert!(!built_in.contains("{{"));
}

#[test]
fn directories_have_rules_at_once() {
    let deny = "<Files \"mailinfo.txt\">\n    Require all denied\n</Files>\n";
    assert_eq!(make_first_rules(&config("token")), deny);
    assert_eq!(
        make_first_rules(&config("basic")),
        format!(
            "{}\nAuthType Basic\nAuthName \"MilterSeparator\"\nAuthUserFile .htpasswd\nRequire valid-user\n",
            deny
        )
    );
}

#[test]
fn deliveries_are_planned() {
    let mut c = config("basic");
    c.expire_hours = 12;
    c.basic_auth_user = Some("ann".to_string());
    let d = plan_delivery(&c, "u", "later", "pw", &Some("{{db_type}}".to_string()));
    assert_eq!(d.zip_name, "u.zip");
    assert_eq!(d.password, "pw");
    assert_eq!(d.counter, "sqlite");
    assert_eq!(d.record.uuid, "u");
    assert_eq!(d.record.expires_at, "later");
    assert_eq!(d.record.zip_password.as_deref(), Some("pw"));
    assert_eq!(d.record.url, "https://d.example/u");
    assert_eq!(d.record.auth_mode, "basic");
    assert_eq!(d.record.auth_info.as_ref().unwrap().username, "ann");
    assert_eq!(d.record.expire_hours, 12);
    assert_eq!(d.record.max_downloads, 5);
}

#[test]
fn deliveries_begin_with_chance() {
    let mut c = config("minimal");
    c.password_strength = PasswordStrength::High;
    let a = begin_delivery(&c, &None).unwrap();
    let b = begin_delivery(&c, &None).unwrap();
    assert_ne!(a.record.uuid, b.record.uuid);
    assert!(a.record.uuid < b.record.uuid);
    assert_eq!(a.record.uuid.len(), 36);
    assert_eq!(&a.record.uuid[14..15], "7");
    for i in [8, 13, 18, 23] {
        assert_eq!(&a.record.uuid[i..i + 1], "-");
    }
    assert_eq!(a.password.len(), 16);
    assert!(is_stamp(&a.record.expires_at));
    assert_eq!(a.record.url, format!("https://d.example/{}", a.record.uuid));
    c.expire_hours = 1 << 40;
    assert!(begin_delivery(&c, &None).is_none());
}

#[test]
fn notes_agree_with_records() {
    let mut c = config("token");
    c.token_auth_key = Some("k".to_string());
    let d = plan_delivery(&c, "u", "later", "pw", &None);
    let saved = vec![SavedFile { filename: "a.txt".to_string(), size: 3 }];
    let note = plan_note(&mail(), &d, &c, saved, Some(77), "now");
    assert_eq!(note.download.url, d.record.url);
    assert_eq!(note.download.auth_mode, d.record.auth_mode);
    assert_eq!(note.zip.as_ref().unwrap().password, "pw");
    assert_eq!(note.zip.as_ref().unwrap().file, "u.zip");
    assert_eq!(note.zip.as_ref().unwrap().size, 77);
    assert_eq!(note.original_queue_id.as_deref(), Some("Q1"));
    assert_eq!(note.generated_at, "now");
    let page = read_mailinfo(&mailinfo_text(&note).unwrap()).unwrap();
    assert_eq!(
        extract_query_param(&page.download_url, "token"),
        Some(make_token("k", "u", &c.token_auth_type))
    );
    let bare = note_delivery(&mail(), &d, &c, vec![], None);
    assert!(bare.zip.is_none());
    assert!(is_stamp(&bare.generated_at));
}

#[test]
fn attachments_are_packed() {
    let d = plan_delivery(&config("minimal"), "u", "later", "pw", &None);
    let bytes = pack_attachments(&mail(), &d).unwrap();
    let mut archive = zip::ZipArchive::new(Cursor::new(bytes)).unwrap();
    assert_eq!(archive.len(), 2);
    let mut data = String::new();
    let mut entry = archive.by_index_decrypt(1, b"pw").unwrap();
    assert_eq!(entry.name(), "b.txt");
    entry.read_to_string(&mut data).unwrap();
    assert_eq!(data, "two");
    let mut twice = mail();
    twice.attachments[1].name = "a.txt".to_string();
    assert!(pack_attachments(&twice, &d).is_err());
}

#[test]
fn databases_are_found() {
    let mut c = default_config();
    assert!(matches!(find_database(&c), Database::Sqlite(p) if p == "/var/lib/milterseparator/db.sqlite3"));
    c.database_path = None;
    assert!(matches!(find_database(&c), Database::NoFile));
    c.database_type = "mysql".to_string();
    assert!(matches!(find_database(&c), Database::Mysql(u) if u == "mysql://:@localhost:3306/"));
    c.database_host = Some("h".to_string());
    c.database_port = Some(1);
    c.database_user = Some("u".to_string());
    c.database_password = Some("p".to_string());
    c.database_name = Some("n".to_string());
    assert!(matches!(find_database(&c), Database::Mysql(u) if u == "mysql://u:p@h:1/n"));
    c.database_type = "postgres".to_string();
    assert!(matches!(find_database(&c), Database::Postgres(s) if s == "host=h port=1 user=u password=p dbname=n"));
    c.database_port = None;
    assert!(matches!(find_database(&c), Database::Postgres(s) if s == "host=h port=5432 user=u password=p dbname=n"));
    c.database_type = "Sqlite".to_string();
    assert!(matches!(find_database(&c), Database::Unknown));
}

#[test]
fn databases_are_prepared() {
    let mut c = default_config();
    let plan = init_db(&c);
    assert_eq!(plan.owner, "milter:apache");
    assert_eq!(plan.statements.len(), 2);
    assert_eq!(plan.statements[0], CREATE_TABLE_SQL);
    assert!(plan.statements[1].contains("AUTOINCREMENT"));
    c.database_type = "mysql".to_string();
    assert!(init_db(&c).statements[1].contains("DATETIME"));
    c.database_type = "postgres".to_string();
    assert!(init_db(&c).statements[1].contains("SERIAL"));
    c.database_type = "none".to_string();
    assert!(init_db(&c).statements.is_empty());
    c.database_type = "sqlite".to_string();
    c.database_path = None;
    assert!(init_db(&c).statements.is_empty());
}

fn record(user: Option<AuthInfo>) -> DownloadRecord {
    DownloadRecord {
        uuid: "u".to_string(),
        expires_at: "later".to_string(),
        zip_password: Some("pw".to_string()),
        url: "link".to_string(),
        auth_mode: "basic".to_string(),
        auth_info: user,
        expire_hours: 168,
        max_downloads: 5,
    }
}

#[test]
fn records_become_rows() {
    let mut c = default_config();
    let user = || Some(AuthInfo { username: "an\"n".to_string(), password: "p".to_string() });
    let plan = plan_insert(&c, &record(user()), "now");
    assert_eq!(plan.row.auth_info.as_deref(), Some("{\"password\":\"p\",\"username\":\"an\\\"n\"}"));
    assert_eq!(plan.row.created_at, "now");
    assert_eq!(plan_insert(&c, &record(None), "now").row.auth_info, None);
    c.database_type = "mysql".to_string();
    let plan = plan_insert(&c, &record(None), "now");
    assert_eq!(plan.row.auth_info.as_deref(), Some(""));
    assert!(plan.statement.unwrap().contains("ON DUPLICATE KEY UPDATE expires_at = VALUES(expires_at)"));
    c.database_type = "none".to_string();
    assert!(plan_insert(&c, &record(None), "now").statement.is_none());
    let plan = insert_download_record(&default_config(), &record(None));
    assert!(is_stamp(&plan.row.created_at));
    assert_eq!(plan.row.url, "link");
}

#[test]
fn a_known_download_only_gets_a_new_time() {
    let c = default_config();
    let db = rusqlite::Connection::open_in_memory().unwrap();
    for statement in init_db(&c).statements {
        db.execute_batch(statement).unwrap();
        db.execute_batch(statement).unwrap();
    }
    let mut r = record(None);
    for (time, link) in [("first", "link"), ("second", "other")] {
        r.expires_at = time.to_string();
        r.url = link.to_string();
        let plan = plan_insert(&c, &r, "now");
        let row = plan.row;
        db.execute(
            plan.statement.unwrap(),
            (
                row.uuid,
                row.expires_at,
                row.zip_password,
                row.url,
                row.auth_mode,
                row.auth_info,
                row.expire_hours,
                row.max_downloads,
                row.created_at,
            ),
        )
        .unwrap();
    }
    let (count, time, link): (i64, String, String) = db
        .query_row("SELECT count(*), expires_at, url FROM download_tbl", (), |row| {
            Ok((row.get(0)?, row.get(1)?, row.get(2)?))
        })
        .unwrap();
    assert_eq!((count, time.as_str(), link.as_str()), (1, "second", "link"));
}
