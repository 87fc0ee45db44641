use milter_separator::download::{
    extract_query_param, generate_download, make_token, AuthInfo, BasicConfig, GenerateConfig,
    GenerateRequest, TokenConfig,
};
use milter_separator::mailinfo::{
    mailinfo_text, read_mailinfo, DownloadMeta, MailInfo, PageInfo, SavedFile, ZipInfo,
};
use milter_separator::page::{
    default_template, fill_template, generate_token_js, html_escape, human_readable_size,
    make_zip_link, mask_password, plan_files, write_download_static_files, Filling,
};

fn request(mode: &str, config: Option<GenerateConfig>) -> GenerateRequest {
    GenerateRequest {
        uuid: "u1".to_string(),
        base_url: "https://d.example/get//".to_string(),
        download_auth_mode: mode.to_string(),
        config,
    }
}

fn token_config(key: Option<&str>, kind: Option<&str>) -> Option<GenerateConfig> {
    Some(GenerateConfig {
        basic: None,
        token: Some(TokenConfig {
            token_auth_key: key.map(str::to_string),
            token_auth_type: kind.map(str::to_string),
        }),
    })
}

#[test]
fn plain_links_are_made() {
    for mode in ["minimal", "MINIMAL", "other", "token"] {
        let r = generate_download(&request(mode, None));
        assert_eq!(r.download_url, "https://d.example/get/u1");
        assert!(r.auth_info.is_none());
    }
    let r = generate_download(&request("token", token_config(None, None)));
    assert_eq!(r.download_url, "https://d.example/get/u1");
}

#[test]
fn users_are_named() {
    let config = Some(GenerateConfig {
        basic: Some(BasicConfig {
            basic_auth_user: Some("ann".to_string()),
            basic_auth_password: None,
        }),
        token: None,
    });
    let r = generate_download(&request("Basic", config));
    assert_eq!(r.download_url, "https://d.example/get/u1");
    let user = r.auth_info.unwrap();
    assert_eq!(user.username, "ann");
    assert_eq!(user.password, "");
    let user = generate_download(&request("basic", None)).auth_info.unwrap();
    assert_eq!(user.username, "");
}

#[test]
fn tokens_are_keyed_hashes() {
    // The keyed hashes of a well-known message under a well-known key.
    let message = "The quick brown fox jumps over the lazy dog";
    let short = make_token("key", message, &None);
    assert_eq!(short, "97yD9DBThCSxMpjmqm-xQ-9NWaFJRhdZl0edvC0aPNg");
    assert_eq!(make_token("key", message, &Some("HMAC-SHA256".to_string())), short);
    assert_eq!(make_token("key", message, &Some("unknown".to_string())), short);
    let long = make_token("key", message, &Some("hmac-SHA512".to_string()));
    assert_eq!(
        long,
        "tCrwkFe6weLUFwjkipAuCbX_fxKrQopP6GZTxz3SSPuC-UilSfe3kaW0GRXuTR7Dk1NX5OIxclDQNyr6Lr7rOg"
    );
}

#[test]
fn tokens_are_found_again() {
    let r = generate_download(&request("Token", token_config(Some("k"), None)));
    let token = make_token("k", "u1", &None);
    assert_eq!(r.download_url, format!("https://d.example/get/u1?token={}", token));
    assert_eq!(extract_query_param(&r.download_url, "token"), Some(token));
}

#[test]
fn query_parameters_are_found() {
    let get = |url: &str| extract_query_param(url, "token");
    assert_eq!(get("http://x/y"), None);
    assert_eq!(get("http://x/y?"), None);
    assert_eq!(get("http://x/y?a=1&token=2=3&token=4"), Some("2=3".to_string()));
    assert_eq!(get("http://x/y?token"), Some(String::new()));
    assert_eq!(get("http://x/y?token="), Some(String::new()));
    assert_eq!(get("?x=token=1"), None);
    assert_eq!(extract_query_param("?=v", ""), Some("v".to_string()));
}

#[test]
fn html_is_escaped() {
    let s = "<b>&amp;\"'日";
    let expected = s.replace('&', "&amp;").replace('<', "&lt;").replace('>', "&gt;");
    assert_eq!(html_escape(s), expected);
    assert_eq!(html_escape("a<b>&c"), "a&lt;b&gt;&amp;c");
}

fn by_floats(n: u64) -> String {
    let units = ["B", "KB", "MB", "GB", "TB"];
    let mut size = n as f64;
    let mut i = 0;
    while size >= 1024.0 && i < 4 {
        size /= 1024.0;
        i += 1;
    }
    if i == 0 {
        format!("{} {}", n, units[i])
    } else {
        format!("{:.1} {}", size, units[i])
    }
}

#[test]
fn sizes_are_readable() {
    assert_eq!(human_readable_size(0), "0 B");
    assert_eq!(human_readable_size(1023), "1023 B");
    assert_eq!(human_readable_size(1024), "1.0 KB");
    assert_eq!(human_readable_size(1536), "1.5 KB");
    assert_eq!(human_readable_size(1024 * 1024 - 1), "1024.0 KB");
    assert_eq!(human_readable_size(u64::MAX), "16777216.0 TB");
    let mut cases: Vec<u64> = Vec::new();
    for shift in 0..64 {
        let n = 1u64 << shift;
        for d in 0..40 {
            cases.push(n.wrapping_add(d * 13));
            cases.push(n.wrapping_sub(d * 7));
            cases.push((n / 20).wrapping_mul(d));
        }
    }
    // Halves of a tenth, where the even digit counts.
    for k in 1..2000u64 {
        cases.push(1024 + k * 256 / 5);
        cases.push(k * 1024 + 256);
        cases.push(k * 1024 + 768);
        cases.push((1 << 62) + (2 * k + 1) * (1 << 38));
        cases.push((1 << 62) + (2 * k + 1) * (1 << 38) + 100);
        cases.push((1 << 62) + (2 * k + 1) * (1 << 38) - 100);
    }
    let mut x: u64 = 88172645463325252;
    for _ in 0..20000 {
        x ^= x << 13;
        x ^= x >> 7;
        x ^= x << 17;
        cases.push(x);
        cases.push(x >> (x % 50));
    }
    for n in cases {
        assert_eq!(human_readable_size(n), by_floats(n), "{}", n);
    }
}

#[test]
fn links_to_archives_are_made() {
    assert_eq!(make_zip_link("", "a.zip"), "a.zip");
    assert_eq!(make_zip_link("http://x/u?token=1", "a.zip"), "http://x/u/a.zip");
    assert_eq!(make_zip_link("http://x/u/", "a.zip"), "http://x/u/a.zip");
    assert_eq!(make_zip_link("?q", "a.zip"), "/a.zip");
}

#[test]
fn passwords_are_hidden() {
    assert_eq!(mask_password(""), "");
    assert_eq!(mask_password("ab"), "••••••");
    assert_eq!(mask_password("abcdefgh"), "••••••••");
}

#[test]
fn templates_are_filled_in_order() {
    let fillings = vec![
        Filling { mark: "{{a}}", text: "{{b}}".to_string() },
        Filling { mark: "{{b}}", text: "2".to_string() },
        Filling { mark: "{{a}}", text: "3".to_string() },
    ];
    assert_eq!(fill_template("{{a}}-{{b}}-{{c}}", &fillings), "2-2-{{c}}");
}

#[test]
fn token_scripts_hold_the_token() {
    let js = generate_token_js("T0K");
    assert!(js.starts_with("(function(){\n    function getQueryParam(name){\n"));
    assert!(js.contains("    const expected = 'T0K';\n"));
    assert!(js.ends_with("})();"));
}

fn info(mode: &str, user: Option<AuthInfo>) -> MailInfo {
    MailInfo {
        from: "Ann <ann@example.com>".to_string(),
        to: "eve@example.com".to_string(),
        subject: "\"in<voice\n日".to_string(),
        attachments: vec![
            SavedFile { filename: "a.pdf".to_string(), size: 2048 },
            SavedFile { filename: "b&c".to_string(), size: 10 },
        ],
        zip: Some(ZipInfo { file: "u.zip".to_string(), password: "p<w".to_string(), size: 1536 }),
        download: DownloadMeta {
            url: "https://d.example/u?token=T".to_string(),
            auth_mode: mode.to_string(),
            auth_info: user,
            max_downloads: 5,
            expire_hours: 168,
        },
        generated_at: "2026-04-01 09:30:00 +09:00".to_string(),
        original_queue_id: None,
    }
}

fn user() -> Option<AuthInfo> {
    Some(AuthInfo { username: "ann".to_string(), password: "secret".to_string() })
}

#[test]
fn notes_are_read_back() {
    let text = mailinfo_text(&info("basic", user())).unwrap();
    assert!(text.starts_with("{\n  \"attachments\": [\n    {\n      \"filename\": \"a.pdf\",\n      \"size\": 2048\n    },"));
    assert!(text.contains("\"original_queue_id\": null"));
    assert!(text.contains("\"download_count\": 0,\n    \"expires_at\": null"));
    let page = read_mailinfo(&text).unwrap();
    assert_eq!(page.from, "Ann <ann@example.com>");
    assert_eq!(page.subject, "\"in<voice\n日");
    assert_eq!(page.zip_file, "u.zip");
    assert_eq!(page.zip_password, "p<w");
    assert_eq!(page.zip_size, 1536);
    assert_eq!(page.download_url, "https://d.example/u?token=T");
    assert_eq!(page.auth_mode, "basic");
    let u = page.auth_info.unwrap();
    assert_eq!((u.username.as_str(), u.password.as_str()), ("ann", "secret"));
    let files = page.attachments.unwrap();
    assert_eq!(files.len(), 2);
    assert_eq!(files[1].filename, "b&c");
    assert_eq!(files[1].size, 10);
    assert_eq!(page.generated_at, "2026-04-01 09:30:00 +09:00");
}

#[test]
fn notes_may_lack_anything() {
    let page = read_mailinfo("{}").unwrap();
    assert_eq!(page.subject, "");
    assert_eq!(page.auth_mode, "minimal");
    assert!(page.auth_info.is_none());
    assert!(page.attachments.is_none());
    let page = read_mailinfo("{\"download\":{\"auth_info\":null},\"zip\":null,\"subject\":3,\"attachments\":[1,{\"size\":-1}]}").unwrap();
    let u = page.auth_info.unwrap();
    assert_eq!((u.username.as_str(), u.password.as_str()), ("", ""));
    let files = page.attachments.unwrap();
    assert_eq!((files[0].filename.as_str(), files[0].size), ("", 0));
    assert_eq!(files[1].size, 0);
}

#[test]
fn other_texts_are_no_notes() {
    let e = read_mailinfo("{").err().unwrap();
    assert!(e.starts_with("parse mailinfo json error: "));
    assert!(e.contains("EOF"));
    let e = write_download_static_files("nothing", &None, "/s/u", "count.cgi").err().unwrap();
    assert!(e.starts_with("parse mailinfo json error: "));
}

const DENY: &str = "<Files \"mailinfo.txt\">\n  Require all denied\n</Files>\n<Files \".htpasswd\">\n  Require all denied\n</Files>\n";

#[test]
fn files_are_planned_for_a_user() {
    let text = mailinfo_text(&info("Basic", user())).unwrap();
    let plan = write_download_static_files(&text, &None, "/s/u", "count.cgi").unwrap();
    assert!(plan.error.is_none());
    let names: Vec<&str> = plan.writes.iter().map(|w| w.name).collect();
    assert_eq!(names, vec![".htaccess", ".htpasswd", "download.html"]);
    assert_eq!(
        plan.writes[0].text,
        format!(
            "AuthType Basic\nAuthName \"MilterSeparator\"\nAuthUserFile /s/u/.htpasswd\nRequire valid-user\n\n{}",
            DENY
        )
    );
    let line = &plan.writes[1].text;
    assert!(line.starts_with("ann:$2b$12$"));
    let hash = line.strip_prefix("ann:").unwrap().strip_suffix('\n').unwrap();
    assert_eq!(hash.len(), 60);
    assert!(bcrypt::verify("secret", hash).unwrap());
    assert!(!bcrypt::verify("other", hash).unwrap());
}

#[test]
fn notes_without_a_user_are_not_served_either() {
    let note = "{\"download\": {\"auth_mode\": \"basic\"}, \"zip\": {\"password\": \"p\"}}";
    let plan = write_download_static_files(note, &None, "/s/u", "count.cgi").unwrap();
    let names: Vec<&str> = plan.writes.iter().map(|w| w.name).collect();
    assert_eq!(names, vec![".htaccess", "download.html"]);
    assert_eq!(plan.writes[0].text, DENY);
}

#[test]
fn escapes_can_be_undone() {
    for s in ["a<b>&c", "&lt;", "&amp;lt;", "<<&&>>", "\"quoted\" 'text'", ""] {
        let x = html_escape(s);
        assert!(!x.contains('<') && !x.contains('>'));
        assert_eq!(x.replace("&lt;", "<").replace("&gt;", ">").replace("&amp;", "&"), s);
    }
    assert_eq!(html_escape("&lt;"), "&amp;lt;");
    assert_eq!(html_escape("\"'"), "\"'");
}

#[test]
fn files_are_planned_for_a_token() {
    let text = mailinfo_text(&info("token", None)).unwrap();
    let plan = write_download_static_files(&text, &Some("<{{zip_url}}|{{uuid}}|{{basic_auth_user}}>".to_string()), "/s/u/", "c.cgi").unwrap();
    let names: Vec<&str> = plan.writes.iter().map(|w| w.name).collect();
    assert_eq!(names, vec![".htaccess", "token.js", "download.html"]);
    assert_eq!(plan.writes[0].text, DENY);
    assert_eq!(plan.writes[1].text, generate_token_js("T"));
    assert_eq!(
        plan.writes[2].text,
        "<https://d.example/u/u.zip|u|><script>function downloadZip(){fetch('c.cgi?uuid=u').finally(()=>{window.location.href='https://d.example/u/u.zip';});}</script>"
    );
}

#[test]
fn pages_show_everything() {
    let text = mailinfo_text(&info("minimal", None)).unwrap();
    let template = "{{subject}}|{{from}}|{{to}}|{{zip_file}}|{{zip_password_masked}}|{{zip_password}}|{{download_url}}|{{attachments}}|{{generated_at}}|{{zip_size}}|{{basic_auth_password}}|";
    let plan = write_download_static_files(&text, &Some(template.to_string()), "/s/u", "c").unwrap();
    let html = &plan.writes[1].text;
    assert!(html.starts_with(
        "\"in&lt;voice\n日|Ann &lt;ann@example.com&gt;|eve@example.com|u.zip|••••••|p&lt;w|https://d.example/u?token=T|<ul>\n  <li>a.pdf (2.0 KB)</li>\n  <li>b&amp;c (10 B)</li>\n</ul>\n|2026-04-01 09:30:00 +09:00|1.5 KB||<script>"
    ));
    let plan = write_download_static_files(&text, &None, "/s/u", "c").unwrap();
    assert!(plan.writes[1].text.contains("<h1>\"in&lt;voice\n日</h1>"));
    assert!(default_template().contains("{{attachments}}"));
}

fn page(mode: &str, user: Option<AuthInfo>) -> PageInfo {
    PageInfo {
        subject: String::new(),
        from: String::new(),
        to: String::new(),
        zip_file: String::new(),
        zip_password: String::new(),
        zip_size: 0,
        download_url: String::new(),
        auth_mode: mode.to_string(),
        auth_info: user,
        attachments: None,
        generated_at: String::new(),
    }
}

#[test]
fn nothing_more_is_written_without_a_hash() {
    let failed = Err("no salt".to_string());
    let plan = plan_files(&page("basic", user()), "", "/s/u", "c", &failed);
    assert_eq!(plan.error.as_deref(), Some("bcrypt hash error: no salt"));
    assert_eq!(plan.writes.len(), 1);
    let plan = plan_files(&page("basic", None), "t", "/s/u", "c", &failed);
    assert_eq!(plan.writes.len(), 2);
    assert_eq!(plan.writes[0].text, DENY);
    assert_eq!(plan.writes[1].name, "download.html");
    let plan = plan_files(&page("token", None), "t", "/s/u", "c", &failed);
    assert!(plan.error.is_none());
    assert_eq!(plan.writes[1].text, generate_token_js(""));
}
