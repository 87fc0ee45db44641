use milter_separator::clock::log_time_at;
use milter_separator::init::{
    config_path, default_config, is_config_file, list_includes, load_config, Config, ConfigReader,
    ConfigSource, DeleteMode, PasswordStrength,
};
use milter_separator::logging::{
    get_global_config, log_level_name, log_line, log_line_at, log_target, set_global_config, LogTarget,
};

fn source(text: &str, included: Vec<Vec<ConfigSource>>) -> ConfigSource {
    ConfigSource { text: text.to_string(), included }
}

fn config_from_text(text: &str) -> Config {
    load_config(&source(text, vec![]))
}

#[test]
fn settings_have_defaults() {
    let c = default_config();
    assert_eq!(c.address, "[::]:8895");
    assert_eq!(c.client_timeout, 30);
    assert_eq!(c.log_file, None);
    assert_eq!(c.log_level, 0);
    assert_eq!(c.remote_ip_target, 0);
    assert_eq!(c.password_strength, PasswordStrength::Medium);
    assert_eq!(c.max_downloads, 5);
    assert_eq!(c.expire_hours, 168);
    assert_eq!(c.download_auth_mode, "minimal");
    assert_eq!(c.token_auth_type.as_deref(), Some("hmac-sha256"));
    assert_eq!(c.delete_mode, DeleteMode::Delete);
    assert_eq!(c.storage_path, "/var/lib/milterseparator");
    assert_eq!(c.database_type, "sqlite");
    assert_eq!(c.database_path.as_deref(), Some("/var/lib/milterseparator/db.sqlite3"));
    assert_eq!(c.counter_cgi, "count.cgi");
    assert_eq!(c.milter_user, "milter");
    assert_eq!(c.milter_group, "apache");
    assert!(!c.remove_attachments_from_body);
    assert_eq!(PasswordStrength::default(), PasswordStrength::Medium);
    assert_eq!(DeleteMode::default(), DeleteMode::Delete);
}

#[test]
fn settings_are_read() {
    let text = "# comment\n\nListen 9000\nClient_timeout\t15\nLog_level DEBUG\n\
                RemoteIP_Target 7\npassword_strength High\nmax_downloads 9\nexpire_hours 0\n\
                delete_mode Script\ndelete_script_path /bin/x\nbase_url https://d.example/\n\
                Database_Type MySQL\nDatabase_Port 3307\nInsert_Download_Info_Position_head yes\n\
                Remove_Attachments_From_Body no\nbasic_auth_user  someone \n";
    let c = config_from_text(text);
    assert_eq!(c.address, "[::]:9000");
    assert_eq!(c.client_timeout, 15);
    assert_eq!(c.log_level, 8);
    assert_eq!(c.remote_ip_target, 2);
    assert_eq!(c.password_strength, PasswordStrength::High);
    assert_eq!(c.max_downloads, 9);
    assert_eq!(c.expire_hours, 0);
    assert_eq!(c.delete_mode, DeleteMode::Script);
    assert_eq!(c.delete_script_path.as_deref(), Some("/bin/x"));
    assert_eq!(c.base_url, "https://d.example/");
    assert_eq!(c.database_type, "mysql");
    assert_eq!(c.database_port, Some(3307));
    assert!(c.insert_download_info_head);
    assert!(!c.remove_attachments_from_body);
    assert_eq!(c.basic_auth_user.as_deref(), Some("someone"));
}

#[test]
fn bad_values_change_nothing() {
    let c = config_from_text(
        "Listen here\nClient_timeout -1\nmax_downloads many\npassword_strength strong\n\
         delete_mode burn\nDatabase_Port 70000\nRemoteIP_Target x\nLog_level loud\nUnknown 5\n",
    );
    assert_eq!(c.address, "[::]:8895");
    assert_eq!(c.client_timeout, 30);
    assert_eq!(c.max_downloads, 5);
    assert_eq!(c.password_strength, PasswordStrength::Medium);
    assert_eq!(c.delete_mode, DeleteMode::Delete);
    assert_eq!(c.database_port, None);
    assert_eq!(c.remote_ip_target, 0);
    assert_eq!(c.log_level, 0);
}

#[test]
fn the_last_value_counts() {
    let c = config_from_text("max_downloads 1\nmax_downloads 2\n");
    assert_eq!(c.max_downloads, 2);
    assert_eq!(config_from_text("RemoteIP_Target -4\n").remote_ip_target, 0);
}

#[test]
fn values_go_on_over_lines() {
    let c = config_from_text("storage_path /a\n  # note\n  b c\n\nbase_url x\nListen 127.0.0.1:80\n");
    assert_eq!(c.storage_path, "/a b c");
    assert_eq!(c.base_url, "x");
    assert_eq!(c.address, "127.0.0.1:80");
}

#[test]
fn directories_are_handed_out() {
    let mut c = default_config();
    let mut reader = ConfigReader::new("max_downloads 1\ninclude /etc/a, /etc/b\n/etc/c\nexpire_hours 3\n");
    assert_eq!(
        reader.read_on(&mut c),
        Some(vec!["/etc/a".to_string(), "/etc/b".to_string(), "/etc/c".to_string()])
    );
    assert_eq!(c.max_downloads, 1);
    assert_eq!(c.expire_hours, 168);
    let mut sub = ConfigReader::new("max_downloads 8\n");
    assert_eq!(sub.read_on(&mut c), None);
    assert_eq!(reader.read_on(&mut c), None);
    assert_eq!(c.max_downloads, 8);
    assert_eq!(c.expire_hours, 3);
}

#[test]
fn the_path_of_the_configuration_is_found() {
    let args = |list: &[&str]| list.iter().map(|s| s.to_string()).collect::<Vec<String>>();
    assert_eq!(config_path(&args(&[])), "/etc/MilterSeparator.conf");
    assert_eq!(config_path(&args(&["-f", "a.conf"])), "a.conf");
    assert_eq!(config_path(&args(&["-f", "a.conf", "x", "-f", "b.conf"])), "b.conf");
    assert_eq!(config_path(&args(&["-f", "a.conf", "-f"])), "a.conf");
    assert_eq!(config_path(&args(&["-f", "-f", "c.conf"])), "-f");
}

#[test]
fn only_the_first_global_config_counts() {
    let mut slot = None;
    assert!(get_global_config(&slot).is_none());
    set_global_config(&mut slot, 1);
    set_global_config(&mut slot, 2);
    assert_eq!(get_global_config(&slot), Some(&1));
}

#[test]
fn the_log_goes_by_its_level() {
    let mut c = default_config();
    assert!(matches!(log_target(0, Some(&c)), LogTarget::Stdout));
    assert!(matches!(log_target(2, Some(&c)), LogTarget::Nowhere));
    c.log_level = 8;
    c.log_file = Some("/tmp/log".to_string());
    match log_target(8, Some(&c)) {
        LogTarget::File(path) => assert_eq!(path, "/tmp/log"),
        _ => panic!(),
    }
    assert!(matches!(log_target(0, None), LogTarget::Stdout));
    assert!(matches!(log_target(2, None), LogTarget::Nowhere));
    assert_eq!(log_level_name(0), "info");
    assert_eq!(log_level_name(2), "trace");
    assert_eq!(log_level_name(8), "debug");
    assert_eq!(log_level_name(5), "unknown(5)");
}

#[test]
fn log_lines_start_with_the_time() {
    let line = log_line("hello");
    assert_eq!(line.len(), "[2026/04/01 09:30:00] hello".len());
    assert!(line.starts_with('['));
    assert!(line.ends_with("] hello"));
    assert_eq!(&line[5..6], "/");
    assert_eq!(&line[11..12], " ");
    assert_eq!(&line[14..15], ":");
}

#[test]
fn included_files_are_read_where_they_stand() {
    let text = "max_downloads 1\ninclude /a, /b\nexpire_hours 3\ninclude /c\nbase_url last\n";
    assert_eq!(
        list_includes(text),
        vec![vec!["/a".to_string(), "/b".to_string()], vec!["/c".to_string()]]
    );
    let inner = source("include /d\nstorage_path two\n", vec![vec![source("storage_path one\nexpire_hours 9\n", vec![])]]);
    let c = load_config(&source(
        text,
        vec![
            vec![inner, source("max_downloads 8\nbase_url first\n", vec![])],
            vec![source("expire_hours 4\nbase_url second\n", vec![])],
        ],
    ));
    assert_eq!(c.max_downloads, 8);
    assert_eq!(c.expire_hours, 4);
    assert_eq!(c.base_url, "last");
    assert_eq!(c.storage_path, "two");
    let unused = load_config(&source("max_downloads 1\n", vec![vec![source("max_downloads 2\n", vec![])]]));
    assert_eq!(unused.max_downloads, 1);
}

#[test]
fn configuration_files_have_an_extension() {
    assert!(is_config_file("Parameter.conf"));
    assert!(is_config_file("a.b.conf"));
    assert!(!is_config_file(".conf"));
    assert!(!is_config_file("Parameter.conf.sample"));
    assert!(!is_config_file("conf"));
    assert!(!is_config_file("a.CONF"));
    assert!(!is_config_file("a."));
    assert!(!is_config_file(""));
}

#[test]
fn log_lines_are_in_the_time_of_japan() {
    assert_eq!(log_time_at(0), "[1970/01/01 09:00:00]");
    assert_eq!(log_time_at(1_775_003_400), "[2026/04/01 09:30:00]");
    assert_eq!(log_line_at("[t]", "hello"), "[t] hello");
}
