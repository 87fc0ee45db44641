//! The configuration file: its format and the settings that it holds.
use crate::names::last_dot;
use crate::text::{
    chars_start_with, chars_to_i64, chars_to_u64, decimal, find_char, from_chars, is_blank, is_space,
    is_text, law_decimal_read_back, law_trimmed_text_is_kept, lines, lower,
    lower_chars, opt_view, parse_i64, parse_unsigned, position, same_text, split, split_chars,
    split_lines, starts_with, str_views, to_chars, trim, trim_chars, views,
};
use vstd::prelude::*;
use vstd::slice::slice_subrange;

verus! {

/// Level of messages about normal operation.
pub const LOG_INFO: u8 = 0;

/// Level of messages that trace the handling of a message.
pub const LOG_TRACE: u8 = 2;

/// Level of messages that show the data handled.
pub const LOG_DEBUG: u8 = 8;

/// Strength of the password of an archive.
#[derive(Debug, Clone, Copy, PartialEq, Eq, Structural)]
pub enum PasswordStrength {
    Low,
    Medium,
    High,
}

impl Default for PasswordStrength {
    fn default() -> (r: Self)
        ensures
            r == PasswordStrength::Medium,
    {
        PasswordStrength::Medium
    }
}

/// How expired downloads are deleted.
#[derive(Debug, Clone, Copy, PartialEq, Eq, Structural)]
pub enum DeleteMode {
    Delete,
    Script,
}

impl Default for DeleteMode {
    fn default() -> (r: Self)
        ensures
            r == DeleteMode::Delete,
    {
        DeleteMode::Delete
    }
}

/// The settings of the filter.
#[derive(Debug, Clone)]
pub struct Config {
    /// Address that the filter listens on.
    pub address: String,
    /// Seconds without traffic after which a client is dropped.
    pub client_timeout: u64,
    /// File that the log is appended to; standard output if there is none.
    pub log_file: Option<String>,
    /// Highest level that is logged.
    pub log_level: u8,
    /// Which mail is handled: 0 from outside, 1 from this host, 2 all.
    pub remote_ip_target: u8,
    /// Strength of the archive password.
    pub password_strength: PasswordStrength,
    /// How often an archive may be downloaded.
    pub max_downloads: u32,
    /// Hours after which a download expires; 0 for a download that is kept.
    pub expire_hours: u64,
    /// How a download is protected: minimal, token or basic.
    pub download_auth_mode: String,
    /// User of the basic mode.
    pub basic_auth_user: Option<String>,
    /// Password of the basic mode.
    pub basic_auth_password: Option<String>,
    /// Key of the token mode.
    pub token_auth_key: Option<String>,
    /// Algorithm of the token mode.
    pub token_auth_type: Option<String>,
    /// How expired downloads are deleted.
    pub delete_mode: DeleteMode,
    /// Script of the script deletion mode.
    pub delete_script_path: Option<String>,
    /// Directory under which the attachments are stored.
    pub storage_path: String,
    /// URL that download links start with.
    pub base_url: String,
    /// Kind of the database: sqlite, mysql or postgres.
    pub database_type: String,
    /// File of an SQLite database.
    pub database_path: Option<String>,
    /// Host of the database server.
    pub database_host: Option<String>,
    /// Port of the database server.
    pub database_port: Option<u16>,
    /// User of the database.
    pub database_user: Option<String>,
    /// Password of the database.
    pub database_password: Option<String>,
    /// Name of the database.
    pub database_name: Option<String>,
    /// File name of the download counter.
    pub counter_cgi: String,
    /// User that owns the stored files.
    pub milter_user: String,
    /// Group that owns the stored files.
    pub milter_group: String,
    /// Whether attachments are taken out of the message body.
    pub remove_attachments_from_body: bool,
    /// Whether the download notice is put before the first text part.
    pub insert_download_info_head: bool,
    /// Whether the download notice is put after the first text part.
    pub insert_download_info_tail: bool,
    /// Whether the download notice is added as a text part of its own.
    pub add_download_info_as_new_text_part: bool,
}

/// The settings of the filter, as plain values.
pub struct ConfigView {
    pub address: Seq<char>,
    pub client_timeout: u64,
    pub log_file: Option<Seq<char>>,
    pub log_level: u8,
    pub remote_ip_target: u8,
    pub password_strength: PasswordStrength,
    pub max_downloads: u32,
    pub expire_hours: u64,
    pub download_auth_mode: Seq<char>,
    pub basic_auth_user: Option<Seq<char>>,
    pub basic_auth_password: Option<Seq<char>>,
    pub token_auth_key: Option<Seq<char>>,
    pub token_auth_type: Option<Seq<char>>,
    pub delete_mode: DeleteMode,
    pub delete_script_path: Option<Seq<char>>,
    pub storage_path: Seq<char>,
    pub base_url: Seq<char>,
    pub database_type: Seq<char>,
    pub database_path: Option<Seq<char>>,
    pub database_host: Option<Seq<char>>,
    pub database_port: Option<u16>,
    pub database_user: Option<Seq<char>>,
    pub database_password: Option<Seq<char>>,
    pub database_name: Option<Seq<char>>,
    pub counter_cgi: Seq<char>,
    pub milter_user: Seq<char>,
    pub milter_group: Seq<char>,
    pub remove_attachments_from_body: bool,
    pub insert_download_info_head: bool,
    pub insert_download_info_tail: bool,
    pub add_download_info_as_new_text_part: bool,
}

impl View for Config {
    type V = ConfigView;

    open spec fn view(&self) -> ConfigView {
        ConfigView {
            address: self.address@,
            client_timeout: self.client_timeout,
            log_file: opt_view(self.log_file),
            log_level: self.log_level,
            remote_ip_target: self.remote_ip_target,
            password_strength: self.password_strength,
            max_downloads: self.max_downloads,
            expire_hours: self.expire_hours,
            download_auth_mode: self.download_auth_mode@,
            basic_auth_user: opt_view(self.basic_auth_user),
            basic_auth_password: opt_view(self.basic_auth_password),
            token_auth_key: opt_view(self.token_auth_key),
            token_auth_type: opt_view(self.token_auth_type),
            delete_mode: self.delete_mode,
            delete_script_path: opt_view(self.delete_script_path),
            storage_path: self.storage_path@,
            base_url: self.base_url@,
            database_type: self.database_type@,
            database_path: opt_view(self.database_path),
            database_host: opt_view(self.database_host),
            database_port: self.database_port,
            database_user: opt_view(self.database_user),
            database_password: opt_view(self.database_password),
            database_name: opt_view(self.database_name),
            counter_cgi: self.counter_cgi@,
            milter_user: self.milter_user@,
            milter_group: self.milter_group@,
            remove_attachments_from_body: self.remove_attachments_from_body,
            insert_download_info_head: self.insert_download_info_head,
            insert_download_info_tail: self.insert_download_info_tail,
            add_download_info_as_new_text_part: self.add_download_info_as_new_text_part,
        }
    }
}

/// The settings that hold where the configuration says nothing.
pub open spec fn default_settings() -> ConfigView {
    ConfigView {
        address: "[::]:8895"@,
        client_timeout: 30,
        log_file: None,
        log_level: LOG_INFO,
        remote_ip_target: 0,
        password_strength: PasswordStrength::Medium,
        max_downloads: 5,
        expire_hours: 168,
        download_auth_mode: "minimal"@,
        basic_auth_user: None,
        basic_auth_password: None,
        token_auth_key: None,
        token_auth_type: Some("hmac-sha256"@),
        delete_mode: DeleteMode::Delete,
        delete_script_path: None,
        storage_path: "/var/lib/milterseparator"@,
        base_url: "http://localhost"@,
        database_type: "sqlite"@,
        database_path: Some("/var/lib/milterseparator/db.sqlite3"@),
        database_host: None,
        database_port: None,
        database_user: None,
        database_password: None,
        database_name: None,
        counter_cgi: "count.cgi"@,
        milter_user: "milter"@,
        milter_group: "apache"@,
        remove_attachments_from_body: false,
        insert_download_info_head: false,
        insert_download_info_tail: false,
        add_download_info_as_new_text_part: false,
    }
}

/// The settings that hold where the configuration says nothing.
pub fn default_config() -> (r: Config)
    ensures
        r@ == default_settings(),
        r.address@ == "[::]:8895"@ && r.client_timeout == 30,
        r.log_file is None && r.log_level == LOG_INFO && r.remote_ip_target == 0,
        r.password_strength is Medium && r.max_downloads == 5 && r.expire_hours == 168,
        r.download_auth_mode@ == "minimal"@,
        r.basic_auth_user is None && r.basic_auth_password is None && r.token_auth_key is None,
        opt_view(r.token_auth_type) == Some("hmac-sha256"@),
        r.delete_mode is Delete && r.delete_script_path is None,
        r.storage_path@ == "/var/lib/milterseparator"@ && r.base_url@ == "http://localhost"@,
        r.database_type@ == "sqlite"@,
        opt_view(r.database_path) == Some("/var/lib/milterseparator/db.sqlite3"@),
        r.database_host is None && r.database_port is None && r.database_user is None,
        r.database_password is None && r.database_name is None,
        r.counter_cgi@ == "count.cgi"@,
        r.milter_user@ == "milter"@ && r.milter_group@ == "apache"@,
        !r.remove_attachments_from_body && !r.insert_download_info_head,
        !r.insert_download_info_tail && !r.add_download_info_as_new_text_part,
{
    Config {
        address: "[::]:8895".to_owned(),
        client_timeout: 30,
        log_file: None,
        log_level: LOG_INFO,
        remote_ip_target: 0,
        password_strength: PasswordStrength::Medium,
        max_downloads: 5,
        expire_hours: 168,
        download_auth_mode: "minimal".to_owned(),
        basic_auth_user: None,
        basic_auth_password: None,
        token_auth_key: None,
        token_auth_type: Some("hmac-sha256".to_owned()),
        delete_mode: DeleteMode::Delete,
        delete_script_path: None,
        storage_path: "/var/lib/milterseparator".to_owned(),
        base_url: "http://localhost".to_owned(),
        database_type: "sqlite".to_owned(),
        database_path: Some("/var/lib/milterseparator/db.sqlite3".to_owned()),
        database_host: None,
        database_port: None,
        database_user: None,
        database_password: None,
        database_name: None,
        counter_cgi: "count.cgi".to_owned(),
        milter_user: "milter".to_owned(),
        milter_group: "apache".to_owned(),
        remove_attachments_from_body: false,
        insert_download_info_head: false,
        insert_download_info_tail: false,
        add_download_info_as_new_text_part: false,
    }
}

/// The keys of the configuration file.
#[derive(Debug, Clone, Copy, PartialEq, Eq, Structural)]
pub enum Key {
    Listen,
    ClientTimeout,
    LogFile,
    LogLevel,
    RemoteIpTarget,
    Include,
    PasswordStrength,
    DownloadAuthMode,
    BasicAuthUser,
    BasicAuthPassword,
    TokenAuthKey,
    TokenAuthType,
    MaxDownloads,
    ExpireHours,
    DeleteMode,
    DeleteScriptPath,
    StoragePath,
    BaseUrl,
    DatabaseType,
    DatabasePath,
    DatabaseHost,
    DatabasePort,
    DatabaseUser,
    DatabasePassword,
    DatabaseName,
    CounterCgi,
    MilterUser,
    MilterGroup,
    RemoveAttachments,
    InsertHead,
    InsertTail,
    AddTextPart,
}

/// The key that a line starts with, if it starts with one.
#[verifier::opaque]
pub open spec fn key_of(line: Seq<char>) -> Option<Key> {
    if starts_with(line, "Listen"@) {
        Some(Key::Listen)
    } else if starts_with(line, "Client_timeout"@) {
        Some(Key::ClientTimeout)
    } else if starts_with(line, "Log_file"@) {
        Some(Key::LogFile)
    } else if starts_with(line, "Log_level"@) {
        Some(Key::LogLevel)
    } else if starts_with(line, "RemoteIP_Target"@) {
        Some(Key::RemoteIpTarget)
    } else if starts_with(line, "include"@) {
        Some(Key::Include)
    } else if starts_with(line, "password_strength"@) {
        Some(Key::PasswordStrength)
    } else if starts_with(line, "download_auth_mode"@) {
        Some(Key::DownloadAuthMode)
    } else if starts_with(line, "basic_auth_user"@) {
        Some(Key::BasicAuthUser)
    } else if starts_with(line, "basic_auth_password"@) {
        Some(Key::BasicAuthPassword)
    } else if starts_with(line, "token_auth_key"@) {
        Some(Key::TokenAuthKey)
    } else if starts_with(line, "token_auth_type"@) {
        Some(Key::TokenAuthType)
    } else if starts_with(line, "max_downloads"@) {
        Some(Key::MaxDownloads)
    } else if starts_with(line, "expire_hours"@) {
        Some(Key::ExpireHours)
    } else if starts_with(line, "delete_mode"@) {
        Some(Key::DeleteMode)
    } else if starts_with(line, "delete_script_path"@) {
        Some(Key::DeleteScriptPath)
    } else if starts_with(line, "storage_path"@) {
        Some(Key::StoragePath)
    } else if starts_with(line, "base_url"@) {
        Some(Key::BaseUrl)
    } else if starts_with(line, "Database_Type"@) {
        Some(Key::DatabaseType)
    } else if starts_with(line, "Database_Path"@) {
        Some(Key::DatabasePath)
    } else if starts_with(line, "Database_Host"@) {
        Some(Key::DatabaseHost)
    } else if starts_with(line, "Database_Port"@) {
        Some(Key::DatabasePort)
    } else if starts_with(line, "Database_User"@) {
        Some(Key::DatabaseUser)
    } else if starts_with(line, "Database_Password"@) {
        Some(Key::DatabasePassword)
    } else if starts_with(line, "Database_Name"@) {
        Some(Key::DatabaseName)
    } else if starts_with(line, "counter_cgi"@) {
        Some(Key::CounterCgi)
    } else if starts_with(line, "milter_user"@) {
        Some(Key::MilterUser)
    } else if starts_with(line, "milter_group"@) {
        Some(Key::MilterGroup)
    } else if starts_with(line, "Remove_Attachments_From_Body"@) {
        Some(Key::RemoveAttachments)
    } else if starts_with(line, "Insert_Download_Info_Position_head"@) {
        Some(Key::InsertHead)
    } else if starts_with(line, "Insert_Download_Info_Position_tail"@) {
        Some(Key::InsertTail)
    } else if starts_with(line, "Add_Download_Info_As_New_Text_Part"@) {
        Some(Key::AddTextPart)
    } else {
        None
    }
}

/// The key that a line starts with, if it starts with one.
fn find_key(line: &[char]) -> (r: Option<Key>)
    ensures
        r == key_of(line@),
{
    proof {
        reveal(key_of);
    }
    if chars_start_with(line, "Listen") {
        Some(Key::Listen)
    } else if chars_start_with(line, "Client_timeout") {
        Some(Key::ClientTimeout)
    } else if chars_start_with(line, "Log_file") {
        Some(Key::LogFile)
    } else if chars_start_with(line, "Log_level") {
        Some(Key::LogLevel)
    } else if chars_start_with(line, "RemoteIP_Target") {
        Some(Key::RemoteIpTarget)
    } else if chars_start_with(line, "include") {
        Some(Key::Include)
    } else if chars_start_with(line, "password_strength") {
        Some(Key::PasswordStrength)
    } else if chars_start_with(line, "download_auth_mode") {
        Some(Key::DownloadAuthMode)
    } else if chars_start_with(line, "basic_auth_user") {
        Some(Key::BasicAuthUser)
    } else if chars_start_with(line, "basic_auth_password") {
        Some(Key::BasicAuthPassword)
    } else if chars_start_with(line, "token_auth_key") {
        Some(Key::TokenAuthKey)
    } else if chars_start_with(line, "token_auth_type") {
        Some(Key::TokenAuthType)
    } else if chars_start_with(line, "max_downloads") {
        Some(Key::MaxDownloads)
    } else if chars_start_with(line, "expire_hours") {
        Some(Key::ExpireHours)
    } else if chars_start_with(line, "delete_mode") {
        Some(Key::DeleteMode)
    } else if chars_start_with(line, "delete_script_path") {
        Some(Key::DeleteScriptPath)
    } else if chars_start_with(line, "storage_path") {
        Some(Key::StoragePath)
    } else if chars_start_with(line, "base_url") {
        Some(Key::BaseUrl)
    } else if chars_start_with(line, "Database_Type") {
        Some(Key::DatabaseType)
    } else if chars_start_with(line, "Database_Path") {
        Some(Key::DatabasePath)
    } else if chars_start_with(line, "Database_Host") {
        Some(Key::DatabaseHost)
    } else if chars_start_with(line, "Database_Port") {
        Some(Key::DatabasePort)
    } else if chars_start_with(line, "Database_User") {
        Some(Key::DatabaseUser)
    } else if chars_start_with(line, "Database_Password") {
        Some(Key::DatabasePassword)
    } else if chars_start_with(line, "Database_Name") {
        Some(Key::DatabaseName)
    } else if chars_start_with(line, "counter_cgi") {
        Some(Key::CounterCgi)
    } else if chars_start_with(line, "milter_user") {
        Some(Key::MilterUser)
    } else if chars_start_with(line, "milter_group") {
        Some(Key::MilterGroup)
    } else if chars_start_with(line, "Remove_Attachments_From_Body") {
        Some(Key::RemoveAttachments)
    } else if chars_start_with(line, "Insert_Download_Info_Position_head") {
        Some(Key::InsertHead)
    } else if chars_start_with(line, "Insert_Download_Info_Position_tail") {
        Some(Key::InsertTail)
    } else if chars_start_with(line, "Add_Download_Info_As_New_Text_Part") {
        Some(Key::AddTextPart)
    } else {
        None
    }
}

/// Where the first blank or tab of a line stands; the length of the line if it has
/// none.
pub open spec fn separator(line: Seq<char>) -> nat {
    let a = position(line, ' ');
    let b = position(line, '\t');
    if a <= b {
        a
    } else {
        b
    }
}

/// The value that stands behind the key of a line: what follows the first blank or
/// tab, without the white space around it.
pub open spec fn line_value(line: Seq<char>) -> Option<Seq<char>> {
    let p = separator(line) as int;
    if p >= line.len() {
        None
    } else {
        let value = trim(line.skip(p));
        if trim(line.take(p)).len() == 0 || value.len() == 0 {
            None
        } else {
            Some(value)
        }
    }
}

/// The value that stands behind the key of a line.
fn split_key_value(line: &[char]) -> (r: Option<Vec<char>>)
    ensures
        match r {
            Some(v) => line_value(line@) == Some(v@),
            None => line_value(line@) is None,
        },
{
    let a = find_char(line, ' ');
    let b = find_char(line, '\t');
    let p: usize = match (a, b) {
        (Some(x), Some(y)) => if x <= y {
            x
        } else {
            y
        },
        (Some(x), None) => x,
        (None, Some(y)) => y,
        (None, None) => return None,
    };
    let key = trim_chars(slice_subrange(line, 0, p));
    let value = trim_chars(slice_subrange(line, p, line.len()));
    proof {
        assert(line@.subrange(0, p as int) =~= line@.take(p as int));
        assert(line@.subrange(p as int, line@.len() as int) =~= line@.skip(p as int));
    }
    if key.len() == 0 || value.len() == 0 {
        None
    } else {
        Some(vstd::slice::slice_to_vec(value))
    }
}

/// What joins a continuation line to the value before it.
pub open spec fn joint(value: Seq<char>, line: Seq<char>, comma: bool) -> Seq<char> {
    if !comma {
        seq![' ']
    } else if (trim(value).len() > 0 && trim(value).last() == ',') || line[0] == ',' {
        seq![]
    } else {
        seq![',']
    }
}

/// A value with its continuation lines, and the line after them. A value goes on
/// until an empty line or one that starts with a key; comments in it are left out.
pub open spec fn gather(
    lines: Seq<Seq<char>>,
    pos: int,
    value: Seq<char>,
    comma: bool,
) -> (Seq<char>, int)
    decreases lines.len() - pos,
{
    if pos < 0 || pos >= lines.len() {
        (value, pos)
    } else {
        let line = lines[pos];
        if line.len() == 0 || key_of(line) is Some {
            (value, pos)
        } else if line[0] == '#' {
            gather(lines, pos + 1, value, comma)
        } else {
            gather(lines, pos + 1, value + joint(value, line, comma) + line, comma)
        }
    }
}

/// A value with its continuation lines, and the line after them.
fn collect_multiline_value(
    lines: &Vec<Vec<char>>,
    start: usize,
    initial: Vec<char>,
    comma: bool,
) -> (r: (Vec<char>, usize))
    requires
        start <= lines@.len(),
    ensures
        gather(views(lines@), start as int, initial@, comma) == (r.0@, r.1 as int),
        start <= r.1 <= lines@.len(),
{
    let mut value = initial;
    let mut pos: usize = start;
    while pos < lines.len()
        invariant_except_break
            start <= pos <= lines@.len(),
            gather(views(lines@), pos as int, value@, comma) == gather(
                views(lines@),
                start as int,
                initial@,
                comma,
            ),
        ensures
            start <= pos <= lines@.len(),
            gather(views(lines@), start as int, initial@, comma) == (value@, pos as int),
        decreases lines@.len() - pos,
    {
        let line = lines[pos].as_slice();
        proof {
            assert(views(lines@)[pos as int] == line@);
        }
        if line.len() == 0 || find_key(line).is_some() {
            break;
        }
        if line[0] != '#' {
            let ghost before = value@;
            if comma {
                let t = trim_chars(value.as_slice());
                let closed = t.len() > 0 && t[t.len() - 1] == ',';
                if !closed && line[0] != ',' {
                    value.push(',');
                }
            } else {
                value.push(' ');
            }
            value.extend_from_slice(line);
            proof {
                assert(value@ =~= before + joint(before, line@, comma) + line@);
            }
        }
        pos += 1;
    }
    (value, pos)
}

/// Whether a value switches a feature on.
pub open spec fn is_yes(v: Seq<char>) -> bool {
    lower(v) == "yes"@ || lower(v) == "true"@ || lower(v) == "1"@
}

fn says_yes(v: &[char]) -> (r: bool)
    ensures
        r == is_yes(v@),
{
    let l = lower_chars(v);
    is_text(l.as_slice(), "yes") || is_text(l.as_slice(), "true") || is_text(l.as_slice(), "1")
}

/// The address that a `Listen` value stands for: an address with its port as it is,
/// a port alone on all addresses.
pub open spec fn listen_address(v: Seq<char>) -> Option<Seq<char>> {
    if v.contains(':') {
        Some(v)
    } else if parse_unsigned(v, 65535) is Some {
        Some("[::]:"@ + v)
    } else {
        None
    }
}

/// The level that a `Log_level` value names.
pub open spec fn log_level_of(v: Seq<char>) -> u8 {
    if lower(v) == "trace"@ {
        LOG_TRACE
    } else if lower(v) == "debug"@ {
        LOG_DEBUG
    } else {
        LOG_INFO
    }
}

/// The nearest of 0, 1 and 2.
pub open spec fn clamp_target(n: int) -> u8 {
    if n < 0 {
        0
    } else if n > 2 {
        2
    } else {
        n as u8
    }
}

/// The strength that a value names.
pub open spec fn strength_of(v: Seq<char>) -> Option<PasswordStrength> {
    if lower(v) == "low"@ {
        Some(PasswordStrength::Low)
    } else if lower(v) == "medium"@ {
        Some(PasswordStrength::Medium)
    } else if lower(v) == "high"@ {
        Some(PasswordStrength::High)
    } else {
        None
    }
}

/// The deletion mode that a value names.
pub open spec fn delete_mode_of(v: Seq<char>) -> Option<DeleteMode> {
    if lower(v) == "delete"@ {
        Some(DeleteMode::Delete)
    } else if lower(v) == "script"@ {
        Some(DeleteMode::Script)
    } else {
        None
    }
}

/// The settings after one entry of the configuration. A value that a key cannot take
/// leaves them as they were; each key settles one setting.
pub open spec fn applied(c: ConfigView, key: Key, v: Seq<char>) -> ConfigView {
    ConfigView {
        address: match (key, listen_address(v)) {
            (Key::Listen, Some(a)) => a,
            _ => c.address,
        },
        client_timeout: match (key, parse_unsigned(v, u64::MAX as nat)) {
            (Key::ClientTimeout, Some(n)) => n as u64,
            _ => c.client_timeout,
        },
        log_file: if key == Key::LogFile {
            Some(v)
        } else {
            c.log_file
        },
        log_level: if key == Key::LogLevel {
            log_level_of(v)
        } else {
            c.log_level
        },
        remote_ip_target: match (key, parse_i64(v)) {
            (Key::RemoteIpTarget, Some(n)) => clamp_target(n),
            _ => c.remote_ip_target,
        },
        password_strength: match (key, strength_of(v)) {
            (Key::PasswordStrength, Some(p)) => p,
            _ => c.password_strength,
        },
        max_downloads: match (key, parse_unsigned(v, u32::MAX as nat)) {
            (Key::MaxDownloads, Some(n)) => n as u32,
            _ => c.max_downloads,
        },
        expire_hours: match (key, parse_unsigned(v, u64::MAX as nat)) {
            (Key::ExpireHours, Some(n)) => n as u64,
            _ => c.expire_hours,
        },
        download_auth_mode: if key == Key::DownloadAuthMode {
            v
        } else {
            c.download_auth_mode
        },
        basic_auth_user: if key == Key::BasicAuthUser {
            Some(v)
        } else {
            c.basic_auth_user
        },
        basic_auth_password: if key == Key::BasicAuthPassword {
            Some(v)
        } else {
            c.basic_auth_password
        },
        token_auth_key: if key == Key::TokenAuthKey {
            Some(v)
        } else {
            c.token_auth_key
        },
        token_auth_type: if key == Key::TokenAuthType {
            Some(v)
        } else {
            c.token_auth_type
        },
        delete_mode: match (key, delete_mode_of(v)) {
            (Key::DeleteMode, Some(m)) => m,
            _ => c.delete_mode,
        },
        delete_script_path: if key == Key::DeleteScriptPath {
            Some(v)
        } else {
            c.delete_script_path
        },
        storage_path: if key == Key::StoragePath {
            v
        } else {
            c.storage_path
        },
        base_url: if key == Key::BaseUrl {
            v
        } else {
            c.base_url
        },
        database_type: if key == Key::DatabaseType {
            lower(v)
        } else {
            c.database_type
        },
        database_path: if key == Key::DatabasePath {
            Some(v)
        } else {
            c.database_path
        },
        database_host: if key == Key::DatabaseHost {
            Some(v)
        } else {
            c.database_host
        },
        database_port: match (key, parse_unsigned(v, u16::MAX as nat)) {
            (Key::DatabasePort, Some(n)) => Some(n as u16),
            _ => c.database_port,
        },
        database_user: if key == Key::DatabaseUser {
            Some(v)
        } else {
            c.database_user
        },
        database_password: if key == Key::DatabasePassword {
            Some(v)
        } else {
            c.database_password
        },
        database_name: if key == Key::DatabaseName {
            Some(v)
        } else {
            c.database_name
        },
        counter_cgi: if key == Key::CounterCgi {
            v
        } else {
            c.counter_cgi
        },
        milter_user: if key == Key::MilterUser {
            v
        } else {
            c.milter_user
        },
        milter_group: if key == Key::MilterGroup {
            v
        } else {
            c.milter_group
        },
        remove_attachments_from_body: if key == Key::RemoveAttachments {
            is_yes(v)
        } else {
            c.remove_attachments_from_body
        },
        insert_download_info_head: if key == Key::InsertHead {
            is_yes(v)
        } else {
            c.insert_download_info_head
        },
        insert_download_info_tail: if key == Key::InsertTail {
            is_yes(v)
        } else {
            c.insert_download_info_tail
        },
        add_download_info_as_new_text_part: if key == Key::AddTextPart {
            is_yes(v)
        } else {
            c.add_download_info_as_new_text_part
        },
    }
}

/// Takes one entry of the configuration into the settings.
fn apply(config: &mut Config, key: Key, v: &[char])
    ensures
        final(config)@ == applied(old(config)@, key, v@),
{
    match key {
        Key::Listen => {
            if find_char(v, ':').is_some() {
                config.address = from_chars(v);
            } else if chars_to_u64(v, 65535).is_some() {
                let mut address = "[::]:".to_owned();
                let port = from_chars(v);
                address.push_str(port.as_str());
                config.address = address;
            }
        },
        Key::ClientTimeout => {
            if let Some(n) = chars_to_u64(v, u64::MAX) {
                config.client_timeout = n;
            }
        },
        Key::LogFile => {
            config.log_file = Some(from_chars(v));
        },
        Key::LogLevel => {
            let l = lower_chars(v);
            config.log_level = if is_text(l.as_slice(), "trace") {
                LOG_TRACE
            } else if is_text(l.as_slice(), "debug") {
                LOG_DEBUG
            } else {
                LOG_INFO
            };
        },
        Key::RemoteIpTarget => {
            if let Some(n) = chars_to_i64(v) {
                config.remote_ip_target = if n < 0 {
                    0
                } else if n > 2 {
                    2
                } else {
                    n as u8
                };
            }
        },
        Key::Include => {},
        Key::PasswordStrength => {
            let l = lower_chars(v);
            if is_text(l.as_slice(), "low") {
                config.password_strength = PasswordStrength::Low;
            } else if is_text(l.as_slice(), "medium") {
                config.password_strength = PasswordStrength::Medium;
            } else if is_text(l.as_slice(), "high") {
                config.password_strength = PasswordStrength::High;
            }
        },
        Key::DownloadAuthMode => {
            config.download_auth_mode = from_chars(v);
        },
        Key::BasicAuthUser => {
            config.basic_auth_user = Some(from_chars(v));
        },
        Key::BasicAuthPassword => {
            config.basic_auth_password = Some(from_chars(v));
        },
        Key::TokenAuthKey => {
            config.token_auth_key = Some(from_chars(v));
        },
        Key::TokenAuthType => {
            config.token_auth_type = Some(from_chars(v));
        },
        Key::MaxDownloads => {
            if let Some(n) = chars_to_u64(v, u32::MAX as u64) {
                config.max_downloads = n as u32;
            }
        },
        Key::ExpireHours => {
            if let Some(n) = chars_to_u64(v, u64::MAX) {
                config.expire_hours = n;
            }
        },
        Key::DeleteMode => {
            let l = lower_chars(v);
            if is_text(l.as_slice(), "delete") {
                config.delete_mode = DeleteMode::Delete;
            } else if is_text(l.as_slice(), "script") {
                config.delete_mode = DeleteMode::Script;
            }
        },
        Key::DeleteScriptPath => {
            config.delete_script_path = Some(from_chars(v));
        },
        Key::StoragePath => {
            config.storage_path = from_chars(v);
        },
        Key::BaseUrl => {
            config.base_url = from_chars(v);
        },
        Key::DatabaseType => {
            let l = lower_chars(v);
            config.database_type = from_chars(l.as_slice());
        },
        Key::DatabasePath => {
            config.database_path = Some(from_chars(v));
        },
        Key::DatabaseHost => {
            config.database_host = Some(from_chars(v));
        },
        Key::DatabasePort => {
            if let Some(n) = chars_to_u64(v, u16::MAX as u64) {
                config.database_port = Some(n as u16);
            }
        },
        Key::DatabaseUser => {
            config.database_user = Some(from_chars(v));
        },
        Key::DatabasePassword => {
            config.database_password = Some(from_chars(v));
        },
        Key::DatabaseName => {
            config.database_name = Some(from_chars(v));
        },
        Key::CounterCgi => {
            config.counter_cgi = from_chars(v);
        },
        Key::MilterUser => {
            config.milter_user = from_chars(v);
        },
        Key::MilterGroup => {
            config.milter_group = from_chars(v);
        },
        Key::RemoveAttachments => {
            config.remove_attachments_from_body = says_yes(v);
        },
        Key::InsertHead => {
            config.insert_download_info_head = says_yes(v);
        },
        Key::InsertTail => {
            config.insert_download_info_tail = says_yes(v);
        },
        Key::AddTextPart => {
            config.add_download_info_as_new_text_part = says_yes(v);
        },
    }
}

/// The directories that an `include` value lists.
pub open spec fn include_dirs(value: Seq<char>) -> Seq<Seq<char>> {
    split(value, ',').map_values(|d: Seq<char>| trim(d)).filter(|d: Seq<char>| d.len() > 0)
}

/// The directories that an `include` value lists.
fn list_dirs(value: &[char]) -> (r: Vec<String>)
    ensures
        str_views(r@) == include_dirs(value@),
{
    let pieces = split_chars(value, ',');
    let ghost all = split(value@, ',').map_values(|d: Seq<char>| trim(d));
    let ghost named = |d: Seq<char>| d.len() > 0;
    let mut out: Vec<String> = Vec::new();
    let mut i: usize = 0;
    proof {
        assert(all.take(0) =~= Seq::<Seq<char>>::empty());
        assert(str_views(out@) =~= all.take(0).filter(named)) by {
            reveal(Seq::filter);
        }
    }
    while i < pieces.len()
        invariant
            i <= pieces@.len(),
            views(pieces@) == split(value@, ','),
            all == split(value@, ',').map_values(|d: Seq<char>| trim(d)),
            named == (|d: Seq<char>| d.len() > 0),
            str_views(out@) == all.take(i as int).filter(named),
        decreases pieces@.len() - i,
    {
        let d = trim_chars(pieces[i].as_slice());
        proof {
            assert(views(pieces@)[i as int] == pieces@[i as int]@);
            assert(all[i as int] == d@);
            assert(all.take(i + 1) =~= all.take(i as int).push(d@));
            all.take(i as int).lemma_filter_push(d@, named);
        }
        if d.len() > 0 {
            let ghost before = out@;
            out.push(from_chars(d));
            proof {
                assert(str_views(out@) =~= str_views(before).push(d@));
            }
        }
        i += 1;
    }
    proof {
        assert(all.take(all.len() as int) =~= all);
    }
    out
}

/// The lines of a configuration text, without the white space around them.
pub open spec fn config_lines(text: Seq<char>) -> Seq<Seq<char>> {
    lines(text).map_values(|l: Seq<char>| trim(l))
}

/// How far a configuration was read: the settings so far, the directories to read
/// before going on, if an `include` asks for some, and the line to go on with.
pub struct ReadStep {
    pub config: ConfigView,
    pub dirs: Option<Seq<Seq<char>>>,
    pub next: int,
}

/// Reads a configuration from line `pos` on, up to the next `include` or the end.
/// Empty lines, comments and lines without a known key or without a value change
/// nothing.
pub open spec fn read_lines(lines: Seq<Seq<char>>, pos: int, c: ConfigView) -> ReadStep
    decreases lines.len() - pos,
{
    if pos < 0 || pos >= lines.len() {
        ReadStep { config: c, dirs: None, next: pos }
    } else {
        let line = lines[pos];
        if line.len() == 0 || line[0] == '#' {
            read_lines(lines, pos + 1, c)
        } else {
            match (key_of(line), line_value(line)) {
                (Some(key), Some(value)) => {
                    let (full, next) = gather(lines, pos + 1, value, key == Key::Include);
                    proof {
                        lemma_gather_goes_on(lines, pos + 1, value, key == Key::Include);
                    }
                    if key == Key::Include {
                        ReadStep { config: c, dirs: Some(include_dirs(full)), next }
                    } else {
                        read_lines(lines, next, applied(c, key, trim(full)))
                    }
                },
                _ => read_lines(lines, pos + 1, c),
            }
        }
    }
}

/// A value with its continuation lines ends inside the text.
pub proof fn lemma_gather_goes_on(lines: Seq<Seq<char>>, pos: int, value: Seq<char>, comma: bool)
    requires
        0 <= pos <= lines.len(),
    ensures
        pos <= gather(lines, pos, value, comma).1 <= lines.len(),
    decreases lines.len() - pos,
{
    if pos < lines.len() {
        let line = lines[pos];
        if line.len() == 0 || key_of(line) is Some {
        } else if line[0] == '#' {
            lemma_gather_goes_on(lines, pos + 1, value, comma);
        } else {
            lemma_gather_goes_on(lines, pos + 1, value + joint(value, line, comma) + line, comma);
        }
    }
}

/// A configuration text that is being read.
pub struct ConfigReader {
    lines: Vec<Vec<char>>,
    pos: usize,
}

impl ConfigReader {
    /// The lines of the text.
    pub closed spec fn lines(&self) -> Seq<Seq<char>> {
        views(self.lines@)
    }

    /// The line to go on with.
    pub closed spec fn pos(&self) -> int {
        self.pos as int
    }

    /// Whether the reader stands inside its text.
    pub open spec fn wf(&self) -> bool {
        0 <= self.pos() <= self.lines().len()
    }

    /// A reader at the start of a text.
    pub fn new(text: &str) -> (r: ConfigReader)
        ensures
            r.wf(),
            r.lines() == config_lines(text@),
            r.pos() == 0,
    {
        let chars = to_chars(text);
        let raw = split_lines(chars.as_slice());
        let mut lines: Vec<Vec<char>> = Vec::new();
        let mut i: usize = 0;
        while i < raw.len()
            invariant
                i <= raw@.len(),
                views(raw@) == crate::text::lines(text@),
                views(lines@) == config_lines(text@).take(i as int),
            decreases raw@.len() - i,
        {
            let ghost before = lines@;
            lines.push(vstd::slice::slice_to_vec(trim_chars(raw[i].as_slice())));
            proof {
                assert(views(raw@)[i as int] == raw@[i as int]@);
                assert(views(lines@) =~= views(before).push(trim(raw@[i as int]@)));
                assert(config_lines(text@).take(i + 1) =~= config_lines(text@).take(i as int).push(
                    config_lines(text@)[i as int],
                ));
            }
            i += 1;
        }
        proof {
            assert(config_lines(text@).take(raw@.len() as int) =~= config_lines(text@));
        }
        ConfigReader { lines, pos: 0 }
    }

    /// Reads on into `config`, up to the next `include` or the end of the text. For
    /// an `include` the result lists its directories: their files are to be read
    /// into `config` before the next call. At the end it is `None`.
    pub fn read_on(&mut self, config: &mut Config) -> (r: Option<Vec<String>>)
        requires
            old(self).wf(),
        ensures
            final(self).wf(),
            final(self).lines() == old(self).lines(),
            ({
                let step = read_lines(old(self).lines(), old(self).pos(), old(config)@);
                &&& final(config)@ == step.config
                &&& final(self).pos() == step.next
                &&& match r {
                    Some(dirs) => step.dirs == Some(str_views(dirs@)),
                    None => step.dirs is None,
                }
            }),
    {
        while self.pos < self.lines.len()
            invariant
                self.wf(),
                self.lines() == old(self).lines(),
                read_lines(self.lines(), self.pos(), config@) == read_lines(
                    old(self).lines(),
                    old(self).pos(),
                    old(config)@,
                ),
            decreases self.lines@.len() - self.pos,
        {
            let pos = self.pos;
            let line = self.lines[pos].as_slice();
            proof {
                assert(self.lines()[pos as int] == line@);
            }
            let mut next: usize = pos + 1;
            if line.len() > 0 && line[0] != '#' {
                if let Some(key) = find_key(line) {
                    if let Some(value) = split_key_value(line) {
                        let comma = match key {
                            Key::Include => true,
                            _ => false,
                        };
                        proof {
                            lemma_gather_goes_on(self.lines(), pos + 1, value@, comma);
                        }
                        let (full, after) = collect_multiline_value(
                            &self.lines,
                            pos + 1,
                            value,
                            comma,
                        );
                        if comma {
                            let dirs = list_dirs(full.as_slice());
                            self.pos = after;
                            return Some(dirs);
                        }
                        apply(config, key, trim_chars(full.as_slice()));
                        next = after;
                    }
                }
            }
            self.pos = next;
        }
        None
    }
}

/// Reading ends inside the text, and an `include` behind its own line.
pub proof fn lemma_read_goes_on(lines: Seq<Seq<char>>, pos: int, c: ConfigView)
    requires
        0 <= pos <= lines.len(),
    ensures
        pos <= read_lines(lines, pos, c).next <= lines.len(),
        read_lines(lines, pos, c).dirs is Some ==> pos < read_lines(lines, pos, c).next,
        read_lines(lines, pos, c).dirs is None ==> read_lines(lines, pos, c).next == lines.len(),
    decreases lines.len() - pos,
{
    if pos < lines.len() {
        let line = lines[pos];
        match (key_of(line), line_value(line)) {
            (Some(key), Some(value)) => {
                let (full, next) = gather(lines, pos + 1, value, key == Key::Include);
                lemma_gather_goes_on(lines, pos + 1, value, key == Key::Include);
                lemma_read_goes_on(lines, next, applied(c, key, trim(full)));
            },
            _ => {},
        }
        lemma_read_goes_on(lines, pos + 1, c);
    }
}

/// A configuration file with the files that it includes: for each `include` in it, in
/// order, the files that are read there, in order.
pub struct ConfigSource {
    /// The text of the file.
    pub text: String,
    /// The files that it includes.
    pub included: Vec<Vec<ConfigSource>>,
}

/// The settings after a file: its lines are read in order, and each `include` reads its
/// files before the next line.
pub open spec fn settings_after(source: ConfigSource, c: ConfigView) -> ConfigView
    decreases source, 0int,
{
    merged(config_lines(source.text@), 0, source.included@, c)
}

/// The settings after the lines of a file from `pos` on, where the files of each `include`
/// are given.
pub open spec fn merged(
    lines: Seq<Seq<char>>,
    pos: int,
    included: Seq<Vec<ConfigSource>>,
    c: ConfigView,
) -> ConfigView
    decreases included, lines.len() - pos,
{
    if pos < 0 || pos >= lines.len() {
        c
    } else {
        let step = read_lines(lines, pos, c);
        proof {
            lemma_read_goes_on(lines, pos, c);
        }
        if step.dirs is None {
            step.config
        } else if included.len() == 0 {
            merged(lines, step.next, included, step.config)
        } else {
            merged(
                lines,
                step.next,
                included.subrange(1, included.len() as int),
                files_merged(included[0]@, step.config),
            )
        }
    }
}

/// The settings after some files, one after the other.
pub open spec fn files_merged(files: Seq<ConfigSource>, c: ConfigView) -> ConfigView
    decreases files, 0int,
{
    if files.len() == 0 {
        c
    } else {
        settings_after(
            files[files.len() - 1],
            files_merged(files.subrange(0, files.len() - 1), c),
        )
    }
}

/// Reads a file and the files that it includes into the settings.
fn read_source(source: &ConfigSource, config: &mut Config)
    ensures
        final(config)@ == settings_after(*source, old(config)@),
    decreases source,
{
    let mut reader = ConfigReader::new(source.text.as_str());
    let mut k: usize = 0;
    let ghost lines = config_lines(source.text@);
    let ghost all = source.included@;
    let ghost wanted = settings_after(*source, config@);
    proof {
        assert(all.subrange(0, all.len() as int) =~= all);
    }
    loop
        invariant
            reader.wf(),
            reader.lines() == lines,
            all == source.included@,
            k <= all.len(),
            merged(lines, reader.pos(), all.subrange(k as int, all.len() as int), config@)
                == wanted,
        ensures
            config@ == wanted,
        decreases lines.len() - reader.pos(),
    {
        let ghost rest = all.subrange(k as int, all.len() as int);
        proof {
            lemma_read_goes_on(lines, reader.pos(), config@);
        }
        if reader.read_on(config).is_none() {
            break;
        }
        if k < source.included.len() {
            let files = &source.included[k];
            let mut j: usize = 0;
            let ghost start = config@;
            proof {
                assert(rest[0] == *files);
                assert(rest.subrange(1, rest.len() as int) =~= all.subrange(
                    k + 1,
                    all.len() as int,
                ));
                assert(files@.subrange(0, 0) =~= Seq::<ConfigSource>::empty());
            }
            while j < files.len()
                invariant
                    k < source.included@.len(),
                    *files == source.included@[k as int],
                    j <= files@.len(),
                    config@ == files_merged(files@.subrange(0, j as int), start),
                decreases files@.len() - j,
            {
                proof {
                    assert(files@.subrange(0, j + 1).subrange(0, j as int) =~= files@.subrange(
                        0,
                        j as int,
                    ));
                    assert(decreases_to!(source => source.included));
                    assert(decreases_to!(source.included => source.included@));
                    assert(decreases_to!(source.included@ => source.included@[k as int]));
                    assert(decreases_to!(*files => files@));
                    assert(decreases_to!(files@ => files@[j as int]));
                }
                read_source(&files[j], config);
                j += 1;
            }
            proof {
                assert(files@.subrange(0, j as int) =~= files@);
            }
            k += 1;
        } else {
            proof {
                assert(rest.len() == 0);
            }
        }
    }
}

/// The settings that a configuration file gives, with the files that it includes.
pub fn load_config(source: &ConfigSource) -> (r: Config)
    ensures
        r@ == settings_after(*source, default_settings()),
{
    let mut config = default_config();
    read_source(source, &mut config);
    config
}

/// The directories that each `include` of a text lists, in order, from line `pos` on.
pub open spec fn includes_from(lines: Seq<Seq<char>>, pos: int) -> Seq<Seq<Seq<char>>>
    decreases lines.len() - pos,
{
    if pos < 0 || pos >= lines.len() {
        seq![]
    } else {
        let step = read_lines(lines, pos, default_settings());
        proof {
            lemma_read_goes_on(lines, pos, default_settings());
        }
        match step.dirs {
            Some(dirs) => seq![dirs] + includes_from(lines, step.next),
            None => seq![],
        }
    }
}

/// What a text includes, and where reading goes on, does not depend on the settings.
pub proof fn law_settings_do_not_steer_reading(
    lines: Seq<Seq<char>>,
    pos: int,
    c: ConfigView,
    d: ConfigView,
)
    requires
        0 <= pos <= lines.len(),
    ensures
        read_lines(lines, pos, c).dirs == read_lines(lines, pos, d).dirs,
        read_lines(lines, pos, c).next == read_lines(lines, pos, d).next,
    decreases lines.len() - pos,
{
    if pos < lines.len() {
        let line = lines[pos];
        match (key_of(line), line_value(line)) {
            (Some(key), Some(value)) => {
                let (full, next) = gather(lines, pos + 1, value, key == Key::Include);
                lemma_gather_goes_on(lines, pos + 1, value, key == Key::Include);
                law_settings_do_not_steer_reading(
                    lines,
                    next,
                    applied(c, key, trim(full)),
                    applied(d, key, trim(full)),
                );
            },
            _ => {},
        }
        law_settings_do_not_steer_reading(lines, pos + 1, c, d);
    }
}

/// The contents of lists of strings.
pub open spec fn list_views(v: Seq<Vec<String>>) -> Seq<Seq<Seq<char>>> {
    v.map_values(|w: Vec<String>| str_views(w@))
}

/// The directories that each `include` of a text lists, in order.
pub fn list_includes(text: &str) -> (r: Vec<Vec<String>>)
    ensures
        list_views(r@) == includes_from(config_lines(text@), 0),
{
    let mut config = default_config();
    let mut reader = ConfigReader::new(text);
    let mut out: Vec<Vec<String>> = Vec::new();
    let ghost lines = config_lines(text@);
    proof {
        assert(list_views(out@) + includes_from(lines, 0) =~= includes_from(lines, 0));
    }
    loop
        invariant
            reader.wf(),
            reader.lines() == lines,
            list_views(out@) + includes_from(lines, reader.pos()) == includes_from(lines, 0),
        ensures
            list_views(out@) == includes_from(lines, 0),
        decreases lines.len() - reader.pos(),
    {
        let ghost pos = reader.pos();
        let ghost before = out@;
        proof {
            lemma_read_goes_on(lines, pos, config@);
            law_settings_do_not_steer_reading(lines, pos, config@, default_settings());
        }
        match reader.read_on(&mut config) {
            Some(dirs) => {
                out.push(dirs);
                proof {
                    assert(list_views(out@) =~= list_views(before).push(str_views(dirs@)));
                    assert(list_views(out@) + includes_from(lines, reader.pos()) =~= list_views(
                        before,
                    ) + includes_from(lines, pos));
                }
            },
            None => {
                proof {
                    assert(includes_from(lines, pos) =~= Seq::<Seq<Seq<char>>>::empty());
                    assert(list_views(out@) + Seq::<Seq<Seq<char>>>::empty() =~= list_views(out@));
                }
                break;
            },
        }
    }
    out
}

/// Whether a file of a directory that is included is read, by its name: one with the
/// extension `conf`.
pub open spec fn is_config_name(name: Seq<char>) -> bool {
    match last_dot(name) {
        Some(d) => name.skip(d + 1) == "conf"@,
        None => false,
    }
}

/// Whether a file of a directory that is included is read, by its name.
pub fn is_config_file(name: &str) -> (r: bool)
    ensures
        r == is_config_name(name@),
{
    let chars = to_chars(name);
    let n = chars.len();
    let mut i = n;
    proof {
        assert(chars@.take(n as int) =~= chars@);
    }
    while i > 1
        invariant
            i <= n == chars@.len(),
            chars@ == name@,
            last_dot(chars@) == last_dot(chars@.take(i as int)),
        decreases i,
    {
        if chars[i - 1] == '.' {
            let extension = slice_subrange(chars.as_slice(), i, n);
            proof {
                assert(chars@.take(i as int).last() == '.');
                assert(extension@ =~= chars@.skip(i as int));
            }
            return is_text(extension, "conf");
        }
        proof {
            assert(chars@.take(i as int).drop_last() =~= chars@.take(i - 1));
        }
        i -= 1;
    }
    false
}

/// Whether a key can take a value.
pub open spec fn takes(key: Key, v: Seq<char>) -> bool {
    match key {
        Key::Listen => listen_address(v) is Some,
        Key::ClientTimeout => parse_unsigned(v, u64::MAX as nat) is Some,
        Key::RemoteIpTarget => parse_i64(v) is Some,
        Key::PasswordStrength => strength_of(v) is Some,
        Key::MaxDownloads => parse_unsigned(v, u32::MAX as nat) is Some,
        Key::ExpireHours => parse_unsigned(v, u64::MAX as nat) is Some,
        Key::DeleteMode => delete_mode_of(v) is Some,
        Key::DatabasePort => parse_unsigned(v, u16::MAX as nat) is Some,
        _ => true,
    }
}

/// Where a key is given twice, the last value that it can take counts: an earlier
/// value leaves no trace, and a later one that it cannot take changes nothing.
pub proof fn law_last_value_counts(c: ConfigView, key: Key, v1: Seq<char>, v2: Seq<char>)
    ensures
        takes(key, v2) ==> applied(applied(c, key, v1), key, v2) == applied(c, key, v2),
        !takes(key, v2) ==> applied(applied(c, key, v1), key, v2) == applied(c, key, v1),
{
}

/// The entries of different keys do not depend on their order.
pub proof fn law_keys_are_independent(c: ConfigView, k1: Key, v1: Seq<char>, k2: Key, v2: Seq<char>)
    requires
        k1 != k2,
    ensures
        applied(applied(c, k1, v1), k2, v2) == applied(applied(c, k2, v2), k1, v1),
{
}

/// Lines that start with no key, comments among them, leave the settings alone and
/// ask for no directory.
pub proof fn law_unknown_lines_change_nothing(lines: Seq<Seq<char>>, pos: int, c: ConfigView)
    requires
        0 <= pos <= lines.len(),
        forall|i: int| pos <= i < lines.len() ==> key_of(#[trigger] lines[i]) is None,
    ensures
        read_lines(lines, pos, c).config == c,
        read_lines(lines, pos, c).dirs is None,
    decreases lines.len() - pos,
{
    if pos < lines.len() {
        assert(key_of(lines[pos]) is None);
        law_unknown_lines_change_nothing(lines, pos + 1, c);
    }
}

/// Settings that the filter can work with: the mail that it handles is one of three
/// kinds, and the log level is one of the three levels.
pub open spec fn in_range(c: ConfigView) -> bool {
    &&& c.remote_ip_target <= 2
    &&& c.log_level == LOG_INFO || c.log_level == LOG_TRACE || c.log_level == LOG_DEBUG
}

/// Whatever the lines of a configuration hold, the settings stay in their ranges.
pub proof fn law_settings_stay_in_range(lines: Seq<Seq<char>>, pos: int, c: ConfigView)
    requires
        0 <= pos <= lines.len(),
        in_range(c),
    ensures
        in_range(read_lines(lines, pos, c).config),
        in_range(default_settings()),
    decreases lines.len() - pos,
{
    if pos < lines.len() {
        let line = lines[pos];
        match (key_of(line), line_value(line)) {
            (Some(key), Some(value)) => {
                let (full, next) = gather(lines, pos + 1, value, key == Key::Include);
                lemma_gather_goes_on(lines, pos + 1, value, key == Key::Include);
                law_settings_stay_in_range(lines, next, applied(c, key, trim(full)));
            },
            _ => {},
        }
        law_settings_stay_in_range(lines, pos + 1, c);
    }
}

/// Whatever a configuration file and the files that it includes hold, the settings stay in
/// their ranges.
pub proof fn law_included_settings_stay_in_range(source: ConfigSource, c: ConfigView)
    requires
        in_range(c),
    ensures
        in_range(settings_after(source, c)),
    decreases source, 0int,
{
    lemma_merged_in_range(config_lines(source.text@), 0, source.included@, c);
}

proof fn lemma_merged_in_range(
    lines: Seq<Seq<char>>,
    pos: int,
    included: Seq<Vec<ConfigSource>>,
    c: ConfigView,
)
    requires
        in_range(c),
        0 <= pos <= lines.len(),
    ensures
        in_range(merged(lines, pos, included, c)),
    decreases included, lines.len() - pos,
{
    if pos < lines.len() {
        let step = read_lines(lines, pos, c);
        lemma_read_goes_on(lines, pos, c);
        law_settings_stay_in_range(lines, pos, c);
        if step.dirs is Some {
            if included.len() == 0 {
                lemma_merged_in_range(lines, step.next, included, step.config);
            } else {
                lemma_files_in_range(included[0]@, step.config);
                lemma_merged_in_range(
                    lines,
                    step.next,
                    included.subrange(1, included.len() as int),
                    files_merged(included[0]@, step.config),
                );
            }
        }
    }
}

proof fn lemma_files_in_range(files: Seq<ConfigSource>, c: ConfigView)
    requires
        in_range(c),
    ensures
        in_range(files_merged(files, c)),
    decreases files, 0int,
{
    if files.len() > 0 {
        lemma_files_in_range(files.subrange(0, files.len() - 1), c);
        law_included_settings_stay_in_range(
            files[files.len() - 1],
            files_merged(files.subrange(0, files.len() - 1), c),
        );
    }
}

/// A file without an `include` gives its own lines alone, whatever is said to be included.
pub proof fn law_nothing_is_read_without_an_include(source: ConfigSource, c: ConfigView)
    requires
        read_lines(config_lines(source.text@), 0, c).dirs is None,
    ensures
        settings_after(source, c) == read_lines(config_lines(source.text@), 0, c).config,
{
}

/// The path of the configuration among the arguments of the program, from place `i` on:
/// what stands behind the last `-f` that has something behind it.
pub open spec fn path_among(args: Seq<Seq<char>>, i: int, path: Seq<char>) -> Seq<char>
    decreases args.len() - i,
{
    if i >= args.len() {
        path
    } else if args[i] == "-f"@ && i + 1 < args.len() {
        path_among(args, i + 2, args[i + 1])
    } else {
        path_among(args, i + 1, path)
    }
}

/// The path of the configuration among the arguments of the program, which do not hold
/// the name of the program itself.
pub fn config_path(args: &Vec<String>) -> (r: String)
    ensures
        r@ == path_among(str_views(args@), 0, "/etc/MilterSeparator.conf"@),
{
    let mut path = "/etc/MilterSeparator.conf".to_owned();
    let ghost all = str_views(args@);
    let n = args.len();
    let mut i: usize = 0;
    while i < n
        invariant
            i <= n == args@.len(),
            all == str_views(args@),
            path_among(all, i as int, path@) == path_among(
                all,
                0,
                "/etc/MilterSeparator.conf"@,
            ),
        decreases n - i,
    {
        proof {
            assert(all[i as int] == args@[i as int]@);
        }
        if n - i > 1 && same_text(args[i].as_str(), "-f") {
            proof {
                assert(all[i + 1] == args@[i + 1]@);
            }
            path = args[i + 1].as_str().to_owned();
            i += 2;
        } else {
            i += 1;
        }
    }
    path
}

/// A line has the key whose name it starts with, and none if it starts with the name of none.
pub proof fn law_lines_start_with_their_key(line: Seq<char>)
    ensures
        key_of(line) == Some(Key::Listen) ==> starts_with(line, "Listen"@),
        key_of(line) == Some(Key::ClientTimeout) ==> starts_with(line, "Client_timeout"@),
        key_of(line) == Some(Key::LogFile) ==> starts_with(line, "Log_file"@),
        key_of(line) == Some(Key::LogLevel) ==> starts_with(line, "Log_level"@),
        key_of(line) == Some(Key::RemoteIpTarget) ==> starts_with(line, "RemoteIP_Target"@),
        key_of(line) == Some(Key::Include) ==> starts_with(line, "include"@),
        key_of(line) == Some(Key::PasswordStrength) ==> starts_with(line, "password_strength"@),
        key_of(line) == Some(Key::DownloadAuthMode) ==> starts_with(line, "download_auth_mode"@),
        key_of(line) == Some(Key::BasicAuthUser) ==> starts_with(line, "basic_auth_user"@),
        key_of(line) == Some(Key::BasicAuthPassword) ==> starts_with(line, "basic_auth_password"@),
        key_of(line) == Some(Key::TokenAuthKey) ==> starts_with(line, "token_auth_key"@),
        key_of(line) == Some(Key::TokenAuthType) ==> starts_with(line, "token_auth_type"@),
        key_of(line) == Some(Key::MaxDownloads) ==> starts_with(line, "max_downloads"@),
        key_of(line) == Some(Key::ExpireHours) ==> starts_with(line, "expire_hours"@),
        key_of(line) == Some(Key::DeleteMode) ==> starts_with(line, "delete_mode"@),
        key_of(line) == Some(Key::DeleteScriptPath) ==> starts_with(line, "delete_script_path"@),
        key_of(line) == Some(Key::StoragePath) ==> starts_with(line, "storage_path"@),
        key_of(line) == Some(Key::BaseUrl) ==> starts_with(line, "base_url"@),
        key_of(line) == Some(Key::DatabaseType) ==> starts_with(line, "Database_Type"@),
        key_of(line) == Some(Key::DatabasePath) ==> starts_with(line, "Database_Path"@),
        key_of(line) == Some(Key::DatabaseHost) ==> starts_with(line, "Database_Host"@),
        key_of(line) == Some(Key::DatabasePort) ==> starts_with(line, "Database_Port"@),
        key_of(line) == Some(Key::DatabaseUser) ==> starts_with(line, "Database_User"@),
        key_of(line) == Some(Key::DatabasePassword) ==> starts_with(line, "Database_Password"@),
        key_of(line) == Some(Key::DatabaseName) ==> starts_with(line, "Database_Name"@),
        key_of(line) == Some(Key::CounterCgi) ==> starts_with(line, "counter_cgi"@),
        key_of(line) == Some(Key::MilterUser) ==> starts_with(line, "milter_user"@),
        key_of(line) == Some(Key::MilterGroup) ==> starts_with(line, "milter_group"@),
        key_of(line) == Some(Key::RemoveAttachments) ==> starts_with(line, "Remove_Attachments_From_Body"@),
        key_of(line) == Some(Key::InsertHead) ==> starts_with(line, "Insert_Download_Info_Position_head"@),
        key_of(line) == Some(Key::InsertTail) ==> starts_with(line, "Insert_Download_Info_Position_tail"@),
        key_of(line) == Some(Key::AddTextPart) ==> starts_with(line, "Add_Download_Info_As_New_Text_Part"@),
        key_of(line) is Some <==> (starts_with(line, "Listen"@)
                || starts_with(line, "Client_timeout"@)
                || starts_with(line, "Log_file"@)
                || starts_with(line, "Log_level"@)
                || starts_with(line, "RemoteIP_Target"@)
                || starts_with(line, "include"@)
                || starts_with(line, "password_strength"@)
                || starts_with(line, "download_auth_mode"@)
                || starts_with(line, "basic_auth_user"@)
                || starts_with(line, "basic_auth_password"@)
                || starts_with(line, "token_auth_key"@)
                || starts_with(line, "token_auth_type"@)
                || starts_with(line, "max_downloads"@)
                || starts_with(line, "expire_hours"@)
                || starts_with(line, "delete_mode"@)
                || starts_with(line, "delete_script_path"@)
                || starts_with(line, "storage_path"@)
                || starts_with(line, "base_url"@)
                || starts_with(line, "Database_Type"@)
                || starts_with(line, "Database_Path"@)
                || starts_with(line, "Database_Host"@)
                || starts_with(line, "Database_Port"@)
                || starts_with(line, "Database_User"@)
                || starts_with(line, "Database_Password"@)
                || starts_with(line, "Database_Name"@)
                || starts_with(line, "counter_cgi"@)
                || starts_with(line, "milter_user"@)
                || starts_with(line, "milter_group"@)
                || starts_with(line, "Remove_Attachments_From_Body"@)
                || starts_with(line, "Insert_Download_Info_Position_head"@)
                || starts_with(line, "Insert_Download_Info_Position_tail"@)
                || starts_with(line, "Add_Download_Info_As_New_Text_Part"@)),
{
    reveal(key_of);
}

/// A key settles the setting that it is called after, with the value as it is given, and no
/// other setting. Numbers are read in decimal, switches as yes or no, and words in capitals or
/// small letters.
pub proof fn law_keys_settle_their_settings(c: ConfigView, v: Seq<char>, n: nat)
    ensures
        v.contains(':') ==> applied(c, Key::Listen, v) == (ConfigView { address: v, ..c }),
        n <= 65535 && !decimal(n).contains(':') ==> applied(c, Key::Listen, decimal(n)) == (
        ConfigView { address: "[::]:"@ + decimal(n), ..c }),
        n <= u64::MAX ==> applied(c, Key::ClientTimeout, decimal(n)) == (ConfigView {
            client_timeout: n as u64,
            ..c
        }),
        n <= u32::MAX ==> applied(c, Key::MaxDownloads, decimal(n)) == (ConfigView {
            max_downloads: n as u32,
            ..c
        }),
        n <= u64::MAX ==> applied(c, Key::ExpireHours, decimal(n)) == (ConfigView {
            expire_hours: n as u64,
            ..c
        }),
        n <= u16::MAX ==> applied(c, Key::DatabasePort, decimal(n)) == (ConfigView {
            database_port: Some(n as u16),
            ..c
        }),
        n <= 2 ==> applied(c, Key::RemoteIpTarget, decimal(n)) == (ConfigView {
            remote_ip_target: n as u8,
            ..c
        }),
        2 <= n <= i64::MAX ==> applied(c, Key::RemoteIpTarget, decimal(n)) == (ConfigView {
            remote_ip_target: 2,
            ..c
        }),
        parse_i64(v) is Some && parse_i64(v)->Some_0 < 0 ==> applied(c, Key::RemoteIpTarget, v) == (
        ConfigView { remote_ip_target: 0, ..c }),
        parse_i64(v) is None ==> applied(c, Key::RemoteIpTarget, v) == c,
        applied(c, Key::LogFile, v) == (ConfigView { log_file: Some(v), ..c }),
        lower(v) == "trace"@ ==> applied(c, Key::LogLevel, v) == (ConfigView {
            log_level: LOG_TRACE,
            ..c
        }),
        lower(v) == "debug"@ ==> applied(c, Key::LogLevel, v) == (ConfigView {
            log_level: LOG_DEBUG,
            ..c
        }),
        lower(v) != "trace"@ && lower(v) != "debug"@ ==> applied(c, Key::LogLevel, v) == (
        ConfigView { log_level: LOG_INFO, ..c }),
        applied(c, Key::Include, v) == c,
        lower(v) == "low"@ ==> applied(c, Key::PasswordStrength, v) == (ConfigView {
            password_strength: PasswordStrength::Low,
            ..c
        }),
        lower(v) == "medium"@ ==> applied(c, Key::PasswordStrength, v) == (ConfigView {
            password_strength: PasswordStrength::Medium,
            ..c
        }),
        lower(v) == "high"@ ==> applied(c, Key::PasswordStrength, v) == (ConfigView {
            password_strength: PasswordStrength::High,
            ..c
        }),
        lower(v) == "delete"@ ==> applied(c, Key::DeleteMode, v) == (ConfigView {
            delete_mode: DeleteMode::Delete,
            ..c
        }),
        lower(v) == "script"@ ==> applied(c, Key::DeleteMode, v) == (ConfigView {
            delete_mode: DeleteMode::Script,
            ..c
        }),
        applied(c, Key::DownloadAuthMode, v) == (ConfigView { download_auth_mode: v, ..c }),
        applied(c, Key::BasicAuthUser, v) == (ConfigView { basic_auth_user: Some(v), ..c }),
        applied(c, Key::BasicAuthPassword, v) == (ConfigView {
            basic_auth_password: Some(v),
            ..c
        }),
        applied(c, Key::TokenAuthKey, v) == (ConfigView { token_auth_key: Some(v), ..c }),
        applied(c, Key::TokenAuthType, v) == (ConfigView { token_auth_type: Some(v), ..c }),
        applied(c, Key::DeleteScriptPath, v) == (ConfigView { delete_script_path: Some(v), ..c }),
        applied(c, Key::StoragePath, v) == (ConfigView { storage_path: v, ..c }),
        applied(c, Key::BaseUrl, v) == (ConfigView { base_url: v, ..c }),
        applied(c, Key::DatabaseType, v) == (ConfigView { database_type: lower(v), ..c }),
        applied(c, Key::DatabasePath, v) == (ConfigView { database_path: Some(v), ..c }),
        applied(c, Key::DatabaseHost, v) == (ConfigView { database_host: Some(v), ..c }),
        applied(c, Key::DatabaseUser, v) == (ConfigView { database_user: Some(v), ..c }),
        applied(c, Key::DatabasePassword, v) == (ConfigView { database_password: Some(v), ..c }),
        applied(c, Key::DatabaseName, v) == (ConfigView { database_name: Some(v), ..c }),
        applied(c, Key::CounterCgi, v) == (ConfigView { counter_cgi: v, ..c }),
        applied(c, Key::MilterUser, v) == (ConfigView { milter_user: v, ..c }),
        applied(c, Key::MilterGroup, v) == (ConfigView { milter_group: v, ..c }),
        applied(c, Key::RemoveAttachments, v) == (ConfigView {
            remove_attachments_from_body: says(v),
            ..c
        }),
        applied(c, Key::InsertHead, v) == (ConfigView { insert_download_info_head: says(v), ..c }),
        applied(c, Key::InsertTail, v) == (ConfigView { insert_download_info_tail: says(v), ..c }),
        applied(c, Key::AddTextPart, v) == (ConfigView {
            add_download_info_as_new_text_part: says(v),
            ..c
        }),
{
    if n <= u64::MAX {
        law_decimal_read_back(n, u64::MAX as nat);
    }
    if n <= u32::MAX {
        law_decimal_read_back(n, u32::MAX as nat);
    }
    if n <= u16::MAX {
        law_decimal_read_back(n, u16::MAX as nat);
        law_decimal_read_back(n, 65535);
    }
    if n <= i64::MAX {
        law_decimal_read_back(n, 0x7FFF_FFFF_FFFF_FFFF);
        assert(crate::text::is_digit(decimal(n)[0]));
    }
    reveal_strlit("1");
    if lower(v) == "1"@ {
        assert(lower(v)[0] == '1');
        assert(v =~= "1"@);
    }
    if v == "1"@ {
        assert(lower(v) =~= "1"@);
    }
    assert(is_yes(v) == says(v));
    reveal_strlit("low");
    reveal_strlit("medium");
    reveal_strlit("high");
    reveal_strlit("trace");
    reveal_strlit("debug");
    reveal_strlit("delete");
    reveal_strlit("script");
    assert("low"@.len() == 3 && "medium"@.len() == 6 && "high"@.len() == 4);
    assert("trace"@[0] == 't' && "debug"@[0] == 'd' && "delete"@[0] == 'd' && "script"@[0] == 's');
}

/// Whether a value is a yes: the words yes and true, in capitals or small letters, or a one.
pub open spec fn says(v: Seq<char>) -> bool {
    lower(v) == "yes"@ || lower(v) == "true"@ || v == "1"@
}

/// The value of a line is what stands behind its key, without the white space around it.
pub proof fn law_value_stands_behind_the_key(
    key: Seq<char>,
    blank: Seq<char>,
    value: Seq<char>,
)
    requires
        key.len() > 0,
        forall|i: int| 0 <= i < key.len() ==> !is_space(#[trigger] key[i]),
        blank.len() > 0,
        blank[0] == ' ' || blank[0] == '\t',
        is_blank(blank),
        value.len() > 0,
        !is_space(value[0]) && !is_space(value.last()),
    ensures
        line_value(key + blank + value) == Some(value),
        line_value(key) is None,
{
    let line = key + blank + value;
    let n = key.len() as int;
    let none = Seq::<char>::empty();
    assert forall|j: int| 0 <= j < n implies line[j] != ' ' && line[j] != '\t' by {
        assert(line[j] == key[j]);
        assert(!is_space(key[j]));
    }
    assert(line[n] == blank[0]);
    crate::text::lemma_position(line, ' ');
    crate::text::lemma_position(line, '\t');
    assert(separator(line) == n) by {
        if blank[0] == ' ' {
            crate::text::lemma_position_is(line, ' ', n);
            assert(position(line, '\t') >= n);
        } else {
            crate::text::lemma_position_is(line, '\t', n);
            assert(position(line, ' ') >= n);
        }
    }
    assert(line.take(n) =~= key);
    assert(!is_space(key[0]) && !is_space(key[n - 1]));
    law_trimmed_text_is_kept(none, key, none);
    assert(none + key + none =~= key);
    law_trimmed_text_is_kept(blank, value, none);
    assert(line.skip(n) =~= blank + value + none);
    assert forall|j: int| 0 <= j < n implies key[j] != ' ' && key[j] != '\t' by {
        assert(!is_space(key[j]));
    }
    crate::text::lemma_position_is(key, ' ', n);
    crate::text::lemma_position_is(key, '\t', n);
}

/// A line with a key and a value settles its setting, and reading goes on with the next line,
/// where that is empty, has a key of its own or is none; a line that is empty or a comment is
/// passed over.
pub proof fn law_lines_are_read_in_order(
    lines: Seq<Seq<char>>,
    pos: int,
    c: ConfigView,
    key: Key,
    value: Seq<char>,
)
    requires
        0 <= pos < lines.len(),
    ensures
        lines[pos].len() == 0 || lines[pos][0] == '#' ==> read_lines(lines, pos, c) == read_lines(
            lines,
            pos + 1,
            c,
        ),
        lines[pos].len() > 0 && lines[pos][0] != '#' && key_of(lines[pos]) == Some(key)
            && line_value(lines[pos]) == Some(value) && key != Key::Include && (pos + 1
            == lines.len() || lines[pos + 1].len() == 0 || key_of(lines[pos + 1]) is Some)
            ==> read_lines(lines, pos, c) == read_lines(
            lines,
            pos + 1,
            applied(c, key, trim(value)),
        ),
        lines[pos].len() > 0 && lines[pos][0] != '#' && key_of(lines[pos]) == Some(Key::Include)
            && line_value(lines[pos]) == Some(value) && (pos + 1 == lines.len() || lines[pos
            + 1].len() == 0 || key_of(lines[pos + 1]) is Some) ==> read_lines(lines, pos, c) == (
        ReadStep { config: c, dirs: Some(include_dirs(value)), next: pos + 1 }),
{
}

/// A value that goes on in the next line has that line behind it, with a blank between them,
/// or with a comma between directories.
pub proof fn law_values_go_on(
    lines: Seq<Seq<char>>,
    pos: int,
    value: Seq<char>,
    comma: bool,
)
    requires
        0 <= pos < lines.len(),
        lines[pos].len() > 0,
        key_of(lines[pos]) is None,
    ensures
        lines[pos][0] == '#' ==> gather(lines, pos, value, comma) == gather(
            lines,
            pos + 1,
            value,
            comma,
        ),
        lines[pos][0] != '#' && !comma ==> gather(lines, pos, value, comma) == gather(
            lines,
            pos + 1,
            value + seq![' '] + lines[pos],
            comma,
        ),
        lines[pos][0] != '#' && lines[pos][0] != ',' && comma && !(trim(value).len() > 0 && trim(
            value,
        ).last() == ',') ==> gather(lines, pos, value, comma) == gather(
            lines,
            pos + 1,
            value + seq![','] + lines[pos],
            comma,
        ),
{
}

/// Files that are included are read in their order, so that the last value counts across
/// files too, and a text without includes settles what its lines say.
pub proof fn law_included_files_are_read_in_order(
    files: Seq<ConfigSource>,
    file: ConfigSource,
    c: ConfigView,
)
    ensures
        files_merged(seq![], c) == c,
        files_merged(files.push(file), c) == settings_after(file, files_merged(files, c)),
{
    assert(files.push(file).subrange(0, files.len() as int) =~= files);
    assert(files.push(file)[files.len() as int] == file);
}

/// Of an included directory the files with the extension `conf` are read.
pub proof fn law_only_conf_files_are_read(stem: Seq<char>, extension: Seq<char>)
    requires
        stem.len() > 0,
        !extension.contains('.'),
    ensures
        is_config_name(stem + seq!['.'] + extension) <==> extension == "conf"@,
        !is_config_name(extension),
{
    crate::names::lemma_last_dot_is(stem, extension);
    let name = stem + seq!['.'] + extension;
    assert(name.skip(stem.len() as int + 1) =~= extension);
    crate::names::lemma_last_dot(extension);
    if let Some(d) = last_dot(extension) {
        assert(extension.contains(extension[d]));
    }
}

/// The directories of an `include` are told apart by commas and have no white space around
/// them; what stands before a comma does not depend on what stands behind it, and nothing
/// between two commas is no directory.
pub proof fn law_directories_are_told_apart(
    a: Seq<char>,
    dir: Seq<char>,
    b: Seq<char>,
    rest: Seq<char>,
)
    requires
        is_blank(a) && !a.contains(','),
        is_blank(b) && !b.contains(','),
        !dir.contains(','),
        dir.len() > 0 ==> !is_space(dir[0]) && !is_space(dir.last()),
    ensures
        dir.len() > 0 ==> include_dirs(a + dir + b + seq![','] + rest) == seq![dir] + include_dirs(
            rest,
        ),
        dir.len() == 0 ==> include_dirs(a + dir + b + seq![','] + rest) == include_dirs(rest),
        dir.len() > 0 ==> include_dirs(a + dir + b) == seq![dir],
{
    let named = |d: Seq<char>| d.len() > 0;
    let trimmed = |d: Seq<char>| trim(d);
    let first = a + dir + b;
    let value = first + seq![','] + rest;
    let n = first.len() as int;
    assert forall|j: int| 0 <= j < n implies first[j] != ',' by {
        if j < a.len() {
            assert(a.contains(a[j]));
        } else if j < a.len() + dir.len() {
            assert(dir.contains(dir[j - a.len()]));
        } else {
            assert(b.contains(b[j - a.len() - dir.len()]));
        }
    }
    assert forall|j: int| 0 <= j < n implies value[j] != ',' by {
        assert(value[j] == first[j]);
    }
    crate::text::lemma_position_is(value, ',', n);
    assert(value.take(n) =~= first);
    assert(value.skip(n + 1) =~= rest);
    law_trimmed_text_is_kept(a, dir, b);
    let pieces = split(rest, ',').map_values(trimmed);
    assert(split(value, ',') == seq![first] + split(rest, ','));
    assert(split(value, ',').map_values(trimmed) =~= seq![dir] + pieces);
    Seq::filter_distributes_over_add(seq![dir], pieces, named);
    let none = Seq::<Seq<char>>::empty();
    none.lemma_filter_push(dir, named);
    assert(none.push(dir) =~= seq![dir]);
    reveal(Seq::filter);
    assert(none.filter(named) =~= none);
    assert(none + pieces.filter(named) =~= pieces.filter(named));
    crate::text::lemma_position_is(first, ',', n);
    assert(split(first, ',').map_values(trimmed) =~= seq![dir]);
}

/// Where a file includes others, the lines before it count first, then the files that it
/// includes, and then the lines behind it.
pub proof fn law_included_files_come_in_their_place(
    lines: Seq<Seq<char>>,
    pos: int,
    files: Vec<ConfigSource>,
    later: Seq<Vec<ConfigSource>>,
    c: ConfigView,
)
    requires
        0 <= pos < lines.len(),
    ensures
        ({
            let step = read_lines(lines, pos, c);
            &&& step.dirs is Some ==> merged(lines, pos, seq![files] + later, c) == merged(
                lines,
                step.next,
                later,
                files_merged(files@, step.config),
            )
            &&& step.dirs is None ==> merged(lines, pos, later, c) == step.config
        }),
{
    let included = seq![files] + later;
    assert(included.subrange(1, included.len() as int) =~= later);
    assert(included[0] == files);
}

} // verus!
