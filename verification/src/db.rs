//! The database of downloads: how it is reached, and what is written to it.
use crate::clock::{current_time, is_stamp, is_time_after};
use crate::download::{auth_view, or_empty, AuthInfo, AuthView};
use crate::init::{Config, ConfigView};
use crate::json::{json_compact, reads_as, write_compact};
use crate::mailinfo::{auth_tree, auth_value, lemma_auth_is_plain};
use crate::text::{decimal, decimal_text, opt_view, same_text};
use vstd::prelude::*;

verus! {

/// Makes the table of downloads.
pub const CREATE_TABLE_SQL: &'static str = r#"
CREATE TABLE IF NOT EXISTS download_tbl (
    uuid          VARCHAR(36)  PRIMARY KEY,
    download_count BIGINT      NOT NULL DEFAULT 0,
    expires_at    TEXT         NOT NULL,
    zip_password  TEXT,
    url           TEXT         NOT NULL,
    auth_mode     TEXT         NOT NULL,
    auth_info     TEXT,
    expire_hours  BIGINT       NOT NULL,
    max_downloads BIGINT       NOT NULL,
    created_at    TEXT         NOT NULL
);
"#;

/// Makes the table of tokens in SQLite.
pub const CREATE_DOWNLOAD_TOKENS_SQLITE: &'static str = r#"
CREATE TABLE IF NOT EXISTS download_tokens (
    id                INTEGER     PRIMARY KEY AUTOINCREMENT,
    uuid              VARCHAR(36) NOT NULL UNIQUE,
    filename          TEXT        NOT NULL,
    created_at        TEXT        NOT NULL,
    expire_at         TEXT        NOT NULL,
    max_downloads     INTEGER     NOT NULL DEFAULT 1,
    current_downloads INTEGER     NOT NULL DEFAULT 0
);
"#;

/// Makes the table of tokens in MySQL.
pub const CREATE_DOWNLOAD_TOKENS_MYSQL: &'static str = r#"
CREATE TABLE IF NOT EXISTS download_tokens (
    id                INT AUTO_INCREMENT PRIMARY KEY,
    uuid              VARCHAR(36) NOT NULL UNIQUE,
    filename          TEXT        NOT NULL,
    created_at        DATETIME    NOT NULL,
    expire_at         DATETIME    NOT NULL,
    max_downloads     BIGINT      NOT NULL DEFAULT 1,
    current_downloads BIGINT      NOT NULL DEFAULT 0
);
"#;

/// Makes the table of tokens in PostgreSQL.
pub const CREATE_DOWNLOAD_TOKENS_POSTGRES: &'static str = r#"
CREATE TABLE IF NOT EXISTS download_tokens (
    id                SERIAL      PRIMARY KEY,
    uuid              VARCHAR(36) NOT NULL UNIQUE,
    filename          TEXT        NOT NULL,
    created_at        TIMESTAMP   NOT NULL,
    expire_at         TIMESTAMP   NOT NULL,
    max_downloads     BIGINT      NOT NULL DEFAULT 1,
    current_downloads BIGINT      NOT NULL DEFAULT 0
);
"#;

/// Adds a download in SQLite, or sets when it expires if it is there.
pub const INSERT_SQLITE: &'static str = "INSERT INTO download_tbl (uuid, download_count, expires_at, zip_password, url, auth_mode, auth_info, expire_hours, max_downloads, created_at) VALUES (?1, 0, ?2, ?3, ?4, ?5, ?6, ?7, ?8, ?9) ON CONFLICT(uuid) DO UPDATE SET expires_at = excluded.expires_at";

/// Adds a download in MySQL, or sets when it expires if it is there.
pub const INSERT_MYSQL: &'static str = "INSERT INTO download_tbl (uuid, download_count, expires_at, zip_password, url, auth_mode, auth_info, expire_hours, max_downloads, created_at) VALUES (:uuid, 0, :expires_at, :zip_password, :url, :auth_mode, :auth_info, :expire_hours, :max_downloads, :created_at) ON DUPLICATE KEY UPDATE expires_at = VALUES(expires_at)";

/// Adds a download in PostgreSQL, or sets when it expires if it is there.
pub const INSERT_POSTGRES: &'static str = "INSERT INTO download_tbl (uuid, download_count, expires_at, zip_password, url, auth_mode, auth_info, expire_hours, max_downloads, created_at) VALUES ($1, 0, $2, $3, $4, $5, $6, $7, $8, $9) ON CONFLICT (uuid) DO UPDATE SET expires_at = EXCLUDED.expires_at";

/// What is recorded of a download.
#[derive(Debug, Clone)]
pub struct DownloadRecord {
    /// The name of the download.
    pub uuid: String,
    /// When it expires.
    pub expires_at: String,
    /// The password of its archive.
    pub zip_password: Option<String>,
    /// The link to it.
    pub url: String,
    /// The mode of authentication.
    pub auth_mode: String,
    /// The user who may download, in basic authentication.
    pub auth_info: Option<AuthInfo>,
    /// For how many hours it may be downloaded.
    pub expire_hours: i64,
    /// How often it may be downloaded.
    pub max_downloads: i64,
}

/// What is recorded of a download.
#[verifier::ext_equal]
pub struct RecordView {
    pub uuid: Seq<char>,
    pub expires_at: Seq<char>,
    pub zip_password: Option<Seq<char>>,
    pub url: Seq<char>,
    pub auth_mode: Seq<char>,
    pub auth_info: Option<AuthView>,
    pub expire_hours: i64,
    pub max_downloads: i64,
}

impl View for DownloadRecord {
    type V = RecordView;

    open spec fn view(&self) -> RecordView {
        RecordView {
            uuid: self.uuid@,
            expires_at: self.expires_at@,
            zip_password: opt_view(self.zip_password),
            url: self.url@,
            auth_mode: self.auth_mode@,
            auth_info: auth_view(self.auth_info),
            expire_hours: self.expire_hours,
            max_downloads: self.max_downloads,
        }
    }
}

/// A text, or another where there is none.
pub open spec fn text_or_other(s: Option<Seq<char>>, other: Seq<char>) -> Seq<char> {
    match s {
        Some(s) => s,
        None => other,
    }
}

/// A text, or another where there is none.
fn text_or<'a>(s: &'a Option<String>, other: &'a str) -> (r: &'a str)
    ensures
        r@ == text_or_other(opt_view(*s), other@),
{
    match s {
        Some(s) => s.as_str(),
        None => other,
    }
}

/// The port of a database, or another where none is set.
pub open spec fn port_or(config: ConfigView, other: u16) -> u16 {
    match config.database_port {
        Some(port) => port,
        None => other,
    }
}

/// The address under which MySQL is reached.
pub open spec fn mysql_url(config: ConfigView) -> Seq<char> {
    "mysql://"@ + or_empty(config.database_user) + ":"@ + or_empty(config.database_password) + "@"@
        + text_or_other(config.database_host, "localhost"@) + ":"@ + decimal(
        port_or(config, 3306) as nat,
    ) + "/"@ + or_empty(config.database_name)
}

/// The settings with which PostgreSQL is reached.
pub open spec fn postgres_settings(config: ConfigView) -> Seq<char> {
    "host="@ + text_or_other(config.database_host, "localhost"@) + " port="@ + decimal(
        port_or(config, 5432) as nat,
    ) + " user="@ + or_empty(config.database_user) + " password="@ + or_empty(
        config.database_password,
    ) + " dbname="@ + or_empty(config.database_name)
}

/// The address under which MySQL is reached.
pub fn make_mysql_url(config: &Config) -> (r: String)
    ensures
        r@ == mysql_url(config@),
{
    let port: u16 = match config.database_port {
        Some(port) => port,
        None => 3306,
    };
    proof {
        reveal_strlit("");
        assert(""@ =~= Seq::<char>::empty());
    }
    let mut url = "mysql://".to_owned();
    url.push_str(text_or(&config.database_user, ""));
    url.push_str(":");
    url.push_str(text_or(&config.database_password, ""));
    url.push_str("@");
    url.push_str(text_or(&config.database_host, "localhost"));
    url.push_str(":");
    url.push_str(decimal_text(port as u64).as_str());
    url.push_str("/");
    url.push_str(text_or(&config.database_name, ""));
    url
}

/// The settings with which PostgreSQL is reached.
pub fn make_postgres_settings(config: &Config) -> (r: String)
    ensures
        r@ == postgres_settings(config@),
{
    let port: u16 = match config.database_port {
        Some(port) => port,
        None => 5432,
    };
    proof {
        reveal_strlit("");
        assert(""@ =~= Seq::<char>::empty());
    }
    let mut settings = "host=".to_owned();
    settings.push_str(text_or(&config.database_host, "localhost"));
    settings.push_str(" port=");
    settings.push_str(decimal_text(port as u64).as_str());
    settings.push_str(" user=");
    settings.push_str(text_or(&config.database_user, ""));
    settings.push_str(" password=");
    settings.push_str(text_or(&config.database_password, ""));
    settings.push_str(" dbname=");
    settings.push_str(text_or(&config.database_name, ""));
    settings
}

/// A database, as the settings name it.
pub enum Database {
    /// SQLite, in a file.
    Sqlite(String),
    /// SQLite, without a file.
    NoFile,
    /// MySQL, under an address.
    Mysql(String),
    /// PostgreSQL, with settings.
    Postgres(String),
    /// None that is known.
    Unknown,
}

/// A database, as the settings name it.
#[verifier::ext_equal]
pub enum DatabaseView {
    Sqlite(Seq<char>),
    NoFile,
    Mysql(Seq<char>),
    Postgres(Seq<char>),
    Unknown,
}

impl View for Database {
    type V = DatabaseView;

    open spec fn view(&self) -> DatabaseView {
        match self {
            Database::Sqlite(path) => DatabaseView::Sqlite(path@),
            Database::NoFile => DatabaseView::NoFile,
            Database::Mysql(url) => DatabaseView::Mysql(url@),
            Database::Postgres(settings) => DatabaseView::Postgres(settings@),
            Database::Unknown => DatabaseView::Unknown,
        }
    }
}

/// The database that the settings name.
pub open spec fn database_of(config: ConfigView) -> DatabaseView {
    if config.database_type == "sqlite"@ {
        match config.database_path {
            Some(path) => DatabaseView::Sqlite(path),
            None => DatabaseView::NoFile,
        }
    } else if config.database_type == "mysql"@ {
        DatabaseView::Mysql(mysql_url(config))
    } else if config.database_type == "postgres"@ {
        DatabaseView::Postgres(postgres_settings(config))
    } else {
        DatabaseView::Unknown
    }
}

/// The database that the settings name.
pub fn find_database(config: &Config) -> (r: Database)
    ensures
        r@ == database_of(config@),
{
    if same_text(config.database_type.as_str(), "sqlite") {
        match &config.database_path {
            Some(path) => Database::Sqlite(path.as_str().to_owned()),
            None => Database::NoFile,
        }
    } else if same_text(config.database_type.as_str(), "mysql") {
        Database::Mysql(make_mysql_url(config))
    } else if same_text(config.database_type.as_str(), "postgres") {
        Database::Postgres(make_postgres_settings(config))
    } else {
        Database::Unknown
    }
}

/// What is done to prepare a database.
pub struct InitPlan {
    /// The database.
    pub database: Database,
    /// The statements that are run, in order.
    pub statements: Vec<&'static str>,
    /// The user and the group to whom files of the database belong.
    pub owner: String,
}

/// The statements that prepare a database, in order: they make the tables that are not
/// there yet.
pub open spec fn init_statements(config: ConfigView) -> Seq<Seq<char>> {
    match database_of(config) {
        DatabaseView::Sqlite(_) => seq![CREATE_TABLE_SQL@, CREATE_DOWNLOAD_TOKENS_SQLITE@],
        DatabaseView::Mysql(_) => seq![CREATE_TABLE_SQL@, CREATE_DOWNLOAD_TOKENS_MYSQL@],
        DatabaseView::Postgres(_) => seq![CREATE_TABLE_SQL@, CREATE_DOWNLOAD_TOKENS_POSTGRES@],
        _ => seq![],
    }
}

/// The texts of statements.
pub open spec fn statement_views(v: Seq<&'static str>) -> Seq<Seq<char>> {
    v.map_values(|s: &'static str| s@)
}

/// What is done to prepare the database that the settings name.
pub fn init_db(config: &Config) -> (r: InitPlan)
    ensures
        r.database@ == database_of(config@),
        statement_views(r.statements@) == init_statements(config@),
        r.owner@ == config@.milter_user + ":"@ + config@.milter_group,
{
    let database = find_database(config);
    let mut statements: Vec<&'static str> = Vec::new();
    match &database {
        Database::Sqlite(_) => {
            statements.push(CREATE_TABLE_SQL);
            statements.push(CREATE_DOWNLOAD_TOKENS_SQLITE);
        },
        Database::Mysql(_) => {
            statements.push(CREATE_TABLE_SQL);
            statements.push(CREATE_DOWNLOAD_TOKENS_MYSQL);
        },
        Database::Postgres(_) => {
            statements.push(CREATE_TABLE_SQL);
            statements.push(CREATE_DOWNLOAD_TOKENS_POSTGRES);
        },
        _ => {},
    }
    proof {
        assert(statement_views(statements@) =~= init_statements(config@));
    }
    let mut owner = config.milter_user.as_str().to_owned();
    owner.push_str(":");
    owner.push_str(config.milter_group.as_str());
    InitPlan { database, statements, owner }
}

/// A row of the table of downloads.
pub struct Row {
    /// The name of the download.
    pub uuid: String,
    /// When it expires.
    pub expires_at: String,
    /// The password of its archive.
    pub zip_password: Option<String>,
    /// The link to it.
    pub url: String,
    /// The mode of authentication.
    pub auth_mode: String,
    /// The user who may download, as JSON.
    pub auth_info: Option<String>,
    /// For how many hours it may be downloaded.
    pub expire_hours: i64,
    /// How often it may be downloaded.
    pub max_downloads: i64,
    /// When the row was made.
    pub created_at: String,
}

/// A row of the table of downloads.
#[verifier::ext_equal]
pub struct RowView {
    pub uuid: Seq<char>,
    pub expires_at: Seq<char>,
    pub zip_password: Option<Seq<char>>,
    pub url: Seq<char>,
    pub auth_mode: Seq<char>,
    pub auth_info: Option<Seq<char>>,
    pub expire_hours: i64,
    pub max_downloads: i64,
    pub created_at: Seq<char>,
}

impl View for Row {
    type V = RowView;

    open spec fn view(&self) -> RowView {
        RowView {
            uuid: self.uuid@,
            expires_at: self.expires_at@,
            zip_password: opt_view(self.zip_password),
            url: self.url@,
            auth_mode: self.auth_mode@,
            auth_info: opt_view(self.auth_info),
            expire_hours: self.expire_hours,
            max_downloads: self.max_downloads,
            created_at: self.created_at@,
        }
    }
}

/// The row of a record in a database: without a user there is no text of one but in MySQL,
/// which has an empty one.
pub open spec fn row_of(
    record: RecordView,
    database: DatabaseView,
    created_at: Seq<char>,
) -> RowView {
    RowView {
        uuid: record.uuid,
        expires_at: record.expires_at,
        zip_password: record.zip_password,
        url: record.url,
        auth_mode: record.auth_mode,
        auth_info: match record.auth_info {
            Some(user) => Some(json_compact(auth_tree(user))),
            None => if database is Mysql {
                Some(seq![])
            } else {
                None
            },
        },
        expire_hours: record.expire_hours,
        max_downloads: record.max_downloads,
        created_at: created_at,
    }
}

/// What is written to a database.
pub struct InsertPlan {
    /// The database.
    pub database: Database,
    /// The statement that is run with the row, if any is.
    pub statement: Option<&'static str>,
    /// The row.
    pub row: Row,
}

/// The statement that adds a download to a database, if there is one.
pub open spec fn insert_statement(database: DatabaseView) -> Option<Seq<char>> {
    match database {
        DatabaseView::Sqlite(_) => Some(INSERT_SQLITE@),
        DatabaseView::Mysql(_) => Some(INSERT_MYSQL@),
        DatabaseView::Postgres(_) => Some(INSERT_POSTGRES@),
        _ => None,
    }
}

/// What is written to the database that the settings name when a download is recorded at
/// some time. The text of a user says the user as JSON.
pub fn plan_insert(config: &Config, record: &DownloadRecord, created_at: &str) -> (r: InsertPlan)
    ensures
        r.database@ == database_of(config@),
        r.row@ == row_of(record@, database_of(config@), created_at@),
        r.row.uuid@ == record.uuid@,
        r.row.expires_at@ == record.expires_at@,
        opt_view(r.row.zip_password) == opt_view(record.zip_password),
        r.row.url@ == record.url@,
        r.row.auth_mode@ == record.auth_mode@,
        r.row.expire_hours == record.expire_hours,
        r.row.max_downloads == record.max_downloads,
        r.row.created_at@ == created_at@,
        record.auth_info matches Some(user) ==> reads_as(
            r.row.auth_info->Some_0@,
            auth_tree((user.username@, user.password@)),
        ),
        match r.statement {
            Some(s) => insert_statement(database_of(config@)) == Some(s@),
            None => insert_statement(database_of(config@)) is None,
        },
{
    let database = find_database(config);
    let auth_info = match &record.auth_info {
        Some(user) => {
            let v = auth_value(user);
            proof {
                lemma_auth_is_plain((user.username@, user.password@), 100);
            }
            Some(write_compact(&v))
        },
        None => match &database {
            Database::Mysql(_) => {
                let nothing = String::new();
                proof {
                    assert(nothing@ =~= Seq::<char>::empty());
                }
                Some(nothing)
            },
            _ => None,
        },
    };
    let statement = match &database {
        Database::Sqlite(_) => Some(INSERT_SQLITE),
        Database::Mysql(_) => Some(INSERT_MYSQL),
        Database::Postgres(_) => Some(INSERT_POSTGRES),
        _ => None,
    };
    let zip_password = match &record.zip_password {
        Some(p) => Some(p.as_str().to_owned()),
        None => None,
    };
    let row = Row {
        uuid: record.uuid.as_str().to_owned(),
        expires_at: record.expires_at.as_str().to_owned(),
        zip_password,
        url: record.url.as_str().to_owned(),
        auth_mode: record.auth_mode.as_str().to_owned(),
        auth_info,
        expire_hours: record.expire_hours,
        max_downloads: record.max_downloads,
        created_at: created_at.to_owned(),
    };
    proof {
        assert(row@ =~= row_of(record@, database_of(config@), created_at@));
    }
    InsertPlan { database, statement, row }
}

/// What is written to the database that the settings name when a download is recorded
/// now.
pub fn insert_download_record(config: &Config, record: &DownloadRecord) -> (r: InsertPlan)
    ensures
        is_stamp(r.row@.created_at),
        is_time_after(Some(r.row@.created_at), 0),
        r.database@ == database_of(config@),
        r.row@ == row_of(record@, database_of(config@), r.row@.created_at),
        r.row.uuid@ == record.uuid@,
        r.row.expires_at@ == record.expires_at@,
        opt_view(r.row.zip_password) == opt_view(record.zip_password),
        r.row.url@ == record.url@,
        r.row.auth_mode@ == record.auth_mode@,
        r.row.expire_hours == record.expire_hours,
        r.row.max_downloads == record.max_downloads,
        record.auth_info matches Some(user) ==> reads_as(
            r.row.auth_info->Some_0@,
            auth_tree((user.username@, user.password@)),
        ),
        match r.statement {
            Some(s) => insert_statement(database_of(config@)) == Some(s@),
            None => insert_statement(database_of(config@)) is None,
        },
{
    let now = current_time();
    plan_insert(config, record, now.as_str())
}

/// Each column of a row holds what the record has under the name of the column, whatever
/// the database, and a record without a user leaves no user in the row.
pub proof fn law_columns_hold_their_fields(
    record: RecordView,
    database: DatabaseView,
    created_at: Seq<char>,
)
    ensures
        ({
            let row = row_of(record, database, created_at);
            &&& row.uuid == record.uuid
            &&& row.expires_at == record.expires_at
            &&& row.zip_password == record.zip_password
            &&& row.url == record.url
            &&& row.auth_mode == record.auth_mode
            &&& row.expire_hours == record.expire_hours
            &&& row.max_downloads == record.max_downloads
            &&& row.created_at == created_at
            &&& record.auth_info is Some ==> row.auth_info is Some
            &&& record.auth_info is None ==> or_empty(row.auth_info).len() == 0
            &&& record.auth_info is None ==> (row.auth_info is Some <==> database is Mysql)
            &&& record.auth_info matches Some(user) ==> row.auth_info == Some(
                json_compact(auth_tree(user)),
            )
        }),
{
}

/// Downloads that differ in anything but their users have different rows, and the database
/// has no say in any column but that of a user that there is none of.
pub proof fn law_rows_tell_records_apart(
    a: RecordView,
    b: RecordView,
    one: DatabaseView,
    other: DatabaseView,
    created_at: Seq<char>,
)
    ensures
        row_of(a, one, created_at) == row_of(b, one, created_at) ==> a == (RecordView {
            auth_info: a.auth_info,
            ..b
        }),
        a.auth_info is Some ==> row_of(a, one, created_at) == row_of(a, other, created_at),
{
    if row_of(a, one, created_at) == row_of(b, one, created_at) {
        assert(a =~= RecordView { auth_info: a.auth_info, ..b });
    }
}

/// The database is the one that the type in the settings names, and it is reached by the
/// settings that are called after what they stand for: a host, a port, a user, a password and
/// the name of the database, or the file of a database without a server.
pub proof fn law_database_is_reached_as_set(
    config: ConfigView,
    path: Seq<char>,
    host: Seq<char>,
    port: u16,
    user: Seq<char>,
    password: Seq<char>,
    name: Seq<char>,
)
    ensures
        ({
            let c = ConfigView {
                database_path: Some(path),
                database_host: Some(host),
                database_port: Some(port),
                database_user: Some(user),
                database_password: Some(password),
                database_name: Some(name),
                ..config
            };
            let bare = ConfigView { database_host: None, database_port: None, ..c };
            &&& config.database_type == "sqlite"@ ==> database_of(c) == DatabaseView::Sqlite(path)
            &&& config.database_type == "mysql"@ ==> database_of(c) == DatabaseView::Mysql(
                "mysql://"@ + user + ":"@ + password + "@"@ + host + ":"@ + decimal(port as nat)
                    + "/"@ + name,
            )
            &&& config.database_type == "mysql"@ ==> database_of(bare) == DatabaseView::Mysql(
                "mysql://"@ + user + ":"@ + password + "@"@ + "localhost"@ + ":"@ + decimal(3306)
                    + "/"@ + name,
            )
            &&& config.database_type == "postgres"@ ==> database_of(c) == DatabaseView::Postgres(
                "host="@ + host + " port="@ + decimal(port as nat) + " user="@ + user
                    + " password="@ + password + " dbname="@ + name,
            )
            &&& config.database_type == "postgres"@ ==> database_of(bare)
                == DatabaseView::Postgres(
                "host="@ + "localhost"@ + " port="@ + decimal(5432) + " user="@ + user
                    + " password="@ + password + " dbname="@ + name,
            )
            &&& config.database_type == "sqlite"@ && config.database_path is None ==> database_of(
                config,
            ) is NoFile
            &&& config.database_type != "sqlite"@ && config.database_type != "mysql"@
                && config.database_type != "postgres"@ ==> database_of(config) is Unknown
        }),
{
    lemma_types_differ();
}

/// The names of the types of databases differ.
proof fn lemma_types_differ()
    ensures
        "sqlite"@ != "mysql"@,
        "sqlite"@ != "postgres"@,
        "mysql"@ != "postgres"@,
{
    reveal_strlit("sqlite");
    reveal_strlit("mysql");
    reveal_strlit("postgres");
    assert("sqlite"@.len() == 6 && "mysql"@.len() == 5 && "postgres"@.len() == 8);
}

/// Every database that is known gets both tables before anything is recorded in it, and a
/// download is recorded under the names of the columns, in their order, with a count of zero;
/// of one that is known already only the time at which it expires is changed.
pub proof fn law_statements_fit_the_database(config: ConfigView)
    ensures
        ({
            let database = database_of(config);
            let known = database is Sqlite || database is Mysql || database is Postgres;
            &&& known <==> insert_statement(database) is Some
            &&& known <==> init_statements(config).len() == 2
            &&& known ==> init_statements(config)[0] == CREATE_TABLE_SQL@
            &&& !known ==> init_statements(config).len() == 0
            &&& database is Sqlite ==> init_statements(config)[1] == CREATE_DOWNLOAD_TOKENS_SQLITE@
            &&& database is Mysql ==> init_statements(config)[1] == CREATE_DOWNLOAD_TOKENS_MYSQL@
            &&& database is Postgres ==> init_statements(config)[1]
                == CREATE_DOWNLOAD_TOKENS_POSTGRES@
            &&& database is Sqlite ==> insert_statement(database) == Some(
                "INSERT INTO download_tbl (uuid, download_count, expires_at, zip_password, url, auth_mode, auth_info, expire_hours, max_downloads, created_at) VALUES (?1, 0, ?2, ?3, ?4, ?5, ?6, ?7, ?8, ?9) ON CONFLICT(uuid) DO UPDATE SET expires_at = excluded.expires_at"@,
            )
            &&& database is Mysql ==> insert_statement(database) == Some(
                "INSERT INTO download_tbl (uuid, download_count, expires_at, zip_password, url, auth_mode, auth_info, expire_hours, max_downloads, created_at) VALUES (:uuid, 0, :expires_at, :zip_password, :url, :auth_mode, :auth_info, :expire_hours, :max_downloads, :created_at) ON DUPLICATE KEY UPDATE expires_at = VALUES(expires_at)"@,
            )
            &&& database is Postgres ==> insert_statement(database) == Some(
                "INSERT INTO download_tbl (uuid, download_count, expires_at, zip_password, url, auth_mode, auth_info, expire_hours, max_downloads, created_at) VALUES ($1, 0, $2, $3, $4, $5, $6, $7, $8, $9) ON CONFLICT (uuid) DO UPDATE SET expires_at = EXCLUDED.expires_at"@,
            )
        }),
{
}

} // verus!
