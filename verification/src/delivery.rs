//! What a message leaves behind: a download with its link, its record and its note.
use crate::clock::{
    current_time, is_in_reach, is_offset, is_out_of_reach, is_stamp, is_time_after, is_uuid_v7,
    new_uuid, stamp_after, stamp_at, time_after,
};
use crate::db::{DownloadRecord, RecordView};
use crate::download::{
    answer_link, auth_view, law_token_is_found_again, make_link, make_token, make_token_link,
    or_empty, plain_link, query_param, requested_key, requested_user, text_or_empty, token_link,
    token_text, AuthInfo, AuthView, GenerateRequest,
};
use crate::init::{Config, ConfigView};
use crate::mailinfo::{
    info_tree, law_page_shows_what_was_noted, page_of, saved_views, DownloadMeta, MailInfo,
    MailInfoView, SavedFile, SavedView, ZipInfo,
};
use crate::page::{
    are_marks, fill_template, filled, filling_views, is_mark, law_placeholder_gives_its_text, Filling,
};
use crate::parse::{attachment_views, HandledMail, HandledView};
use crate::text::{
    decimal, decimal_text, law_decimal_read_back, lower, lower_text, opt_view, same_text,
};
use crate::zipper::{
    are_small_files, can_pack, create_zip_from_files, file_views, generate_password, has_strength,
    reads_back, PasswordStrength, SYMBOLS,
};
use vstd::prelude::*;
use vstd::slice::slice_to_vec;
use vstd::utf8::encode_utf8;

verus! {

/// The mode of authentication that a setting names; one that is not known is `minimal`.
pub open spec fn known_mode(mode: Seq<char>) -> Seq<char> {
    let m = lower(mode);
    if m == "token"@ || m == "basic"@ || m == "minimal"@ {
        m
    } else {
        "minimal"@
    }
}

/// The mode of authentication that a setting names.
pub fn canonical_auth_mode(mode: &str) -> (r: String)
    ensures
        r@ == known_mode(mode@),
{
    let m = lower_text(mode);
    if same_text(m.as_str(), "token") || same_text(m.as_str(), "basic") || same_text(
        m.as_str(),
        "minimal",
    ) {
        m
    } else {
        "minimal".to_owned()
    }
}

/// The link to a download under the settings: with a token in the mode `token`, if there
/// is a key.
pub open spec fn link_of(config: ConfigView, uuid: Seq<char>) -> Seq<char> {
    match config.token_auth_key {
        Some(key) if known_mode(config.download_auth_mode) == "token"@ => token_link(
            config.base_url,
            uuid,
            token_text(key, uuid, config.token_auth_type),
        ),
        _ => plain_link(config.base_url, uuid),
    }
}

/// The link to a download under the settings.
pub fn download_link(config: &Config, uuid: &str) -> (r: String)
    ensures
        r@ == link_of(config@, uuid@),
{
    let mode = canonical_auth_mode(config.download_auth_mode.as_str());
    if let Some(key) = &config.token_auth_key {
        if same_text(mode.as_str(), "token") {
            let token = make_token(key.as_str(), uuid, &config.token_auth_type);
            return make_token_link(config.base_url.as_str(), uuid, token.as_str());
        }
    }
    make_link(config.base_url.as_str(), uuid)
}

/// The user who may download under the settings, in the mode `basic`.
pub open spec fn user_of(config: ConfigView) -> Option<AuthView> {
    if known_mode(config.download_auth_mode) == "basic"@ {
        Some((or_empty(config.basic_auth_user), or_empty(config.basic_auth_password)))
    } else {
        None
    }
}

/// The user who may download under the settings.
pub fn download_user(config: &Config) -> (r: Option<AuthInfo>)
    ensures
        auth_view(r) == user_of(config@),
{
    let mode = canonical_auth_mode(config.download_auth_mode.as_str());
    if same_text(mode.as_str(), "basic") {
        Some(
            AuthInfo {
                username: text_or_empty(&config.basic_auth_user),
                password: text_or_empty(&config.basic_auth_password),
            },
        )
    } else {
        None
    }
}

/// A number of 64 bits, read as one with a sign.
pub open spec fn signed(n: u64) -> int {
    if n < 0x8000_0000_0000_0000 {
        n as int
    } else {
        n - 0x1_0000_0000_0000_0000
    }
}

/// A number of 64 bits, read as one with a sign.
pub fn to_signed(n: u64) -> (r: i64)
    ensures
        r == signed(n),
{
    if n < 0x8000_0000_0000_0000 {
        n as i64
    } else {
        -((0xFFFF_FFFF_FFFF_FFFF - n) as i64) - 1
    }
}

/// After how many hours a download expires: as many as are set, or a hundred years of 52
/// weeks where none are.
pub open spec fn hours_to_live(expire_hours: u64) -> int {
    if expire_hours == 0 {
        52int * 100 * 7 * 24
    } else {
        signed(expire_hours)
    }
}

/// After how many hours a download expires.
pub fn lifetime_hours(expire_hours: u64) -> (r: i64)
    ensures
        r == hours_to_live(expire_hours),
{
    if expire_hours == 0 {
        873_600
    } else {
        to_signed(expire_hours)
    }
}

/// When a download expires that is made at a time, in seconds since the start of 1970, as
/// it is written at a distance from universal time, or nothing if the calendar has no such
/// time.
pub fn expiry_at(expire_hours: u64, seconds: i64, offset: i32) -> (r: Option<String>)
    requires
        is_offset(offset as int),
    ensures
        opt_view(r) == stamp_after(seconds as int, hours_to_live(expire_hours), offset as int),
{
    stamp_at(seconds, lifetime_hours(expire_hours), offset)
}

/// When a download expires that is made now, or nothing if the calendar has no such time.
/// Where the calendar ends, as seen from now, is left to the clock.
pub fn expiry(expire_hours: u64) -> (r: Option<String>)
    ensures
        is_time_after(opt_view(r), hours_to_live(expire_hours)),
        r matches Some(s) ==> is_stamp(s@),
        is_in_reach(hours_to_live(expire_hours)) ==> r is Some,
        is_out_of_reach(hours_to_live(expire_hours)) ==> r is None,
{
    time_after(lifetime_hours(expire_hours))
}

/// The script that counts downloads, where there is no other.
pub open spec fn builtin_counter() -> Seq<char> {
    r#"<?php
$uuid = $_GET["uuid"] ?? "";
if ($uuid === "") exit;

$dbtype = "{{db_type}}";
if ($dbtype === "sqlite") {
    $pdo = new PDO("sqlite:{{db_path}}");
} elseif ($dbtype === "mysql") {
    $pdo = new PDO("mysql:host={{db_host}};dbname={{db_name}};charset=utf8mb4", "{{db_user}}", "{{db_password}}");
} elseif ($dbtype === "postgres") {
    $pdo = new PDO("pgsql:host={{db_host}};port={{db_port}};dbname={{db_name}}", "{{db_user}}", "{{db_password}}");
}

$stmt = $pdo->prepare("UPDATE download_tbl SET download_count = download_count + 1 WHERE uuid = ?");
$stmt->execute([$uuid]);
?>"#@
}

/// What stands in the placeholders of the script that counts downloads, in the order in
/// which they are replaced.
pub open spec fn counter_fillings(config: ConfigView) -> Seq<(Seq<char>, Seq<char>)> {
    seq![
        ("{{db_type}}"@, config.database_type),
        ("{{db_path}}"@, or_empty(config.database_path)),
        ("{{db_host}}"@, or_empty(config.database_host)),
        (
            "{{db_port}}"@,
            match config.database_port {
                Some(port) => decimal(port as nat),
                None => seq![],
            },
        ),
        ("{{db_user}}"@, or_empty(config.database_user)),
        ("{{db_password}}"@, or_empty(config.database_password)),
        ("{{db_name}}"@, or_empty(config.database_name)),
    ]
}

/// The script that counts downloads.
pub open spec fn counter_text(config: ConfigView, template: Option<Seq<char>>) -> Seq<char> {
    filled(
        match template {
            Some(t) => t,
            None => builtin_counter(),
        },
        counter_fillings(config),
    )
}

/// The script that counts downloads, from a template or from the one that is built in.
pub fn make_counter(config: &Config, template: &Option<String>) -> (r: String)
    ensures
        r@ == counter_text(config@, opt_view(*template)),
{
    let port = match config.database_port {
        Some(port) => decimal_text(port as u64),
        None => String::new(),
    };
    proof {
        if config.database_port is None {
            assert(port@ =~= Seq::<char>::empty());
        }
    }
    let mut fillings: Vec<Filling> = Vec::new();
    fillings.push(
        Filling { mark: "{{db_type}}", text: config.database_type.as_str().to_owned() },
    );
    fillings.push(Filling { mark: "{{db_path}}", text: text_or_empty(&config.database_path) });
    fillings.push(Filling { mark: "{{db_host}}", text: text_or_empty(&config.database_host) });
    fillings.push(Filling { mark: "{{db_port}}", text: port });
    fillings.push(Filling { mark: "{{db_user}}", text: text_or_empty(&config.database_user) });
    fillings.push(
        Filling { mark: "{{db_password}}", text: text_or_empty(&config.database_password) },
    );
    fillings.push(Filling { mark: "{{db_name}}", text: text_or_empty(&config.database_name) });
    proof {
        assert(filling_views(fillings@) =~= counter_fillings(config@));
    }
    let builtin = r#"<?php
$uuid = $_GET["uuid"] ?? "";
if ($uuid === "") exit;

$dbtype = "{{db_type}}";
if ($dbtype === "sqlite") {
    $pdo = new PDO("sqlite:{{db_path}}");
} elseif ($dbtype === "mysql") {
    $pdo = new PDO("mysql:host={{db_host}};dbname={{db_name}};charset=utf8mb4", "{{db_user}}", "{{db_password}}");
} elseif ($dbtype === "postgres") {
    $pdo = new PDO("pgsql:host={{db_host}};port={{db_port}};dbname={{db_name}}", "{{db_user}}", "{{db_password}}");
}

$stmt = $pdo->prepare("UPDATE download_tbl SET download_count = download_count + 1 WHERE uuid = ?");
$stmt->execute([$uuid]);
?>"#;
    let text = match template {
        Some(t) => t.as_str(),
        None => builtin,
    };
    fill_template(text, &fillings)
}

/// The rules of a directory until its page is written.
pub open spec fn first_rules(config: ConfigView) -> Seq<char> {
    let deny = "<Files \"mailinfo.txt\">\n    Require all denied\n</Files>\n"@;
    if known_mode(config.download_auth_mode) == "basic"@ {
        deny
            + "\nAuthType Basic\nAuthName \"MilterSeparator\"\nAuthUserFile .htpasswd\nRequire valid-user\n"@
    } else {
        deny
    }
}

/// The rules of a directory until its page is written.
pub fn make_first_rules(config: &Config) -> (r: String)
    ensures
        r@ == first_rules(config@),
{
    let mut rules = "<Files \"mailinfo.txt\">\n    Require all denied\n</Files>\n".to_owned();
    let mode = canonical_auth_mode(config.download_auth_mode.as_str());
    if same_text(mode.as_str(), "basic") {
        rules.push_str(
            "\nAuthType Basic\nAuthName \"MilterSeparator\"\nAuthUserFile .htpasswd\nRequire valid-user\n",
        );
    }
    rules
}

/// The strength of passwords that a setting names.
pub open spec fn zip_strength(s: crate::init::PasswordStrength) -> PasswordStrength {
    match s {
        crate::init::PasswordStrength::Low => PasswordStrength::Low,
        crate::init::PasswordStrength::Medium => PasswordStrength::Medium,
        crate::init::PasswordStrength::High => PasswordStrength::High,
    }
}

/// A setting names the strength that is called as it is itself: the weakest, the one in the
/// middle or the strongest.
pub proof fn law_settings_name_their_strength(s: crate::init::PasswordStrength)
    ensures
        zip_strength(s) is Low <==> s is Low,
        zip_strength(s) is Medium <==> s is Medium,
        zip_strength(s) is High <==> s is High,
{
}

/// A stronger setting makes longer passwords, and every setting above the weakest makes
/// passwords with a capital, a small letter, a digit and a symbol in them.
pub proof fn law_stronger_settings_make_stronger_passwords(
    weak: Seq<char>,
    middle: Seq<char>,
    strong: Seq<char>,
)
    requires
        has_strength(weak, zip_strength(crate::init::PasswordStrength::Low)),
        has_strength(middle, zip_strength(crate::init::PasswordStrength::Medium)),
        has_strength(strong, zip_strength(crate::init::PasswordStrength::High)),
    ensures
        8 <= weak.len() < middle.len() < strong.len(),
        middle.len() >= 12,
        strong.len() >= 16,
        exists|i: int| 0 <= i < middle.len() && 'A' <= #[trigger] middle[i] <= 'Z',
        exists|i: int| 0 <= i < middle.len() && 'a' <= #[trigger] middle[i] <= 'z',
        exists|i: int| 0 <= i < middle.len() && '0' <= #[trigger] middle[i] <= '9',
        exists|i: int| 0 <= i < middle.len() && SYMBOLS@.contains(#[trigger] middle[i]),
        exists|i: int| 0 <= i < strong.len() && 'A' <= #[trigger] strong[i] <= 'Z',
        exists|i: int| 0 <= i < strong.len() && 'a' <= #[trigger] strong[i] <= 'z',
        exists|i: int| 0 <= i < strong.len() && '0' <= #[trigger] strong[i] <= '9',
        exists|i: int| 0 <= i < strong.len() && SYMBOLS@.contains(#[trigger] strong[i]),
{
}

/// A download that a message leaves behind.
pub struct Delivery {
    /// The name of its archive.
    pub zip_name: String,
    /// The password of its archive.
    pub password: String,
    /// The script that counts its downloads.
    pub counter: String,
    /// The rules of its directory.
    pub rules: String,
    /// What is recorded of it.
    pub record: DownloadRecord,
}

/// A download that a message leaves behind.
#[verifier::ext_equal]
pub struct DeliveryView {
    pub zip_name: Seq<char>,
    pub password: Seq<char>,
    pub counter: Seq<char>,
    pub rules: Seq<char>,
    pub record: RecordView,
}

impl View for Delivery {
    type V = DeliveryView;

    open spec fn view(&self) -> DeliveryView {
        DeliveryView {
            zip_name: self.zip_name@,
            password: self.password@,
            counter: self.counter@,
            rules: self.rules@,
            record: self.record@,
        }
    }
}

/// The download that a message leaves behind under the settings, with a name, a time at
/// which it expires and a password.
pub open spec fn delivery_of(
    config: ConfigView,
    uuid: Seq<char>,
    expires_at: Seq<char>,
    password: Seq<char>,
    counter_template: Option<Seq<char>>,
) -> DeliveryView {
    DeliveryView {
        zip_name: uuid + ".zip"@,
        password: password,
        counter: counter_text(config, counter_template),
        rules: first_rules(config),
        record: RecordView {
            uuid: uuid,
            expires_at: expires_at,
            zip_password: Some(password),
            url: link_of(config, uuid),
            auth_mode: known_mode(config.download_auth_mode),
            auth_info: user_of(config),
            expire_hours: signed(config.expire_hours) as i64,
            max_downloads: config.max_downloads as i64,
        },
    }
}

/// The download that a message leaves behind.
pub fn plan_delivery(
    config: &Config,
    uuid: &str,
    expires_at: &str,
    password: &str,
    counter_template: &Option<String>,
) -> (r: Delivery)
    ensures
        r@ == delivery_of(config@, uuid@, expires_at@, password@, opt_view(*counter_template)),
{
    let mut zip_name = uuid.to_owned();
    zip_name.push_str(".zip");
    let record = DownloadRecord {
        uuid: uuid.to_owned(),
        expires_at: expires_at.to_owned(),
        zip_password: Some(password.to_owned()),
        url: download_link(config, uuid),
        auth_mode: canonical_auth_mode(config.download_auth_mode.as_str()),
        auth_info: download_user(config),
        expire_hours: to_signed(config.expire_hours),
        max_downloads: config.max_downloads as i64,
    };
    let delivery = Delivery {
        zip_name,
        password: password.to_owned(),
        counter: make_counter(config, counter_template),
        rules: make_first_rules(config),
        record,
    };
    proof {
        assert(delivery@ =~= delivery_of(
            config@,
            uuid@,
            expires_at@,
            password@,
            opt_view(*counter_template),
        ));
    }
    delivery
}

/// The download that a message leaves behind now: its name and its password are left to
/// chance. There is none if the calendar has no time at which it would expire.
pub fn begin_delivery(config: &Config, counter_template: &Option<String>) -> (r: Option<Delivery>)
    ensures
        is_in_reach(hours_to_live(config@.expire_hours)) ==> r is Some,
        is_out_of_reach(hours_to_live(config@.expire_hours)) ==> r is None,
        r matches Some(d) ==> {
            &&& is_uuid_v7(d@.record.uuid)
            &&& is_stamp(d@.record.expires_at)
            &&& is_time_after(
                Some(d@.record.expires_at),
                hours_to_live(config@.expire_hours),
            )
            &&& has_strength(d@.password, zip_strength(config@.password_strength))
            &&& config.password_strength is Low ==> has_strength(
                d@.password,
                PasswordStrength::Low,
            ) && d@.password.len() == 8
            &&& config.password_strength is Medium ==> has_strength(
                d@.password,
                PasswordStrength::Medium,
            ) && d@.password.len() == 12
            &&& config.password_strength is High ==> has_strength(
                d@.password,
                PasswordStrength::High,
            ) && d@.password.len() == 16
            &&& d@ == delivery_of(
                config@,
                d@.record.uuid,
                d@.record.expires_at,
                d@.password,
                opt_view(*counter_template),
            )
        },
{
    let uuid = new_uuid();
    let expires_at = match expiry(config.expire_hours) {
        Some(t) => t,
        None => {
            return None;
        },
    };
    let strength = match config.password_strength {
        crate::init::PasswordStrength::Low => PasswordStrength::Low,
        crate::init::PasswordStrength::High => PasswordStrength::High,
        _ => PasswordStrength::Medium,
    };
    let password = generate_password(strength);
    Some(
        plan_delivery(
            config,
            uuid.as_str(),
            expires_at.as_str(),
            password.as_str(),
            counter_template,
        ),
    )
}

/// Packs what is attached to a message into the archive of its download: each file under
/// the name that it has in the message, in order, with the password of the download.
pub fn pack_attachments(mail: &HandledMail, delivery: &Delivery) -> (r: Result<Vec<u8>, String>)
    ensures
        r matches Ok(bytes) ==> reads_back(
            bytes@,
            mail@.attachments,
            Some(encode_utf8(delivery@.password)),
        ),
        r is Ok ==> can_pack(mail@.attachments, Some(encode_utf8(delivery@.password))),
        can_pack(mail@.attachments, Some(encode_utf8(delivery@.password))) && are_small_files(
            mail@.attachments,
        ) ==> r is Ok,
{
    let mut files: Vec<(String, Vec<u8>)> = Vec::new();
    let ghost all = mail@.attachments;
    let mut i: usize = 0;
    while i < mail.attachments.len()
        invariant
            i <= mail.attachments@.len(),
            all == attachment_views(mail.attachments@),
            file_views(files@) == all.take(i as int),
        decreases mail.attachments@.len() - i,
    {
        let a = &mail.attachments[i];
        let ghost before = files@;
        files.push((a.name.as_str().to_owned(), slice_to_vec(a.data.as_slice())));
        proof {
            assert(all[i as int] == (a.name@, a.data@));
            assert(file_views(files@) =~= file_views(before).push(all[i as int]));
            assert(all.take(i + 1) =~= all.take(i as int).push(all[i as int]));
        }
        i += 1;
    }
    proof {
        assert(all.take(i as int) =~= all);
    }
    create_zip_from_files(&files, Some(delivery.password.as_str()))
}

/// What is noted of a download: the message, the files that were saved, the archive if it
/// was made, and how it is reached.
pub open spec fn note_of(
    mail: HandledView,
    delivery: DeliveryView,
    config: ConfigView,
    saved: Seq<SavedView>,
    zip_size: Option<u64>,
    generated_at: Seq<char>,
) -> MailInfoView {
    MailInfoView {
        from: mail.from,
        to: mail.to,
        subject: mail.subject,
        attachments: saved,
        zip: match zip_size {
            Some(size) => Some((delivery.zip_name, delivery.password, size)),
            None => None,
        },
        url: delivery.record.url,
        auth_mode: delivery.record.auth_mode,
        auth_info: delivery.record.auth_info,
        max_downloads: config.max_downloads,
        expire_hours: config.expire_hours,
        generated_at: generated_at,
        original_queue_id: mail.original_queue_id,
    }
}

/// What is noted of a download at some time.
pub fn plan_note(
    mail: &HandledMail,
    delivery: &Delivery,
    config: &Config,
    saved: Vec<SavedFile>,
    zip_size: Option<u64>,
    generated_at: &str,
) -> (r: MailInfo)
    ensures
        r@ == note_of(
            mail@,
            delivery@,
            config@,
            saved_views(saved@),
            zip_size,
            generated_at@,
        ),
{
    let zip = match zip_size {
        Some(size) => Some(
            ZipInfo {
                file: delivery.zip_name.as_str().to_owned(),
                password: delivery.password.as_str().to_owned(),
                size,
            },
        ),
        None => None,
    };
    let auth_info = match &delivery.record.auth_info {
        Some(user) => Some(
            AuthInfo {
                username: user.username.as_str().to_owned(),
                password: user.password.as_str().to_owned(),
            },
        ),
        None => None,
    };
    let original_queue_id = match &mail.original_queue_id {
        Some(id) => Some(id.as_str().to_owned()),
        None => None,
    };
    let info = MailInfo {
        from: mail.from.as_str().to_owned(),
        to: mail.to.as_str().to_owned(),
        subject: mail.subject.as_str().to_owned(),
        attachments: saved,
        zip,
        download: DownloadMeta {
            url: delivery.record.url.as_str().to_owned(),
            auth_mode: delivery.record.auth_mode.as_str().to_owned(),
            auth_info,
            max_downloads: config.max_downloads,
            expire_hours: config.expire_hours,
        },
        generated_at: generated_at.to_owned(),
        original_queue_id,
    };
    proof {
        assert(info@ =~= note_of(
            mail@,
            delivery@,
            config@,
            saved_views(saved@),
            zip_size,
            generated_at@,
        ));
    }
    info
}

/// What is noted of a download now.
pub fn note_delivery(
    mail: &HandledMail,
    delivery: &Delivery,
    config: &Config,
    saved: Vec<SavedFile>,
    zip_size: Option<u64>,
) -> (r: MailInfo)
    ensures
        is_stamp(r@.generated_at),
        is_time_after(Some(r@.generated_at), 0),
        r@ == note_of(
            mail@,
            delivery@,
            config@,
            saved_views(saved@),
            zip_size,
            r@.generated_at,
        ),
{
    let now = current_time();
    plan_note(mail, delivery, config, saved, zip_size, now.as_str())
}

/// What is noted of a download and what is recorded of it agree: the link, the mode of
/// authentication, the user and, if there is an archive, its password.
pub proof fn law_note_and_record_agree(
    mail: HandledView,
    config: ConfigView,
    uuid: Seq<char>,
    expires_at: Seq<char>,
    password: Seq<char>,
    counter_template: Option<Seq<char>>,
    saved: Seq<SavedView>,
    zip_size: Option<u64>,
    generated_at: Seq<char>,
)
    ensures
        ({
            let delivery = delivery_of(config, uuid, expires_at, password, counter_template);
            let note = note_of(mail, delivery, config, saved, zip_size, generated_at);
            &&& note.url == delivery.record.url
            &&& note.auth_mode == delivery.record.auth_mode
            &&& note.auth_info == delivery.record.auth_info
            &&& note.zip matches Some((file, pw, size)) ==> Some(pw)
                == delivery.record.zip_password && file == uuid + ".zip"@ && Some(size) == zip_size
        }),
{
}

/// In the mode `token`, if there is a key, the page of a download expects the token that
/// stands in the link to it, as long as the start of the link and the name of the
/// download have no query of their own.
pub proof fn law_page_expects_the_token_of_the_link(
    mail: HandledView,
    config: ConfigView,
    uuid: Seq<char>,
    expires_at: Seq<char>,
    password: Seq<char>,
    counter_template: Option<Seq<char>>,
    saved: Seq<SavedView>,
    zip_size: Option<u64>,
    generated_at: Seq<char>,
)
    requires
        known_mode(config.download_auth_mode) == "token"@,
        config.token_auth_key is Some,
        !config.base_url.contains('?'),
        !uuid.contains('?'),
    ensures
        ({
            let delivery = delivery_of(config, uuid, expires_at, password, counter_template);
            let note = note_of(mail, delivery, config, saved, zip_size, generated_at);
            let page = page_of(info_tree(note));
            let token = token_text(config.token_auth_key->Some_0, uuid, config.token_auth_type);
            &&& page.download_url == token_link(config.base_url, uuid, token)
            &&& query_param(page.download_url, "token"@) == Some(token)
        }),
{
    let delivery = delivery_of(config, uuid, expires_at, password, counter_template);
    let note = note_of(mail, delivery, config, saved, zip_size, generated_at);
    law_page_shows_what_was_noted(note);
    law_token_is_found_again(
        config.base_url,
        uuid,
        config.token_auth_key->Some_0,
        config.token_auth_type,
    );
}

/// A request for the link to a download is answered with the link that the download has
/// under the same settings, and with the same user.
pub proof fn law_requests_and_settings_agree(config: ConfigView, req: GenerateRequest)
    requires
        req.base_url@ == config.base_url,
        req.download_auth_mode@ == config.download_auth_mode,
        requested_key(req) == (match config.token_auth_key {
            Some(key) => Some((key, config.token_auth_type)),
            None => None,
        }),
        requested_user(req) == (
            or_empty(config.basic_auth_user),
            or_empty(config.basic_auth_password),
        ),
    ensures
        answer_link(req) == link_of(config, req.uuid@),
        (if lower(req.download_auth_mode@) == "basic"@ {
            Some(requested_user(req))
        } else {
            None
        }) == user_of(config),
{
    reveal_strlit("token");
    reveal_strlit("basic");
    reveal_strlit("minimal");
    assert("minimal"@.len() == 7 && "token"@.len() == 5 && "basic"@.len() == 5);
}

/// A download is recorded and packed as it was set and drawn: under its name, with the time
/// at which it expires, the password that was drawn, the link that leads to it, and the
/// limits of the settings, each under its own name.
pub proof fn law_delivery_is_as_set(
    config: ConfigView,
    uuid: Seq<char>,
    expires_at: Seq<char>,
    password: Seq<char>,
    counter_template: Option<Seq<char>>,
)
    ensures
        ({
            let d = delivery_of(config, uuid, expires_at, password, counter_template);
            &&& d.zip_name == uuid + ".zip"@
            &&& d.password == password
            &&& d.record.zip_password == Some(password)
            &&& d.record.uuid == uuid
            &&& d.record.expires_at == expires_at
            &&& d.record.max_downloads == config.max_downloads
            &&& config.expire_hours < 0x8000_0000_0000_0000 ==> d.record.expire_hours
                == config.expire_hours
            &&& d.record.auth_mode == known_mode(config.download_auth_mode)
            &&& d.record.auth_info is Some <==> known_mode(config.download_auth_mode) == "basic"@
            &&& lower(config.download_auth_mode) == "basic"@ && config.basic_auth_user is Some
                && config.basic_auth_password is Some ==> d.record.auth_info == Some(
                (config.basic_auth_user->Some_0, config.basic_auth_password->Some_0),
            )
            &&& lower(config.download_auth_mode) == "token"@ && config.token_auth_key is Some
                ==> d.record.url == token_link(
                config.base_url,
                uuid,
                token_text(config.token_auth_key->Some_0, uuid, config.token_auth_type),
            )
            &&& lower(config.download_auth_mode) != "token"@ || config.token_auth_key is None
                ==> d.record.url == plain_link(config.base_url, uuid)
        }),
{
    lemma_modes_differ();
}

/// The names of the modes differ.
proof fn lemma_modes_differ()
    ensures
        "token"@ != "basic"@,
        "token"@ != "minimal"@,
        "basic"@ != "minimal"@,
{
    reveal_strlit("token");
    reveal_strlit("basic");
    reveal_strlit("minimal");
    assert("minimal"@.len() == 7 && "token"@.len() == 5 && "basic"@.len() == 5);
    assert("token"@[0] == 't' && "basic"@[0] == 'b');
}

/// A mode is the one that is named, in capitals or small letters, and the one that asks for
/// nothing where none is named that is known.
pub proof fn law_modes_are_named(mode: Seq<char>)
    ensures
        lower(mode) == "token"@ <==> known_mode(mode) == "token"@,
        lower(mode) == "basic"@ <==> known_mode(mode) == "basic"@,
        lower(mode) != "token"@ && lower(mode) != "basic"@ <==> known_mode(mode) == "minimal"@,
{
    lemma_modes_differ();
}

/// A download lives for the hours that are set, and without a limit that is set for longer
/// than a download with any limit of less than ninety-nine years.
pub proof fn law_downloads_live_as_long_as_set(hours: u64)
    ensures
        0 < hours < 0x8000_0000_0000_0000 ==> hours_to_live(hours) == hours,
        0 < hours <= 24 * 7 * 52 * 99 ==> hours_to_live(hours) < hours_to_live(0),
{
}

/// What is noted of a download is what the message, the files and the settings say, each under
/// its own name, and the archive if it was made.
pub proof fn law_note_tells_of_the_message(
    mail: HandledView,
    delivery: DeliveryView,
    config: ConfigView,
    saved: Seq<SavedView>,
    size: u64,
    generated_at: Seq<char>,
)
    ensures
        ({
            let note = note_of(mail, delivery, config, saved, Some(size), generated_at);
            let without = note_of(mail, delivery, config, saved, None, generated_at);
            &&& note.from == mail.from
            &&& note.to == mail.to
            &&& note.subject == mail.subject
            &&& note.original_queue_id == mail.original_queue_id
            &&& note.attachments == saved
            &&& note.zip == Some((delivery.zip_name, delivery.password, size))
            &&& note.url == delivery.record.url
            &&& note.auth_mode == delivery.record.auth_mode
            &&& note.auth_info == delivery.record.auth_info
            &&& note.max_downloads == config.max_downloads
            &&& note.expire_hours == config.expire_hours
            &&& note.generated_at == generated_at
            &&& without == (MailInfoView { zip: None, ..note })
        }),
{
}

/// The placeholders of the script that counts downloads differ.
proof fn lemma_counter_marks(config: ConfigView)
    ensures
        are_marks(counter_fillings(config)),
{
    reveal_strlit("{{db_type}}");
    reveal_strlit("{{db_path}}");
    reveal_strlit("{{db_host}}");
    reveal_strlit("{{db_port}}");
    reveal_strlit("{{db_user}}");
    reveal_strlit("{{db_password}}");
    reveal_strlit("{{db_name}}");
    let f = counter_fillings(config);
    assert("{{db_type}}"@[5] == 't' && "{{db_path}}"@[5] == 'p' && "{{db_path}}"@[6] == 'a'
        && "{{db_host}}"@[5] == 'h' && "{{db_port}}"@[5] == 'p' && "{{db_port}}"@[6] == 'o'
        && "{{db_user}}"@[5] == 'u' && "{{db_password}}"@.len() == 15 && "{{db_name}}"@[5] == 'n');
    assert forall|i: int| 0 <= i < f.len() implies is_mark((#[trigger] f[i]).0) by {}
    assert forall|i: int, j: int| 0 <= i < j < f.len() implies (#[trigger] f[i]).0 != (
    #[trigger] f[j]).0 by {}
}

/// The script that counts downloads reaches the database by the settings that its
/// placeholders are called after, each as it is set and as long as it has no braces itself,
/// and what follows a placeholder is filled as if it stood alone.
pub proof fn law_counter_reaches_the_database(config: ConfigView, s: Seq<char>)
    ensures
        ({
            let f = counter_fillings(config);
            &&& counter_text(config, Some(s)) == filled(s, f)
            &&& !config.database_type.contains('{') ==> filled("{{db_type}}"@ + s, f)
                == config.database_type + filled(s, f)
            &&& !or_empty(config.database_path).contains('{') ==> filled("{{db_path}}"@ + s, f)
                == or_empty(config.database_path) + filled(s, f)
            &&& !or_empty(config.database_host).contains('{') ==> filled("{{db_host}}"@ + s, f)
                == or_empty(config.database_host) + filled(s, f)
            &&& config.database_port matches Some(port) ==> filled("{{db_port}}"@ + s, f)
                == decimal(port as nat) + filled(s, f)
            &&& config.database_port is None ==> filled("{{db_port}}"@ + s, f) == filled(s, f)
            &&& !or_empty(config.database_user).contains('{') ==> filled("{{db_user}}"@ + s, f)
                == or_empty(config.database_user) + filled(s, f)
            &&& !or_empty(config.database_password).contains('{') ==> filled(
                "{{db_password}}"@ + s,
                f,
            ) == or_empty(config.database_password) + filled(s, f)
            &&& !or_empty(config.database_name).contains('{') ==> filled("{{db_name}}"@ + s, f)
                == or_empty(config.database_name) + filled(s, f)
        }),
{
    let f = counter_fillings(config);
    lemma_counter_marks(config);
    if !config.database_type.contains('{') {
        law_placeholder_gives_its_text(0, s, f);
    }
    if !or_empty(config.database_path).contains('{') {
        law_placeholder_gives_its_text(1, s, f);
    }
    if !or_empty(config.database_host).contains('{') {
        law_placeholder_gives_its_text(2, s, f);
    }
    if let Some(port) = config.database_port {
        law_decimal_read_back(port as nat, port as nat);
    }
    law_placeholder_gives_its_text(3, s, f);
    assert(Seq::<char>::empty() + filled(s, f) =~= filled(s, f));
    if !or_empty(config.database_user).contains('{') {
        law_placeholder_gives_its_text(4, s, f);
    }
    if !or_empty(config.database_password).contains('{') {
        law_placeholder_gives_its_text(5, s, f);
    }
    if !or_empty(config.database_name).contains('{') {
        law_placeholder_gives_its_text(6, s, f);
    }
}

/// From the start the rules of a directory keep the note from being served, and in the mode
/// `basic` they ask for a user.
pub proof fn law_first_rules_keep_the_note(config: ConfigView)
    ensures
        "<Files \"mailinfo.txt\">\n    Require all denied\n</Files>\n"@.is_prefix_of(
            first_rules(config),
        ),
        known_mode(config.download_auth_mode) != "basic"@ ==> first_rules(config)
            == "<Files \"mailinfo.txt\">\n    Require all denied\n</Files>\n"@,
        known_mode(config.download_auth_mode) == "basic"@ ==> first_rules(config)
            == "<Files \"mailinfo.txt\">\n    Require all denied\n</Files>\n"@
            + "\nAuthType Basic\nAuthName \"MilterSeparator\"\nAuthUserFile .htpasswd\nRequire valid-user\n"@,
{
    let deny = "<Files \"mailinfo.txt\">\n    Require all denied\n</Files>\n"@;
    assert(first_rules(config).subrange(0, deny.len() as int) =~= deny);
}

/// A number of 64 bits read with a sign differs from the number by a multiple of two to the
/// sixty-fourth, and fits into 64 bits with a sign.
pub proof fn law_signed_numbers(n: u64)
    ensures
        i64::MIN <= signed(n) <= i64::MAX,
        signed(n) == n || signed(n) == n - 0x1_0000_0000_0000_0000,
{
}

} // verus!
