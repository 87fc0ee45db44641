//! The note that is kept beside a download: what it is about and how it is reached.
use crate::download::{auth_view, AuthInfo, AuthView};
use crate::json::{
    empty_object, get_field, get_items, get_number, get_text, is_plain, is_private_key, json_pretty, json_read,
    json_view, json_views, list_value, null_value, number_value, parse_json, reads_as, set_field,
    text_value, write_pretty, JsonView,
};
use crate::text::opt_view;
use vstd::prelude::*;

verus! {

/// An attachment that has been saved.
pub struct SavedFile {
    /// The name of its file.
    pub filename: String,
    /// Its size in bytes.
    pub size: u64,
}

/// The ZIP archive of a download.
pub struct ZipInfo {
    /// The name of its file.
    pub file: String,
    /// Its password.
    pub password: String,
    /// Its size in bytes.
    pub size: u64,
}

/// How a download is reached.
pub struct DownloadMeta {
    /// The link.
    pub url: String,
    /// The mode of authentication.
    pub auth_mode: String,
    /// The user who may download, in basic authentication.
    pub auth_info: Option<AuthInfo>,
    /// How often it may be downloaded.
    pub max_downloads: u32,
    /// For how many hours it may be downloaded.
    pub expire_hours: u64,
}

/// What is noted of a download.
pub struct MailInfo {
    /// The senders of the message.
    pub from: String,
    /// The recipients of the message.
    pub to: String,
    /// The subject of the message.
    pub subject: String,
    /// The attachments of the message.
    pub attachments: Vec<SavedFile>,
    /// The archive of the attachments, if there is one.
    pub zip: Option<ZipInfo>,
    /// How the archive is reached.
    pub download: DownloadMeta,
    /// When this was noted.
    pub generated_at: String,
    /// The queue id of the message, if it is known.
    pub original_queue_id: Option<String>,
}

/// The name and the size of a file.
pub type SavedView = (Seq<char>, u64);

/// The names and the sizes of files.
pub open spec fn saved_views(files: Seq<SavedFile>) -> Seq<SavedView> {
    files.map_values(|f: SavedFile| (f.filename@, f.size))
}

/// What is noted of a download.
#[verifier::ext_equal]
pub struct MailInfoView {
    pub from: Seq<char>,
    pub to: Seq<char>,
    pub subject: Seq<char>,
    pub attachments: Seq<SavedView>,
    pub zip: Option<(Seq<char>, Seq<char>, u64)>,
    pub url: Seq<char>,
    pub auth_mode: Seq<char>,
    pub auth_info: Option<AuthView>,
    pub max_downloads: u32,
    pub expire_hours: u64,
    pub generated_at: Seq<char>,
    pub original_queue_id: Option<Seq<char>>,
}

impl View for MailInfo {
    type V = MailInfoView;

    open spec fn view(&self) -> MailInfoView {
        MailInfoView {
            from: self.from@,
            to: self.to@,
            subject: self.subject@,
            attachments: saved_views(self.attachments@),
            zip: match self.zip {
                Some(z) => Some((z.file@, z.password@, z.size)),
                None => None,
            },
            url: self.download.url@,
            auth_mode: self.download.auth_mode@,
            auth_info: auth_view(self.download.auth_info),
            max_downloads: self.download.max_downloads,
            expire_hours: self.download.expire_hours,
            generated_at: self.generated_at@,
            original_queue_id: opt_view(self.original_queue_id),
        }
    }
}

/// A user as JSON.
pub open spec fn auth_tree(user: AuthView) -> JsonView {
    JsonView::Object(
        Map::empty().insert("username"@, JsonView::Text(user.0)).insert(
            "password"@,
            JsonView::Text(user.1),
        ),
    )
}

/// An attachment as JSON.
pub open spec fn saved_tree(file: SavedView) -> JsonView {
    JsonView::Object(
        Map::empty().insert("filename"@, JsonView::Text(file.0)).insert(
            "size"@,
            JsonView::Number(file.1),
        ),
    )
}

/// An archive as JSON.
pub open spec fn zip_tree(zip: Option<(Seq<char>, Seq<char>, u64)>) -> JsonView {
    match zip {
        Some((file, password, size)) => JsonView::Object(
            Map::empty().insert("file"@, JsonView::Text(file)).insert(
                "password"@,
                JsonView::Text(password),
            ).insert("size"@, JsonView::Number(size)).insert(
                "download_count"@,
                JsonView::Number(0),
            ).insert("expires_at"@, JsonView::Null),
        ),
        None => JsonView::Null,
    }
}

/// A text as JSON, or null.
pub open spec fn text_tree(s: Option<Seq<char>>) -> JsonView {
    match s {
        Some(s) => JsonView::Text(s),
        None => JsonView::Null,
    }
}

/// How a download is reached, as JSON.
pub open spec fn download_tree(info: MailInfoView) -> JsonView {
    JsonView::Object(
        Map::empty().insert("url"@, JsonView::Text(info.url)).insert(
            "auth_mode"@,
            JsonView::Text(info.auth_mode),
        ).insert(
            "auth_info"@,
            match info.auth_info {
                Some(user) => auth_tree(user),
                None => JsonView::Null,
            },
        ).insert("max_downloads"@, JsonView::Number(info.max_downloads as u64)).insert(
            "expire_hours"@,
            JsonView::Number(info.expire_hours),
        ),
    )
}

/// What is noted of a download, as JSON.
pub open spec fn info_tree(info: MailInfoView) -> JsonView {
    JsonView::Object(
        Map::empty().insert("from"@, JsonView::Text(info.from)).insert(
            "to"@,
            JsonView::Text(info.to),
        ).insert("subject"@, JsonView::Text(info.subject)).insert(
            "attachments"@,
            JsonView::List(info.attachments.map_values(|f: SavedView| saved_tree(f))),
        ).insert("zip"@, zip_tree(info.zip)).insert("download"@, download_tree(info)).insert(
            "generated_at"@,
            JsonView::Text(info.generated_at),
        ).insert("original_queue_id"@, text_tree(info.original_queue_id)),
    )
}

/// One more field keeps an object plain.
proof fn lemma_plain_field(
    fields: Map<Seq<char>, JsonView>,
    key: Seq<char>,
    value: JsonView,
    levels: nat,
)
    requires
        levels > 0,
        !is_private_key(key),
        is_plain(JsonView::Object(fields), levels),
        is_plain(value, (levels - 1) as nat),
    ensures
        is_plain(JsonView::Object(fields.insert(key, value)), levels),
{
    let more = fields.insert(key, value);
    assert(JsonView::Object(fields)->Object_0 == fields);
    assert(JsonView::Object(more)->Object_0 == more);
    assert forall|k: Seq<char>| #[trigger] more.contains_key(k) implies !is_private_key(k) by {
        if k != key {
            assert(fields.contains_key(k));
        }
    }
    assert forall|k: Seq<char>| more.contains_key(k) implies is_plain(
        #[trigger] more[k],
        (levels - 1) as nat,
    ) by {
        if k != key {
            assert(fields.contains_key(k));
            assert(is_plain(fields[k], (levels - 1) as nat));
        }
    }
}

/// None of the keys of a note is a private one: all are too short.
proof fn lemma_keys_are_not_private()
    ensures
        !is_private_key("username"@),
        !is_private_key("password"@),
        !is_private_key("filename"@),
        !is_private_key("size"@),
        !is_private_key("file"@),
        !is_private_key("download_count"@),
        !is_private_key("expires_at"@),
        !is_private_key("url"@),
        !is_private_key("auth_mode"@),
        !is_private_key("auth_info"@),
        !is_private_key("max_downloads"@),
        !is_private_key("expire_hours"@),
        !is_private_key("from"@),
        !is_private_key("to"@),
        !is_private_key("subject"@),
        !is_private_key("attachments"@),
        !is_private_key("zip"@),
        !is_private_key("download"@),
        !is_private_key("generated_at"@),
        !is_private_key("original_queue_id"@),
{
    reveal_strlit("$serde_json::private::");
    reveal_strlit("username");
    reveal_strlit("password");
    reveal_strlit("filename");
    reveal_strlit("size");
    reveal_strlit("file");
    reveal_strlit("download_count");
    reveal_strlit("expires_at");
    reveal_strlit("url");
    reveal_strlit("auth_mode");
    reveal_strlit("auth_info");
    reveal_strlit("max_downloads");
    reveal_strlit("expire_hours");
    reveal_strlit("from");
    reveal_strlit("to");
    reveal_strlit("subject");
    reveal_strlit("attachments");
    reveal_strlit("zip");
    reveal_strlit("download");
    reveal_strlit("generated_at");
    reveal_strlit("original_queue_id");
}

/// A user can be written and read back.
pub proof fn lemma_auth_is_plain(user: AuthView, levels: nat)
    requires
        levels > 0,
    ensures
        is_plain(auth_tree(user), levels),
{
    lemma_keys_are_not_private();
    let none: Map<Seq<char>, JsonView> = Map::empty();
    assert(JsonView::Object(none)->Object_0 == none);
    lemma_plain_field(none, "username"@, JsonView::Text(user.0), levels);
    lemma_plain_field(
        none.insert("username"@, JsonView::Text(user.0)),
        "password"@,
        JsonView::Text(user.1),
        levels,
    );
}

/// What is noted of a download can be written and read back.
proof fn lemma_info_is_plain(info: MailInfoView)
    ensures
        is_plain(info_tree(info), 100),
{
    lemma_keys_are_not_private();
    let none: Map<Seq<char>, JsonView> = Map::empty();
    assert forall|n: nat| n > 0 implies #[trigger] is_plain(
        JsonView::Object(none),
        n,
    ) by {
        assert(JsonView::Object(none)->Object_0 == none);
    }
    // The attachments.
    let items = info.attachments.map_values(|f: SavedView| saved_tree(f));
    assert forall|i: int| 0 <= i < items.len() implies is_plain(#[trigger] items[i], 98) by {
        let f = info.attachments[i];
        assert(items[i] == saved_tree(f));
        lemma_plain_field(none, "filename"@, JsonView::Text(f.0), 98);
        lemma_plain_field(
            none.insert("filename"@, JsonView::Text(f.0)),
            "size"@,
            JsonView::Number(f.1),
            98,
        );
    }
    assert(JsonView::List(items)->List_0 == items);
    assert(is_plain(JsonView::List(items), 99));
    // The archive.
    if let Some((file, password, size)) = info.zip {
        let m1 = none.insert("file"@, JsonView::Text(file));
        let m2 = m1.insert("password"@, JsonView::Text(password));
        let m3 = m2.insert("size"@, JsonView::Number(size));
        let m4 = m3.insert("download_count"@, JsonView::Number(0));
        lemma_plain_field(none, "file"@, JsonView::Text(file), 99);
        lemma_plain_field(m1, "password"@, JsonView::Text(password), 99);
        lemma_plain_field(m2, "size"@, JsonView::Number(size), 99);
        lemma_plain_field(m3, "download_count"@, JsonView::Number(0), 99);
        lemma_plain_field(m4, "expires_at"@, JsonView::Null, 99);
    }
    assert(is_plain(zip_tree(info.zip), 99));
    // How it is reached.
    let auth = match info.auth_info {
        Some(user) => auth_tree(user),
        None => JsonView::Null,
    };
    if let Some(user) = info.auth_info {
        lemma_auth_is_plain(user, 98);
    }
    assert(is_plain(auth, 98));
    let d1 = none.insert("url"@, JsonView::Text(info.url));
    let d2 = d1.insert("auth_mode"@, JsonView::Text(info.auth_mode));
    let d3 = d2.insert("auth_info"@, auth);
    let d4 = d3.insert("max_downloads"@, JsonView::Number(info.max_downloads as u64));
    lemma_plain_field(none, "url"@, JsonView::Text(info.url), 99);
    lemma_plain_field(d1, "auth_mode"@, JsonView::Text(info.auth_mode), 99);
    lemma_plain_field(d2, "auth_info"@, auth, 99);
    lemma_plain_field(d3, "max_downloads"@, JsonView::Number(info.max_downloads as u64), 99);
    lemma_plain_field(d4, "expire_hours"@, JsonView::Number(info.expire_hours), 99);
    assert(is_plain(download_tree(info), 99));
    // All of it.
    let t1 = none.insert("from"@, JsonView::Text(info.from));
    let t2 = t1.insert("to"@, JsonView::Text(info.to));
    let t3 = t2.insert("subject"@, JsonView::Text(info.subject));
    let t4 = t3.insert("attachments"@, JsonView::List(items));
    let t5 = t4.insert("zip"@, zip_tree(info.zip));
    let t6 = t5.insert("download"@, download_tree(info));
    let t7 = t6.insert("generated_at"@, JsonView::Text(info.generated_at));
    lemma_plain_field(none, "from"@, JsonView::Text(info.from), 100);
    lemma_plain_field(t1, "to"@, JsonView::Text(info.to), 100);
    lemma_plain_field(t2, "subject"@, JsonView::Text(info.subject), 100);
    lemma_plain_field(t3, "attachments"@, JsonView::List(items), 100);
    lemma_plain_field(t4, "zip"@, zip_tree(info.zip), 100);
    lemma_plain_field(t5, "download"@, download_tree(info), 100);
    lemma_plain_field(t6, "generated_at"@, JsonView::Text(info.generated_at), 100);
    lemma_plain_field(t7, "original_queue_id"@, text_tree(info.original_queue_id), 100);
}

/// A user as a value.
pub(crate) fn auth_value(user: &AuthInfo) -> (r: serde_json::Value)
    ensures
        json_view(r) == auth_tree((user.username@, user.password@)),
{
    let mut v = empty_object();
    set_field(&mut v, "username", text_value(user.username.as_str()));
    set_field(&mut v, "password", text_value(user.password.as_str()));
    v
}

/// What is noted of a download, as a value.
fn info_value(info: &MailInfo) -> (r: serde_json::Value)
    ensures
        json_view(r) == info_tree(info@),
{
    let mut items: Vec<serde_json::Value> = Vec::new();
    let mut i: usize = 0;
    let ghost files = saved_views(info.attachments@);
    while i < info.attachments.len()
        invariant
            i <= info.attachments@.len(),
            files == saved_views(info.attachments@),
            json_views(items@) == files.take(i as int).map_values(|f: SavedView| saved_tree(f)),
        decreases info.attachments@.len() - i,
    {
        let file = &info.attachments[i];
        let mut v = empty_object();
        set_field(&mut v, "filename", text_value(file.filename.as_str()));
        set_field(&mut v, "size", number_value(file.size));
        let ghost before = items@;
        items.push(v);
        proof {
            assert(files[i as int] == (file.filename@, file.size));
            assert(json_views(items@) =~= json_views(before).push(saved_tree(files[i as int])));
            assert(files.take(i + 1) =~= files.take(i as int).push(files[i as int]));
            assert(files.take(i + 1).map_values(|f: SavedView| saved_tree(f)) =~= files.take(
                i as int,
            ).map_values(|f: SavedView| saved_tree(f)).push(saved_tree(files[i as int])));
        }
        i += 1;
    }
    proof {
        assert(files.take(i as int) =~= files);
    }
    let zip = match &info.zip {
        Some(z) => {
            let mut v = empty_object();
            set_field(&mut v, "file", text_value(z.file.as_str()));
            set_field(&mut v, "password", text_value(z.password.as_str()));
            set_field(&mut v, "size", number_value(z.size));
            set_field(&mut v, "download_count", number_value(0));
            set_field(&mut v, "expires_at", null_value());
            v
        },
        None => null_value(),
    };
    let auth = match &info.download.auth_info {
        Some(user) => auth_value(user),
        None => null_value(),
    };
    let mut download = empty_object();
    set_field(&mut download, "url", text_value(info.download.url.as_str()));
    set_field(&mut download, "auth_mode", text_value(info.download.auth_mode.as_str()));
    set_field(&mut download, "auth_info", auth);
    set_field(&mut download, "max_downloads", number_value(info.download.max_downloads as u64));
    set_field(&mut download, "expire_hours", number_value(info.download.expire_hours));
    let queue_id = match &info.original_queue_id {
        Some(id) => text_value(id.as_str()),
        None => null_value(),
    };
    let mut v = empty_object();
    set_field(&mut v, "from", text_value(info.from.as_str()));
    set_field(&mut v, "to", text_value(info.to.as_str()));
    set_field(&mut v, "subject", text_value(info.subject.as_str()));
    set_field(&mut v, "attachments", list_value(items));
    set_field(&mut v, "zip", zip);
    set_field(&mut v, "download", download);
    set_field(&mut v, "generated_at", text_value(info.generated_at.as_str()));
    set_field(&mut v, "original_queue_id", queue_id);
    v
}

/// The text of the note. It says what is noted as JSON.
pub fn mailinfo_text(info: &MailInfo) -> (r: Option<String>)
    ensures
        r is Some,
        r->Some_0@ == json_pretty(info_tree(info@)),
        reads_as(r->Some_0@, info_tree(info@)),
{
    let v = info_value(info);
    proof {
        lemma_info_is_plain(info@);
    }
    write_pretty(&v)
}

/// What a download page shows.
pub struct PageInfo {
    /// The subject of the message.
    pub subject: String,
    /// The senders of the message.
    pub from: String,
    /// The recipients of the message.
    pub to: String,
    /// The name of the archive.
    pub zip_file: String,
    /// The password of the archive.
    pub zip_password: String,
    /// The size of the archive.
    pub zip_size: u64,
    /// The link to the download.
    pub download_url: String,
    /// The mode of authentication.
    pub auth_mode: String,
    /// The user who may download, if any is noted.
    pub auth_info: Option<AuthInfo>,
    /// The attachments, if any are noted.
    pub attachments: Option<Vec<SavedFile>>,
    /// When the download was noted.
    pub generated_at: String,
}

/// What a download page shows.
#[verifier::ext_equal]
pub struct PageView {
    pub subject: Seq<char>,
    pub from: Seq<char>,
    pub to: Seq<char>,
    pub zip_file: Seq<char>,
    pub zip_password: Seq<char>,
    pub zip_size: u64,
    pub download_url: Seq<char>,
    pub auth_mode: Seq<char>,
    pub auth_info: Option<AuthView>,
    pub attachments: Option<Seq<SavedView>>,
    pub generated_at: Seq<char>,
}

impl View for PageInfo {
    type V = PageView;

    open spec fn view(&self) -> PageView {
        PageView {
            subject: self.subject@,
            from: self.from@,
            to: self.to@,
            zip_file: self.zip_file@,
            zip_password: self.zip_password@,
            zip_size: self.zip_size,
            download_url: self.download_url@,
            auth_mode: self.auth_mode@,
            auth_info: auth_view(self.auth_info),
            attachments: match self.attachments {
                Some(files) => Some(saved_views(files@)),
                None => None,
            },
            generated_at: self.generated_at@,
        }
    }
}

/// A field of a value, if it is an object and has that field.
pub open spec fn field(v: Option<JsonView>, key: Seq<char>) -> Option<JsonView> {
    match v {
        Some(JsonView::Object(fields)) => if fields.contains_key(key) {
            Some(fields[key])
        } else {
            None
        },
        _ => None,
    }
}

/// The text of a value, or another where it is none.
pub open spec fn text_or(v: Option<JsonView>, other: Seq<char>) -> Seq<char> {
    match v {
        Some(JsonView::Text(s)) => s,
        _ => other,
    }
}

/// The number of a value, or zero where it is none.
pub open spec fn number_or_zero(v: Option<JsonView>) -> u64 {
    match v {
        Some(JsonView::Number(n)) => n,
        _ => 0,
    }
}

/// The files that a value lists, if it is a list.
pub open spec fn listed_files(v: Option<JsonView>) -> Option<Seq<SavedView>> {
    match v {
        Some(JsonView::List(items)) => Some(
            items.map_values(
                |item: JsonView|
                    (
                        text_or(field(Some(item), "filename"@), ""@),
                        number_or_zero(field(Some(item), "size"@)),
                    ),
            ),
        ),
        _ => None,
    }
}

/// What a download page shows of a note.
pub open spec fn page_of(note: JsonView) -> PageView {
    let zip = field(Some(note), "zip"@);
    let download = field(Some(note), "download"@);
    PageView {
        subject: text_or(field(Some(note), "subject"@), ""@),
        from: text_or(field(Some(note), "from"@), ""@),
        to: text_or(field(Some(note), "to"@), ""@),
        zip_file: text_or(field(zip, "file"@), ""@),
        zip_password: text_or(field(zip, "password"@), ""@),
        zip_size: number_or_zero(field(zip, "size"@)),
        download_url: text_or(field(download, "url"@), ""@),
        auth_mode: text_or(field(download, "auth_mode"@), "minimal"@),
        auth_info: match field(download, "auth_info"@) {
            Some(user) => Some(
                (
                    text_or(field(Some(user), "username"@), ""@),
                    text_or(field(Some(user), "password"@), ""@),
                ),
            ),
            None => None,
        },
        attachments: listed_files(field(Some(note), "attachments"@)),
        generated_at: text_or(field(Some(note), "generated_at"@), ""@),
    }
}

/// What a value holds, if there is one.
pub open spec fn opt_json(v: Option<&serde_json::Value>) -> Option<JsonView> {
    match v {
        Some(v) => Some(json_view(*v)),
        None => None,
    }
}

/// A field of a value.
fn field_of<'a>(v: Option<&'a serde_json::Value>, key: &str) -> (r: Option<&'a serde_json::Value>)
    ensures
        opt_json(r) == field(opt_json(v), key@),
{
    match v {
        Some(v) => get_field(v, key),
        None => None,
    }
}

/// The text of a value, or another where it is none.
fn text_of(v: Option<&serde_json::Value>, other: &str) -> (r: String)
    ensures
        r@ == text_or(opt_json(v), other@),
{
    match v {
        Some(v) => match get_text(v) {
            Some(s) => s.to_owned(),
            None => other.to_owned(),
        },
        None => other.to_owned(),
    }
}

/// The number of a value, or zero where it is none.
fn number_of(v: Option<&serde_json::Value>) -> (r: u64)
    ensures
        r == number_or_zero(opt_json(v)),
{
    match v {
        Some(v) => match get_number(v) {
            Some(n) => n,
            None => 0,
        },
        None => 0,
    }
}

/// The files that a value lists, if it is a list.
fn files_of(v: Option<&serde_json::Value>) -> (r: Option<Vec<SavedFile>>)
    ensures
        match r {
            Some(files) => listed_files(opt_json(v)) == Some(saved_views(files@)),
            None => listed_files(opt_json(v)) is None,
        },
{
    let items = match v {
        Some(v) => match get_items(v) {
            Some(items) => items,
            None => {
                return None;
            },
        },
        None => {
            return None;
        },
    };
    let ghost all = json_views(items@);
    let ghost wanted = listed_files(opt_json(v))->Some_0;
    let mut files: Vec<SavedFile> = Vec::new();
    let mut i: usize = 0;
    while i < items.len()
        invariant
            i <= items@.len(),
            all == json_views(items@),
            opt_json(v) == Some(JsonView::List(all)),
            wanted == listed_files(opt_json(v))->Some_0,
            wanted.len() == items@.len(),
            saved_views(files@) == wanted.take(i as int),
        decreases items@.len() - i,
    {
        let item = Some(&items[i]);
        let file = SavedFile {
            filename: text_of(field_of(item, "filename"), ""),
            size: number_of(field_of(item, "size")),
        };
        let ghost before = files@;
        files.push(file);
        proof {
            assert(all[i as int] == json_view(items@[i as int]));
            assert(wanted[i as int] == (file.filename@, file.size));
            assert(saved_views(files@) =~= saved_views(before).push(wanted[i as int]));
            assert(wanted.take(i + 1) =~= wanted.take(i as int).push(wanted[i as int]));
        }
        i += 1;
    }
    proof {
        assert(wanted.take(i as int) =~= wanted);
    }
    Some(files)
}

/// What a download page shows of the text of a note, or why the text is none.
pub fn read_mailinfo(text: &str) -> (r: Result<PageInfo, String>)
    ensures
        match json_read(text@) {
            Ok(note) => r is Ok && r->Ok_0@ == page_of(note),
            Err(e) => r is Err && r->Err_0@ == "parse mailinfo json error: "@ + e,
        },
{
    let value = match parse_json(text) {
        Ok(v) => v,
        Err(e) => {
            let mut message = "parse mailinfo json error: ".to_owned();
            message.push_str(e.as_str());
            return Err(message);
        },
    };
    let note = Some(&value);
    let zip = field_of(note, "zip");
    let download = field_of(note, "download");
    let auth = field_of(download, "auth_info");
    let auth_info = match auth {
        Some(_) => Some(
            AuthInfo {
                username: text_of(field_of(auth, "username"), ""),
                password: text_of(field_of(auth, "password"), ""),
            },
        ),
        None => None,
    };
    let page = PageInfo {
        subject: text_of(field_of(note, "subject"), ""),
        from: text_of(field_of(note, "from"), ""),
        to: text_of(field_of(note, "to"), ""),
        zip_file: text_of(field_of(zip, "file"), ""),
        zip_password: text_of(field_of(zip, "password"), ""),
        zip_size: number_of(field_of(zip, "size")),
        download_url: text_of(field_of(download, "url"), ""),
        auth_mode: text_of(field_of(download, "auth_mode"), "minimal"),
        auth_info,
        attachments: files_of(field_of(note, "attachments")),
        generated_at: text_of(field_of(note, "generated_at"), ""),
    };
    proof {
        assert(page@ =~= page_of(json_view(value)));
    }
    Ok(page)
}

/// The names of the fields differ from each other.
proof fn lemma_field_names()
    ensures
        "from"@.len() == 4,
        "to"@.len() == 2,
        "subject"@.len() == 7,
        "attachments"@.len() == 11,
        "zip"@.len() == 3,
        "download"@.len() == 8,
        "generated_at"@.len() == 12,
        "original_queue_id"@.len() == 17,
        "url"@.len() == 3,
        "auth_mode"@.len() == 9 && "auth_mode"@[5] == 'm',
        "auth_info"@.len() == 9 && "auth_info"@[5] == 'i',
        "max_downloads"@.len() == 13,
        "expire_hours"@.len() == 12,
        "file"@.len() == 4 && "file"@[0] == 'f',
        "size"@.len() == 4 && "size"@[0] == 's',
        "password"@.len() == 8 && "password"@[0] == 'p',
        "username"@.len() == 8 && "username"@[0] == 'u',
        "filename"@.len() == 8 && "filename"@[0] == 'f',
        "download_count"@.len() == 14,
        "expires_at"@.len() == 10,
        ""@ == Seq::<char>::empty(),
{
    reveal_strlit("from");
    reveal_strlit("to");
    reveal_strlit("subject");
    reveal_strlit("attachments");
    reveal_strlit("zip");
    reveal_strlit("download");
    reveal_strlit("generated_at");
    reveal_strlit("original_queue_id");
    reveal_strlit("url");
    reveal_strlit("auth_mode");
    reveal_strlit("auth_info");
    reveal_strlit("max_downloads");
    reveal_strlit("expire_hours");
    reveal_strlit("file");
    reveal_strlit("size");
    reveal_strlit("password");
    reveal_strlit("username");
    reveal_strlit("filename");
    reveal_strlit("download_count");
    reveal_strlit("expires_at");
    reveal_strlit("");
    assert(""@ =~= Seq::<char>::empty());
}

/// What a download page shows of what was noted. A download without an archive shows an
/// empty one, and one without a user shows an empty one too.
pub open spec fn shown_page(info: MailInfoView) -> PageView {
    PageView {
        subject: info.subject,
        from: info.from,
        to: info.to,
        zip_file: match info.zip {
            Some((file, _, _)) => file,
            None => seq![],
        },
        zip_password: match info.zip {
            Some((_, password, _)) => password,
            None => seq![],
        },
        zip_size: match info.zip {
            Some((_, _, size)) => size,
            None => 0,
        },
        download_url: info.url,
        auth_mode: info.auth_mode,
        auth_info: match info.auth_info {
            Some(user) => Some(user),
            None => Some((seq![], seq![])),
        },
        attachments: Some(info.attachments),
        generated_at: info.generated_at,
    }
}

/// A download page shows what was noted of the download: the note says it as JSON, and
/// what the page reads of that is what was noted.
pub proof fn law_page_shows_what_was_noted(info: MailInfoView)
    ensures
        page_of(info_tree(info)) == shown_page(info),
{
    lemma_field_names();
    let note = info_tree(info);
    let items = info.attachments.map_values(|f: SavedView| saved_tree(f));
    assert(field(Some(note), "from"@) == Some(JsonView::Text(info.from)));
    assert(field(Some(note), "to"@) == Some(JsonView::Text(info.to)));
    assert(field(Some(note), "subject"@) == Some(JsonView::Text(info.subject)));
    assert(field(Some(note), "attachments"@) == Some(JsonView::List(items)));
    assert(field(Some(note), "zip"@) == Some(zip_tree(info.zip)));
    assert(field(Some(note), "download"@) == Some(download_tree(info)));
    assert(field(Some(note), "generated_at"@) == Some(JsonView::Text(info.generated_at)));
    let download = Some(download_tree(info));
    assert(field(download, "url"@) == Some(JsonView::Text(info.url)));
    assert(field(download, "auth_mode"@) == Some(JsonView::Text(info.auth_mode)));
    if let Some(user) = info.auth_info {
        let u = Some(auth_tree(user));
        assert(field(download, "auth_info"@) == u);
        assert(field(u, "username"@) == Some(JsonView::Text(user.0)));
        assert(field(u, "password"@) == Some(JsonView::Text(user.1)));
    } else {
        assert(field(download, "auth_info"@) == Some(JsonView::Null));
    }
    let zip = Some(zip_tree(info.zip));
    if let Some((file, password, size)) = info.zip {
        assert(field(zip, "file"@) == Some(JsonView::Text(file)));
        assert(field(zip, "password"@) == Some(JsonView::Text(password)));
        assert(field(zip, "size"@) == Some(JsonView::Number(size)));
    }
    let files = listed_files(Some(JsonView::List(items)))->Some_0;
    assert(files =~= info.attachments) by {
        assert forall|i: int| 0 <= i < items.len() implies files[i] == info.attachments[i] by {
            let f = info.attachments[i];
            let item = Some(saved_tree(f));
            assert(items[i] == saved_tree(f));
            assert(field(item, "filename"@) == Some(JsonView::Text(f.0)));
            assert(field(item, "size"@) == Some(JsonView::Number(f.1)));
        }
    }
    assert(page_of(note) =~= shown_page(info));
}

/// The note has a field for each thing that is noted, under the name of that thing.
pub proof fn law_note_names_its_fields(info: MailInfoView)
    ensures
        ({
            let note = Some(info_tree(info));
            let download = field(note, "download"@);
            let zip = field(note, "zip"@);
            &&& field(note, "from"@) == Some(JsonView::Text(info.from))
            &&& field(note, "to"@) == Some(JsonView::Text(info.to))
            &&& field(note, "subject"@) == Some(JsonView::Text(info.subject))
            &&& field(note, "generated_at"@) == Some(JsonView::Text(info.generated_at))
            &&& info.original_queue_id matches Some(id) ==> field(note, "original_queue_id"@)
                == Some(JsonView::Text(id))
            &&& info.original_queue_id is None ==> field(note, "original_queue_id"@) == Some(
                JsonView::Null,
            )
            &&& field(note, "attachments"@) matches Some(JsonView::List(items)) && items.len()
                == info.attachments.len() && forall|i: int|
                0 <= i < items.len() ==> field(Some(#[trigger] items[i]), "filename"@) == Some(
                    JsonView::Text(info.attachments[i].0),
                ) && field(Some(items[i]), "size"@) == Some(JsonView::Number(info.attachments[i].1))
            &&& field(download, "url"@) == Some(JsonView::Text(info.url))
            &&& field(download, "auth_mode"@) == Some(JsonView::Text(info.auth_mode))
            &&& field(download, "max_downloads"@) == Some(
                JsonView::Number(info.max_downloads as u64),
            )
            &&& field(download, "expire_hours"@) == Some(JsonView::Number(info.expire_hours))
            &&& info.auth_info matches Some(user) ==> field(
                field(download, "auth_info"@),
                "username"@,
            ) == Some(JsonView::Text(user.0)) && field(
                field(download, "auth_info"@),
                "password"@,
            ) == Some(JsonView::Text(user.1))
            &&& info.auth_info is None ==> field(download, "auth_info"@) == Some(JsonView::Null)
            &&& info.zip matches Some((file, password, size)) ==> field(zip, "file"@) == Some(
                JsonView::Text(file),
            ) && field(zip, "password"@) == Some(JsonView::Text(password)) && field(zip, "size"@)
                == Some(JsonView::Number(size)) && field(zip, "download_count"@) == Some(
                JsonView::Number(0),
            ) && field(zip, "expires_at"@) == Some(JsonView::Null)
            &&& info.zip is None ==> zip == Some(JsonView::Null)
        }),
{
    lemma_field_names();
    let items = info.attachments.map_values(|f: SavedView| saved_tree(f));
    assert(field(Some(info_tree(info)), "attachments"@) == Some(JsonView::List(items)));
    assert forall|i: int| 0 <= i < items.len() implies field(
        Some(#[trigger] items[i]),
        "filename"@,
    ) == Some(JsonView::Text(info.attachments[i].0)) && field(Some(items[i]), "size"@) == Some(
        JsonView::Number(info.attachments[i].1),
    ) by {
        assert(items[i] == saved_tree(info.attachments[i]));
    }
}

/// The text of a user says the name and the password, each under its own name.
pub proof fn law_user_is_told_apart(name: Seq<char>, password: Seq<char>)
    ensures
        field(Some(auth_tree((name, password))), "username"@) == Some(JsonView::Text(name)),
        field(Some(auth_tree((name, password))), "password"@) == Some(JsonView::Text(password)),
{
    lemma_field_names();
}

/// What a note does not say is empty on the page, and the mode is the one that asks for
/// nothing.
pub proof fn law_missing_fields_are_empty(note: JsonView)
    requires
        !(note is Object),
    ensures
        page_of(note) == (PageView {
            subject: seq![],
            from: seq![],
            to: seq![],
            zip_file: seq![],
            zip_password: seq![],
            zip_size: 0,
            download_url: seq![],
            auth_mode: "minimal"@,
            auth_info: None,
            attachments: None,
            generated_at: seq![],
        }),
{
    lemma_field_names();
}

} // verus!
