//! Download links and the files that serve a download.
use crate::codec::{
    ascii_chars, base64_group, base64_url, encode_url, hash_sha256, hash_sha512, hmac_sha256,
    hmac_sha512,
};
use crate::text::{
    find_char, from_chars, lower, lower_text, opt_view, position, same_text, split, split_chars,
    to_chars, trim_end_char, trim_end_matches, views,
};
use vstd::prelude::*;
use vstd::slice::slice_subrange;
use vstd::utf8::encode_utf8;

verus! {

/// The settings of basic authentication in a request.
#[derive(Debug)]
pub struct BasicConfig {
    /// The name of the user.
    pub basic_auth_user: Option<String>,
    /// The password of the user.
    pub basic_auth_password: Option<String>,
}

/// The settings of authentication by a token in a request.
#[derive(Debug)]
pub struct TokenConfig {
    /// The secret key.
    pub token_auth_key: Option<String>,
    /// The algorithm of the token.
    pub token_auth_type: Option<String>,
}

/// A request for a download link.
#[derive(Debug)]
pub struct GenerateRequest {
    /// The name of the download.
    pub uuid: String,
    /// The start of the link.
    pub base_url: String,
    /// The mode of authentication.
    pub download_auth_mode: String,
    /// The settings of the mode.
    pub config: Option<GenerateConfig>,
}

/// The settings of the modes of authentication in a request.
#[derive(Debug)]
pub struct GenerateConfig {
    /// The settings of basic authentication.
    pub basic: Option<BasicConfig>,
    /// The settings of authentication by a token.
    pub token: Option<TokenConfig>,
}

/// The user who may download.
#[derive(Debug, Clone)]
pub struct AuthInfo {
    /// The name of the user.
    pub username: String,
    /// The password of the user.
    pub password: String,
}

/// The answer to a request for a download link.
#[derive(Debug)]
pub struct GenerateResponse {
    /// The link.
    pub download_url: String,
    /// The user who may download, in basic authentication.
    pub auth_info: Option<AuthInfo>,
}

/// The name and the password of a user.
pub type AuthView = (Seq<char>, Seq<char>);

/// The name and the password of a user.
pub open spec fn auth_view(a: Option<AuthInfo>) -> Option<AuthView> {
    match a {
        Some(a) => Some((a.username@, a.password@)),
        None => None,
    }
}

/// A text, or none where there is none.
pub open spec fn or_empty(s: Option<Seq<char>>) -> Seq<char> {
    match s {
        Some(s) => s,
        None => seq![],
    }
}

/// The link to a download, before any token.
pub open spec fn plain_link(base: Seq<char>, uuid: Seq<char>) -> Seq<char> {
    trim_end_matches(base, '/') + "/"@ + uuid
}

/// The token of a download: its name under a keyed hash, in base64 for URLs. The hash
/// is SHA-512 where it is asked for, and SHA-256 else.
pub open spec fn token_text(
    key: Seq<char>,
    uuid: Seq<char>,
    algorithm: Option<Seq<char>>,
) -> Seq<char> {
    let wide = algorithm is Some && lower(algorithm->Some_0) == "hmac-sha512"@;
    ascii_chars(
        base64_url(
            if wide {
                hmac_sha512(encode_utf8(key), encode_utf8(uuid))
            } else {
                hmac_sha256(encode_utf8(key), encode_utf8(uuid))
            },
        ),
    )
}

/// The link to a download, with its token.
pub open spec fn token_link(base: Seq<char>, uuid: Seq<char>, token: Seq<char>) -> Seq<char> {
    plain_link(base, uuid) + "?token="@ + token
}

/// The link to a download.
pub fn make_link(base: &str, uuid: &str) -> (r: String)
    ensures
        r@ == plain_link(base@, uuid@),
{
    let chars = to_chars(base);
    let mut url = from_chars(trim_end_char(chars.as_slice(), '/'));
    url.push_str("/");
    url.push_str(uuid);
    url
}

/// The token of a download.
pub fn make_token(key: &str, uuid: &str, algorithm: &Option<String>) -> (r: String)
    ensures
        r@ == token_text(key@, uuid@, opt_view(*algorithm)),
{
    let wide = match algorithm {
        Some(a) => same_text(lower_text(a.as_str()).as_str(), "hmac-sha512"),
        None => false,
    };
    let hash = if wide {
        hash_sha512(key.as_bytes(), uuid.as_bytes())
    } else {
        hash_sha256(key.as_bytes(), uuid.as_bytes())
    };
    encode_url(hash.as_slice())
}

/// The link to a download, with its token.
pub fn make_token_link(base: &str, uuid: &str, token: &str) -> (r: String)
    ensures
        r@ == token_link(base@, uuid@, token@),
{
    let mut url = make_link(base, uuid);
    url.push_str("?token=");
    url.push_str(token);
    url
}

/// The key and the algorithm of tokens in a request, if it has a key.
pub open spec fn requested_key(req: GenerateRequest) -> Option<
    (Seq<char>, Option<Seq<char>>),
> {
    match req.config {
        Some(GenerateConfig {
            token: Some(TokenConfig { token_auth_key: Some(key), token_auth_type }),
            ..
        }) => Some((key@, opt_view(token_auth_type))),
        _ => None,
    }
}

/// The user in a request.
pub open spec fn requested_user(req: GenerateRequest) -> AuthView {
    match req.config {
        Some(GenerateConfig { basic: Some(b), .. }) => (
            or_empty(opt_view(b.basic_auth_user)),
            or_empty(opt_view(b.basic_auth_password)),
        ),
        _ => (seq![], seq![]),
    }
}

/// The link that answers a request.
pub open spec fn answer_link(req: GenerateRequest) -> Seq<char> {
    match requested_key(req) {
        Some((key, algorithm)) if lower(req.download_auth_mode@) == "token"@ => token_link(
            req.base_url@,
            req.uuid@,
            token_text(key, req.uuid@, algorithm),
        ),
        _ => plain_link(req.base_url@, req.uuid@),
    }
}

/// Answers a request for a download link. The mode `token` adds a token if there is a
/// key for it, the mode `basic` names the user, and any other mode does neither.
pub fn generate_download(req: &GenerateRequest) -> (r: GenerateResponse)
    ensures
        r.download_url@ == answer_link(*req),
        auth_view(r.auth_info) == (if lower(req.download_auth_mode@) == "basic"@ {
            Some(requested_user(*req))
        } else {
            None
        }),
{
    let mode = lower_text(req.download_auth_mode.as_str());
    proof {
        reveal_strlit("token");
        reveal_strlit("basic");
        assert("token"@.len() == 5 && "token"@[0] == 't' && "basic"@[0] == 'b');
    }
    if same_text(mode.as_str(), "basic") {
        let mut username = String::new();
        let mut password = String::new();
        if let Some(cfg) = &req.config {
            if let Some(b) = &cfg.basic {
                username = text_or_empty(&b.basic_auth_user);
                password = text_or_empty(&b.basic_auth_password);
            }
        }
        proof {
            assert(requested_user(*req).0 =~= username@);
            assert(requested_user(*req).1 =~= password@);
        }
        GenerateResponse {
            download_url: make_link(req.base_url.as_str(), req.uuid.as_str()),
            auth_info: Some(AuthInfo { username, password }),
        }
    } else if same_text(mode.as_str(), "token") {
        if let Some(cfg) = &req.config {
            if let Some(t) = &cfg.token {
                if let Some(key) = &t.token_auth_key {
                    let token = make_token(key.as_str(), req.uuid.as_str(), &t.token_auth_type);
                    return GenerateResponse {
                        download_url: make_token_link(
                            req.base_url.as_str(),
                            req.uuid.as_str(),
                            token.as_str(),
                        ),
                        auth_info: None,
                    };
                }
            }
        }
        GenerateResponse {
            download_url: make_link(req.base_url.as_str(), req.uuid.as_str()),
            auth_info: None,
        }
    } else {
        GenerateResponse {
            download_url: make_link(req.base_url.as_str(), req.uuid.as_str()),
            auth_info: None,
        }
    }
}

/// A text, or none where there is none.
pub fn text_or_empty(s: &Option<String>) -> (r: String)
    ensures
        r@ == or_empty(opt_view(*s)),
{
    match s {
        Some(s) => s.as_str().to_owned(),
        None => {
            let r = String::new();
            proof {
                assert(r@ =~= Seq::<char>::empty());
            }
            r
        },
    }
}

/// The value of the first parameter with a name, among the parameters of a query.
pub open spec fn param_value(pairs: Seq<Seq<char>>, key: Seq<char>) -> Option<Seq<char>>
    decreases pairs.len(),
{
    if pairs.len() == 0 {
        None
    } else {
        let pair = pairs[0];
        let e = position(pair, '=') as int;
        if pair.take(e) == key {
            Some(
                if e < pair.len() {
                    pair.skip(e + 1)
                } else {
                    seq![]
                },
            )
        } else {
            param_value(pairs.skip(1), key)
        }
    }
}

/// The value of a parameter in the query of a URL.
pub open spec fn query_param(url: Seq<char>, key: Seq<char>) -> Option<Seq<char>> {
    let p = position(url, '?') as int;
    if p < url.len() {
        param_value(split(url.skip(p + 1), '&'), key)
    } else {
        None
    }
}

/// The value of a parameter in the query of a URL.
pub fn extract_query_param(url: &str, key: &str) -> (r: Option<String>)
    ensures
        opt_view(r) == query_param(url@, key@),
{
    let chars = to_chars(url);
    let len = chars.len();
    let p = match find_char(chars.as_slice(), '?') {
        Some(p) => p,
        None => {
            return None;
        },
    };
    let query = slice_subrange(chars.as_slice(), p + 1, len);
    proof {
        assert(query@ =~= chars@.skip(p + 1));
    }
    let pairs = split_chars(query, '&');
    let ghost all = views(pairs@);
    let mut i: usize = 0;
    proof {
        assert(all.skip(0) =~= all);
    }
    while i < pairs.len()
        invariant
            i <= pairs@.len(),
            all == views(pairs@),
            query_param(url@, key@) == param_value(all, key@),
            param_value(all, key@) == param_value(all.skip(i as int), key@),
        decreases pairs@.len() - i,
    {
        let pair = pairs[i].as_slice();
        let n = pair.len();
        proof {
            let t = all.skip(i as int);
            assert(t[0] == pair@);
            assert(t.skip(1) =~= all.skip(i + 1));
        }
        let (e, v): (usize, usize) = match find_char(pair, '=') {
            Some(e) => (e, e + 1),
            None => (n, n),
        };
        let name = slice_subrange(pair, 0, e);
        proof {
            assert(name@ =~= pair@.take(e as int));
        }
        if crate::text::is_text(name, key) {
            let value = slice_subrange(pair, v, n);
            proof {
                assert(e < n ==> value@ =~= pair@.skip(e + 1));
                assert(e == n ==> value@ =~= Seq::<char>::empty());
            }
            return Some(from_chars(value));
        }
        i += 1;
    }
    proof {
        assert(all.skip(i as int) =~= Seq::<Seq<char>>::empty());
    }
    None
}

proof fn lemma_token_chars(bytes: Seq<u8>)
    ensures
        forall|i: int| 0 <= i < base64_url(bytes).len() ==> #[trigger] base64_url(bytes)[i] != 0x26,
    decreases bytes.len(),
{
    if bytes.len() > 2 {
        lemma_token_chars(bytes.skip(3));
        let group = base64_group(bytes[0], bytes[1], bytes[2], 0x2D, 0x5F);
        assert forall|i: int| 0 <= i < base64_url(bytes).len() implies #[trigger] base64_url(
            bytes,
        )[i] != 0x26 by {
            if i >= 4 {
                assert(base64_url(bytes)[i] == base64_url(bytes.skip(3))[i - 4]);
            } else {
                assert(base64_url(bytes)[i] == group[i]);
            }
        }
    }
}

proof fn lemma_trimmed_is_prefix(s: Seq<char>, c: char)
    ensures
        trim_end_matches(s, c).len() <= s.len(),
        trim_end_matches(s, c) == s.take(trim_end_matches(s, c).len() as int),
    decreases s.len(),
{
    if s.len() > 0 && s.last() == c {
        lemma_trimmed_is_prefix(s.drop_last(), c);
        assert(s.drop_last().take(trim_end_matches(s, c).len() as int) =~= s.take(
            trim_end_matches(s, c).len() as int,
        ));
    } else {
        assert(s.take(s.len() as int) =~= s);
    }
}

/// The token in a link is found again in it, whatever the key, if the start of the link
/// and the name of the download have no query of their own.
pub proof fn law_token_is_found_again(
    base: Seq<char>,
    uuid: Seq<char>,
    key: Seq<char>,
    algorithm: Option<Seq<char>>,
)
    requires
        !base.contains('?'),
        !uuid.contains('?'),
    ensures
        query_param(token_link(base, uuid, token_text(key, uuid, algorithm)), "token"@) == Some(
            token_text(key, uuid, algorithm),
        ),
{
    reveal_strlit("/");
    reveal_strlit("?token=");
    reveal_strlit("token");
    let token = token_text(key, uuid, algorithm);
    let plain = plain_link(base, uuid);
    let url = token_link(base, uuid, token);
    let wide = algorithm is Some && lower(algorithm->Some_0) == "hmac-sha512"@;
    let hash = if wide {
        hmac_sha512(encode_utf8(key), encode_utf8(uuid))
    } else {
        hmac_sha256(encode_utf8(key), encode_utf8(uuid))
    };
    lemma_token_chars(hash);
    lemma_trimmed_is_prefix(base, '/');
    let trimmed = trim_end_matches(base, '/');
    assert forall|i: int| 0 <= i < plain.len() implies plain[i] != '?' by {
        if i < trimmed.len() {
            assert(plain[i] == base[i]);
        } else if i > trimmed.len() {
            assert(plain[i] == uuid[i - trimmed.len() - 1]);
        }
    }
    assert forall|i: int| 0 <= i < plain.len() implies url[i] != '?' by {
        assert(url[i] == plain[i]);
    }
    crate::text::lemma_position_is(url, '?', plain.len() as int);
    let query = url.skip(plain.len() as int + 1);
    assert(query =~= "token="@ + token) by {
        reveal_strlit("token=");
    }
    reveal_strlit("token=");
    assert forall|i: int| 0 <= i < query.len() implies query[i] != '&' by {
        if i >= 6 {
            assert(query[i] == token[i - 6]);
            assert(token[i - 6] == base64_url(hash)[i - 6] as char);
        }
    }
    crate::text::lemma_position_is(query, '&', query.len() as int);
    assert(split(query, '&') =~= seq![query]);
    crate::text::lemma_position_is(query, '=', 5);
    assert(query.take(5) =~= "token"@);
    assert(query.skip(6) =~= token);
}

/// The link to a download is the start of links, a slash and the name of the download,
/// whether or not the start ends with a slash; a token stands behind it in the query.
pub proof fn law_link_leads_to_the_download(base: Seq<char>, uuid: Seq<char>, token: Seq<char>)
    ensures
        base.len() > 0 && base.last() != '/' ==> plain_link(base, uuid) == base + seq!['/'] + uuid,
        plain_link(base.push('/'), uuid) == plain_link(base, uuid),
        token_link(base, uuid, token) == plain_link(base, uuid) + "?token="@ + token,
{
    reveal_strlit("/");
    assert("/"@ =~= seq!['/']);
    assert(base.push('/').drop_last() =~= base);
}

/// A token is the name of the download under a keyed hash: with SHA-512 where that is asked
/// for, in capitals or small letters, and with SHA-256 in any other case.
pub proof fn law_token_is_the_keyed_hash(
    key: Seq<char>,
    uuid: Seq<char>,
    algorithm: Option<Seq<char>>,
)
    ensures
        algorithm matches Some(a) ==> (lower(a) == "hmac-sha512"@ ==> token_text(
            key,
            uuid,
            algorithm,
        ) == ascii_chars(base64_url(hmac_sha512(encode_utf8(key), encode_utf8(uuid))))),
        algorithm is None || lower(algorithm->Some_0) != "hmac-sha512"@ ==> token_text(
            key,
            uuid,
            algorithm,
        ) == ascii_chars(base64_url(hmac_sha256(encode_utf8(key), encode_utf8(uuid)))),
{
}

/// A request in the mode `token` that has a key is answered with a link that holds the token
/// of that key, and any other with the plain link.
pub proof fn law_only_tokens_are_added(req: GenerateRequest)
    ensures
        requested_key(req) matches Some((key, algorithm)) ==> (lower(req.download_auth_mode@)
            == "token"@ ==> answer_link(req) == plain_link(req.base_url@, req.uuid@) + "?token="@
            + token_text(key, req.uuid@, algorithm)),
        requested_key(req) is None || lower(req.download_auth_mode@) != "token"@ ==> answer_link(
            req,
        ) == plain_link(req.base_url@, req.uuid@),
        req.config matches Some(c) ==> (c.basic matches Some(b) ==> {
            &&& b.basic_auth_user matches Some(u) ==> requested_user(req).0 == u@
            &&& b.basic_auth_password matches Some(p) ==> requested_user(req).1 == p@
        }),
        req.config matches Some(c) ==> (c.token matches Some(t) ==> (t.token_auth_key matches Some(
            k,
        ) ==> requested_key(req) == Some((k@, opt_view(t.token_auth_type))))),
{
}

/// The value of a parameter in the query of a URL is found whatever parameters under other
/// names stand before it.
pub proof fn law_parameters_are_found(
    before: Seq<Seq<char>>,
    key: Seq<char>,
    value: Seq<char>,
    rest: Seq<Seq<char>>,
)
    requires
        !key.contains('='),
        forall|i: int|
            0 <= i < before.len() ==> (#[trigger] before[i]).take(position(before[i], '=') as int)
                != key,
    ensures
        param_value(before + seq![key + seq!['='] + value] + rest, key) == Some(value),
        param_value(before, key) is None,
    decreases before.len(),
{
    let pair = key + seq!['='] + value;
    let all = before + seq![pair] + rest;
    if before.len() == 0 {
        assert(all[0] == pair);
        assert forall|j: int| 0 <= j < key.len() implies pair[j] != '=' by {
            assert(pair[j] == key[j]);
            assert(key.contains(key[j]));
        }
        crate::text::lemma_position_is(pair, '=', key.len() as int);
        assert(pair.take(key.len() as int) =~= key);
        assert(pair.skip(key.len() as int + 1) =~= value);
    } else {
        let t = before.skip(1);
        assert(all[0] == before[0]);
        assert(before[0].take(position(before[0], '=') as int) != key);
        assert(all.skip(1) =~= t + seq![pair] + rest);
        assert forall|i: int| 0 <= i < t.len() implies (#[trigger] t[i]).take(
            position(t[i], '=') as int,
        ) != key by {
            assert(t[i] == before[i + 1]);
        }
        law_parameters_are_found(t, key, value, rest);
    }
}

/// A parameter without an equals sign has an empty value, and a URL without a query has no
/// parameters.
pub proof fn law_bare_parameters_are_empty(url: Seq<char>, key: Seq<char>, rest: Seq<Seq<char>>)
    requires
        !key.contains('='),
        !url.contains('?'),
    ensures
        param_value(seq![key] + rest, key) == Some(Seq::<char>::empty()),
        query_param(url, key) is None,
{
    assert forall|j: int| 0 <= j < key.len() implies key[j] != '=' by {
        assert(key.contains(key[j]));
    }
    crate::text::lemma_position_is(key, '=', key.len() as int);
    assert(key.take(key.len() as int) =~= key);
    assert((seq![key] + rest)[0] == key);
    crate::text::lemma_position(url, '?');
    if position(url, '?') < url.len() {
        assert(url.contains(url[position(url, '?') as int]));
    }
}

} // verus!
