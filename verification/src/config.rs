//! The configuration file and the run directory it lives in.
use vstd::prelude::*;
use crate::json::{Json, JsonV};
use crate::text::{chars_of, has_prefix, push_char, push_str, str_eq, to_string, u64_to_string, dec_nat};

verus! {

/// The prefix of a Windows extended-length path: `\\?\`.
pub open spec fn verbatim_prefix() -> Seq<char> {
    seq!['\\', '\\', '?', '\\']
}

/// A path without the extended-length prefix, if it has one.
pub open spec fn strip_verbatim(p: Seq<char>) -> Seq<char> {
    if has_prefix(p, verbatim_prefix()) {
        p.skip(4)
    } else {
        p
    }
}

/// Drops the `\\?\` prefix that Windows puts before extended-length paths.
pub fn deal_path_str(path_str: &str) -> (r: &str)
    ensures
        r@ == strip_verbatim(path_str@),
{
    let cs = chars_of(path_str);
    let prefix = ['\\', '\\', '?', '\\'];
    assert(prefix@ =~= verbatim_prefix());
    if crate::text::chars_start_with(cs.as_slice(), prefix.as_slice()) {
        let n = path_str.unicode_len();
        path_str.substring_char(4, n)
    } else {
        path_str
    }
}

/// The run directory from the directory of the executable: a separator at
/// the end, and no extended-length prefix.
pub open spec fn run_dir_spec(parent: Seq<char>, sep: char) -> Seq<char> {
    let with_sep = if parent.len() > 0 && parent.last() == sep {
        parent
    } else {
        parent.push(sep)
    };
    strip_verbatim(with_sep)
}

/// The run directory (where `config.json` lives) from the text of the
/// executable's directory and the platform's path separator.
pub fn run_dir_from(parent: &str, sep: char) -> (r: String)
    ensures
        r@ == run_dir_spec(parent@, sep),
{
    let mut s = to_string(parent);
    let cs = chars_of(parent);
    if !(cs.len() > 0 && cs[cs.len() - 1] == sep) {
        push_char(&mut s, sep);
    }
    let d = deal_path_str(s.as_str());
    to_string(d)
}

/// A field of the configuration file.
#[derive(Debug, Clone, Copy, PartialEq, Eq, Structural)]
pub enum ConfigField {
    KookToken,
    WebHost,
    WebPort,
    Secret,
    AccessToken,
    ReverseUri,
}

/// Why the configuration file could not be read: a field is missing, has the
/// wrong type, or `reverse_uri` holds something other than a string.
#[derive(Debug, Clone, Copy, PartialEq, Eq, Structural)]
pub enum ConfigError {
    Missing(ConfigField),
    WrongType(ConfigField),
    ReverseUriNotStr,
}

/// The settings of `config.json`; every field is required.
pub struct Config {
    pub kook_token: String,
    pub web_host: String,
    pub web_port: u64,
    pub secret: String,
    pub access_token: String,
    pub reverse_uri: Vec<String>,
}

pub struct ConfigV {
    pub kook_token: Seq<char>,
    pub web_host: Seq<char>,
    pub web_port: u64,
    pub secret: Seq<char>,
    pub access_token: Seq<char>,
    pub reverse_uri: Seq<Seq<char>>,
}

impl View for Config {
    type V = ConfigV;

    open spec fn view(&self) -> ConfigV {
        ConfigV {
            kook_token: self.kook_token@,
            web_host: self.web_host@,
            web_port: self.web_port,
            secret: self.secret@,
            access_token: self.access_token@,
            reverse_uri: self.reverse_uri@.map_values(|u: String| u@),
        }
    }
}

/// A string member `k` of the configuration, or why there is none.
pub open spec fn str_field(j: JsonV, k: Seq<char>, f: ConfigField) -> Result<Seq<char>, ConfigError> {
    match j.get(k) {
        None => Err(ConfigError::Missing(f)),
        Some(v) => match v.as_str() {
            Some(s) => Ok(s),
            None => Err(ConfigError::WrongType(f)),
        },
    }
}

/// The strings of `items`, if every item is a string.
pub open spec fn all_strs(items: Seq<JsonV>) -> Option<Seq<Seq<char>>>
    decreases items.len(),
{
    if items.len() == 0 {
        Some(Seq::empty())
    } else {
        match all_strs(items.drop_last()) {
            None => None,
            Some(ss) => match items.last().as_str() {
                Some(s) => Some(ss.push(s)),
                None => None,
            },
        }
    }
}

/// The configuration that a `config.json` document holds, its fields read in
/// the order kook_token, web_host, web_port, secret, access_token,
/// reverse_uri; the first one missing or of the wrong type is the error.
pub open spec fn config_spec(j: JsonV) -> Result<ConfigV, ConfigError> {
    match str_field(j, "kook_token"@, ConfigField::KookToken) {
        Err(e) => Err(e),
        Ok(kook_token) => match str_field(j, "web_host"@, ConfigField::WebHost) {
            Err(e) => Err(e),
            Ok(web_host) => match j.get("web_port"@) {
                None => Err(ConfigError::Missing(ConfigField::WebPort)),
                Some(p) => match p.as_u64() {
                    None => Err(ConfigError::WrongType(ConfigField::WebPort)),
                    Some(web_port) => match str_field(j, "secret"@, ConfigField::Secret) {
                        Err(e) => Err(e),
                        Ok(secret) => match str_field(j, "access_token"@, ConfigField::AccessToken) {
                            Err(e) => Err(e),
                            Ok(access_token) => match j.get("reverse_uri"@) {
                                None => Err(ConfigError::Missing(ConfigField::ReverseUri)),
                                Some(r) => match r.as_array() {
                                    None => Err(ConfigError::WrongType(ConfigField::ReverseUri)),
                                    Some(items) => match all_strs(items) {
                                        None => Err(ConfigError::ReverseUriNotStr),
                                        Some(reverse_uri) => Ok(
                                            ConfigV {
                                                kook_token,
                                                web_host,
                                                web_port,
                                                secret,
                                                access_token,
                                                reverse_uri,
                                            },
                                        ),
                                    },
                                },
                            },
                        },
                    },
                },
            },
        },
    }
}

fn read_str_field(j: &Json, k: &str, f: ConfigField) -> (r: Result<String, ConfigError>)
    ensures
        match r {
            Ok(s) => str_field(j@, k@, f) == Ok::<Seq<char>, ConfigError>(s@),
            Err(e) => str_field(j@, k@, f) == Err::<Seq<char>, ConfigError>(e),
        },
{
    match j.get(k) {
        None => Err(ConfigError::Missing(f)),
        Some(v) => match v.as_str() {
            Some(s) => Ok(to_string(s)),
            None => Err(ConfigError::WrongType(f)),
        },
    }
}

/// Reads the settings out of the `config.json` document.
pub fn parse_config(j: &Json) -> (r: Result<Config, ConfigError>)
    ensures
        match r {
            Ok(c) => config_spec(j@) == Ok::<ConfigV, ConfigError>(c@),
            Err(e) => config_spec(j@) == Err::<ConfigV, ConfigError>(e),
        },
{
    let kook_token = match read_str_field(j, "kook_token", ConfigField::KookToken) {
        Ok(s) => s,
        Err(e) => return Err(e),
    };
    let web_host = match read_str_field(j, "web_host", ConfigField::WebHost) {
        Ok(s) => s,
        Err(e) => return Err(e),
    };
    let web_port = match j.get("web_port") {
        None => return Err(ConfigError::Missing(ConfigField::WebPort)),
        Some(p) => match p.as_u64() {
            None => return Err(ConfigError::WrongType(ConfigField::WebPort)),
            Some(n) => n,
        },
    };
    let secret = match read_str_field(j, "secret", ConfigField::Secret) {
        Ok(s) => s,
        Err(e) => return Err(e),
    };
    let access_token = match read_str_field(j, "access_token", ConfigField::AccessToken) {
        Ok(s) => s,
        Err(e) => return Err(e),
    };
    let items = match j.get("reverse_uri") {
        None => return Err(ConfigError::Missing(ConfigField::ReverseUri)),
        Some(r) => match r.as_array() {
            None => return Err(ConfigError::WrongType(ConfigField::ReverseUri)),
            Some(v) => v,
        },
    };
    let reverse_uri = match strs_of(items) {
        Some(v) => v,
        None => return Err(ConfigError::ReverseUriNotStr),
    };
    Ok(Config { kook_token, web_host, web_port, secret, access_token, reverse_uri })
}

fn strs_of(items: &Vec<Json>) -> (r: Option<Vec<String>>)
    ensures
        match r {
            Some(v) => all_strs(crate::json::json_seq_view(items@)) == Some(
                v@.map_values(|u: String| u@),
            ),
            None => all_strs(crate::json::json_seq_view(items@)) is None,
        },
{
    let ghost iv = crate::json::json_seq_view(items@);
    proof {
        crate::json::lemma_seq_view(items@);
        assert(iv.take(0) =~= Seq::<JsonV>::empty());
    }
    let mut out: Vec<String> = Vec::new();
    assert(out@.map_values(|u: String| u@) =~= Seq::<Seq<char>>::empty());
    let n = items.len();
    let mut i: usize = 0;
    while i < n
        invariant
            n == items@.len(),
            i <= n,
            iv == crate::json::json_seq_view(items@),
            iv.len() == n,
            forall|k: int| 0 <= k < n ==> #[trigger] iv[k] == crate::json::json_view(items@[k]),
            all_strs(iv.take(i as int)) == Some(out@.map_values(|u: String| u@)),
        decreases n - i,
    {
        assert(iv.take(i + 1).drop_last() =~= iv.take(i as int));
        assert(iv.take(i + 1).last() == iv[i as int]);
        match items[i].as_str() {
            Some(u) => {
                let ghost before = out@;
                out.push(to_string(u));
                assert(out@.map_values(|u: String| u@) =~= before.map_values(|u: String| u@).push(
                    u@,
                ));
            },
            None => {
                proof {
                    lemma_all_strs_prefix(iv, i as int + 1);
                }
                return None;
            },
        }
        i = i + 1;
    }
    assert(iv.take(n as int) =~= iv);
    Some(out)
}

proof fn lemma_all_strs_prefix(items: Seq<JsonV>, k: int)
    requires
        0 <= k <= items.len(),
        all_strs(items.take(k)) is None,
    ensures
        all_strs(items) is None,
    decreases items.len() - k,
{
    if k < items.len() {
        assert(items.take(k + 1).drop_last() =~= items.take(k));
        lemma_all_strs_prefix(items, k + 1);
    } else {
        assert(items.take(k) =~= items);
    }
}

/// The address the HTTP and WebSocket server listens on: `localhost` means
/// `127.0.0.1`; an empty host or port 0 means no server.
pub open spec fn listen_addr_spec(host: Seq<char>, port: u64) -> Option<Seq<char>> {
    let h = if host == "localhost"@ {
        "127.0.0.1"@
    } else {
        host
    };
    if h.len() != 0 && port != 0 {
        Some(h + seq![':'] + dec_nat(port as nat))
    } else {
        None
    }
}

/// The `host:port` the server listens on, if it runs at all.
pub fn listen_addr(web_host: &str, web_port: u64) -> (r: Option<String>)
    ensures
        match r {
            Some(s) => listen_addr_spec(web_host@, web_port) == Some(s@),
            None => listen_addr_spec(web_host@, web_port) is None,
        },
{
    let host = if str_eq(web_host, "localhost") {
        "127.0.0.1"
    } else {
        web_host
    };
    let hc = chars_of(host);
    if hc.len() != 0 && web_port != 0 {
        let mut s = to_string(host);
        push_char(&mut s, ':');
        let p = u64_to_string(web_port);
        push_str(&mut s, p.as_str());
        Some(s)
    } else {
        None
    }
}

/// The file written when there is no `config.json` yet.
pub fn default_config_text() -> (r: String)
    ensures
        r@ == "{\"web_port\":8080,\"kook_token\":\"\",\"access_token\":\"\",\"web_host\":\"127.0.0.1\",\"reverse_uri\":[]}"@,
{
    to_string(
        "{\"web_port\":8080,\"kook_token\":\"\",\"access_token\":\"\",\"web_host\":\"127.0.0.1\",\"reverse_uri\":[]}",
    )
}

/// Every field of `config.json` is required: a document that lacks any one
/// of them is refused.
pub proof fn law_all_fields_required(j: JsonV)
    requires
        j.get("kook_token"@) is None || j.get("web_host"@) is None || j.get("web_port"@) is None
            || j.get("secret"@) is None || j.get("access_token"@) is None || j.get(
            "reverse_uri"@,
        ) is None,
    ensures
        config_spec(j) is Err,
{
}

/// A document with all six fields of the right types is read as it is.
pub proof fn law_complete_config_read(j: JsonV, c: ConfigV)
    requires
        j.get("kook_token"@) == Some(JsonV::Str(c.kook_token)),
        j.get("web_host"@) == Some(JsonV::Str(c.web_host)),
        j.get("web_port"@) == Some(JsonV::PosInt(c.web_port)),
        j.get("secret"@) == Some(JsonV::Str(c.secret)),
        j.get("access_token"@) == Some(JsonV::Str(c.access_token)),
        j.get("reverse_uri"@) == Some(
            JsonV::Array(c.reverse_uri.map_values(|u: Seq<char>| JsonV::Str(u))),
        ),
    ensures
        config_spec(j) == Ok::<ConfigV, ConfigError>(c),
{
    lemma_all_strs_of(c.reverse_uri);
}

proof fn lemma_all_strs_of(us: Seq<Seq<char>>)
    ensures
        all_strs(us.map_values(|u: Seq<char>| JsonV::Str(u))) == Some(us),
    decreases us.len(),
{
    if us.len() > 0 {
        lemma_all_strs_of(us.drop_last());
        let m = us.map_values(|u: Seq<char>| JsonV::Str(u));
        assert(m.drop_last() =~= us.drop_last().map_values(|u: Seq<char>| JsonV::Str(u)));
        assert(us.drop_last().push(us.last()) =~= us);
    } else {
        assert(us.map_values(|u: Seq<char>| JsonV::Str(u)) =~= Seq::<JsonV>::empty());
        assert(us =~= Seq::<Seq<char>>::empty());
    }
}

} // verus!
