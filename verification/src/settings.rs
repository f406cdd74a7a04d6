//! Database connections and application settings: the connection URL of a
//! configuration, the plan of a SQL Server connection, and the settings a
//! fresh or an incomplete settings file stands for.
use vstd::prelude::*;
use vstd::string::*;
use vstd::utf8::*;
use crate::text::{decimal, decimal_text, join_texts, joined, same_text, texts, trim, trim_text};

verus! {

/// One database connection.
#[derive(Debug, Clone)]
pub struct DbConfig {
    pub id: Option<String>,
    pub name: String,
    /// `mssql`, `mysql` or `postgres`.
    pub db_type: String,
    pub host: String,
    pub port: u16,
    pub user: String,
    pub password: String,
    pub database: String,
    pub trust_server_certificate: Option<bool>,
    pub encrypt: Option<bool>,
    pub verified: Option<bool>,
}

/// One column mapping of the revert tool.
#[derive(Debug, Clone)]
pub struct RevertTKMapping {
    pub id: String,
    pub label: String,
    pub offsets: Vec<i32>,
    /// The mapping's type.
    pub kind: String,
}

/// The settings of the application.
#[derive(Debug, Clone)]
pub struct AppSettings {
    pub connections: Vec<DbConfig>,
    pub translate_file_path: Option<String>,
    pub column_split_enabled: Option<bool>,
    pub column_split_keywords: Option<String>,
    pub revert_tk_col_config: Option<String>,
    pub column_split_apply_to_text: Option<bool>,
    pub column_split_apply_to_table: Option<bool>,
    pub revert_tk_delete_chars: Option<String>,
    pub revert_tk_mapping: Option<Vec<RevertTKMapping>>,
    pub excel_header_color: Option<String>,
    pub run_shortcut: Option<String>,
}

/// The rows that a query gave, each cell as text, under the names of the
/// columns.
#[derive(Debug, Clone)]
pub struct QueryResult {
    pub columns: Vec<String>,
    pub rows: Vec<Vec<String>>,
}

// ---------------------------------------------------------------------------
// Percent-encoding
// ---------------------------------------------------------------------------

/// The bytes that percent-encoding keeps: ASCII letters and digits, `-`,
/// `.`, `_` and `~`.
pub open spec fn is_unreserved(b: u8) -> bool {
    ||| 0x30 <= b <= 0x39
    ||| 0x41 <= b <= 0x5A
    ||| 0x61 <= b <= 0x7A
    ||| b == 0x2D
    ||| b == 0x2E
    ||| b == 0x5F
    ||| b == 0x7E
}

/// The upper-case hexadecimal digit of a number below 16.
pub open spec fn hex_digit(d: u8) -> char {
    if d < 10 {
        (0x30 + d) as char
    } else {
        (0x41 + d - 10) as char
    }
}

/// One byte, percent-encoded: itself if unreserved, else `%` and its two
/// hexadecimal digits.
pub open spec fn percent_byte(b: u8) -> Seq<char> {
    if is_unreserved(b) {
        seq![b as char]
    } else {
        seq!['%', hex_digit(b / 16), hex_digit(b % 16)]
    }
}

/// A sequence of bytes, percent-encoded byte by byte.
pub open spec fn percent_bytes(bytes: Seq<u8>) -> Seq<char>
    decreases bytes.len(),
{
    if bytes.len() == 0 {
        Seq::empty()
    } else {
        percent_bytes(bytes.drop_last()) + percent_byte(bytes.last())
    }
}

/// A text, percent-encoded: the encoding of the bytes of its UTF-8 form.
pub open spec fn percent_encoded(text: Seq<char>) -> Seq<char> {
    percent_bytes(encode_utf8(text))
}

/// `urlencoding::encode`: every byte of the text's UTF-8 form other than an
/// ASCII letter or digit, `-`, `.`, `_` and `~` becomes `%` followed by its
/// two upper-case hexadecimal digits; the other bytes stay.
#[verifier::external_body]
fn url_encode(text: &str) -> (r: String)
    ensures
        r@ == percent_encoded(text@),
{
    urlencoding::encode(text).into_owned()
}

// ---------------------------------------------------------------------------
// Connection URLs
// ---------------------------------------------------------------------------

/// The URL scheme of a database type.
pub open spec fn scheme(db_type: Seq<char>) -> Option<Seq<char>> {
    if db_type == "mssql"@ {
        Some("mssql"@)
    } else if db_type == "mysql"@ {
        Some("mysql"@)
    } else if db_type == "postgres"@ {
        Some("postgresql"@)
    } else {
        None
    }
}

/// The parameters that the URL of a SQL Server connection carries.
pub open spec fn mssql_params(config: DbConfig) -> Seq<Seq<char>> {
    let trust = if config.trust_server_certificate != Some(false) {
        seq!["trustServerCertificate=true"@]
    } else {
        Seq::empty()
    };
    let encrypt = match config.encrypt {
        Some(true) => seq!["encrypt=true"@],
        Some(false) => seq!["encrypt=false"@],
        None => Seq::empty(),
    };
    trust + encrypt
}

/// The URL of a connection with the scheme `scheme`: user, password and
/// database percent-encoded, host and port as they are; for SQL Server
/// followed by its parameters.
pub open spec fn url_with(config: DbConfig, scheme: Seq<char>) -> Seq<char> {
    let base = scheme + "://"@ + percent_encoded(config.user@) + ":"@ + percent_encoded(
        config.password@,
    ) + "@"@ + config.host@ + ":"@ + decimal(config.port as nat) + "/"@ + percent_encoded(
        config.database@,
    );
    if config.db_type@ == "mssql"@ && mssql_params(config).len() > 0 {
        base + "?"@ + joined(mssql_params(config), "&"@)
    } else {
        base
    }
}

/// The URL of a connection, or the message for a database type that is
/// not supported.
pub open spec fn db_url(config: DbConfig) -> Result<Seq<char>, Seq<char>> {
    match scheme(config.db_type@) {
        Some(s) => Ok(url_with(config, s)),
        None => Err("Unsupported database type"@),
    }
}

/// What the result of `build_db_url` stands for.
pub open spec fn url_view(r: Result<String, String>) -> Result<Seq<char>, Seq<char>> {
    match r {
        Ok(url) => Ok(url@),
        Err(message) => Err(message@),
    }
}

/// Computes `mssql_params`.
fn read_mssql_params(config: &DbConfig) -> (params: Vec<String>)
    ensures
        texts(params@) == mssql_params(*config),
{
    let mut params: Vec<String> = Vec::new();
    let trust = match config.trust_server_certificate {
        Some(t) => t,
        None => true,
    };
    if trust {
        params.push("trustServerCertificate=true".to_owned());
    }
    match config.encrypt {
        Some(true) => params.push("encrypt=true".to_owned()),
        Some(false) => params.push("encrypt=false".to_owned()),
        None => {},
    }
    assert(texts(params@) =~= mssql_params(*config));
    params
}

/// The URL under which the connection `config` is opened.
pub fn build_db_url(config: &DbConfig) -> (r: Result<String, String>)
    ensures
        url_view(r) == db_url(*config),
{
    let db_type = config.db_type.as_str();
    let is_mssql = same_text(db_type, "mssql");
    let mut url = if is_mssql {
        "mssql".to_owned()
    } else if same_text(db_type, "mysql") {
        "mysql".to_owned()
    } else if same_text(db_type, "postgres") {
        "postgresql".to_owned()
    } else {
        return Err("Unsupported database type".to_owned());
    };
    let ghost s = url@;
    url.append("://");
    url.append(url_encode(config.user.as_str()).as_str());
    url.append(":");
    url.append(url_encode(config.password.as_str()).as_str());
    url.append("@");
    url.append(config.host.as_str());
    url.append(":");
    url.append(decimal_text(config.port as usize).as_str());
    url.append("/");
    url.append(url_encode(config.database.as_str()).as_str());
    if is_mssql {
        let params = read_mssql_params(config);
        if params.len() > 0 {
            url.append("?");
            url.append(join_texts(&params, "&").as_str());
        }
    }
    assert(url@ =~= url_with(*config, s));
    Ok(url)
}

// ---------------------------------------------------------------------------
// SQL Server connections
// ---------------------------------------------------------------------------

/// How a SQL Server connection treats encryption.
#[derive(Debug, PartialEq, Eq, Structural, Clone, Copy)]
pub enum Encryption {
    /// Encrypt everything, fail where the server cannot.
    Required,
    /// Do not encrypt, not even the login.
    NotSupported,
    /// Encrypt the login only.
    Off,
}

/// What is set on a SQL Server connection before it is opened.
#[derive(Debug, Clone)]
pub struct MssqlPlan {
    pub host: String,
    pub port: u16,
    pub database: String,
    /// User and password, where SQL Server authentication is used.
    pub login: Option<(String, String)>,
    pub encryption: Encryption,
    /// Whether the server's certificate is trusted without validation.
    pub trust_certificate: bool,
}

/// The encryption of a connection: required where `encrypt` is set, not
/// supported where it is cleared, login only where it is absent.
pub open spec fn encryption_of(encrypt: Option<bool>) -> Encryption {
    match encrypt {
        Some(true) => Encryption::Required,
        Some(false) => Encryption::NotSupported,
        None => Encryption::Off,
    }
}

/// The plan of the SQL Server connection `config`. A login is planned
/// where the user is not blank; the certificate is trusted unless the
/// configuration says otherwise.
pub fn build_mssql_config(config: &DbConfig) -> (plan: MssqlPlan)
    ensures
        plan.host@ == config.host@,
        plan.port == config.port,
        plan.database@ == config.database@,
        match plan.login {
            Some(login) => trim(config.user@).len() > 0 && login.0@ == config.user@ && login.1@
                == config.password@,
            None => trim(config.user@).len() == 0,
        },
        plan.encryption == encryption_of(config.encrypt),
        plan.trust_certificate == (config.trust_server_certificate != Some(false)),
{
    let blank = trim_text(config.user.as_str()).as_str().is_empty();
    let login = if blank {
        None
    } else {
        Some((config.user.clone(), config.password.clone()))
    };
    let encryption = match config.encrypt {
        Some(true) => Encryption::Required,
        Some(false) => Encryption::NotSupported,
        None => Encryption::Off,
    };
    let trust_certificate = match config.trust_server_certificate {
        Some(t) => t,
        None => true,
    };
    MssqlPlan {
        host: config.host.clone(),
        port: config.port,
        database: config.database.clone(),
        login,
        encryption,
        trust_certificate,
    }
}

// ---------------------------------------------------------------------------
// Settings
// ---------------------------------------------------------------------------

/// What an optional text stands for.
pub open spec fn text_view(t: Option<String>) -> Option<Seq<char>> {
    match t {
        Some(s) => Some(s@),
        None => None,
    }
}

/// The settings of an installation without a settings file: one local SQL
/// Server connection, the translation file at `translate_path`, column
/// splitting switched on.
pub fn default_settings(translate_path: String) -> (s: AppSettings)
    ensures
        s.connections@.len() == 1,
        text_view(s.connections@[0].id) == Some("default"@),
        s.connections@[0].name@ == "Default Connection"@,
        s.connections@[0].db_type@ == "mssql"@,
        s.connections@[0].host@ == "localhost"@,
        s.connections@[0].port == 1433,
        s.connections@[0].user@ == "sa"@,
        s.connections@[0].password@ == Seq::<char>::empty(),
        s.connections@[0].database@ == Seq::<char>::empty(),
        s.connections@[0].trust_server_certificate == Some(true),
        s.connections@[0].encrypt == Some(false),
        s.connections@[0].verified == Some(false),
        text_view(s.translate_file_path) == Some(translate_path@),
        s.column_split_enabled == Some(true),
        s.column_split_keywords is None,
        s.revert_tk_col_config is None,
        s.column_split_apply_to_text is None,
        s.column_split_apply_to_table is None,
        s.revert_tk_delete_chars is None,
        s.revert_tk_mapping is None,
        s.excel_header_color is None,
        s.run_shortcut is None,
{
    let mut connections: Vec<DbConfig> = Vec::new();
    connections.push(
        DbConfig {
            id: Some("default".to_owned()),
            name: "Default Connection".to_owned(),
            db_type: "mssql".to_owned(),
            host: "localhost".to_owned(),
            port: 1433,
            user: "sa".to_owned(),
            password: String::new(),
            database: String::new(),
            trust_server_certificate: Some(true),
            encrypt: Some(false),
            verified: Some(false),
        },
    );
    AppSettings {
        connections,
        translate_file_path: Some(translate_path),
        column_split_enabled: Some(true),
        column_split_keywords: None,
        revert_tk_col_config: None,
        column_split_apply_to_text: None,
        column_split_apply_to_table: None,
        revert_tk_delete_chars: None,
        revert_tk_mapping: None,
        excel_header_color: None,
        run_shortcut: None,
    }
}

/// The number of connections among the first `upto` that have no id.
pub open spec fn missing_before(connections: Seq<DbConfig>, upto: int) -> nat
    decreases upto,
{
    if upto <= 0 || upto > connections.len() {
        0
    } else {
        missing_before(connections, upto - 1) + (if connections[upto - 1].id is None {
            1nat
        } else {
            0nat
        })
    }
}

/// The number of connections without an id.
pub fn count_missing_ids(settings: &AppSettings) -> (n: usize)
    ensures
        n == missing_before(settings.connections@, settings.connections@.len() as int),
{
    let mut n: usize = 0;
    let mut i: usize = 0;
    while i < settings.connections.len()
        invariant
            i <= settings.connections.len(),
            n <= i,
            n == missing_before(settings.connections@, i as int),
        decreases settings.connections.len() - i,
    {
        if settings.connections[i].id.is_none() {
            n += 1;
        }
        i += 1;
    }
    n
}

/// Whether a translation path is absent or empty.
pub open spec fn lacks_path(path: Option<String>) -> bool {
    match path {
        Some(p) => p@.len() == 0,
        None => true,
    }
}

/// The `k`-th of `fresh`, if there is one.
pub open spec fn fresh_at(fresh: Seq<String>, k: int) -> Option<Seq<char>> {
    if 0 <= k < fresh.len() {
        Some(fresh[k]@)
    } else {
        None
    }
}

/// Whether `after` is `before` with its id completed: the id it had, or
/// `next` where it had none; nothing else differs.
pub open spec fn completes(before: DbConfig, after: DbConfig, next: Option<Seq<char>>) -> bool {
    &&& after == (DbConfig { id: after.id, ..before })
    &&& before.id is Some ==> after.id == before.id
    &&& before.id is None ==> text_view(after.id) == next
}

/// Whether `after` differs from `before` in nothing but the connections
/// and the translation path.
pub open spec fn same_apart(before: AppSettings, after: AppSettings) -> bool {
    after == (AppSettings {
        connections: after.connections,
        translate_file_path: after.translate_file_path,
        ..before
    })
}

/// The translation path of completed settings: `fallback` where the path
/// was absent or empty.
pub open spec fn completed_path(path: Option<String>, fallback: Seq<char>) -> Option<Seq<char>> {
    if lacks_path(path) {
        Some(fallback)
    } else {
        text_view(path)
    }
}

/// Completes settings that were read from a file: each connection without
/// an id gets the next of `fresh_ids`, as long as there are any, and an
/// absent or empty translation path becomes `translate_path`. Everything
/// else stays.
pub fn complete_settings(settings: AppSettings, fresh_ids: Vec<String>, translate_path: String) -> (s:
    AppSettings)
    ensures
        s.connections@.len() == settings.connections@.len(),
        forall|i: int|
            0 <= i < s.connections@.len() ==> completes(
                settings.connections@[i],
                #[trigger] s.connections@[i],
                fresh_at(fresh_ids@, missing_before(settings.connections@, i) as int),
            ),
        text_view(s.translate_file_path) == completed_path(
            settings.translate_file_path,
            translate_path@,
        ),
        same_apart(settings, s),
{
    let ghost old_connections = settings.connections@;
    let mut s = settings;
    let mut used: usize = 0;
    let mut i: usize = 0;
    while i < s.connections.len()
        invariant
            i <= s.connections.len(),
            s.connections@.len() == old_connections.len(),
            old_connections == settings.connections@,
            used <= i,
            used == missing_before(old_connections, i as int),
            forall|j: int|
                i <= j < old_connections.len() ==> #[trigger] s.connections@[j]
                    == old_connections[j],
            forall|j: int|
                0 <= j < i ==> completes(
                    old_connections[j],
                    #[trigger] s.connections@[j],
                    fresh_at(fresh_ids@, missing_before(old_connections, j) as int),
                ),
            same_apart(settings, s),
            s.translate_file_path == settings.translate_file_path,
        decreases s.connections.len() - i,
    {
        if s.connections[i].id.is_none() {
            if used < fresh_ids.len() {
                let id = fresh_ids[used].clone();
                s.connections[i].id = Some(id);
            }
            used += 1;
        }
        i += 1;
    }
    let lacks = match &s.translate_file_path {
        Some(p) => p.as_str().is_empty(),
        None => true,
    };
    if lacks {
        s.translate_file_path = Some(translate_path);
    }
    s
}

} // verus!
