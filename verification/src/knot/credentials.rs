//! How a remote knot is reached and authenticated, and how a connection
//! string such as `ssh://user@host:22` is read.
use vstd::prelude::*;

use crate::knot::KnotType;
use crate::text::{chars_of, find_chars, parse_u16, rfind_char, string_of, sub_chars, trim_chars};

verus! {

/// The authentication that is kept in the configuration file.
#[derive(Debug, Clone)]
pub enum SavedAuthMethod {
    Password,
    PrivateKey { key_path: String, cert_path: Option<String> },
    NoAuth,
}

impl Default for SavedAuthMethod {
    fn default() -> (r: Self)
        ensures
            r is NoAuth,
    {
        SavedAuthMethod::NoAuth
    }
}

/// The authentication used while connecting.
#[derive(Debug, Clone)]
pub enum AuthMethod {
    Password(String),
    PrivateKey { key_path: String, cert_path: Option<String> },
    NoAuth,
}

impl Default for AuthMethod {
    fn default() -> (r: Self)
        ensures
            r is NoAuth,
    {
        AuthMethod::NoAuth
    }
}

/// Credentials of a remote knot.
#[derive(Debug, Clone)]
pub struct KnotCredentials {
    pub username: String,
    pub host: String,
    pub port: u16,
    pub auth: AuthMethod,
    pub config_auth: SavedAuthMethod,
    /// Number of connections the knot allows.
    pub connection_limit: usize,
}

impl Default for KnotCredentials {
    fn default() -> (r: Self)
        ensures
            r.username@ == Seq::<char>::empty(),
            r.host@ == Seq::<char>::empty(),
            r.port == 0,
            r.auth is NoAuth,
            r.config_auth is NoAuth,
            r.connection_limit == 0,
    {
        KnotCredentials {
            username: String::new(),
            host: String::new(),
            port: 0,
            auth: AuthMethod::NoAuth,
            config_auth: SavedAuthMethod::NoAuth,
            connection_limit: 0,
        }
    }
}

impl KnotCredentials {
    /// Empty credentials on port 22 with one connection.
    pub fn new() -> (r: Self)
        ensures
            r.username@ == Seq::<char>::empty(),
            r.host@ == Seq::<char>::empty(),
            r.port == 22,
            r.auth is NoAuth,
            r.config_auth is NoAuth,
            r.connection_limit == 1,
    {
        KnotCredentials { port: 22, connection_limit: 1, ..Default::default() }
    }

    pub fn username(self, username: String) -> (r: Self)
        ensures
            r == (KnotCredentials { username, ..self }),
    {
        KnotCredentials { username, ..self }
    }

    pub fn host(self, host: String) -> (r: Self)
        ensures
            r == (KnotCredentials { host, ..self }),
    {
        KnotCredentials { host, ..self }
    }

    pub fn port(self, port: u16) -> (r: Self)
        ensures
            r == (KnotCredentials { port, ..self }),
    {
        KnotCredentials { port, ..self }
    }

    /// Sets the number of connections.
    pub fn limit(self, limit: usize) -> (r: Self)
        ensures
            r == (KnotCredentials { connection_limit: limit, ..self }),
    {
        KnotCredentials { connection_limit: limit, ..self }
    }

    pub fn auth_password(self, password: String) -> (r: Self)
        ensures
            r == (KnotCredentials { auth: AuthMethod::Password(password), ..self }),
    {
        KnotCredentials { auth: AuthMethod::Password(password), ..self }
    }

    pub fn auth_private_key(self, key_path: String, cert_path: Option<String>) -> (r: Self)
        ensures
            r == (KnotCredentials { auth: AuthMethod::PrivateKey { key_path, cert_path }, ..self }),
    {
        KnotCredentials { auth: AuthMethod::PrivateKey { key_path, cert_path }, ..self }
    }

    /// Sets the username when one is given.
    pub fn option_username(self, username: Option<String>) -> (r: Self)
        ensures
            r == match username {
                Some(u) => KnotCredentials { username: u, ..self },
                None => self,
            },
    {
        match username {
            Some(u) => KnotCredentials { username: u, ..self },
            None => self,
        }
    }

    /// Sets the host when one is given.
    pub fn option_host(self, host: Option<String>) -> (r: Self)
        ensures
            r == match host {
                Some(h) => KnotCredentials { host: h, ..self },
                None => self,
            },
    {
        match host {
            Some(h) => KnotCredentials { host: h, ..self },
            None => self,
        }
    }

    /// Sets the port when one is given.
    pub fn option_port(self, port: Option<u16>) -> (r: Self)
        ensures
            r == match port {
                Some(p) => KnotCredentials { port: p, ..self },
                None => self,
            },
    {
        match port {
            Some(p) => KnotCredentials { port: p, ..self },
            None => self,
        }
    }
}

/// What a connection string told: `scheme://username@host:port`, each part
/// optional.
#[derive(Debug)]
pub struct ParsedCreds {
    pub scheme: Option<String>,
    pub username: Option<String>,
    pub host: Option<String>,
    pub port: Option<u16>,
}

/// The parts of a connection string, as sequences of characters.
pub struct ParsedView {
    pub scheme: Option<Seq<char>>,
    pub username: Option<Seq<char>>,
    pub host: Option<Seq<char>>,
    pub port: Option<u16>,
}

pub open spec fn opt_str_view(o: Option<String>) -> Option<Seq<char>> {
    match o {
        Some(s) => Some(s@),
        None => None,
    }
}

impl ParsedCreds {
    pub open spec fn view(&self) -> ParsedView {
        ParsedView {
            scheme: opt_str_view(self.scheme),
            username: opt_str_view(self.username),
            host: opt_str_view(self.host),
            port: self.port,
        }
    }
}

/// The host and port read from what follows the `@`: the host is what precedes
/// the last `:` (when not empty), the port what follows it when it reads as a
/// `u16`; without a `:` the whole rest is the host.
pub open spec fn host_port_spec(s: Seq<char>) -> (Option<Seq<char>>, Option<u16>) {
    match crate::text::rfind_char_spec(s, ':') {
        Some(p) => (
            if p > 0 {
                Some(s.take(p))
            } else {
                None
            },
            crate::text::parse_u16_spec(s.skip(p + 1)),
        ),
        None => (
            if s.len() > 0 {
                Some(s)
            } else {
                None
            },
            None,
        ),
    }
}

/// What a connection string tells, read from the trimmed input: the scheme is
/// what precedes the first `://`, the username what precedes the first `@`
/// after it (when not empty), then host and port as `host_port_spec` reads them.
pub open spec fn connection_string_spec(input: Seq<char>) -> ParsedView {
    let s0 = crate::text::trim_spec(input);
    if s0.len() == 0 {
        ParsedView { scheme: None, username: None, host: None, port: None }
    } else {
        let scheme = match crate::text::find_spec(s0, seq![':', '/', '/']) {
            Some(p) => Some(s0.take(p)),
            None => None,
        };
        let s1 = match crate::text::find_spec(s0, seq![':', '/', '/']) {
            Some(p) => s0.skip(p + 3),
            None => s0,
        };
        let username = match crate::text::find_spec(s1, seq!['@']) {
            Some(p) => if p > 0 {
                Some(s1.take(p))
            } else {
                None
            },
            None => None,
        };
        let s2 = match crate::text::find_spec(s1, seq!['@']) {
            Some(p) => s1.skip(p + 1),
            None => s1,
        };
        ParsedView {
            scheme,
            username,
            host: host_port_spec(s2).0,
            port: host_port_spec(s2).1,
        }
    }
}

proof fn lemma_find_bounds(s: Seq<char>, pat: Seq<char>, i: int)
    requires
        0 <= i,
    ensures
        match crate::text::find_from(s, pat, i) {
            Some(p) => i <= p && p + pat.len() <= s.len(),
            None => true,
        },
    decreases s.len() - i,
{
    if i + pat.len() <= s.len() && !crate::text::occurs_at(s, pat, i) && i < s.len() {
        lemma_find_bounds(s, pat, i + 1);
    }
}

proof fn lemma_rfind_bounds(s: Seq<char>, c: char)
    ensures
        match crate::text::rfind_char_spec(s, c) {
            Some(p) => 0 <= p < s.len(),
            None => true,
        },
    decreases s.len(),
{
    if s.len() > 0 && s.last() != c {
        lemma_rfind_bounds(s.drop_last(), c);
    }
}

fn opt_string(v: &Vec<char>) -> (r: Option<String>)
    ensures
        opt_str_view(r) == if v@.len() > 0 {
            Some(v@)
        } else {
            None::<Seq<char>>
        },
{
    if v.len() > 0 {
        Some(string_of(v.as_slice()))
    } else {
        None
    }
}

/// Reads a connection string such as `ssh://user@host:22`, `user@host:port`
/// or `host`; every part is optional.
pub fn connection_string(input: &str) -> (r: ParsedCreds)
    ensures
        r.view() == connection_string_spec(input@),
{
    let s0 = trim_chars(chars_of(input).as_slice());
    if s0.len() == 0 {
        return ParsedCreds { scheme: None, username: None, host: None, port: None };
    }
    let sep: Vec<char> = vec![':', '/', '/'];
    proof {
        assert(sep@ =~= seq![':', '/', '/']);
        lemma_find_bounds(s0@, sep@, 0);
    }
    let (scheme, s1) = match find_chars(s0.as_slice(), sep.as_slice()) {
        Some(p) => {
            let sch = string_of(sub_chars(s0.as_slice(), 0, p).as_slice());
            proof {
                assert(s0@.subrange(0, p as int) =~= s0@.take(p as int));
                assert(s0@.subrange(p + 3, s0@.len() as int) =~= s0@.skip(p + 3));
            }
            (Some(sch), sub_chars(s0.as_slice(), p + 3, s0.len()))
        },
        None => {
            proof {
                assert(s0@.subrange(0, s0@.len() as int) =~= s0@);
            }
            (None, sub_chars(s0.as_slice(), 0, s0.len()))
        },
    };
    let at: Vec<char> = vec!['@'];
    proof {
        assert(at@ =~= seq!['@']);
        lemma_find_bounds(s1@, at@, 0);
    }
    let (username, s2) = match find_chars(s1.as_slice(), at.as_slice()) {
        Some(p) => {
            let user = sub_chars(s1.as_slice(), 0, p);
            proof {
                assert(s1@.subrange(0, p as int) =~= s1@.take(p as int));
                assert(s1@.subrange(p + 1, s1@.len() as int) =~= s1@.skip(p + 1));
            }
            (opt_string(&user), sub_chars(s1.as_slice(), p + 1, s1.len()))
        },
        None => {
            proof {
                assert(s1@.subrange(0, s1@.len() as int) =~= s1@);
            }
            (None, sub_chars(s1.as_slice(), 0, s1.len()))
        },
    };
    proof {
        lemma_rfind_bounds(s2@, ':');
    }
    let (host, port) = match rfind_char(s2.as_slice(), ':') {
        Some(p) => {
            let host_part = sub_chars(s2.as_slice(), 0, p);
            let port_part = sub_chars(s2.as_slice(), p + 1, s2.len());
            proof {
                assert(s2@.subrange(0, p as int) =~= s2@.take(p as int));
                assert(s2@.subrange(p + 1, s2@.len() as int) =~= s2@.skip(p + 1));
            }
            (opt_string(&host_part), parse_u16(port_part.as_slice()))
        },
        None => (opt_string(&s2), None),
    };
    let r = ParsedCreds { scheme, username, host, port };
    proof {
        assert(r.view().scheme == connection_string_spec(input@).scheme);
    }
    r
}


/// A character that may stand in a scheme, a user name or a host name of a
/// connection string: neither white space nor one of `:`, `/` and `@`.
pub open spec fn plain_char(c: char) -> bool {
    c != ':' && c != '/' && c != '@' && !crate::text::is_whitespace_char(c)
}

pub open spec fn plain_text(s: Seq<char>) -> bool {
    forall|k: int| 0 <= k < s.len() ==> #[trigger] plain_char(s[k])
}

/// The connection string `scheme://username@host:port`, or
/// `username@host:port` without a scheme.
pub open spec fn connection_text(scheme: Option<Seq<char>>, user: Seq<char>, host: Seq<char>, port: u16) -> Seq<char> {
    (match scheme {
        Some(sc) => sc + seq![':', '/', '/'],
        None => Seq::<char>::empty(),
    }) + user + seq!['@'] + host + seq![':'] + crate::text::decimal_text(port as nat)
}

/// Law: a connection string written as `type://username@hostname:port` (or
/// `username@hostname:port`) is read back as its parts, when the user and
/// host names are not empty and no part holds white space or a separator.
pub proof fn lemma_connection_string_round_trip(
    scheme: Option<Seq<char>>,
    user: Seq<char>,
    host: Seq<char>,
    port: u16,
)
    requires
        scheme matches Some(sc) ==> plain_text(sc),
        plain_text(user),
        user.len() > 0,
        plain_text(host),
        host.len() > 0,
    ensures
        connection_string_spec(connection_text(scheme, user, host, port)) == (ParsedView {
            scheme,
            username: Some(user),
            host: Some(host),
            port: Some(port),
        }),
{
    let d = crate::text::decimal_text(port as nat);
    crate::text::lemma_decimal_text_digits(port as nat);
    crate::text::lemma_parse_decimal(port);
    assert forall|k: int| 0 <= k < d.len() implies #[trigger] d[k] != ':' && d[k] != '/'
        && !crate::text::is_whitespace_char(d[k]) by {
        assert(crate::text::is_digit_char(d[k]));
    }
    let s2 = host.push(':') + d;
    let s1 = user.push('@') + s2;
    let sep = seq![':', '/', '/'];
    let text = connection_text(scheme, user, host, port);
    let q: int = user.len() as int + 1 + host.len() as int;
    // where each character of `s1` comes from
    assert forall|j: int| 0 <= j < s1.len() implies (#[trigger] s1[j] == ':') == (j == q) by {
        if j < user.len() {
            assert(s1[j] == user[j]);
            assert(plain_char(user[j]));
        } else if j == user.len() {
            assert(s1[j] == '@');
        } else if j < q {
            assert(s1[j] == host[j - user.len() - 1]);
            assert(plain_char(host[j - user.len() - 1]));
        } else if j > q {
            assert(s1[j] == d[j - q - 1]);
        }
    }
    assert(s1.len() == q + 1 + d.len());
    assert(s1[q + 1] == d[0]);
    match scheme {
        Some(sc) => {
            assert(text =~= sc + sep + s1);
            assert(text.subrange(sc.len() as int, sc.len() as int + 3) =~= sep);
            assert forall|j: int| 0 <= j < sc.len() implies #[trigger] text[j] != sep[0] by {
                assert(text[j] == sc[j]);
                assert(plain_char(sc[j]));
            }
            crate::text::lemma_find_at(text, sep, 0, sc.len() as int);
            assert(text.take(sc.len() as int) =~= sc);
            assert(text.skip(sc.len() as int + 3) =~= s1);
            if sc.len() > 0 {
                assert(text[0] == sc[0]);
                assert(plain_char(sc[0]));
            } else {
                assert(text[0] == ':');
            }
        },
        None => {
            assert(text =~= s1);
            assert forall|j: int| 0 <= j implies !#[trigger] crate::text::occurs_at(text, sep, j) by {
                if crate::text::occurs_at(text, sep, j) {
                    assert(text.subrange(j, j + 3)[0] == text[j]);
                    assert(text.subrange(j, j + 3)[1] == text[j + 1]);
                    assert(text[j] == s1[j]);
                    assert(text[j + 1] == s1[j + 1]);
                }
            }
            crate::text::lemma_find_none(text, sep, 0);
            assert(text[0] == user[0]);
            assert(plain_char(user[0]));
        },
    }
    assert(text.last() == d.last());
    crate::text::lemma_trim_unchanged(text);
    // the user name ends at the first `@`
    assert(s1.subrange(user.len() as int, user.len() as int + 1) =~= seq!['@']);
    assert forall|j: int| 0 <= j < user.len() implies #[trigger] s1[j] != seq!['@'][0] by {
        assert(s1[j] == user[j]);
        assert(plain_char(user[j]));
    }
    crate::text::lemma_find_at(s1, seq!['@'], 0, user.len() as int);
    assert(s1.take(user.len() as int) =~= user);
    assert(s1.skip(user.len() as int + 1) =~= s2);
    // the host ends at the last `:`
    crate::text::lemma_rfind_last(host, ':', d);
    assert(s2.take(host.len() as int) =~= host);
    assert(s2.skip(host.len() as int + 1) =~= d);
}

/// What the prompt for a connection string works with: the string read, or,
/// when nothing was typed, `user@host:22`.
pub fn parsed_or_default(raw_input: &str) -> (r: ParsedCreds)
    ensures
        raw_input@.len() > 0 ==> r.view() == connection_string_spec(raw_input@),
        raw_input@.len() == 0 ==> r.view() == (ParsedView {
            scheme: None,
            username: Some("user"@),
            host: Some("host"@),
            port: Some(22u16),
        }),
{
    if !raw_input.is_empty() {
        connection_string(raw_input)
    } else {
        ParsedCreds {
            scheme: None,
            username: Some("user".to_string()),
            host: Some("host".to_string()),
            port: Some(22),
        }
    }
}

/// The knot type a scheme names: `ssh`, `sftp` or `local`; any other scheme,
/// or none, leaves the choice to the user.
pub fn knot_type_from_scheme(scheme: &Option<String>) -> (r: Option<KnotType>)
    ensures
        r == match scheme {
            Some(s) => if s@ == "ssh"@ {
                Some(KnotType::SSH)
            } else if s@ == "sftp"@ {
                Some(KnotType::SFTP)
            } else if s@ == "local"@ {
                Some(KnotType::Local)
            } else {
                None
            },
            None => None,
        },
{
    match scheme {
        Some(s) => {
            let ssh = "ssh".to_string();
            let sftp = "sftp".to_string();
            let local = "local".to_string();
            if *s == ssh {
                Some(KnotType::SSH)
            } else if *s == sftp {
                Some(KnotType::SFTP)
            } else if *s == local {
                Some(KnotType::Local)
            } else {
                None
            }
        },
        None => None,
    }
}


/// What connecting needs for a saved authentication: the method itself, or
/// a password to be asked for.
pub enum AuthStep {
    Ready(AuthMethod),
    AskPassword,
}

impl SavedAuthMethod {
    /// The authentication used while connecting: the password kept in the
    /// keyring when there is one (`stored`), a prompt otherwise; the key and
    /// certificate paths of a private key; nothing for no authentication.
    pub fn to_runtime_auth(&self, stored: Option<String>) -> (r: AuthStep)
        ensures
            match *self {
                SavedAuthMethod::Password => match stored {
                    Some(p) => r matches AuthStep::Ready(AuthMethod::Password(q)) && q == p,
                    None => r is AskPassword,
                },
                SavedAuthMethod::PrivateKey { key_path, cert_path } => r matches AuthStep::Ready(
                    AuthMethod::PrivateKey { key_path: k, cert_path: c },
                ) && k == key_path && c == cert_path,
                SavedAuthMethod::NoAuth => r matches AuthStep::Ready(AuthMethod::NoAuth),
            },
    {
        match self {
            SavedAuthMethod::Password => match stored {
                Some(p) => AuthStep::Ready(AuthMethod::Password(p)),
                None => AuthStep::AskPassword,
            },
            SavedAuthMethod::PrivateKey { key_path, cert_path } => AuthStep::Ready(
                AuthMethod::PrivateKey { key_path: key_path.clone(), cert_path: cert_path.clone() },
            ),
            SavedAuthMethod::NoAuth => AuthStep::Ready(AuthMethod::NoAuth),
        }
    }
}

/// The question that asks for the password of a host.
pub open spec fn password_prompt_spec(host: Seq<char>, port: u16) -> Seq<char> {
    " Password for '"@ + host + ":"@ + crate::text::decimal_text(port as nat) + "'"@
}

pub fn password_prompt(credentials: &KnotCredentials) -> (r: String)
    ensures
        r@ == password_prompt_spec(credentials.host@, credentials.port),
{
    let mut out: Vec<char> = Vec::new();
    crate::cli::dashboard::drawing::append_chars(&mut out, " Password for '");
    crate::cli::dashboard::drawing::append_chars(&mut out, credentials.host.as_str());
    crate::cli::dashboard::drawing::append_chars(&mut out, ":");
    let d = crate::text::decimal_string(credentials.port as u64);
    crate::cli::dashboard::drawing::append_chars(&mut out, d.as_str());
    crate::cli::dashboard::drawing::append_chars(&mut out, "'");
    string_of(out.as_slice())
}

} // verus!
