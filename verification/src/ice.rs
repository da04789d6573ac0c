//! ICE (STUN/TURN) server configuration: the built-in fallback list, the
//! conversion to the entries the agent's own peer connection accepts, the
//! comma-separated override format, and `.env.local` lookups.
use vstd::prelude::*;
use crate::json::{collect_strings, json_get, json_text, member_index, member_value, string_items, JsonValue};
use crate::scan::{split_lines, text_lines, views};
use crate::text::{
    chars_of, copy_range, find_char, first_char, has_char, has_prefix, starts_with_lit,
    string_from_chars, trim, trim_chars, lemma_first_char,
};

verus! {

broadcast use vstd::string::group_string_axioms;

/// One ICE server as configured: its URLs and optional credentials.
#[derive(Debug)]
pub struct IceServerConfig {
    pub urls: Vec<String>,
    pub username: Option<String>,
    pub credential: Option<String>,
}

/// How a peer connection authenticates with an ICE server.
#[derive(Clone, Copy, Debug, PartialEq, Eq, Structural)]
pub enum IceCredentialType {
    Unspecified,
    Password,
}

/// An ICE server entry for the agent's peer connection.
#[derive(Debug)]
pub struct RtcIceServer {
    pub urls: Vec<String>,
    pub username: String,
    pub credential: String,
    pub credential_type: IceCredentialType,
}

/// The texts of a list of strings.
pub open spec fn strings_view(v: Seq<String>) -> Seq<Seq<char>> {
    v.map_values(|s: String| s@)
}

/// The text of an optional string.
pub open spec fn opt_view(o: Option<String>) -> Option<Seq<char>> {
    match o {
        Some(s) => Some(s@),
        None => None,
    }
}

/// `"turns:"`.
pub open spec fn turns_scheme() -> Seq<char> {
    seq!['t', 'u', 'r', 'n', 's', ':']
}

/// `"turn:"`.
pub open spec fn turn_scheme() -> Seq<char> {
    seq!['t', 'u', 'r', 'n', ':']
}

/// The URLs the agent keeps, in order: trimmed, without empty ones and
/// without `turns:` ones (TLS relays that the agent's stack cannot use).
pub open spec fn agent_urls(urls: Seq<Seq<char>>) -> Seq<Seq<char>>
    decreases urls.len(),
{
    if urls.len() == 0 {
        seq![]
    } else {
        let rest = agent_urls(urls.drop_last());
        let t = trim(urls.last());
        if t.len() == 0 || has_prefix(t, turns_scheme()) {
            rest
        } else {
            rest.push(t)
        }
    }
}

/// Some URL is a `turn:` one.
pub open spec fn any_turn(urls: Seq<Seq<char>>) -> bool {
    exists|i: int| 0 <= i < urls.len() && has_prefix(#[trigger] urls[i], turn_scheme())
}

/// An optional credential, trimmed; empty when absent.
pub open spec fn trimmed_or_empty(o: Option<Seq<char>>) -> Seq<char> {
    match o {
        Some(s) => trim(s),
        None => seq![],
    }
}

/// An agent entry as plain values: URLs, username, credential, and whether
/// it authenticates with a password.
pub type RtcEntry = (Seq<Seq<char>>, Seq<char>, Seq<char>, bool);

/// The agent entry for one configured server: none when no URL is kept, or
/// when a `turn:` URL is kept but the username or credential is empty; the
/// password credential type exactly when a `turn:` URL is kept.
pub open spec fn rtc_entry(urls: Seq<Seq<char>>, username: Option<Seq<char>>, credential: Option<Seq<char>>) -> Option<RtcEntry> {
    let u = agent_urls(urls);
    let user = trimmed_or_empty(username);
    let cred = trimmed_or_empty(credential);
    let turn = any_turn(u);
    if u.len() == 0 {
        None
    } else if turn && (user.len() == 0 || cred.len() == 0) {
        None
    } else {
        Some((u, user, cred, turn))
    }
}

/// The agent entries for a configuration, in order.
pub open spec fn rtc_entries(servers: Seq<IceServerConfig>) -> Seq<RtcEntry>
    decreases servers.len(),
{
    if servers.len() == 0 {
        seq![]
    } else {
        let rest = rtc_entries(servers.drop_last());
        let s = servers.last();
        match rtc_entry(strings_view(s.urls@), opt_view(s.username), opt_view(s.credential)) {
            Some(e) => rest.push(e),
            None => rest,
        }
    }
}

/// An agent entry as plain values.
pub open spec fn rtc_view(r: RtcIceServer) -> RtcEntry {
    (strings_view(r.urls@), r.username@, r.credential@, r.credential_type == IceCredentialType::Password)
}

/// The URLs the agent keeps (see `agent_urls`).
fn agent_urls_of(urls: &Vec<String>) -> (r: Vec<String>)
    ensures
        strings_view(r@) == agent_urls(strings_view(urls@)),
{
    proof {
        reveal_strlit("turns:");
    }
    let mut out: Vec<String> = Vec::new();
    let mut i: usize = 0;
    while i < urls.len()
        invariant
            i <= urls@.len(),
            "turns:"@ == turns_scheme(),
            strings_view(out@) == agent_urls(strings_view(urls@.take(i as int))),
        decreases urls@.len() - i,
    {
        let chars = chars_of(urls[i].as_str());
        let t = trim_chars(chars.as_slice());
        proof {
            assert(strings_view(urls@.take(i + 1)).drop_last() =~= strings_view(urls@.take(i as int)));
            assert(strings_view(urls@.take(i + 1)).last() == urls@[i as int]@);
        }
        if t.len() == 0 || starts_with_lit(t.as_slice(), "turns:") {
        } else {
            let s = string_from_chars(t.as_slice());
            out.push(s);
            assert(strings_view(out@) =~= agent_urls(strings_view(urls@.take(i as int))).push(t@));
        }
        i += 1;
    }
    assert(urls@.take(urls@.len() as int) =~= urls@);
    out
}

/// Whether some URL starts with `turn:`.
fn has_turn_url(urls: &Vec<String>) -> (r: bool)
    ensures
        r == any_turn(strings_view(urls@)),
{
    proof {
        reveal_strlit("turn:");
    }
    let mut i: usize = 0;
    while i < urls.len()
        invariant
            i <= urls@.len(),
            "turn:"@ == turn_scheme(),
            forall|j: int| 0 <= j < i ==> !has_prefix(#[trigger] strings_view(urls@)[j], turn_scheme()),
        decreases urls@.len() - i,
    {
        let chars = chars_of(urls[i].as_str());
        if starts_with_lit(chars.as_slice(), "turn:") {
            assert(has_prefix(strings_view(urls@)[i as int], turn_scheme()));
            return true;
        }
        i += 1;
    }
    false
}

/// An optional credential, trimmed; empty when absent.
fn trimmed_or_empty_of(o: &Option<String>) -> (r: Vec<char>)
    ensures
        r@ == trimmed_or_empty(opt_view(*o)),
{
    match o {
        Some(s) => {
            let chars = chars_of(s.as_str());
            trim_chars(chars.as_slice())
        },
        None => Vec::new(),
    }
}

/// The entries for the agent's own peer connection (see `rtc_entry`).
pub fn to_rtc_ice_servers(input: &[IceServerConfig]) -> (r: Vec<RtcIceServer>)
    ensures
        r@.map_values(|e: RtcIceServer| rtc_view(e)) == rtc_entries(input@),
{
    let mut out: Vec<RtcIceServer> = Vec::new();
    let mut i: usize = 0;
    while i < input.len()
        invariant
            i <= input@.len(),
            out@.map_values(|e: RtcIceServer| rtc_view(e)) == rtc_entries(input@.take(i as int)),
        decreases input@.len() - i,
    {
        let server = &input[i];
        proof {
            assert(input@.take(i + 1).drop_last() =~= input@.take(i as int));
            assert(input@.take(i + 1).last() == input@[i as int]);
        }
        let urls = agent_urls_of(&server.urls);
        if urls.len() > 0 {
            let has_turn = has_turn_url(&urls);
            let user_chars = trimmed_or_empty_of(&server.username);
            let cred_chars = trimmed_or_empty_of(&server.credential);
            if !(has_turn && (user_chars.len() == 0 || cred_chars.len() == 0)) {
                let entry = RtcIceServer {
                    urls,
                    username: string_from_chars(user_chars.as_slice()),
                    credential: string_from_chars(cred_chars.as_slice()),
                    credential_type: if has_turn {
                        IceCredentialType::Password
                    } else {
                        IceCredentialType::Unspecified
                    },
                };
                let ghost before = out@;
                out.push(entry);
                assert(out@.map_values(|e: RtcIceServer| rtc_view(e)) =~= before.map_values(
                    |e: RtcIceServer| rtc_view(e),
                ).push(rtc_view(entry)));
            }
        }
        i += 1;
    }
    assert(input@.take(input@.len() as int) =~= input@);
    out
}

/// One configured server without credentials.
fn public_server(url: &str) -> (s: IceServerConfig)
    ensures
        strings_view(s.urls@) == seq![url@],
        s.username is None,
        s.credential is None,
{
    let mut urls: Vec<String> = Vec::new();
    urls.push(url.to_owned());
    assert(strings_view(urls@) =~= seq![url@]);
    IceServerConfig { urls, username: None, credential: None }
}

/// One configured relay with credentials.
fn relay_server(url: &str, username: &str, credential: &str) -> (s: IceServerConfig)
    ensures
        strings_view(s.urls@) == seq![url@],
        opt_view(s.username) == Some(username@),
        opt_view(s.credential) == Some(credential@),
{
    let mut urls: Vec<String> = Vec::new();
    urls.push(url.to_owned());
    assert(strings_view(urls@) =~= seq![url@]);
    IceServerConfig { urls, username: Some(username.to_owned()), credential: Some(credential.to_owned()) }
}

/// The built-in fallback: the Metered STUN server, then its relay over UDP
/// port 80, TCP port 80, port 443, and TLS port 443, with static credentials.
pub fn default_ice_servers() -> (r: Vec<IceServerConfig>)
    ensures
        r@.len() == 5,
        strings_view(r@[0].urls@) == seq!["stun:stun.relay.metered.ca:80"@],
        r@[0].username is None && r@[0].credential is None,
        strings_view(r@[1].urls@) == seq!["turn:global.relay.metered.ca:80"@],
        strings_view(r@[2].urls@) == seq!["turn:global.relay.metered.ca:80?transport=tcp"@],
        strings_view(r@[3].urls@) == seq!["turn:global.relay.metered.ca:443"@],
        strings_view(r@[4].urls@) == seq!["turns:global.relay.metered.ca:443?transport=tcp"@],
        forall|i: int|
            1 <= i < 5 ==> opt_view(#[trigger] r@[i].username) == Some("d156f70e60e74c734ec39dc8"@)
                && opt_view(r@[i].credential) == Some("Z9zO5Kp3c5P/c6e0"@),
{
    let user = "d156f70e60e74c734ec39dc8";
    let pass = "Z9zO5Kp3c5P/c6e0";
    let mut v: Vec<IceServerConfig> = Vec::new();
    v.push(public_server("stun:stun.relay.metered.ca:80"));
    v.push(relay_server("turn:global.relay.metered.ca:80", user, pass));
    v.push(relay_server("turn:global.relay.metered.ca:80?transport=tcp", user, pass));
    v.push(relay_server("turn:global.relay.metered.ca:443", user, pass));
    v.push(relay_server("turns:global.relay.metered.ca:443?transport=tcp", user, pass));
    v
}

/// The URLs of a comma-separated override, in order: each piece trimmed,
/// empty pieces dropped.
pub open spec fn csv_urls(s: Seq<char>) -> Seq<Seq<char>>
    decreases s.len(),
{
    if has_char(s, ',') {
        let k = first_char(s, ',');
        proof {
            lemma_first_char(s, ',');
        }
        let piece = trim(s.take(k));
        let rest = csv_urls(s.skip(k + 1));
        if piece.len() == 0 {
            rest
        } else {
            seq![piece] + rest
        }
    } else {
        let piece = trim(s);
        if piece.len() == 0 {
            seq![]
        } else {
            seq![piece]
        }
    }
}

proof fn lemma_csv_split(s: Seq<char>, k: int, head: Seq<char>, tail: Seq<char>)
    requires
        has_char(s, ','),
        k == first_char(s, ','),
        head == s.take(k),
        tail == s.skip(k + 1),
    ensures
        csv_urls(s) == if trim(head).len() == 0 {
            csv_urls(tail)
        } else {
            seq![trim(head)] + csv_urls(tail)
        },
{
}

/// Appends the text of `piece` when it is not empty.
fn push_nonempty(urls: &mut Vec<String>, piece: &Vec<char>)
    ensures
        strings_view(final(urls)@) == if piece@.len() == 0 {
            strings_view(old(urls)@)
        } else {
            strings_view(old(urls)@).push(piece@)
        },
{
    if piece.len() > 0 {
        urls.push(string_from_chars(piece.as_slice()));
        assert(strings_view(urls@) =~= strings_view(old(urls)@).push(piece@));
    }
}

/// The server list of a comma-separated override (`stun:a,turn:b`): one
/// server without credentials holding the URLs, or none without URLs.
#[verifier::spinoff_prover]
#[verifier::rlimit(30)]
pub fn ice_servers_from_csv(raw: &str) -> (r: Option<Vec<IceServerConfig>>)
    ensures
        csv_urls(raw@).len() == 0 <==> r is None,
        r matches Some(v) ==> v@.len() == 1 && strings_view(v@[0].urls@) == csv_urls(raw@)
            && v@[0].username is None && v@[0].credential is None,
{
    let mut rest = chars_of(raw);
    let mut urls: Vec<String> = Vec::new();
    loop
        invariant_except_break
            strings_view(urls@) + csv_urls(rest@) == csv_urls(raw@),
        ensures
            strings_view(urls@) == csv_urls(raw@),
        decreases rest@.len(),
    {
        let n = rest.len();
        match find_char(rest.as_slice(), ',') {
            Some(k) => {
                let head = copy_range(rest.as_slice(), 0, k);
                let piece = trim_chars(head.as_slice());
                let tail = copy_range(rest.as_slice(), k + 1, n);
                let ghost before = strings_view(urls@);
                proof {
                    lemma_csv_split(rest@, k as int, head@, tail@);
                }
                push_nonempty(&mut urls, &piece);
                proof {
                    if piece@.len() > 0 {
                        assert(before.push(piece@) + csv_urls(tail@) =~= before + (seq![piece@] + csv_urls(tail@)));
                    }
                }
                rest = tail;
            },
            None => {
                let piece = trim_chars(rest.as_slice());
                let ghost before = strings_view(urls@);
                push_nonempty(&mut urls, &piece);
                proof {
                    if piece@.len() > 0 {
                        assert(before.push(piece@) =~= before + seq![piece@]);
                    } else {
                        assert(before + seq![] =~= before);
                    }
                }
                break;
            },
        }
    }
    if urls.len() == 0 {
        return None;
    }
    let mut v: Vec<IceServerConfig> = Vec::new();
    v.push(IceServerConfig { urls, username: None, credential: None });
    Some(v)
}

/// The value that one `.env.local` line gives `key`: the line, trimmed, is
/// not a comment and is `name = value` with `name` (trimmed) equal to `key`;
/// the value is trimmed, loses one pair of matching surrounding quotes, and
/// must not be empty.
pub open spec fn env_line_value(line: Seq<char>, key: Seq<char>) -> Option<Seq<char>> {
    let t = trim(line);
    if t.len() == 0 || t[0] == '#' || !has_char(t, '=') {
        None
    } else {
        let k = first_char(t, '=');
        let name = trim(t.take(k));
        let v = trim(t.skip(k + 1));
        let unquoted = if v.len() >= 2 && ((v[0] == '\'' && v.last() == '\'') || (v[0] == '"'
            && v.last() == '"')) {
            v.subrange(1, v.len() - 1)
        } else {
            v
        };
        if name != key || unquoted.len() == 0 {
            None
        } else {
            Some(unquoted)
        }
    }
}

/// The value of `key` in a file's lines: that of the first line giving one.
pub open spec fn env_file_value(lines: Seq<Seq<char>>, key: Seq<char>) -> Option<Seq<char>>
    decreases lines.len(),
{
    if lines.len() == 0 {
        None
    } else {
        match env_line_value(lines[0], key) {
            Some(v) => Some(v),
            None => env_file_value(lines.drop_first(), key),
        }
    }
}

/// The value one line gives `key` (see `env_line_value`).
fn line_value(line: &[char], key: &[char]) -> (r: Option<Vec<char>>)
    ensures
        match r {
            Some(v) => env_line_value(line@, key@) == Some(v@),
            None => env_line_value(line@, key@) is None,
        },
{
    let t = trim_chars(line);
    if t.len() == 0 || t[0] == '#' {
        return None;
    }
    let k = match find_char(t.as_slice(), '=') {
        Some(k) => k,
        None => {
            return None;
        },
    };
    let name_raw = copy_range(t.as_slice(), 0, k);
    let name = trim_chars(name_raw.as_slice());
    let value_raw = copy_range(t.as_slice(), k + 1, t.len());
    let v = trim_chars(value_raw.as_slice());
    proof {
        assert(name_raw@ =~= t@.take(k as int));
        assert(value_raw@ =~= t@.skip(k + 1));
    }
    let n = v.len();
    let unquoted = if n >= 2 && ((v[0] == '\'' && v[n - 1] == '\'') || (v[0] == '"' && v[n - 1]
        == '"')) {
        copy_range(v.as_slice(), 1, n - 1)
    } else {
        v
    };
    if !crate::text::chars_eq(name.as_slice(), key) || unquoted.len() == 0 {
        return None;
    }
    Some(unquoted)
}

/// The value of `key` in the content of a `.env.local` file, if a line gives
/// one (see `env_file_value`).
pub fn env_local_value(content: &str, key: &str) -> (r: Option<String>)
    ensures
        opt_view(r) == env_file_value(text_lines(content@), key@),
{
    let chars = chars_of(content);
    let key_chars = chars_of(key);
    let lines = split_lines(chars.as_slice());
    let ghost all = views(lines@);
    assert(all.skip(0) =~= all);
    let mut i: usize = 0;
    while i < lines.len()
        invariant
            i <= lines@.len(),
            all == views(lines@),
            all == text_lines(content@),
            key_chars@ == key@,
            env_file_value(all.skip(i as int), key@) == env_file_value(all, key@),
        decreases lines@.len() - i,
    {
        proof {
            assert(all.skip(i as int)[0] == lines@[i as int]@);
            assert(all.skip(i as int).drop_first() =~= all.skip(i + 1));
        }
        match line_value(lines[i].as_slice(), key_chars.as_slice()) {
            Some(v) => {
                return Some(string_from_chars(v.as_slice()));
            },
            None => {},
        }
        i += 1;
    }
    proof {
        assert(all.skip(lines@.len() as int).len() == 0);
    }
    None
}


// ---------------------------------------------------------------------------
// JSON server lists
// ---------------------------------------------------------------------------

/// A configured server as plain values: URLs, username, credential.
pub open spec fn config_view(c: IceServerConfig) -> (Seq<Seq<char>>, Option<Seq<char>>, Option<Seq<char>>) {
    (strings_view(c.urls@), opt_view(c.username), opt_view(c.credential))
}

/// The URLs a JSON server entry names: the strings of a `urls` array, a
/// single `urls` string, or else a legacy `url` string.
pub open spec fn entry_urls(item: JsonValue) -> Seq<Seq<char>> {
    match json_get(item, "urls"@) {
        Some(JsonValue::Array(items)) => string_items(items@),
        Some(JsonValue::Str(s)) => seq![s@],
        _ => match json_text(json_get(item, "url"@)) {
            Some(u) => seq![u],
            None => seq![],
        },
    }
}

/// The credential of a JSON server entry: the `credential` member when there
/// is one, else the `password` member; either only when it is a string.
pub open spec fn entry_credential(item: JsonValue) -> Option<Seq<char>> {
    match json_get(item, "credential"@) {
        Some(v) => json_text(Some(v)),
        None => json_text(json_get(item, "password"@)),
    }
}

/// The servers of a list of JSON entries, in order; an entry without URLs
/// (or that is not an object) is skipped.
pub open spec fn json_entries(items: Seq<JsonValue>) -> Seq<(Seq<Seq<char>>, Option<Seq<char>>, Option<Seq<char>>)>
    decreases items.len(),
{
    if items.len() == 0 {
        seq![]
    } else {
        let rest = json_entries(items.drop_first());
        let item = items[0];
        if entry_urls(item).len() > 0 {
            seq![(entry_urls(item), json_text(json_get(item, "username"@)), entry_credential(item))]
                + rest
        } else {
            rest
        }
    }
}

/// The entry list of a JSON document: the document itself when it is an
/// array, else its `iceServers` array.
pub open spec fn json_server_items(v: JsonValue) -> Option<Seq<JsonValue>> {
    match v {
        JsonValue::Array(items) => Some(items@),
        _ => match json_get(v, "iceServers"@) {
            Some(JsonValue::Array(items)) => Some(items@),
            _ => None,
        },
    }
}

/// The string member named `key`, copied.
fn text_member(members: &Vec<(String, JsonValue)>, key: &str) -> (r: Option<String>)
    ensures
        opt_view(r) == json_text(member_value(members@, key@)),
{
    match member_index(members, key) {
        Some(i) => match &members[i].1 {
            JsonValue::Str(s) => Some(s.clone()),
            _ => None,
        },
        None => None,
    }
}

/// The server one JSON entry describes, when it names a URL.
fn server_from_entry(item: &JsonValue) -> (r: Option<IceServerConfig>)
    ensures
        match r {
            Some(c) => entry_urls(*item).len() > 0 && config_view(c) == (
                entry_urls(*item),
                json_text(json_get(*item, "username"@)),
                entry_credential(*item),
            ),
            None => entry_urls(*item).len() == 0,
        },
{
    let members = match item {
        JsonValue::Object(m) => m,
        _ => {
            return None;
        },
    };
    let urls: Vec<String> = match member_index(members, "urls") {
        Some(i) => match &members[i].1 {
            JsonValue::Array(items) => collect_strings(items),
            JsonValue::Str(s) => {
                let mut v: Vec<String> = Vec::new();
                v.push(s.clone());
                assert(strings_view(v@) =~= seq![s@]);
                v
            },
            _ => {
                let mut v: Vec<String> = Vec::new();
                match text_member(members, "url") {
                    Some(u) => {
                        v.push(u);
                    },
                    None => {},
                }
                assert(strings_view(v@) =~= entry_urls(*item));
                v
            },
        },
        None => {
            let mut v: Vec<String> = Vec::new();
            match text_member(members, "url") {
                Some(u) => {
                    v.push(u);
                },
                None => {},
            }
            assert(strings_view(v@) =~= entry_urls(*item));
            v
        },
    };
    assert(strings_view(urls@) == entry_urls(*item));
    if urls.len() == 0 {
        return None;
    }
    let username = text_member(members, "username");
    let credential = match member_index(members, "credential") {
        Some(i) => match &members[i].1 {
            JsonValue::Str(s) => Some(s.clone()),
            _ => None,
        },
        None => text_member(members, "password"),
    };
    Some(IceServerConfig { urls, username, credential })
}

/// The servers of a list of JSON entries, in order.
fn servers_from_entries(items: &Vec<JsonValue>) -> (r: Vec<IceServerConfig>)
    ensures
        r@.map_values(|c: IceServerConfig| config_view(c)) == json_entries(items@),
{
    let n = items.len();
    let mut out: Vec<IceServerConfig> = Vec::new();
    let mut i: usize = 0;
    assert(items@.skip(0) =~= items@);
    assert(out@.map_values(|c: IceServerConfig| config_view(c)) + json_entries(items@) =~= json_entries(items@));
    while i < n
        invariant
            n == items@.len(),
            i <= n,
            out@.map_values(|c: IceServerConfig| config_view(c)) + json_entries(items@.skip(i as int))
                == json_entries(items@),
        decreases n - i,
    {
        let ghost before = out@.map_values(|c: IceServerConfig| config_view(c));
        let ghost tail = json_entries(items@.skip(i + 1));
        assert(items@.skip(i as int).drop_first() =~= items@.skip(i + 1));
        match server_from_entry(&items[i]) {
            Some(c) => {
                let ghost cv = config_view(c);
                out.push(c);
                assert(out@.map_values(|c: IceServerConfig| config_view(c)) =~= before.push(cv));
                assert(before.push(cv) + tail =~= before + (seq![cv] + tail));
            },
            None => {},
        }
        i += 1;
    }
    assert(json_entries(items@.skip(n as int)) =~= seq![]);
    assert(out@.map_values(|c: IceServerConfig| config_view(c)) + seq![] =~= out@.map_values(
        |c: IceServerConfig| config_view(c),
    ));
    out
}

/// The servers a JSON document lists: an array of entries, or an object
/// whose `iceServers` member is one. Each entry gives its URLs (`urls` as
/// an array or a string, else `url`), `username`, and `credential` (or
/// `password`); entries without URLs are skipped. `None` when the document
/// has no such list or no entry survives.
pub fn ice_servers_from_json_value(doc: &JsonValue) -> (r: Option<Vec<IceServerConfig>>)
    ensures
        match json_server_items(*doc) {
            Some(items) => if json_entries(items).len() == 0 {
                r is None
            } else {
                r matches Some(v) && v@.map_values(|c: IceServerConfig| config_view(c))
                    == json_entries(items)
            },
            None => r is None,
        },
{
    let servers = match doc {
        JsonValue::Array(items) => servers_from_entries(items),
        JsonValue::Object(members) => match member_index(members, "iceServers") {
            Some(i) => match &members[i].1 {
                JsonValue::Array(items) => servers_from_entries(items),
                _ => {
                    return None;
                },
            },
            None => {
                return None;
            },
        },
        _ => {
            return None;
        },
    };
    if servers.len() == 0 {
        None
    } else {
        Some(servers)
    }
}

/// What the ICE servers setting holds.
#[derive(Clone, Copy, Debug, PartialEq, Eq, Structural)]
pub enum IceSettingKind {
    /// No setting, or only whitespace.
    Absent,
    /// A JSON list (the trimmed text starts with `[`).
    JsonList,
    /// Comma-separated URLs.
    UrlList,
}

/// How the ICE servers setting is read.
pub fn ice_setting_kind(raw: Option<&str>) -> (r: IceSettingKind)
    ensures
        r == match raw {
            None => IceSettingKind::Absent,
            Some(s) => if trim(s@).len() == 0 {
                IceSettingKind::Absent
            } else if trim(s@)[0] == '[' {
                IceSettingKind::JsonList
            } else {
                IceSettingKind::UrlList
            },
        },
{
    match raw {
        None => IceSettingKind::Absent,
        Some(s) => {
            let chars = chars_of(s);
            let t = trim_chars(chars.as_slice());
            if t.len() == 0 {
                IceSettingKind::Absent
            } else if t[0] == '[' {
                IceSettingKind::JsonList
            } else {
                IceSettingKind::UrlList
            }
        },
    }
}

// ---------------------------------------------------------------------------
// Laws
// ---------------------------------------------------------------------------

/// A URL the agent keeps is not empty, is trimmed, and is not a `turns:` one.
pub open spec fn usable_url(u: Seq<char>) -> bool {
    u.len() > 0 && trim(u) == u && !has_prefix(u, turns_scheme())
}

proof fn lemma_agent_urls_usable(urls: Seq<Seq<char>>)
    ensures
        forall|i: int| 0 <= i < agent_urls(urls).len() ==> usable_url(#[trigger] agent_urls(urls)[i]),
    decreases urls.len(),
{
    if urls.len() > 0 {
        let rest = agent_urls(urls.drop_last());
        lemma_agent_urls_usable(urls.drop_last());
        crate::text::lemma_trim_idempotent(urls.last());
        let t = trim(urls.last());
        if !(t.len() == 0 || has_prefix(t, turns_scheme())) {
            assert forall|i: int| 0 <= i < rest.push(t).len() implies usable_url(#[trigger] rest.push(t)[i]) by {
                if i < rest.len() {
                    assert(rest.push(t)[i] == rest[i]);
                }
            }
        }
    }
}

/// Every entry for the agent's peer connection has at least one URL, all
/// usable; it authenticates with a password exactly when it has a `turn:`
/// URL, and then its username and credential are not empty.
pub proof fn law_agent_entries_usable(servers: Seq<IceServerConfig>)
    ensures
        forall|k: int|
            0 <= k < rtc_entries(servers).len() ==> {
                let e = #[trigger] rtc_entries(servers)[k];
                &&& e.0.len() > 0
                &&& forall|i: int| 0 <= i < e.0.len() ==> usable_url(#[trigger] e.0[i])
                &&& e.3 == any_turn(e.0)
                &&& e.3 ==> e.1.len() > 0 && e.2.len() > 0
            },
    decreases servers.len(),
{
    if servers.len() > 0 {
        law_agent_entries_usable(servers.drop_last());
        let s = servers.last();
        lemma_agent_urls_usable(strings_view(s.urls@));
        let rest = rtc_entries(servers.drop_last());
        match rtc_entry(strings_view(s.urls@), opt_view(s.username), opt_view(s.credential)) {
            Some(e) => {
                assert forall|k: int| 0 <= k < rest.push(e).len() implies {
                    let x = #[trigger] rest.push(e)[k];
                    &&& x.0.len() > 0
                    &&& forall|i: int| 0 <= i < x.0.len() ==> usable_url(#[trigger] x.0[i])
                    &&& x.3 == any_turn(x.0)
                    &&& x.3 ==> x.1.len() > 0 && x.2.len() > 0
                } by {
                    if k < rest.len() {
                        assert(rest.push(e)[k] == rest[k]);
                    }
                }
            },
            None => {},
        }
    }
}

/// Every server read from a JSON list names at least one URL.
pub proof fn law_json_servers_have_urls(items: Seq<JsonValue>)
    ensures
        forall|k: int| 0 <= k < json_entries(items).len() ==> (#[trigger] json_entries(items)[k]).0.len() > 0,
    decreases items.len(),
{
    if items.len() > 0 {
        law_json_servers_have_urls(items.drop_first());
        let rest = json_entries(items.drop_first());
        let item = items[0];
        if entry_urls(item).len() > 0 {
            let e = (entry_urls(item), json_text(json_get(item, "username"@)), entry_credential(item));
            assert forall|k: int| 0 <= k < (seq![e] + rest).len() implies (#[trigger] (seq![e] + rest)[k]).0.len() > 0 by {
                if k > 0 {
                    assert((seq![e] + rest)[k] == rest[k - 1]);
                }
            }
        }
    }
}

} // verus!
