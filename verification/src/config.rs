//! The proxy's configuration.
//!
//! A configuration arrives as JSON: a `not_found_error` flag, an optional
//! `servers` object mapping a server name to its command line, and an
//! optional `sql` object mapping a driver name to the endpoint and admin
//! credentials used for provisioning. `config_from_json` checks the shape
//! and builds the typed value; reading the file and expanding environment
//! variables in it happen outside the library.

use vstd::prelude::*;

use crate::json::{Json, JsonModel};
use crate::util::{assoc_find, chars_eq, lemma_assoc_find_skip, str_to_chars};

verus! {

/// Command line for one language server.
pub struct ServerConfig {
    pub command: Vec<Vec<char>>,
}

/// Endpoint and admin credentials of one DBMS driver.
pub struct SqlConfig {
    pub host: Vec<char>,
    pub port: u16,
    pub admin_username: Vec<char>,
    pub admin_password: Vec<char>,
    pub proto: Option<Vec<char>>,
}

/// The parsed configuration file.
pub struct Config {
    pub not_found_error: bool,
    pub servers: Option<Vec<(Vec<char>, ServerConfig)>>,
    pub sql: Option<Vec<(Vec<char>, SqlConfig)>>,
}

pub struct SqlConfigModel {
    pub host: Seq<char>,
    pub port: u16,
    pub admin_username: Seq<char>,
    pub admin_password: Seq<char>,
    pub proto: Option<Seq<char>>,
}

pub struct ConfigModel {
    pub not_found_error: bool,
    pub servers: Option<Seq<(Seq<char>, Seq<Seq<char>>)>>,
    pub sql: Option<Seq<(Seq<char>, SqlConfigModel)>>,
}

/// The command line as a sequence of argument strings.
pub open spec fn command_model(c: Vec<Vec<char>>) -> Seq<Seq<char>> {
    Seq::new(c@.len(), |i: int| c[i]@)
}

impl View for ServerConfig {
    type V = Seq<Seq<char>>;

    open spec fn view(&self) -> Seq<Seq<char>> {
        command_model(self.command)
    }
}

impl View for SqlConfig {
    type V = SqlConfigModel;

    open spec fn view(&self) -> SqlConfigModel {
        SqlConfigModel {
            host: self.host@,
            port: self.port,
            admin_username: self.admin_username@,
            admin_password: self.admin_password@,
            proto: match self.proto {
                Some(p) => Some(p@),
                None => None,
            },
        }
    }
}

pub open spec fn servers_model(v: Seq<(Vec<char>, ServerConfig)>) -> Seq<
    (Seq<char>, Seq<Seq<char>>),
> {
    Seq::new(v.len(), |i: int| (v[i].0@, v[i].1@))
}

pub open spec fn sql_model(v: Seq<(Vec<char>, SqlConfig)>) -> Seq<(Seq<char>, SqlConfigModel)> {
    Seq::new(v.len(), |i: int| (v[i].0@, v[i].1@))
}

impl View for Config {
    type V = ConfigModel;

    open spec fn view(&self) -> ConfigModel {
        ConfigModel {
            not_found_error: self.not_found_error,
            servers: match self.servers {
                Some(v) => Some(servers_model(v@)),
                None => None,
            },
            sql: match self.sql {
                Some(v) => Some(sql_model(v@)),
                None => None,
            },
        }
    }
}

impl ConfigModel {
    /// The SQL entry registered for `driver`, if any.
    pub open spec fn sql_for(self, driver: Seq<char>) -> Option<SqlConfigModel> {
        match self.sql {
            Some(entries) => assoc_find(entries, driver),
            None => None,
        }
    }
}

/// The configuration shape is wrong.
#[derive(Clone, Copy, PartialEq, Eq, Structural, Debug)]
pub struct ConfigError;

/// Digit characters.
pub open spec fn is_digit_char(c: char) -> bool {
    '0' <= c <= '9'
}

pub open spec fn all_digit_chars(s: Seq<char>) -> bool {
    forall|i: int| 0 <= i < s.len() ==> is_digit_char(#[trigger] s[i])
}

/// The number written by a digit string.
pub open spec fn char_digits_val(s: Seq<char>) -> nat
    decreases s.len(),
{
    if s.len() == 0 {
        0
    } else {
        (char_digits_val(s.drop_last()) * 10 + (s.last() as nat - '0' as nat)) as nat
    }
}

/// A port literal: one to five digits whose value fits a `u16`.
pub open spec fn spec_port_value(s: Seq<char>) -> Option<u16> {
    if 0 < s.len() <= 5 && all_digit_chars(s) && char_digits_val(s) <= 65535 {
        Some(char_digits_val(s) as u16)
    } else {
        None
    }
}

/// An array of strings.
pub open spec fn spec_str_items(items: Seq<JsonModel>) -> Option<Seq<Seq<char>>>
    decreases items.len(),
{
    if items.len() == 0 {
        Some(Seq::empty())
    } else {
        match (items[0], spec_str_items(items.drop_first())) {
            (JsonModel::Str(s), Some(rest)) => Some(seq![s] + rest),
            _ => None,
        }
    }
}

/// A `servers` entry: an object with a `command` array of strings.
pub open spec fn spec_server_entry(m: JsonModel) -> Option<Seq<Seq<char>>> {
    match m.get("command"@) {
        Some(JsonModel::Arr(items)) => spec_str_items(items),
        _ => None,
    }
}

pub open spec fn spec_server_entries(fields: Seq<(Seq<char>, JsonModel)>) -> Option<
    Seq<(Seq<char>, Seq<Seq<char>>)>,
>
    decreases fields.len(),
{
    if fields.len() == 0 {
        Some(Seq::empty())
    } else {
        match (spec_server_entry(fields[0].1), spec_server_entries(fields.drop_first())) {
            (Some(cmd), Some(rest)) => Some(seq![(fields[0].0, cmd)] + rest),
            _ => None,
        }
    }
}

/// An `sql` entry: host, port and admin credentials, with an optional proto.
pub open spec fn spec_sql_entry(m: JsonModel) -> Option<SqlConfigModel> {
    match (m.get_str("host"@), m.get("port"@), m.get_str("admin_username"@), m.get_str(
        "admin_password"@,
    )) {
        (Some(host), Some(JsonModel::Num(lit)), Some(user), Some(pass)) => {
            match spec_port_value(lit) {
                Some(port) => {
                    match m.get("proto"@) {
                        None => Some(
                            SqlConfigModel {
                                host,
                                port,
                                admin_username: user,
                                admin_password: pass,
                                proto: None,
                            },
                        ),
                        Some(JsonModel::Null) => Some(
                            SqlConfigModel {
                                host,
                                port,
                                admin_username: user,
                                admin_password: pass,
                                proto: None,
                            },
                        ),
                        Some(JsonModel::Str(p)) => Some(
                            SqlConfigModel {
                                host,
                                port,
                                admin_username: user,
                                admin_password: pass,
                                proto: Some(p),
                            },
                        ),
                        _ => None,
                    }
                },
                None => None,
            }
        },
        _ => None,
    }
}

pub open spec fn spec_sql_entries(fields: Seq<(Seq<char>, JsonModel)>) -> Option<
    Seq<(Seq<char>, SqlConfigModel)>,
>
    decreases fields.len(),
{
    if fields.len() == 0 {
        Some(Seq::empty())
    } else {
        match (spec_sql_entry(fields[0].1), spec_sql_entries(fields.drop_first())) {
            (Some(entry), Some(rest)) => Some(seq![(fields[0].0, entry)] + rest),
            _ => None,
        }
    }
}

/// The configuration written by a JSON value, when it is well-shaped.
pub open spec fn spec_config_of(m: JsonModel) -> Option<ConfigModel> {
    if !(m is Obj) {
        None
    } else {
        let nfe = match m.get("not_found_error"@) {
            None => Some(false),
            Some(JsonModel::Bool(b)) => Some(b),
            _ => None,
        };
        let servers = match m.get("servers"@) {
            None => Some(None),
            Some(JsonModel::Null) => Some(None),
            Some(JsonModel::Obj(fields)) => match spec_server_entries(fields) {
                Some(entries) => Some(Some(entries)),
                None => None,
            },
            _ => None,
        };
        let sql = match m.get("sql"@) {
            None => Some(None),
            Some(JsonModel::Null) => Some(None),
            Some(JsonModel::Obj(fields)) => match spec_sql_entries(fields) {
                Some(entries) => Some(Some(entries)),
                None => None,
            },
            _ => None,
        };
        match (nfe, servers, sql) {
            (Some(n), Some(se), Some(sq)) => Some(
                ConfigModel { not_found_error: n, servers: se, sql: sq },
            ),
            _ => None,
        }
    }
}

/// Copies a character vector.
pub fn clone_chars(v: &Vec<char>) -> (r: Vec<char>)
    ensures
        r@ == v@,
{
    let mut r: Vec<char> = Vec::new();
    let mut i: usize = 0;
    #[verifier::loop_isolation(false)]
    while i < v.len()
        invariant
            i <= v.len(),
            r@ == v@.take(i as int),
        decreases v.len() - i,
    {
        r.push(v[i]);
        proof {
            assert(r@ =~= v@.take(i as int + 1));
        }
        i += 1;
    }
    proof {
        assert(r@ =~= v@);
    }
    r
}

/// Parses a port literal.
fn parse_port(lit: &Vec<char>) -> (r: Option<u16>)
    ensures
        r == spec_port_value(lit@),
{
    if lit.len() == 0 || lit.len() > 5 {
        return None;
    }
    let mut v: u32 = 0;
    let mut i: usize = 0;
    #[verifier::loop_isolation(false)]
    while i < lit.len()
        invariant
            i <= lit.len() <= 5,
            all_digit_chars(lit@.take(i as int)),
            v as nat == char_digits_val(lit@.take(i as int)),
            v < 100000,
        decreases lit.len() - i,
    {
        let c = lit[i];
        if c < '0' || c > '9' {
            proof {
                assert(!all_digit_chars(lit@));
            }
            return None;
        }
        proof {
            assert(lit@.take(i as int + 1).drop_last() =~= lit@.take(i as int));
            assert(char_digits_val(lit@.take(i as int + 1)) == char_digits_val(
                lit@.take(i as int),
            ) * 10 + (c as nat - '0' as nat));
            lemma_char_digits_bound(lit@.take(i as int + 1));
        }
        v = v * 10 + (c as u32 - 48);
        i += 1;
    }
    proof {
        assert(lit@.take(lit@.len() as int) =~= lit@);
    }
    if v <= 65535 {
        Some(v as u16)
    } else {
        None
    }
}

/// At most five digits stay below one hundred thousand.
proof fn lemma_char_digits_bound(s: Seq<char>)
    requires
        all_digit_chars(s),
        s.len() <= 5,
    ensures
        char_digits_val(s) < 100000,
    decreases s.len(),
{
    if s.len() > 0 {
        assert(all_digit_chars(s.drop_last())) by {
            assert(forall|i: int| 0 <= i < s.len() - 1 ==> s.drop_last()[i] == s[i]);
        }
        lemma_char_digits_bound(s.drop_last());
        if s.len() == 5 {
            assert(char_digits_val(s.drop_last()) < 10000) by {
                lemma_char_digits_pow(s.drop_last());
            }
        } else {
            lemma_char_digits_pow(s);
        }
    }
}

/// A digit string's value is below ten to its length.
proof fn lemma_char_digits_pow(s: Seq<char>)
    requires
        all_digit_chars(s),
        s.len() <= 5,
    ensures
        s.len() <= 0 ==> char_digits_val(s) < 1,
        s.len() <= 1 ==> char_digits_val(s) < 10,
        s.len() <= 2 ==> char_digits_val(s) < 100,
        s.len() <= 3 ==> char_digits_val(s) < 1000,
        s.len() <= 4 ==> char_digits_val(s) < 10000,
        s.len() <= 5 ==> char_digits_val(s) < 100000,
    decreases s.len(),
{
    if s.len() > 0 {
        assert(all_digit_chars(s.drop_last())) by {
            assert(forall|i: int| 0 <= i < s.len() - 1 ==> s.drop_last()[i] == s[i]);
        }
        lemma_char_digits_pow(s.drop_last());
    }
}

/// Parses an array of strings into owned argument vectors.
fn parse_str_items(items: &Vec<Json>) -> (r: Option<Vec<Vec<char>>>)
    ensures
        match r {
            Some(v) => spec_str_items(crate::json::json_model(Json::Arr(*items))->Arr_0) == Some(
                command_model(v),
            ),
            None => spec_str_items(crate::json::json_model(Json::Arr(*items))->Arr_0) is None,
        },
{
    let ghost m = crate::json::json_model(Json::Arr(*items))->Arr_0;
    let mut out: Vec<Vec<char>> = Vec::new();
    let mut i: usize = 0;
    proof {
        assert(m.skip(0) =~= m);
        assert(command_model(out).len() == 0);
        if spec_str_items(m) is Some {
            assert(command_model(out) + spec_str_items(m)->Some_0 =~= spec_str_items(m)->Some_0);
        }
    }
    #[verifier::loop_isolation(false)]
    while i < items.len()
        invariant
            i <= items.len(),
            m.len() == items.len(),
            forall|k: int| 0 <= k < items.len() ==> m[k] == crate::json::json_model(items[k]),
            command_model(out).len() == i,
            spec_str_items(m) == (match spec_str_items(m.skip(i as int)) {
                Some(rest) => Some(command_model(out) + rest),
                None => None::<Seq<Seq<char>>>,
            }),
        decreases items.len() - i,
    {
        match &items[i] {
            Json::Str(s) => {
                let ghost prev = command_model(out);
                out.push(clone_chars(s));
                proof {
                    assert(command_model(out) =~= prev + seq![s@]);
                    assert(m.skip(i as int)[0] == JsonModel::Str(s@));
                    assert(m.skip(i as int).drop_first() =~= m.skip(i as int + 1));
                    assert(forall|rest: Seq<Seq<char>>|
                        prev + (seq![s@] + rest) =~= (prev + seq![s@]) + rest);
                }
                i += 1;
            },
            _ => {
                proof {
                    assert(m.skip(i as int)[0] == crate::json::json_model(items[i as int]));
                    assert(!(m.skip(i as int)[0] is Str));
                    assert(spec_str_items(m.skip(i as int)) is None);
                }
                return None;
            },
        }
    }
    proof {
        assert(m.skip(i as int).len() == 0);
        assert(spec_str_items(m.skip(i as int)) == Some(Seq::<Seq<char>>::empty()));
        assert(command_model(out) + Seq::<Seq<char>>::empty() =~= command_model(out));
    }
    Some(out)
}

/// Parses the members of a `servers` object.
fn parse_server_entries(fields: &Vec<(Vec<char>, Json)>) -> (r: Option<
    Vec<(Vec<char>, ServerConfig)>,
>)
    ensures
        ({
            let m = crate::json::json_model(Json::Obj(*fields))->Obj_0;
            match r {
                Some(v) => spec_server_entries(m) == Some(servers_model(v@)),
                None => spec_server_entries(m) is None,
            }
        }),
{
    let ghost m = crate::json::json_model(Json::Obj(*fields))->Obj_0;
    let command_key = str_to_chars("command");
    let mut out: Vec<(Vec<char>, ServerConfig)> = Vec::new();
    let mut i: usize = 0;
    proof {
        assert(m.skip(0) =~= m);
        if spec_server_entries(m) is Some {
            assert(servers_model(out@) + spec_server_entries(m)->Some_0 =~= spec_server_entries(
                m,
            )->Some_0);
        }
    }
    #[verifier::loop_isolation(false)]
    while i < fields.len()
        invariant
            i <= fields.len(),
            m.len() == fields.len(),
            command_key@ == "command"@,
            forall|k: int|
                0 <= k < fields.len() ==> m[k] == (fields[k].0@, crate::json::json_model(
                    fields[k].1,
                )),
            servers_model(out@).len() == i,
            spec_server_entries(m) == (match spec_server_entries(m.skip(i as int)) {
                Some(rest) => Some(servers_model(out@) + rest),
                None => None::<Seq<(Seq<char>, Seq<Seq<char>>)>>,
            }),
        decreases fields.len() - i,
    {
        proof {
            assert(m.skip(i as int)[0] == m[i as int]);
            assert(m.skip(i as int).drop_first() =~= m.skip(i as int + 1));
        }
        let entry = &fields[i].1;
        let command = match entry.get(command_key.as_slice()) {
            Some(v) => match v {
                Json::Arr(items) => match parse_str_items(items) {
                    Some(cmd) => cmd,
                    None => {
                        proof {
                            assert(spec_server_entry(m[i as int].1) is None);
                        }
                        return None;
                    },
                },
                _ => {
                    proof {
                        assert(spec_server_entry(m[i as int].1) is None);
                    }
                    return None;
                },
            },
            None => {
                proof {
                    assert(spec_server_entry(m[i as int].1) is None);
                }
                return None;
            },
        };
        let ghost prev = servers_model(out@);
        let ghost cmd_model = command_model(command);
        out.push((clone_chars(&fields[i].0), ServerConfig { command }));
        proof {
            assert(servers_model(out@) =~= prev + seq![(m[i as int].0, cmd_model)]);
            assert(spec_server_entry(m[i as int].1) == Some(cmd_model));
            if spec_server_entries(m.skip(i as int + 1)) is Some {
                let rest = spec_server_entries(m.skip(i as int + 1))->Some_0;
                assert(prev + (seq![(m[i as int].0, cmd_model)] + rest) =~= servers_model(out@)
                    + rest);
            }
        }
        i += 1;
    }
    proof {
        assert(m.skip(i as int).len() == 0);
        assert(spec_server_entries(m.skip(i as int)) == Some(
            Seq::<(Seq<char>, Seq<Seq<char>>)>::empty(),
        ));
        assert(servers_model(out@) + Seq::<(Seq<char>, Seq<Seq<char>>)>::empty() =~= servers_model(
            out@,
        ));
    }
    Some(out)
}

/// Parses one `sql` entry.
fn parse_sql_entry(entry: &Json) -> (r: Option<SqlConfig>)
    ensures
        match r {
            Some(c) => spec_sql_entry(entry@) == Some(c@),
            None => spec_sql_entry(entry@) is None,
        },
{
    let host = match entry.get(str_to_chars("host").as_slice()) {
        Some(Json::Str(s)) => clone_chars(s),
        _ => {
            return None;
        },
    };
    let lit = match entry.get(str_to_chars("port").as_slice()) {
        Some(Json::Num(lit)) => lit,
        _ => {
            return None;
        },
    };
    let port = match parse_port(lit) {
        Some(p) => p,
        None => {
            return None;
        },
    };
    let admin_username = match entry.get(str_to_chars("admin_username").as_slice()) {
        Some(Json::Str(s)) => clone_chars(s),
        _ => {
            return None;
        },
    };
    let admin_password = match entry.get(str_to_chars("admin_password").as_slice()) {
        Some(Json::Str(s)) => clone_chars(s),
        _ => {
            return None;
        },
    };
    let proto = match entry.get(str_to_chars("proto").as_slice()) {
        None => None,
        Some(Json::Null) => None,
        Some(Json::Str(p)) => Some(clone_chars(p)),
        _ => {
            return None;
        },
    };
    Some(SqlConfig { host, port, admin_username, admin_password, proto })
}

/// Parses the members of an `sql` object.
fn parse_sql_entries(fields: &Vec<(Vec<char>, Json)>) -> (r: Option<Vec<(Vec<char>, SqlConfig)>>)
    ensures
        ({
            let m = crate::json::json_model(Json::Obj(*fields))->Obj_0;
            match r {
                Some(v) => spec_sql_entries(m) == Some(sql_model(v@)),
                None => spec_sql_entries(m) is None,
            }
        }),
{
    let ghost m = crate::json::json_model(Json::Obj(*fields))->Obj_0;
    let mut out: Vec<(Vec<char>, SqlConfig)> = Vec::new();
    let mut i: usize = 0;
    proof {
        assert(m.skip(0) =~= m);
        if spec_sql_entries(m) is Some {
            assert(sql_model(out@) + spec_sql_entries(m)->Some_0 =~= spec_sql_entries(m)->Some_0);
        }
    }
    #[verifier::loop_isolation(false)]
    while i < fields.len()
        invariant
            i <= fields.len(),
            m.len() == fields.len(),
            forall|k: int|
                0 <= k < fields.len() ==> m[k] == (fields[k].0@, crate::json::json_model(
                    fields[k].1,
                )),
            sql_model(out@).len() == i,
            spec_sql_entries(m) == (match spec_sql_entries(m.skip(i as int)) {
                Some(rest) => Some(sql_model(out@) + rest),
                None => None::<Seq<(Seq<char>, SqlConfigModel)>>,
            }),
        decreases fields.len() - i,
    {
        proof {
            assert(m.skip(i as int)[0] == m[i as int]);
            assert(m.skip(i as int).drop_first() =~= m.skip(i as int + 1));
        }
        let entry = match parse_sql_entry(&fields[i].1) {
            Some(e) => e,
            None => {
                return None;
            },
        };
        let ghost prev = sql_model(out@);
        let ghost entry_model = entry@;
        out.push((clone_chars(&fields[i].0), entry));
        proof {
            assert(sql_model(out@) =~= prev + seq![(m[i as int].0, entry_model)]);
            if spec_sql_entries(m.skip(i as int + 1)) is Some {
                let rest = spec_sql_entries(m.skip(i as int + 1))->Some_0;
                assert(prev + (seq![(m[i as int].0, entry_model)] + rest) =~= sql_model(out@)
                    + rest);
            }
        }
        i += 1;
    }
    proof {
        assert(m.skip(i as int).len() == 0);
        assert(spec_sql_entries(m.skip(i as int)) == Some(
            Seq::<(Seq<char>, SqlConfigModel)>::empty(),
        ));
        assert(sql_model(out@) + Seq::<(Seq<char>, SqlConfigModel)>::empty() =~= sql_model(out@));
    }
    Some(out)
}

/// Builds the configuration a JSON value describes, or rejects its shape.
pub fn config_from_json(msg: &Json) -> (r: Result<Config, ConfigError>)
    ensures
        match r {
            Ok(c) => spec_config_of(msg@) == Some(c@),
            Err(_) => spec_config_of(msg@) is None,
        },
{
    match msg {
        Json::Obj(_) => {},
        _ => {
            return Err(ConfigError);
        },
    }
    let not_found_error = match msg.get(str_to_chars("not_found_error").as_slice()) {
        None => false,
        Some(Json::Bool(b)) => *b,
        _ => {
            return Err(ConfigError);
        },
    };
    let servers = match msg.get(str_to_chars("servers").as_slice()) {
        None => None,
        Some(Json::Null) => None,
        Some(Json::Obj(fields)) => match parse_server_entries(fields) {
            Some(entries) => Some(entries),
            None => {
                return Err(ConfigError);
            },
        },
        _ => {
            return Err(ConfigError);
        },
    };
    let sql = match msg.get(str_to_chars("sql").as_slice()) {
        None => None,
        Some(Json::Null) => None,
        Some(Json::Obj(fields)) => match parse_sql_entries(fields) {
            Some(entries) => Some(entries),
            None => {
                return Err(ConfigError);
            },
        },
        _ => {
            return Err(ConfigError);
        },
    };
    Ok(Config { not_found_error, servers, sql })
}

} // verus!
