//! SQL provisioning for a `sql` language-server session.
//!
//! When an `initialize` request carries a non-empty `init.driver` and
//! `init.initSql`, and the configuration knows that driver, the proxy
//! creates a scratch database and user named after the session id, runs the
//! bootstrap SQL, and rewrites `initializationOptions` so the language
//! server connects to the scratch database. The library decides everything:
//! the identifiers, the connection URLs, the statements and their order, and
//! what each partial failure leaves behind; running the statements is I/O
//! done outside, step by step against the returned plan.

use vstd::prelude::*;

use crate::config::{clone_chars, ConfigModel, SqlConfig, SqlConfigModel};
use crate::json::{assoc_store, json_model, Json, JsonModel};
use crate::message::{spec_classify, spec_method, MessageKind};
use crate::util::{append_chars, assoc_find, chars_eq, dec_chars, dec_chars_of, str_to_chars, take_chars};

verus! {

/// Characters of a hyphenated lowercase UUID.
pub open spec fn is_uuid_char(c: char) -> bool {
    ('0' <= c <= '9') || ('a' <= c <= 'f') || c == '-'
}

/// Relies on `uuid::Uuid::new_v4` and its `Display` impl: a fresh random
/// version-4 UUID, printed in the hyphenated lowercase form, 36 characters
/// of lowercase hex digits and dashes. The value itself is random; only the
/// format is assumed.
#[verifier::external_body]
fn fresh_session_id() -> (r: Vec<char>)
    ensures
        r@.len() == 36,
        forall|i: int| 0 <= i < 36 ==> is_uuid_char(#[trigger] r@[i]),
{
    uuid::Uuid::new_v4().to_string().chars().collect()
}

/// One provisioned session: its identifiers and what has been created so
/// far on the DBMS.
pub struct SqlsDatabase {
    pub id: Vec<char>,
    pub driver: Vec<char>,
    pub admin_username: Vec<char>,
    pub admin_password: Vec<char>,
    pub host: Vec<char>,
    pub port: u16,
    pub created_database: Option<Vec<char>>,
    pub created_user: Option<Vec<char>>,
    pub created_password: Option<Vec<char>>,
}

pub struct SqlsDatabaseModel {
    pub id: Seq<char>,
    pub driver: Seq<char>,
    pub admin_username: Seq<char>,
    pub admin_password: Seq<char>,
    pub host: Seq<char>,
    pub port: u16,
    pub created_database: Option<Seq<char>>,
    pub created_user: Option<Seq<char>>,
    pub created_password: Option<Seq<char>>,
}

impl View for SqlsDatabase {
    type V = SqlsDatabaseModel;

    open spec fn view(&self) -> SqlsDatabaseModel {
        SqlsDatabaseModel {
            id: self.id@,
            driver: self.driver@,
            admin_username: self.admin_username@,
            admin_password: self.admin_password@,
            host: self.host@,
            port: self.port,
            created_database: match self.created_database {
                Some(v) => Some(v@),
                None => None,
            },
            created_user: match self.created_user {
                Some(v) => Some(v@),
                None => None,
            },
            created_password: match self.created_password {
                Some(v) => Some(v@),
                None => None,
            },
        }
    }
}

impl SqlsDatabaseModel {
    /// A session id in UUID text form.
    pub open spec fn wf(self) -> bool {
        self.id.len() == 36 && forall|i: int| 0 <= i < 36 ==> is_uuid_char(#[trigger] self.id[i])
    }

    /// Something was created that cleanup must remove.
    pub open spec fn has_resources(self) -> bool {
        self.created_database is Some || self.created_user is Some
    }

    pub open spec fn short(self) -> Seq<char> {
        self.id.take(8)
    }

    pub open spec fn db_name(self) -> Seq<char> {
        "lsp_db_"@ + self.short()
    }

    pub open spec fn user_name(self) -> Seq<char> {
        "lsp_user_"@ + self.short()
    }

    pub open spec fn password(self) -> Seq<char> {
        "lsp_pass_"@ + self.short()
    }

    /// The SQLite database file for this session.
    pub open spec fn sqlite_path(self) -> Seq<char> {
        "/tmp/lsp_db_"@ + self.short() + ".db"@
    }

    /// `user:password@host:port` with the given names.
    pub open spec fn endpoint(self, user: Seq<char>, pass: Seq<char>) -> Seq<char> {
        user + ":"@ + pass + "@"@ + self.host + ":"@ + dec_chars(self.port as nat)
    }
}

impl SqlsDatabase {
    /// Starts a session record with a fresh random id and nothing created.
    pub fn new(
        driver: Vec<char>,
        admin_username: Vec<char>,
        admin_password: Vec<char>,
        host: Vec<char>,
        port: u16,
    ) -> (r: SqlsDatabase)
        ensures
            r@.wf(),
            r@.driver == driver@,
            r@.admin_username == admin_username@,
            r@.admin_password == admin_password@,
            r@.host == host@,
            r@.port == port,
            r@.created_database is None,
            r@.created_user is None,
            r@.created_password is None,
    {
        let id = fresh_session_id();
        SqlsDatabase {
            id,
            driver,
            admin_username,
            admin_password,
            host,
            port,
            created_database: None,
            created_user: None,
            created_password: None,
        }
    }

    /// The session id in UUID text form.
    pub fn id(&self) -> (r: &Vec<char>)
        ensures
            r@ == self@.id,
    {
        &self.id
    }

    /// Records that the scratch database now exists.
    pub fn record_database(&mut self)
        requires
            old(self)@.wf(),
        ensures
            (final(self)@ == SqlsDatabaseModel {
                created_database: Some(old(self)@.db_name()),
                ..old(self)@
            }),
    {
        proof {
            assert(self@.id.take(8).len() == 8);
        }
        let name = self.db_name();
        self.created_database = Some(name);
    }

    /// Records that the scratch user now exists, with its password.
    pub fn record_user(&mut self)
        requires
            old(self)@.wf(),
        ensures
            (final(self)@ == SqlsDatabaseModel {
                created_user: Some(old(self)@.user_name()),
                created_password: Some(old(self)@.password()),
                ..old(self)@
            }),
    {
        let name = self.user_name();
        let pass = self.password();
        self.created_user = Some(name);
        self.created_password = Some(pass);
    }

    /// Records that the SQLite database file now exists.
    pub fn record_sqlite_file(&mut self)
        requires
            old(self)@.wf(),
        ensures
            (final(self)@ == SqlsDatabaseModel {
                created_database: Some(old(self)@.sqlite_path()),
                ..old(self)@
            }),
    {
        let path = self.sqlite_path_exec();
        self.created_database = Some(path);
    }

    /// Forgets every recorded resource, after cleanup ran.
    pub fn mark_cleaned(&mut self)
        ensures
            (final(self)@ == SqlsDatabaseModel {
                created_database: None,
                created_user: None,
                created_password: None,
                ..old(self)@
            }),
    {
        self.created_database = None;
        self.created_user = None;
        self.created_password = None;
    }

    /// `lsp_db_` and the first eight id characters.
    pub fn db_name(&self) -> (r: Vec<char>)
        requires
            self@.wf(),
        ensures
            r@ == self@.db_name(),
    {
        let mut r = str_to_chars("lsp_db_");
        let short = take_chars(self.id.as_slice(), 8);
        append_chars(&mut r, short.as_slice());
        r
    }

    /// `lsp_user_` and the first eight id characters.
    pub fn user_name(&self) -> (r: Vec<char>)
        requires
            self@.wf(),
        ensures
            r@ == self@.user_name(),
    {
        let mut r = str_to_chars("lsp_user_");
        let short = take_chars(self.id.as_slice(), 8);
        append_chars(&mut r, short.as_slice());
        r
    }

    /// `lsp_pass_` and the first eight id characters.
    pub fn password(&self) -> (r: Vec<char>)
        requires
            self@.wf(),
        ensures
            r@ == self@.password(),
    {
        let mut r = str_to_chars("lsp_pass_");
        let short = take_chars(self.id.as_slice(), 8);
        append_chars(&mut r, short.as_slice());
        r
    }

    /// The SQLite database file path for this session.
    pub fn sqlite_path_exec(&self) -> (r: Vec<char>)
        requires
            self@.wf(),
        ensures
            r@ == self@.sqlite_path(),
    {
        let mut r = str_to_chars("/tmp/lsp_db_");
        let short = take_chars(self.id.as_slice(), 8);
        append_chars(&mut r, short.as_slice());
        append_chars(&mut r, str_to_chars(".db").as_slice());
        r
    }

    /// `user:password@host:port` against this session's DBMS.
    fn endpoint(&self, user: &Vec<char>, pass: &Vec<char>) -> (r: Vec<char>)
        ensures
            r@ == self@.endpoint(user@, pass@),
    {
        let mut r = clone_chars(user);
        append_chars(&mut r, str_to_chars(":").as_slice());
        append_chars(&mut r, pass.as_slice());
        append_chars(&mut r, str_to_chars("@").as_slice());
        append_chars(&mut r, self.host.as_slice());
        append_chars(&mut r, str_to_chars(":").as_slice());
        append_chars(&mut r, dec_chars_of(self.port as u64).as_slice());
        r
    }
}

impl SqlsDatabaseModel {
    pub open spec fn mysql_admin_url(self) -> Seq<char> {
        "mysql://"@ + self.endpoint(self.admin_username, self.admin_password) + "/mysql"@
    }

    pub open spec fn mysql_user_url(self) -> Seq<char> {
        "mysql://"@ + self.endpoint(self.user_name(), self.password()) + "/"@ + self.db_name()
    }

    pub open spec fn pg_admin_url(self) -> Seq<char> {
        "postgres://"@ + self.endpoint(self.admin_username, self.admin_password) + "/postgres"@
    }

    pub open spec fn pg_user_url(self) -> Seq<char> {
        "postgres://"@ + self.endpoint(self.user_name(), self.password()) + "/"@ + self.db_name()
    }

    pub open spec fn sqlite_url(self) -> Seq<char> {
        "sqlite://"@ + self.sqlite_path()
    }

    pub open spec fn mysql_create_db_stmt(self) -> Seq<char> {
        "CREATE DATABASE IF NOT EXISTS `"@ + self.db_name() + "`"@
    }

    pub open spec fn mysql_create_user_stmt(self) -> Seq<char> {
        "CREATE USER IF NOT EXISTS '"@ + self.user_name() + "'@'%' IDENTIFIED BY '"@
            + self.password() + "'"@
    }

    pub open spec fn mysql_grant_stmt(self) -> Seq<char> {
        "GRANT ALL PRIVILEGES ON `"@ + self.db_name() + "`.* TO '"@ + self.user_name() + "'@'%'"@
    }

    pub open spec fn pg_create_user_stmt(self) -> Seq<char> {
        "CREATE USER "@ + self.user_name() + " WITH PASSWORD '"@ + self.password() + "'"@
    }

    pub open spec fn pg_create_db_stmt(self) -> Seq<char> {
        "CREATE DATABASE "@ + self.db_name() + " OWNER "@ + self.user_name()
    }
}

/// What a successfully executed step means for the session record; the
/// caller applies the mark with `apply_mark` once the step has run.
#[derive(Clone, Copy, PartialEq, Eq, Structural, Debug)]
pub enum ResourceMark {
    /// The scratch database now exists.
    Database,
    /// The scratch user (and its password) now exists.
    User,
    /// Nothing to record until the whole transaction commits.
    Nothing,
}

/// One statement of a provisioning plan.
pub struct PlanStep {
    pub statement: Vec<char>,
    pub marks: ResourceMark,
}

/// How to provision this session, decided entirely by driver and session id.
pub enum InitPlan {
    /// Connect to `admin_url`, run `create_steps` in order (inside one
    /// transaction when `transactional_create`), record per step; then
    /// connect to `user_url` and run the bootstrap SQL in a transaction.
    /// With `record_all_on_commit` the database, user and password are
    /// recorded together after the create transaction commits.
    Server {
        admin_url: Vec<char>,
        transactional_create: bool,
        create_steps: Vec<PlanStep>,
        user_url: Vec<char>,
        record_all_on_commit: bool,
    },
    /// Open the file-backed database at `url` and run the bootstrap SQL in
    /// a transaction; record the file on success, remove it on failure.
    File { url: Vec<char> },
}

pub enum InitPlanModel {
    Server {
        admin_url: Seq<char>,
        transactional_create: bool,
        create_steps: Seq<(Seq<char>, ResourceMark)>,
        user_url: Seq<char>,
        record_all_on_commit: bool,
    },
    File { url: Seq<char> },
}

pub open spec fn steps_model(v: Seq<PlanStep>) -> Seq<(Seq<char>, ResourceMark)> {
    Seq::new(v.len(), |i: int| (v[i].statement@, v[i].marks))
}

impl View for InitPlan {
    type V = InitPlanModel;

    open spec fn view(&self) -> InitPlanModel {
        match self {
            InitPlan::Server {
                admin_url,
                transactional_create,
                create_steps,
                user_url,
                record_all_on_commit,
            } => InitPlanModel::Server {
                admin_url: admin_url@,
                transactional_create: *transactional_create,
                create_steps: steps_model(create_steps@),
                user_url: user_url@,
                record_all_on_commit: *record_all_on_commit,
            },
            InitPlan::File { url } => InitPlanModel::File { url: url@ },
        }
    }
}

/// The driver named in the request is not one of mysql, postgres, sqlite.
#[derive(Clone, Copy, PartialEq, Eq, Structural, Debug)]
pub struct UnsupportedDriver;

/// The provisioning plan a session calls for.
pub open spec fn spec_init_plan(m: SqlsDatabaseModel) -> Result<InitPlanModel, UnsupportedDriver> {
    if m.driver == "mysql"@ {
        Ok(
            InitPlanModel::Server {
                admin_url: m.mysql_admin_url(),
                transactional_create: true,
                create_steps: seq![
                    (m.mysql_create_db_stmt(), ResourceMark::Nothing),
                    (m.mysql_create_user_stmt(), ResourceMark::Nothing),
                    (m.mysql_grant_stmt(), ResourceMark::Nothing),
                    ("FLUSH PRIVILEGES"@, ResourceMark::Nothing),
                ],
                user_url: m.mysql_user_url(),
                record_all_on_commit: true,
            },
        )
    } else if m.driver == "postgres"@ {
        Ok(
            InitPlanModel::Server {
                admin_url: m.pg_admin_url(),
                transactional_create: false,
                create_steps: seq![
                    (m.pg_create_user_stmt(), ResourceMark::User),
                    (m.pg_create_db_stmt(), ResourceMark::Database),
                ],
                user_url: m.pg_user_url(),
                record_all_on_commit: false,
            },
        )
    } else if m.driver == "sqlite"@ {
        Ok(InitPlanModel::File { url: m.sqlite_url() })
    } else {
        Err(UnsupportedDriver)
    }
}

impl SqlsDatabase {
    /// Records the resources one successful step created.
    pub fn apply_mark(&mut self, mark: ResourceMark)
        requires
            old(self)@.wf(),
        ensures
            mark == ResourceMark::Database ==> (final(self)@ == SqlsDatabaseModel {
                created_database: Some(old(self)@.db_name()),
                ..old(self)@
            }),
            mark == ResourceMark::User ==> (final(self)@ == SqlsDatabaseModel {
                created_user: Some(old(self)@.user_name()),
                created_password: Some(old(self)@.password()),
                ..old(self)@
            }),
            mark == ResourceMark::Nothing ==> *final(self) == *old(self),
    {
        match mark {
            ResourceMark::Database => self.record_database(),
            ResourceMark::User => self.record_user(),
            ResourceMark::Nothing => {},
        }
    }

    /// Records everything a committed mysql create transaction made.
    pub fn record_all(&mut self)
        requires
            old(self)@.wf(),
        ensures
            (final(self)@ == SqlsDatabaseModel {
                created_database: Some(old(self)@.db_name()),
                created_user: Some(old(self)@.user_name()),
                created_password: Some(old(self)@.password()),
                ..old(self)@
            }),
    {
        self.record_database();
        self.record_user();
    }

    /// The provisioning plan for this session.
    pub fn init_plan(&self) -> (r: Result<InitPlan, UnsupportedDriver>)
        requires
            self@.wf(),
        ensures
            match r {
                Ok(p) => spec_init_plan(self@) == Ok::<InitPlanModel, UnsupportedDriver>(p@),
                Err(e) => spec_init_plan(self@) == Err::<InitPlanModel, UnsupportedDriver>(e),
            },
    {
        if chars_eq(self.driver.as_slice(), str_to_chars("mysql").as_slice()) {
            let mut admin_url = str_to_chars("mysql://");
            append_chars(
                &mut admin_url,
                self.endpoint(&self.admin_username, &self.admin_password).as_slice(),
            );
            append_chars(&mut admin_url, str_to_chars("/mysql").as_slice());
            let mut user_url = str_to_chars("mysql://");
            append_chars(&mut user_url, self.endpoint(&self.user_name(), &self.password()).as_slice());
            append_chars(&mut user_url, str_to_chars("/").as_slice());
            append_chars(&mut user_url, self.db_name().as_slice());
            let mut s1 = str_to_chars("CREATE DATABASE IF NOT EXISTS `");
            append_chars(&mut s1, self.db_name().as_slice());
            append_chars(&mut s1, str_to_chars("`").as_slice());
            let mut s2 = str_to_chars("CREATE USER IF NOT EXISTS '");
            append_chars(&mut s2, self.user_name().as_slice());
            append_chars(&mut s2, str_to_chars("'@'%' IDENTIFIED BY '").as_slice());
            append_chars(&mut s2, self.password().as_slice());
            append_chars(&mut s2, str_to_chars("'").as_slice());
            let mut s3 = str_to_chars("GRANT ALL PRIVILEGES ON `");
            append_chars(&mut s3, self.db_name().as_slice());
            append_chars(&mut s3, str_to_chars("`.* TO '").as_slice());
            append_chars(&mut s3, self.user_name().as_slice());
            append_chars(&mut s3, str_to_chars("'@'%'").as_slice());
            let s4 = str_to_chars("FLUSH PRIVILEGES");
            let mut create_steps: Vec<PlanStep> = Vec::new();
            create_steps.push(PlanStep { statement: s1, marks: ResourceMark::Nothing });
            create_steps.push(PlanStep { statement: s2, marks: ResourceMark::Nothing });
            create_steps.push(PlanStep { statement: s3, marks: ResourceMark::Nothing });
            create_steps.push(PlanStep { statement: s4, marks: ResourceMark::Nothing });
            let r = InitPlan::Server {
                admin_url,
                transactional_create: true,
                create_steps,
                user_url,
                record_all_on_commit: true,
            };
            proof {
                assert(spec_init_plan(self@)->Ok_0->Server_create_steps =~= r@->Server_create_steps);
            }
            Ok(r)
        } else if chars_eq(self.driver.as_slice(), str_to_chars("postgres").as_slice()) {
            let mut admin_url = str_to_chars("postgres://");
            append_chars(
                &mut admin_url,
                self.endpoint(&self.admin_username, &self.admin_password).as_slice(),
            );
            append_chars(&mut admin_url, str_to_chars("/postgres").as_slice());
            let mut user_url = str_to_chars("postgres://");
            append_chars(&mut user_url, self.endpoint(&self.user_name(), &self.password()).as_slice());
            append_chars(&mut user_url, str_to_chars("/").as_slice());
            append_chars(&mut user_url, self.db_name().as_slice());
            let mut s1 = str_to_chars("CREATE USER ");
            append_chars(&mut s1, self.user_name().as_slice());
            append_chars(&mut s1, str_to_chars(" WITH PASSWORD '").as_slice());
            append_chars(&mut s1, self.password().as_slice());
            append_chars(&mut s1, str_to_chars("'").as_slice());
            let mut s2 = str_to_chars("CREATE DATABASE ");
            append_chars(&mut s2, self.db_name().as_slice());
            append_chars(&mut s2, str_to_chars(" OWNER ").as_slice());
            append_chars(&mut s2, self.user_name().as_slice());
            let mut create_steps: Vec<PlanStep> = Vec::new();
            create_steps.push(PlanStep { statement: s1, marks: ResourceMark::User });
            create_steps.push(PlanStep { statement: s2, marks: ResourceMark::Database });
            let r = InitPlan::Server {
                admin_url,
                transactional_create: false,
                create_steps,
                user_url,
                record_all_on_commit: false,
            };
            proof {
                assert(spec_init_plan(self@)->Ok_0->Server_create_steps =~= r@->Server_create_steps);
            }
            Ok(r)
        } else if chars_eq(self.driver.as_slice(), str_to_chars("sqlite").as_slice()) {
            let mut url = str_to_chars("sqlite://");
            append_chars(&mut url, self.sqlite_path_exec().as_slice());
            Ok(InitPlan::File { url })
        } else {
            Err(UnsupportedDriver)
        }
    }
}

/// One statement of a cleanup plan; errors of a step marked
/// `ignore_errors` are swallowed.
pub struct CleanupStep {
    pub statement: Vec<char>,
    pub ignore_errors: bool,
}

/// How to tear the session's resources down; idempotent and best-effort.
pub enum CleanupPlan {
    /// Connect to `admin_url` and run the steps in order.
    Server { admin_url: Vec<char>, steps: Vec<CleanupStep> },
    /// Remove the session's database file.
    RemoveFile { path: Vec<char> },
    /// Nothing was created.
    Nothing,
}

pub enum CleanupPlanModel {
    Server { admin_url: Seq<char>, steps: Seq<(Seq<char>, bool)> },
    RemoveFile { path: Seq<char> },
    Nothing,
}

pub open spec fn cleanup_steps_model(v: Seq<CleanupStep>) -> Seq<(Seq<char>, bool)> {
    Seq::new(v.len(), |i: int| (v[i].statement@, v[i].ignore_errors))
}

impl View for CleanupPlan {
    type V = CleanupPlanModel;

    open spec fn view(&self) -> CleanupPlanModel {
        match self {
            CleanupPlan::Server { admin_url, steps } => CleanupPlanModel::Server {
                admin_url: admin_url@,
                steps: cleanup_steps_model(steps@),
            },
            CleanupPlan::RemoveFile { path } => CleanupPlanModel::RemoveFile { path: path@ },
            CleanupPlan::Nothing => CleanupPlanModel::Nothing,
        }
    }
}

/// The cleanup a session record calls for: drop whatever was recorded as
/// created, and nothing else.
pub open spec fn spec_cleanup_plan(m: SqlsDatabaseModel) -> CleanupPlanModel {
    if m.driver == "mysql"@ {
        CleanupPlanModel::Server {
            admin_url: m.mysql_admin_url(),
            steps: (match m.created_database {
                Some(db) => seq![("DROP DATABASE IF EXISTS `"@ + db + "`"@, false)],
                None => Seq::empty(),
            }) + (match m.created_user {
                Some(user) => seq![("DROP USER IF EXISTS '"@ + user + "'@'%'"@, false)],
                None => Seq::empty(),
            }),
        }
    } else if m.driver == "postgres"@ {
        CleanupPlanModel::Server {
            admin_url: m.pg_admin_url(),
            steps: (match m.created_database {
                Some(db) => seq![
                    (
                        "SELECT pg_terminate_backend(pid) FROM pg_stat_activity WHERE datname = '"@
                            + db + "'"@,
                        true,
                    ),
                    ("DROP DATABASE IF EXISTS "@ + db, false),
                ],
                None => Seq::empty(),
            }) + (match m.created_user {
                Some(user) => seq![("DROP USER IF EXISTS "@ + user, false)],
                None => Seq::empty(),
            }),
        }
    } else if m.driver == "sqlite"@ {
        match m.created_database {
            Some(path) => CleanupPlanModel::RemoveFile { path },
            None => CleanupPlanModel::Nothing,
        }
    } else {
        CleanupPlanModel::Nothing
    }
}

impl SqlsDatabase {
    /// The cleanup plan for whatever this session has created.
    pub fn cleanup_plan(&self) -> (r: CleanupPlan)
        ensures
            r@ == spec_cleanup_plan(self@),
    {
        if chars_eq(self.driver.as_slice(), str_to_chars("mysql").as_slice()) {
            let mut admin_url = str_to_chars("mysql://");
            append_chars(
                &mut admin_url,
                self.endpoint(&self.admin_username, &self.admin_password).as_slice(),
            );
            append_chars(&mut admin_url, str_to_chars("/mysql").as_slice());
            let mut steps: Vec<CleanupStep> = Vec::new();
            if let Some(db) = &self.created_database {
                let mut s = str_to_chars("DROP DATABASE IF EXISTS `");
                append_chars(&mut s, db.as_slice());
                append_chars(&mut s, str_to_chars("`").as_slice());
                steps.push(CleanupStep { statement: s, ignore_errors: false });
            }
            if let Some(user) = &self.created_user {
                let mut s = str_to_chars("DROP USER IF EXISTS '");
                append_chars(&mut s, user.as_slice());
                append_chars(&mut s, str_to_chars("'@'%'").as_slice());
                steps.push(CleanupStep { statement: s, ignore_errors: false });
            }
            let r = CleanupPlan::Server { admin_url, steps };
            proof {
                assert(r@->Server_steps =~= spec_cleanup_plan(self@)->Server_steps);
            }
            r
        } else if chars_eq(self.driver.as_slice(), str_to_chars("postgres").as_slice()) {
            let mut admin_url = str_to_chars("postgres://");
            append_chars(
                &mut admin_url,
                self.endpoint(&self.admin_username, &self.admin_password).as_slice(),
            );
            append_chars(&mut admin_url, str_to_chars("/postgres").as_slice());
            let mut steps: Vec<CleanupStep> = Vec::new();
            if let Some(db) = &self.created_database {
                let mut t = str_to_chars(
                    "SELECT pg_terminate_backend(pid) FROM pg_stat_activity WHERE datname = '",
                );
                append_chars(&mut t, db.as_slice());
                append_chars(&mut t, str_to_chars("'").as_slice());
                steps.push(CleanupStep { statement: t, ignore_errors: true });
                let mut s = str_to_chars("DROP DATABASE IF EXISTS ");
                append_chars(&mut s, db.as_slice());
                steps.push(CleanupStep { statement: s, ignore_errors: false });
            }
            if let Some(user) = &self.created_user {
                let mut s = str_to_chars("DROP USER IF EXISTS ");
                append_chars(&mut s, user.as_slice());
                steps.push(CleanupStep { statement: s, ignore_errors: false });
            }
            let r = CleanupPlan::Server { admin_url, steps };
            proof {
                assert(r@->Server_steps =~= spec_cleanup_plan(self@)->Server_steps);
            }
            r
        } else if chars_eq(self.driver.as_slice(), str_to_chars("sqlite").as_slice()) {
            match &self.created_database {
                Some(path) => CleanupPlan::RemoveFile { path: clone_chars(path) },
                None => CleanupPlan::Nothing,
            }
        } else {
            CleanupPlan::Nothing
        }
    }
}


/// What an `initialize` request asks the provisioner for.
pub struct ProvisionRequest {
    pub driver: Vec<char>,
    pub init_sql: Vec<char>,
    pub sql: SqlConfig,
}

impl View for ProvisionRequest {
    type V = (Seq<char>, Seq<char>, SqlConfigModel);

    open spec fn view(&self) -> (Seq<char>, Seq<char>, SqlConfigModel) {
        (self.driver@, self.init_sql@, self.sql@)
    }
}

/// The provisioning inputs a message carries: the server must be named
/// `sql`, the message must be an `initialize` request whose
/// `initializationOptions.init` holds non-empty `driver` and `initSql`
/// strings, and the configuration must know the driver. Anything else asks
/// for nothing.
pub open spec fn spec_provision_request(
    m: JsonModel,
    name: Seq<char>,
    config: Option<ConfigModel>,
) -> Option<(Seq<char>, Seq<char>, SqlConfigModel)> {
    if name != "sql"@ {
        None
    } else if spec_classify(m) == MessageKind::Request && spec_method(m) == Some("initialize"@) {
        match m.get("params"@) {
            Some(p) => match p.get("initializationOptions"@) {
                Some(v) => match v.get("init"@) {
                    Some(init) => match (init.get_str("initSql"@), init.get_str("driver"@)) {
                        (Some(sql), Some(driver)) => if sql.len() > 0 && driver.len() > 0 {
                            match config {
                                Some(c) => match c.sql_for(driver) {
                                    Some(sc) => Some((driver, sql, sc)),
                                    None => None,
                                },
                                None => None,
                            }
                        } else {
                            None
                        },
                        _ => None,
                    },
                    None => None,
                },
                None => None,
            },
            None => None,
        }
    } else {
        None
    }
}

/// Copies an `sql` configuration entry.
fn clone_sql_config(c: &SqlConfig) -> (r: SqlConfig)
    ensures
        r@ == c@,
{
    SqlConfig {
        host: clone_chars(&c.host),
        port: c.port,
        admin_username: clone_chars(&c.admin_username),
        admin_password: clone_chars(&c.admin_password),
        proto: match &c.proto {
            Some(p) => Some(clone_chars(p)),
            None => None,
        },
    }
}

/// Reads the provisioning inputs out of a message, if it carries any.
pub fn provision_request(
    msg: &Json,
    name: &[char],
    config: &Option<crate::config::Config>,
) -> (r: Option<ProvisionRequest>)
    ensures
        ({
            let cm = match config {
                Some(c) => Some(c@),
                None => None::<ConfigModel>,
            };
            match r {
                Some(req) => spec_provision_request(msg@, name@, cm) == Some(req@),
                None => spec_provision_request(msg@, name@, cm) is None,
            }
        }),
{
    if !chars_eq(name, str_to_chars("sql").as_slice()) {
        return None;
    }
    if !matches!(crate::message::classify(msg), MessageKind::Request) {
        return None;
    }
    match msg.get(str_to_chars("method").as_slice()) {
        Some(Json::Str(m)) => {
            if !chars_eq(m.as_slice(), str_to_chars("initialize").as_slice()) {
                return None;
            }
        },
        _ => {
            return None;
        },
    }
    let params = match msg.get(str_to_chars("params").as_slice()) {
        Some(p) => p,
        None => {
            return None;
        },
    };
    let options = match params.get(str_to_chars("initializationOptions").as_slice()) {
        Some(v) => v,
        None => {
            return None;
        },
    };
    let init = match options.get(str_to_chars("init").as_slice()) {
        Some(v) => v,
        None => {
            return None;
        },
    };
    let init_sql = match init.get(str_to_chars("initSql").as_slice()) {
        Some(Json::Str(s)) => s,
        _ => {
            return None;
        },
    };
    let driver = match init.get(str_to_chars("driver").as_slice()) {
        Some(Json::Str(s)) => s,
        _ => {
            return None;
        },
    };
    if init_sql.len() == 0 || driver.len() == 0 {
        return None;
    }
    let c = match config {
        Some(c) => c,
        None => {
            return None;
        },
    };
    let entries = match &c.sql {
        Some(entries) => entries,
        None => {
            return None;
        },
    };
    let ghost sm = crate::config::sql_model(entries@);
    let mut i: usize = 0;
    #[verifier::loop_isolation(false)]
    while i < entries.len()
        invariant
            i <= entries.len(),
            sm.len() == entries.len(),
            forall|k: int| 0 <= k < entries.len() ==> sm[k] == (entries[k].0@, entries[k].1@),
            forall|k: int| 0 <= k < i ==> sm[k].0 != driver@,
        decreases entries.len() - i,
    {
        if chars_eq(entries[i].0.as_slice(), driver.as_slice()) {
            proof {
                crate::util::lemma_assoc_find_skip(sm, driver@, i as int);
                assert(sm.skip(i as int)[0] == sm[i as int]);
            }
            return Some(
                ProvisionRequest {
                    driver: clone_chars(driver),
                    init_sql: clone_chars(init_sql),
                    sql: clone_sql_config(&entries[i].1),
                },
            );
        }
        i += 1;
    }
    proof {
        crate::util::lemma_assoc_find_skip(sm, driver@, i as int);
    }
    None
}

/// The `connectionConfig` object handed to the language server: the scratch
/// credentials and the configured endpoint, in this member order.
pub open spec fn spec_connection_config(m: SqlsDatabaseModel, sc: SqlConfigModel) -> JsonModel {
    JsonModel::Obj(
        seq![("driver"@, JsonModel::Str(m.driver))] + (match m.created_password {
            Some(p) => seq![("passwd"@, JsonModel::Str(p))],
            None => Seq::empty(),
        }) + (match m.created_user {
            Some(u) => seq![("user"@, JsonModel::Str(u))],
            None => Seq::empty(),
        }) + (match m.created_database {
            Some(d) => seq![("dbName"@, JsonModel::Str(d))],
            None => Seq::empty(),
        }) + (match sc.proto {
            Some(p) => seq![("proto"@, JsonModel::Str(p))],
            None => Seq::empty(),
        }) + seq![("host"@, JsonModel::Str(sc.host))] + seq![
            ("port"@, JsonModel::Num(dec_chars(sc.port as nat))),
        ],
    )
}

/// The whole replacement for `initializationOptions`.
pub open spec fn spec_init_options(m: SqlsDatabaseModel, sc: SqlConfigModel) -> JsonModel {
    JsonModel::Obj(seq![("connectionConfig"@, spec_connection_config(m, sc))])
}

/// Builds the replacement `initializationOptions` value.
#[verifier::rlimit(50)]
pub fn init_options_json(db: &SqlsDatabase, sc: &SqlConfig) -> (r: Json)
    ensures
        r@ == spec_init_options(db@, sc@),
{
    let mut fields: Vec<(Vec<char>, Json)> = Vec::new();
    let ghost mut exp: Seq<(Seq<char>, JsonModel)> = Seq::empty();
    fields.push((str_to_chars("driver"), Json::Str(clone_chars(&db.driver))));
    proof {
        exp = exp.push(("driver"@, JsonModel::Str(db@.driver)));
        assert(forall|k: int|
            0 <= k < fields.len() ==> ((#[trigger] fields[k]).0@, json_model(fields[k].1))
                == exp[k]);
    }
    if let Some(p) = &db.created_password {
        fields.push((str_to_chars("passwd"), Json::Str(clone_chars(p))));
        proof {
            exp = exp.push(("passwd"@, JsonModel::Str(p@)));
            assert(forall|k: int|
                0 <= k < fields.len() ==> ((#[trigger] fields[k]).0@, json_model(fields[k].1))
                    == exp[k]);
        }
    }
    if let Some(u) = &db.created_user {
        fields.push((str_to_chars("user"), Json::Str(clone_chars(u))));
        proof {
            exp = exp.push(("user"@, JsonModel::Str(u@)));
            assert(forall|k: int|
                0 <= k < fields.len() ==> ((#[trigger] fields[k]).0@, json_model(fields[k].1))
                    == exp[k]);
        }
    }
    if let Some(d) = &db.created_database {
        fields.push((str_to_chars("dbName"), Json::Str(clone_chars(d))));
        proof {
            exp = exp.push(("dbName"@, JsonModel::Str(d@)));
            assert(forall|k: int|
                0 <= k < fields.len() ==> ((#[trigger] fields[k]).0@, json_model(fields[k].1))
                    == exp[k]);
        }
    }
    if let Some(p) = &sc.proto {
        fields.push((str_to_chars("proto"), Json::Str(clone_chars(p))));
        proof {
            exp = exp.push(("proto"@, JsonModel::Str(p@)));
            assert(forall|k: int|
                0 <= k < fields.len() ==> ((#[trigger] fields[k]).0@, json_model(fields[k].1))
                    == exp[k]);
        }
    }
    fields.push((str_to_chars("host"), Json::Str(clone_chars(&sc.host))));
    proof {
        exp = exp.push(("host"@, JsonModel::Str(sc@.host)));
        assert(forall|k: int|
            0 <= k < fields.len() ==> ((#[trigger] fields[k]).0@, json_model(fields[k].1))
                == exp[k]);
    }
    fields.push((str_to_chars("port"), Json::Num(dec_chars_of(sc.port as u64))));
    proof {
        exp = exp.push(("port"@, JsonModel::Num(dec_chars(sc@.port as nat))));
        assert(forall|k: int|
            0 <= k < fields.len() ==> ((#[trigger] fields[k]).0@, json_model(fields[k].1))
                == exp[k]);
    }
    let inner = Json::Obj(fields);
    proof {
        assert(json_model(inner)->Obj_0 =~= exp);
        assert(spec_connection_config(db@, sc@)->Obj_0 =~= exp);
    }
    let mut outer: Vec<(Vec<char>, Json)> = Vec::new();
    outer.push((str_to_chars("connectionConfig"), inner));
    let r = Json::Obj(outer);
    proof {
        assert(json_model(r)->Obj_0 =~= spec_init_options(db@, sc@)->Obj_0);
    }
    r
}

/// The message with `params.initializationOptions` replaced by `opts`; a
/// message without `params` is unchanged.
pub open spec fn spec_rewrite_init_options(m: JsonModel, opts: JsonModel) -> JsonModel {
    match m.get("params"@) {
        Some(p) => m.put("params"@, p.put("initializationOptions"@, opts)),
        None => m,
    }
}

/// Replaces `params.initializationOptions` with `opts`.
pub fn rewrite_init_options(msg: Json, opts: Json) -> (r: Json)
    ensures
        r@ == spec_rewrite_init_options(msg@, opts@),
{
    let ghost orig = json_model(msg);
    let params_key = str_to_chars("params");
    match msg {
        Json::Obj(mut fields) => {
            let ghost m = orig->Obj_0;
            let mut out: Vec<(Vec<char>, Json)> = Vec::new();
            let mut i: usize = 0;
            proof {
                assert(m.len() == fields.len());
            }
            #[verifier::loop_isolation(false)]
            while fields.len() > 0
                invariant
                    orig == JsonModel::Obj(m),
                    m.len() <= usize::MAX,
                    params_key@ == "params"@,
                    i + fields.len() == m.len(),
                    out.len() == i,
                    forall|k: int|
                        0 <= k < fields.len() ==> m[i + k] == ((#[trigger] fields[k]).0@,
                        json_model(fields[k].1)),
                    forall|k: int|
                        0 <= k < i ==> ((#[trigger] out[k]).0@, json_model(out[k].1)) == m[k],
                    forall|k: int| 0 <= k < i ==> (#[trigger] m[k]).0 != "params"@,
                decreases fields.len(),
            {
                let (key, value) = fields.remove(0);
                if chars_eq(key.as_slice(), params_key.as_slice()) {
                    proof {
                        crate::util::lemma_assoc_find_skip(m, "params"@, i as int);
                        assert(m.skip(i as int)[0] == m[i as int]);
                        crate::json::lemma_assoc_store_skip(
                            m,
                            "params"@,
                            json_model(value).put("initializationOptions"@, json_model(opts)),
                            i as int,
                        );
                    }
                    let ghost new_model = json_model(value).put(
                        "initializationOptions"@,
                        json_model(opts),
                    );
                    let new_value = value.put(str_to_chars("initializationOptions"), opts);
                    out.push((key, new_value));
                    let ghost taken = i + 1;
                    let mut j: usize = i + 1;
                    #[verifier::loop_isolation(false)]
                    while fields.len() > 0
                        invariant
                            orig == JsonModel::Obj(m),
                            m.len() <= usize::MAX,
                            taken == i + 1,
                            i < taken <= j,
                            j + fields.len() == m.len(),
                            out.len() == j,
                            forall|k: int|
                                0 <= k < fields.len() ==> m[j + k] == ((#[trigger] fields[k]).0@,
                                json_model(fields[k].1)),
                            forall|k: int|
                                0 <= k < i ==> ((#[trigger] out[k]).0@, json_model(out[k].1))
                                    == m[k],
                            (out[i as int].0@, json_model(out[i as int].1)) == (
                                m[i as int].0,
                                new_model,
                            ),
                            forall|k: int|
                                taken <= k < j ==> ((#[trigger] out[k]).0@, json_model(out[k].1))
                                    == m[k],
                        decreases fields.len(),
                    {
                        let (k2, v2) = fields.remove(0);
                        out.push((k2, v2));
                        j += 1;
                    }
                    let r = Json::Obj(out);
                    proof {
                        let m2 = json_model(r)->Obj_0;
                        let stored = (m[i as int].0, new_model);
                        assert(assoc_find(m, "params"@) == Some(m[i as int].1));
                        assert(assoc_store(m.skip(i as int), "params"@, new_model) =~= seq![
                            ("params"@, new_model),
                        ] + m.skip(i as int).drop_first());
                        assert(m2 =~= m.take(i as int) + assoc_store(
                            m.skip(i as int),
                            "params"@,
                            new_model,
                        ));
                        assert(m2 == assoc_store(m, "params"@, new_model));
                        assert(orig.get("params"@) == Some(m[i as int].1));
                    }
                    return r;
                }
                out.push((key, value));
                i += 1;
            }
            proof {
                crate::util::lemma_assoc_find_skip(m, "params"@, i as int);
                assert(m.skip(i as int).len() == 0);
                assert(orig.get("params"@) is None);
            }
            let r = Json::Obj(out);
            proof {
                assert(json_model(r)->Obj_0 =~= m);
            }
            r
        },
        other => {
            proof {
                assert(json_model(other) == orig);
                assert(orig.get("params"@) is None);
            }
            other
        },
    }
}


} // verus!
