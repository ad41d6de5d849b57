//! Key–value persistence of applications: one row per installed
//! application, its id as text mapped to its serialized recorder. The
//! store itself is an embedded database reached through a thread-safe
//! connection; this module is specified against the map of rows that the
//! connection's application table holds.

use vstd::prelude::*;

use crate::application::{lemma_uuid_string_ascii, uuid_string, uuid_to_string, Application};
use crate::recorder::{dec_recorder, enc_recorder, Recorder};

verus! {

use vstd::utf8::is_ascii_chars;

#[verifier::external_type_specification]
#[verifier::external_body]
pub struct ExConnectionThreadSafe(sqlite::ConnectionThreadSafe);

#[verifier::external_type_specification]
#[verifier::external_body]
pub struct ExSqliteError(sqlite::Error);

/// Names what the connection's application table holds: the map from
/// application-id text to recorder blob, empty while the table is absent.
pub uninterp spec fn db_view(c: sqlite::ConnectionThreadSafe) -> Map<Seq<char>, Seq<u8>>;

/// Relies on sqlite's execute running CREATE TABLE IF NOT EXISTS: creating
/// the application table, or finding it already there, changes no row.
#[verifier::external_body]
fn kv_create_table(conn: &mut sqlite::ConnectionThreadSafe) -> (r: Result<(), sqlite::Error>)
    ensures
        db_view(*final(conn)) == db_view(*old(conn)),
{
    conn.execute(
        "CREATE TABLE IF NOT EXISTS application( \
        id TEXT PRIMARY KEY, \
        recorder BLOB NOT NULL \
        )",
    )
}

/// Relies on sqlite's INSERT through prepare, bind and next: on success
/// the row (id, blob) is added; a rejected insert leaves the table as it
/// was. The bindings pass each value's UTF-8 byte length as a 32-bit C
/// int, so the contract holds only for values under 2^31 bytes; an ASCII
/// id of bounded character count has the same byte count, and the bound
/// is required, never assumed.
#[verifier::external_body]
fn kv_insert(conn: &mut sqlite::ConnectionThreadSafe, id: &str, blob: &Vec<u8>) -> (r: Result<
    (),
    sqlite::Error,
>)
    requires
        is_ascii_chars(id@),
        id@.len() < 0x8000_0000,
        blob@.len() < 0x8000_0000,
    ensures
        r is Ok ==> db_view(*final(conn)) == db_view(*old(conn)).insert(id@, blob@),
        r is Err ==> db_view(*final(conn)) == db_view(*old(conn)),
{
    let mut statement = conn.prepare("INSERT INTO application (id, recorder) VALUES (?, ?)")?;
    statement.bind((1, id))?;
    statement.bind((2, &blob[..]))?;
    statement.next()?;
    Ok(())
}

/// Relies on sqlite's SELECT through prepare, bind, next and read: a row
/// comes back exactly when the table has one under the id, and then the
/// blob read is the one stored. The id is bound with its UTF-8 byte
/// length as a 32-bit C int, hence the required bound over an ASCII id,
/// whose byte and character counts agree.
#[verifier::external_body]
fn kv_lookup(conn: &sqlite::ConnectionThreadSafe, id: &str) -> (r: Result<
    Option<Vec<u8>>,
    sqlite::Error,
>)
    requires
        is_ascii_chars(id@),
        id@.len() < 0x8000_0000,
    ensures
        r matches Ok(Some(b)) ==> db_view(*conn).contains_key(id@) && b@ == db_view(*conn)[id@],
        r matches Ok(None) ==> !db_view(*conn).contains_key(id@),
{
    let mut statement = conn.prepare("SELECT recorder FROM application WHERE id = ?")?;
    statement.bind((1, id))?;
    match statement.next()? {
        sqlite::State::Row => Ok(Some(statement.read::<Vec<u8>, _>("recorder")?)),
        sqlite::State::Done => Ok(None),
    }
}

/// Relies on sqlite's DELETE through prepare, bind and next: on success
/// the row under the id is gone (deleting an absent row succeeds, as
/// removing an absent key does); a rejected delete leaves the table as it
/// was. The id is bound with its UTF-8 byte length as a 32-bit C int,
/// hence the required bound over an ASCII id, whose byte and character
/// counts agree.
#[verifier::external_body]
fn kv_delete(conn: &mut sqlite::ConnectionThreadSafe, id: &str) -> (r: Result<(), sqlite::Error>)
    requires
        is_ascii_chars(id@),
        id@.len() < 0x8000_0000,
    ensures
        r is Ok ==> db_view(*final(conn)) == db_view(*old(conn)).remove(id@),
        r is Err ==> db_view(*final(conn)) == db_view(*old(conn)),
{
    let mut statement = conn.prepare("DELETE FROM application WHERE id = ?")?;
    statement.bind((1, id))?;
    statement.next()?;
    Ok(())
}

/// Why a persistence operation failed; never swallowed.
#[derive(Debug, Clone, Copy, PartialEq, Eq, Structural)]
pub enum PersistenceError {
    /// The store rejected a read or write.
    Storage,
    /// A stored blob is not a recorder encoding.
    Corrupt,
}

/// The persistence of installed applications: id text mapped to the
/// serialized recorder, one row each.
pub struct Database {
    connection: sqlite::ConnectionThreadSafe,
}

impl View for Database {
    type V = Map<Seq<char>, Seq<u8>>;

    closed spec fn view(&self) -> Map<Seq<char>, Seq<u8>> {
        db_view(self.connection)
    }
}

impl Database {
    /// Takes over an open connection, creating the application table when
    /// it is absent; existing rows are kept.
    pub fn new(connection: sqlite::ConnectionThreadSafe) -> (r: Result<Self, PersistenceError>)
        ensures
            r matches Ok(db) ==> db@ == db_view(connection),
            r matches Err(e) ==> e == PersistenceError::Storage,
    {
        let mut connection = connection;
        match kv_create_table(&mut connection) {
            Ok(_) => Ok(Database { connection }),
            Err(_) => Err(PersistenceError::Storage),
        }
    }

    /// Persists one application: its id text mapped to the encoding of its
    /// recorder. On failure the store is unchanged. An encoding too large
    /// for the store's 32-bit value lengths is rejected as a storage
    /// error before anything is handed to the store.
    pub fn add_application(&mut self, application: Application) -> (r: Result<
        (),
        PersistenceError,
    >)
        ensures
            r is Ok ==> final(self)@ == old(self)@.insert(
                uuid_string(application@.id),
                enc_recorder(application@.recorder),
            ),
            r is Err ==> final(self)@ == old(self)@,
            enc_recorder(application@.recorder).len() >= 0x8000_0000 ==> r is Err,
    {
        let id = uuid_to_string(application.id());
        proof {
            lemma_uuid_string_ascii(application@.id);
        }
        let blob = application.recorder().to_binary();
        if blob.len() >= 0x8000_0000 {
            return Err(PersistenceError::Storage);
        }
        match kv_insert(&mut self.connection, id.as_str(), &blob) {
            Ok(_) => Ok(()),
            Err(_) => Err(PersistenceError::Storage),
        }
    }

    /// Looks one application up by id: absence is an answer, not an error.
    /// What comes back decodes from exactly the stored blob and carries
    /// the asked-for id.
    pub fn get_application(&self, application_id: u128) -> (r: Result<
        Option<Application>,
        PersistenceError,
    >)
        ensures
            r matches Ok(Some(app)) ==> self@.contains_key(uuid_string(application_id))
                && dec_recorder(self@[uuid_string(application_id)]) == Option::Some(app@.recorder)
                && app@.id == application_id,
            r matches Ok(None) ==> !self@.contains_key(uuid_string(application_id)),
            r matches Err(e) ==> e == PersistenceError::Storage || (e == PersistenceError::Corrupt
                && self@.contains_key(uuid_string(application_id)) && dec_recorder(
                self@[uuid_string(application_id)],
            ) is None),
    {
        let key = uuid_to_string(application_id);
        proof {
            lemma_uuid_string_ascii(application_id);
        }
        match kv_lookup(&self.connection, key.as_str()) {
            Err(_) => Err(PersistenceError::Storage),
            Ok(None) => Ok(None),
            Ok(Some(blob)) => match Recorder::from_binary(&blob) {
                Option::Some(recorder) => Ok(Some(Application::new(application_id, recorder))),
                Option::None => Err(PersistenceError::Corrupt),
            },
        }
    }

    /// Fetches and deletes in one logical step, handing the removed
    /// application back so the caller can roll it back; on any failure the
    /// store is unchanged and nothing is handed back.
    pub fn remove_application(&mut self, application_id: u128) -> (r: Result<
        Option<Application>,
        PersistenceError,
    >)
        ensures
            r matches Ok(Some(app)) ==> old(self)@.contains_key(uuid_string(application_id))
                && dec_recorder(old(self)@[uuid_string(application_id)]) == Option::Some(
                app@.recorder,
            ) && app@.id == application_id && final(self)@ == old(self)@.remove(
                uuid_string(application_id),
            ),
            r matches Ok(None) ==> !old(self)@.contains_key(uuid_string(application_id))
                && final(self)@ == old(self)@,
            r is Err ==> final(self)@ == old(self)@,
    {
        match self.get_application(application_id) {
            Err(e) => Err(e),
            Ok(None) => Ok(None),
            Ok(Some(app)) => {
                let key = uuid_to_string(application_id);
                proof {
                    lemma_uuid_string_ascii(application_id);
                }
                match kv_delete(&mut self.connection, key.as_str()) {
                    Ok(_) => Ok(Some(app)),
                    Err(_) => Err(PersistenceError::Storage),
                }
            },
        }
    }
}

} // verus!
