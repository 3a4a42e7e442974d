//! The authenticator capability: login, registration and user lookup over a
//! store of credential records, polymorphic over the backing store. One
//! reference backend keeps its records in memory; any backend implementing
//! the trait is substitutable without session changes.
use vstd::prelude::*;

verus! {

/// A login request: results in the id of the matching user.
#[derive(Clone, Debug, PartialEq)]
pub struct Login {
    pub username: String,
    pub password: String,
}

/// A registration request: returns the id of the new user.
#[derive(Clone, Debug, PartialEq)]
pub struct Register {
    pub username: String,
    pub password: String,
}

/// A user-data request, by id; currently yields only the username.
#[derive(Clone, Copy, Debug, PartialEq, Eq, Structural)]
pub struct GetUser {
    pub uid: u64,
}

/// Why a login was refused. The two causes must not be distinguishable on
/// the wire; the session collapses them into one response opcode.
#[derive(Clone, Copy, Debug, PartialEq, Eq, Structural)]
pub enum LoginFailure {
    /// No record with that username.
    NotFound,
    /// The password does not verify against the stored hash.
    WrongPassword,
}

/// Why a registration was refused.
#[derive(Clone, Copy, Debug, PartialEq, Eq, Structural)]
pub enum RegisterFailure {
    /// A record with that username already exists.
    UsernameTaken,
    /// The backend could not complete the request (hashing failed, or no
    /// fresh id was available); surfaced opaquely, never with detail.
    Backend,
}

/// Why a user lookup was refused.
#[derive(Clone, Copy, Debug, PartialEq, Eq, Structural)]
pub enum LookupFailure {
    /// No record with that id.
    NotFound,
}

/// What pwhash's bcrypt verification returns for a password and a hash
/// string: a function of exactly those two arguments.
pub uninterp spec fn bcrypt_verifies(password: Seq<char>, hash: Seq<char>) -> bool;

/// Relies on pwhash's `bcrypt::verify`: it recomputes the hash of `password`
/// with the salt and cost carried inside `hash` and compares in constant
/// time, so its result depends on the two arguments alone.
#[verifier::external_body]
fn verify_password(password: &str, hash: &str) -> (r: bool)
    ensures
        r == bcrypt_verifies(password@, hash@),
{
    pwhash::bcrypt::verify(password, hash)
}

/// Relies on pwhash's `bcrypt::hash`: on success it yields a salted hash of
/// `password` (fixed default cost) that `bcrypt::verify` accepts for that
/// same password.
#[verifier::external_body]
fn hash_password(password: &str) -> (r: Option<String>)
    ensures
        r matches Some(h) ==> bcrypt_verifies(password@, h@),
{
    pwhash::bcrypt::hash(password).ok()
}

/// Relies on rand's `random`: one draw from the thread-local generator.
/// Nothing can be promised of the value.
#[verifier::external_body]
fn random_u64() -> u64 {
    rand::random::<u64>()
}

/// Some stored user carries this id.
pub open spec fn uid_used(users: Map<Seq<char>, (u64, Seq<char>)>, uid: u64) -> bool {
    exists|u: Seq<char>| #[trigger] users.contains_key(u) && users[u].0 == uid
}

/// The credential-management capability. Its store is modelled as a map from
/// username to (user id, password hash); ids are unique across records.
pub trait Authenticator: Sized {
    /// The stored records, username to (id, hash).
    spec fn users(&self) -> Map<Seq<char>, (u64, Seq<char>)>;

    /// The store's own invariant (at least: ids unique across records).
    spec fn wf(&self) -> bool;

    /// Looks the username up and verifies the password against the stored
    /// hash; the store is unchanged. Succeeds exactly when the record exists
    /// and the password verifies, and then returns that record's id.
    fn login(&mut self, req: Login) -> (r: Result<u64, LoginFailure>)
        requires
            old(self).wf(),
        ensures
            final(self).wf(),
            final(self).users() == old(self).users(),
            match r {
                Ok(uid) => old(self).users().contains_key(req.username@) && bcrypt_verifies(
                    req.password@,
                    old(self).users()[req.username@].1,
                ) && uid == old(self).users()[req.username@].0,
                Err(LoginFailure::NotFound) => !old(self).users().contains_key(req.username@),
                Err(LoginFailure::WrongPassword) => old(self).users().contains_key(req.username@)
                    && !bcrypt_verifies(req.password@, old(self).users()[req.username@].1),
            },
    ;

    /// Registers a new user: fails `UsernameTaken` exactly when the username
    /// is already stored (and then changes nothing); on success inserts one
    /// record under a fresh id whose hash verifies the given password. A
    /// backend fault changes nothing and is surfaced opaquely.
    fn register(&mut self, req: Register) -> (r: Result<u64, RegisterFailure>)
        requires
            old(self).wf(),
        ensures
            final(self).wf(),
            match r {
                Ok(uid) => !old(self).users().contains_key(req.username@) && !uid_used(
                    old(self).users(),
                    uid,
                ) && (exists|h: Seq<char>|
                    bcrypt_verifies(req.password@, h) && final(self).users() == old(
                        self,
                    ).users().insert(req.username@, (uid, h))),
                Err(RegisterFailure::UsernameTaken) => old(self).users().contains_key(
                    req.username@,
                ) && final(self).users() == old(self).users(),
                Err(RegisterFailure::Backend) => !old(self).users().contains_key(req.username@)
                    && final(self).users() == old(self).users(),
            },
    ;

    /// Looks a user up by id; the store is unchanged. Succeeds exactly when
    /// some record carries the id, and then returns its username.
    fn get_user(&mut self, req: GetUser) -> (r: Result<String, LookupFailure>)
        requires
            old(self).wf(),
        ensures
            final(self).wf(),
            final(self).users() == old(self).users(),
            match r {
                Ok(name) => old(self).users().contains_key(name@) && old(self).users()[name@].0
                    == req.uid,
                Err(LookupFailure::NotFound) => !uid_used(old(self).users(), req.uid),
            },
    ;
}

/// One stored credential record.
#[derive(Clone, Debug, PartialEq)]
pub struct UserRecord {
    pub uid: u64,
    pub username: String,
    pub password_hash: String,
}

/// The map a record list stands for; a later record with the same username
/// would shadow an earlier one, which well-formedness rules out.
pub open spec fn records_map(v: Seq<UserRecord>) -> Map<Seq<char>, (u64, Seq<char>)>
    decreases v.len(),
{
    if v.len() == 0 {
        Map::empty()
    } else {
        records_map(v.drop_last()).insert(
            v.last().username@,
            (v.last().uid, v.last().password_hash@),
        )
    }
}

/// No two records share a username or an id.
pub open spec fn records_distinct(v: Seq<UserRecord>) -> bool {
    forall|i: int, j: int|
        0 <= i < j < v.len() ==> (#[trigger] v[i]).username@ != (#[trigger] v[j]).username@ && v[
            i].uid != v[j].uid
}

/// What the record list's map holds, record by record.
pub proof fn lemma_records_map_char(v: Seq<UserRecord>)
    requires
        records_distinct(v),
    ensures
        forall|u: Seq<char>| #[trigger]
            records_map(v).contains_key(u) <==> exists|i: int|
                0 <= i < v.len() && (#[trigger] v[i]).username@ == u,
        forall|i: int|
            0 <= i < v.len() ==> records_map(v)[(#[trigger] v[i]).username@] == (
                v[i].uid,
                v[i].password_hash@,
            ),
        forall|uid: u64|
            uid_used(records_map(v), uid) <==> exists|i: int|
                0 <= i < v.len() && (#[trigger] v[i]).uid == uid,
    decreases v.len(),
{
    if v.len() == 0 {
        assert forall|uid: u64| !uid_used(records_map(v), uid) by {
            assert(forall|u: Seq<char>| !records_map(v).contains_key(u));
        }
    } else {
        let w = v.drop_last();
        assert forall|i: int, j: int|
            0 <= i < j < w.len() implies (#[trigger] w[i]).username@ != (
        #[trigger] w[j]).username@ && w[i].uid != w[j].uid by {
            assert(w[i] == v[i] && w[j] == v[j]);
        }
        lemma_records_map_char(w);
        let last = v.last();
        let m = records_map(v);
        assert(m == records_map(w).insert(last.username@, (last.uid, last.password_hash@)));
        assert forall|u: Seq<char>| #[trigger]
            m.contains_key(u) <==> exists|i: int|
                0 <= i < v.len() && (#[trigger] v[i]).username@ == u by {
            if m.contains_key(u) {
                if u == last.username@ {
                    assert(v[v.len() - 1].username@ == u);
                } else {
                    let i = choose|i: int| 0 <= i < w.len() && (#[trigger] w[i]).username@ == u;
                    assert(v[i].username@ == u);
                }
            }
            if exists|i: int| 0 <= i < v.len() && (#[trigger] v[i]).username@ == u {
                let i = choose|i: int| 0 <= i < v.len() && (#[trigger] v[i]).username@ == u;
                if i < v.len() - 1 {
                    assert(w[i].username@ == u);
                }
            }
        }
        assert forall|i: int|
            0 <= i < v.len() implies records_map(v)[(#[trigger] v[i]).username@] == (
            v[i].uid,
            v[i].password_hash@,
        ) by {
            if i < v.len() - 1 {
                assert(v[i].username@ != last.username@);
                assert(w[i] == v[i]);
            }
        }
        assert forall|uid: u64|
            uid_used(m, uid) <==> exists|i: int|
                0 <= i < v.len() && (#[trigger] v[i]).uid == uid by {
            if uid_used(m, uid) {
                let u = choose|u: Seq<char>| #[trigger] m.contains_key(u) && m[u].0 == uid;
                let i = choose|i: int| 0 <= i < v.len() && (#[trigger] v[i]).username@ == u;
                assert(m[v[i].username@] == (v[i].uid, v[i].password_hash@));
                assert(v[i].uid == uid);
            }
            if exists|i: int| 0 <= i < v.len() && (#[trigger] v[i]).uid == uid {
                let i = choose|i: int| 0 <= i < v.len() && (#[trigger] v[i]).uid == uid;
                assert(m.contains_key(v[i].username@));
                assert(m[v[i].username@].0 == uid);
            }
        }
    }
}

/// The reference backend: an in-memory record list. Durable backends (a
/// local database, the remote credential service) stand behind the same
/// trait outside the verified core.
#[derive(Debug)]
pub struct MemoryAuthenticator {
    pub records: Vec<UserRecord>,
}

impl MemoryAuthenticator {
    /// An empty store.
    pub fn new() -> (r: MemoryAuthenticator)
        ensures
            r.wf(),
            r.users() == Map::<Seq<char>, (u64, Seq<char>)>::empty(),
    {
        MemoryAuthenticator { records: Vec::new() }
    }

    /// The position of the record with this username, if any.
    fn find_username(&self, username: &String) -> (r: Option<usize>)
        ensures
            match r {
                Some(i) => i < self.records@.len() && self.records@[i as int].username@
                    == username@,
                None => forall|i: int|
                    0 <= i < self.records@.len() ==> (#[trigger] self.records@[i]).username@
                        != username@,
            },
    {
        let mut k: usize = 0;
        while k < self.records.len()
            invariant
                k <= self.records@.len(),
                forall|i: int|
                    0 <= i < k ==> (#[trigger] self.records@[i]).username@ != username@,
            decreases self.records@.len() - k,
        {
            if self.records[k].username == *username {
                return Some(k);
            }
            k = k + 1;
        }
        None
    }

    /// The position of the record with this id, if any.
    fn find_uid(&self, uid: u64) -> (r: Option<usize>)
        ensures
            match r {
                Some(i) => i < self.records@.len() && self.records@[i as int].uid == uid,
                None => forall|i: int|
                    0 <= i < self.records@.len() ==> (#[trigger] self.records@[i]).uid != uid,
            },
    {
        let mut k: usize = 0;
        while k < self.records.len()
            invariant
                k <= self.records@.len(),
                forall|i: int| 0 <= i < k ==> (#[trigger] self.records@[i]).uid != uid,
            decreases self.records@.len() - k,
        {
            if self.records[k].uid == uid {
                return Some(k);
            }
            k = k + 1;
        }
        None
    }
}

impl Authenticator for MemoryAuthenticator {
    open spec fn users(&self) -> Map<Seq<char>, (u64, Seq<char>)> {
        records_map(self.records@)
    }

    open spec fn wf(&self) -> bool {
        records_distinct(self.records@)
    }

    fn login(&mut self, req: Login) -> (r: Result<u64, LoginFailure>) {
        proof {
            lemma_records_map_char(self.records@);
        }
        match self.find_username(&req.username) {
            None => Err(LoginFailure::NotFound),
            Some(i) => {
                let rec = &self.records[i];
                if verify_password(req.password.as_str(), rec.password_hash.as_str()) {
                    Ok(rec.uid)
                } else {
                    Err(LoginFailure::WrongPassword)
                }
            },
        }
    }

    fn register(&mut self, req: Register) -> (r: Result<u64, RegisterFailure>) {
        proof {
            lemma_records_map_char(self.records@);
        }
        let ghost pre = self.records@;
        match self.find_username(&req.username) {
            Some(_i) => Err(RegisterFailure::UsernameTaken),
            None => {
                let hash = match hash_password(req.password.as_str()) {
                    None => {
                        return Err(RegisterFailure::Backend);
                    },
                    Some(h) => h,
                };
                let uid = random_u64();
                match self.find_uid(uid) {
                    Some(_i) => Err(RegisterFailure::Backend),
                    None => {
                        let ghost gh = hash@;
                        let rec = UserRecord {
                            uid,
                            username: req.username,
                            password_hash: hash,
                        };
                        self.records.push(rec);
                        proof {
                            assert(self.records@.drop_last() =~= pre);
                            assert(self.records@.last() == rec);
                            assert forall|i: int, j: int|
                                0 <= i < j < self.records@.len() implies (
                            #[trigger] self.records@[i]).username@ != (
                            #[trigger] self.records@[j]).username@ && self.records@[i].uid
                                != self.records@[j].uid by {
                                if j == self.records@.len() - 1 {
                                    assert(self.records@[i] == pre[i]);
                                } else {
                                    assert(self.records@[i] == pre[i] && self.records@[j]
                                        == pre[j]);
                                }
                            }
                            assert(bcrypt_verifies(req.password@, gh));
                        }
                        Ok(uid)
                    },
                }
            },
        }
    }

    fn get_user(&mut self, req: GetUser) -> (r: Result<String, LookupFailure>) {
        proof {
            lemma_records_map_char(self.records@);
        }
        match self.find_uid(req.uid) {
            None => Err(LookupFailure::NotFound),
            Some(i) => {
                let name = self.records[i].username.clone();
                proof {
                    assert(self.users()[self.records@[i as int].username@] == (
                        self.records@[i as int].uid,
                        self.records@[i as int].password_hash@,
                    ));
                }
                Ok(name)
            },
        }
    }
}

} // verus!
