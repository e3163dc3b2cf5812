//! The credential store: user records, unique by email, username and id.
use vstd::prelude::*;
use vstd::string::*;
use crate::error::AuthError;

verus! {

/// A user record. `password` holds the salted hash, never the plaintext.
#[derive(Debug)]
pub struct User {
    pub id: String,
    pub email: String,
    pub username: String,
    pub password: String,
    pub bio: Option<String>,
    pub image: Option<String>,
    /// Seconds since the epoch at creation.
    pub created_at: i64,
    /// Seconds since the epoch at the last change.
    pub updated_at: i64,
}

/// What a new user row is made of.
pub struct SignupUser<'a> {
    pub email: &'a str,
    pub username: &'a str,
    pub password: &'a str,
}

pub open spec fn email_taken(rows: Seq<User>, email: Seq<char>) -> bool {
    exists|i: int| 0 <= i < rows.len() && (#[trigger] rows[i]).email@ == email
}

pub open spec fn username_taken(rows: Seq<User>, username: Seq<char>) -> bool {
    exists|i: int| 0 <= i < rows.len() && (#[trigger] rows[i]).username@ == username
}

pub open spec fn id_taken(rows: Seq<User>, id: Seq<char>) -> bool {
    exists|i: int| 0 <= i < rows.len() && (#[trigger] rows[i]).id@ == id
}

/// No two rows share an email, a username or an id.
pub open spec fn rows_unique(rows: Seq<User>) -> bool {
    forall|i: int, j: int|
        0 <= i < rows.len() && 0 <= j < rows.len() && i != j ==> {
            &&& (#[trigger] rows[i]).email@ != (#[trigger] rows[j]).email@
            &&& rows[i].username@ != rows[j].username@
            &&& rows[i].id@ != rows[j].id@
        }
}

/// What creating a row with these values gives: `Validation` where one is
/// empty, `Conflict` where one is already in use, and success otherwise.
pub open spec fn create_outcome(
    rows: Seq<User>,
    email: Seq<char>,
    username: Seq<char>,
    id: Seq<char>,
) -> Result<(), AuthError> {
    if email.len() == 0 || username.len() == 0 || id.len() == 0 {
        Err(AuthError::Validation)
    } else if email_taken(rows, email) || username_taken(rows, username) || id_taken(rows, id) {
        Err(AuthError::Conflict)
    } else {
        Ok(())
    }
}

/// Once a row is created with an email, creating another with the same
/// email fails with `Conflict`, whatever its username and id: no two rows
/// ever share an email.
pub proof fn lemma_email_conflicts(rows: Seq<User>, u: User, username: Seq<char>, id: Seq<char>)
    requires
        username.len() > 0,
        id.len() > 0,
        create_outcome(rows, u.email@, u.username@, u.id@) is Ok,
    ensures
        create_outcome(rows.push(u), u.email@, username, id) == Err::<(), AuthError>(AuthError::Conflict),
{
    assert(rows.push(u)[rows.len() as int] == u);
}

impl User {
    /// A copy of this record.
    pub fn copy_record(&self) -> (r: User)
        ensures
            r == *self,
    {
        let bio = match &self.bio {
            Some(b) => Some(b.clone()),
            None => None,
        };
        let image = match &self.image {
            Some(b) => Some(b.clone()),
            None => None,
        };
        User {
            id: self.id.clone(),
            email: self.email.clone(),
            username: self.username.clone(),
            password: self.password.clone(),
            bio,
            image,
            created_at: self.created_at,
            updated_at: self.updated_at,
        }
    }
}

/// The user rows, kept in order of creation.
pub struct CredentialStore {
    users: Vec<User>,
}

impl View for CredentialStore {
    type V = Seq<User>;

    closed spec fn view(&self) -> Seq<User> {
        self.users@
    }
}

impl CredentialStore {
    pub open spec fn wf(&self) -> bool {
        rows_unique(self@)
    }

    /// An empty store.
    pub fn new() -> (r: CredentialStore)
        ensures
            r@ == Seq::<User>::empty(),
            r.wf(),
    {
        CredentialStore { users: Vec::new() }
    }

    /// The number of rows.
    pub fn len(&self) -> (r: usize)
        ensures
            r == self@.len(),
    {
        self.users.len()
    }

    /// Creates the row of `record` with identifier `id`, created at `now`.
    /// Fails with `Validation` where the email, the username or the id is
    /// empty, and with `Conflict` where one of them is already in use; the
    /// store is then unchanged.
    pub fn create_user(&mut self, record: &SignupUser, id: String, now: i64) -> (r: Result<User, AuthError>)
        requires
            old(self).wf(),
        ensures
            final(self).wf(),
            create_outcome(old(self)@, record.email@, record.username@, id@) is Ok <==> r is Ok,
            match r {
                Ok(u) => {
                    &&& final(self)@ == old(self)@.push(u)
                    &&& u.id == id
                    &&& u.email@ == record.email@
                    &&& u.username@ == record.username@
                    &&& u.password@ == record.password@
                    &&& u.bio is None
                    &&& u.image is None
                    &&& u.created_at == now
                    &&& u.updated_at == now
                },
                Err(e) => {
                    &&& final(self)@ == old(self)@
                    &&& create_outcome(old(self)@, record.email@, record.username@, id@) == Err::<(), AuthError>(e)
                },
            },
    {
        if record.email.unicode_len() == 0 || record.username.unicode_len() == 0 || id.as_str().unicode_len() == 0 {
            return Err(AuthError::Validation);
        }
        let mut i: usize = 0;
        while i < self.users.len()
            invariant
                self.users@ == old(self).users@,
                old(self).wf(),
                record.email@.len() > 0,
                record.username@.len() > 0,
                id@.len() > 0,
                i <= self.users@.len(),
                forall|k: int| 0 <= k < i ==> {
                    &&& (#[trigger] self.users@[k]).email@ != record.email@
                    &&& self.users@[k].username@ != record.username@
                    &&& self.users@[k].id@ != id@
                },
            decreases self.users@.len() - i,
        {
            let row = &self.users[i];
            if str_eq(row.email.as_str(), record.email)
                || str_eq(row.username.as_str(), record.username)
                || row.id == id
            {
                proof {
                    assert(self@ == old(self)@);
                    assert(old(self)@[i as int] == self.users@[i as int]);
                }
                return Err(AuthError::Conflict);
            }
            i += 1;
        }
        let user = User {
            id,
            email: String::from_str(record.email),
            username: String::from_str(record.username),
            password: String::from_str(record.password),
            bio: None,
            image: None,
            created_at: now,
            updated_at: now,
        };
        let copy = user.copy_record();
        self.users.push(user);
        proof {
            assert(self@ == old(self)@.push(copy));
        }
        Ok(copy)
    }

    /// The row whose email is `email`.
    pub fn find_by_email(&self, email: &str) -> (r: Option<User>)
        ensures
            match r {
                Some(u) => exists|i: int| 0 <= i < self@.len() && self@[i] == u && u.email@ == email@,
                None => !email_taken(self@, email@),
            },
    {
        let mut i: usize = 0;
        while i < self.users.len()
            invariant
                i <= self.users@.len(),
                forall|k: int| 0 <= k < i ==> (#[trigger] self.users@[k]).email@ != email@,
            decreases self.users@.len() - i,
        {
            if str_eq(self.users[i].email.as_str(), email) {
                let u = self.users[i].copy_record();
                assert(self@[i as int] == u);
                return Some(u);
            }
            i += 1;
        }
        None
    }

    /// The row whose identifier is `id`.
    pub fn find_by_id(&self, id: &str) -> (r: Option<User>)
        ensures
            match r {
                Some(u) => exists|i: int| 0 <= i < self@.len() && self@[i] == u && u.id@ == id@,
                None => !id_taken(self@, id@),
            },
    {
        let mut i: usize = 0;
        while i < self.users.len()
            invariant
                i <= self.users@.len(),
                forall|k: int| 0 <= k < i ==> (#[trigger] self.users@[k]).id@ != id@,
            decreases self.users@.len() - i,
        {
            if str_eq(self.users[i].id.as_str(), id) {
                let u = self.users[i].copy_record();
                assert(self@[i as int] == u);
                return Some(u);
            }
            i += 1;
        }
        None
    }
}

/// Whether two texts are equal.
pub fn str_eq(a: &str, b: &str) -> (r: bool)
    ensures
        r == (a@ == b@),
{
    let n = a.unicode_len();
    if n != b.unicode_len() {
        return false;
    }
    let mut i: usize = 0;
    while i < n
        invariant
            n == a@.len(),
            n == b@.len(),
            i <= n,
            forall|k: int| 0 <= k < i ==> a@[k] == b@[k],
        decreases n - i,
    {
        if a.get_char(i) != b.get_char(i) {
            return false;
        }
        i += 1;
    }
    assert(a@ =~= b@);
    true
}

} // verus!
