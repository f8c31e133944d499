//! The people who use the editor.

use vstd::prelude::*;
use uuid::Uuid;

verus! {

/// A user: an identifier, the full name, and the parts it was made of.
#[derive(Debug)]
pub struct User {
    pub id: String,
    pub name: String,
    pub f_name: String,
    pub l_name: String,
    pub email: String,
}

/// The full name of a person: first and last name with a space between.
pub open spec fn full_name(f_name: Seq<char>, l_name: Seq<char>) -> Seq<char> {
    f_name.push(' ') + l_name
}

/// `Uuid::new_v4`, written out by `to_string`: a random identifier in its
/// hyphenated form, which always has 36 characters.  Nothing else is known
/// of it: no two calls need agree.  The call takes no input, so nothing can
/// be asked of the caller; it fails only where the operating system has no
/// random numbers to give.
#[verifier::external_body]
fn fresh_id() -> (id: String)
    ensures
        id@.len() == 36,
{
    Uuid::new_v4().to_string()
}

impl User {
    /// The user with the given identifier, names and address.
    pub fn with_id(id: String, f_name: &str, l_name: &str, email: &str) -> (user: User)
        ensures
            user.id@ == id@,
            user.name@ == full_name(f_name@, l_name@),
            user.f_name@ == f_name@,
            user.l_name@ == l_name@,
            user.email@ == email@,
    {
        let mut name = f_name.to_string();
        name.push(' ');
        name.append(l_name);
        User {
            id,
            name,
            f_name: f_name.to_string(),
            l_name: l_name.to_string(),
            email: email.to_string(),
        }
    }

    /// A user with a fresh random identifier.
    pub fn new(f_name: &str, l_name: &str, email: &str) -> (user: User)
        ensures
            user.id@.len() == 36,
            user.name@ == full_name(f_name@, l_name@),
            user.f_name@ == f_name@,
            user.l_name@ == l_name@,
            user.email@ == email@,
    {
        User::with_id(fresh_id(), f_name, l_name, email)
    }
}

} // verus!
