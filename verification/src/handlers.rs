//! The request handlers: each takes what the router decoded from a request
//! and returns what the router encodes as the response.

use vstd::prelude::*;
use vstd::string::StringExecFns;
use crate::store::UserStore;
use crate::text::{deleted, deleted_message, greeting, not_found, not_found_message};
use crate::user::{views, User};

verus! {

/// The status that a response carries.
#[derive(Clone, Copy, Debug, PartialEq, Eq, Structural)]
pub enum Status {
    /// The request was served.
    Success,
    /// The request named a record that the store does not hold.
    NotFound,
}

impl Status {
    /// The number of the status on the wire.
    pub open spec fn spec_code(self) -> nat {
        match self {
            Status::Success => 200,
            Status::NotFound => 404,
        }
    }

    /// The number of the status on the wire.
    pub fn code(&self) -> (code: u16)
        ensures
            code == self.spec_code(),
    {
        match self {
            Status::Success => 200,
            Status::NotFound => 404,
        }
    }
}

/// The body of a response that reports an error.
#[derive(Debug, PartialEq, Eq)]
pub struct ErrorBody {
    /// What went wrong, in words.
    pub error: String,
}

/// The greeting at the root.
pub fn hello_world() -> (text: &'static str)
    ensures
        text@ == "Hello, world!"@,
{
    "Hello, world!"
}

/// The greeting for the name in the path, which is taken as it comes.
pub fn greet_person(name: &str) -> (text: String)
    ensures
        text@ == greeting(name@),
{
    let mut text = String::from_str("Hello, ");
    text.append(name);
    text.append("!");
    text
}

/// Stores a new user with the name and age of the payload and answers with
/// the stored record. The payload's identifier is not read: the store
/// chooses the identifier.
pub fn add_user(store: &mut UserStore, payload: User) -> (user: User)
    requires
        old(store).wf(),
        old(store)@.next_id < u32::MAX,
    ensures
        final(store).wf(),
        final(store)@ == old(store)@.create(payload.name@, payload.age as nat),
        user@ == old(store)@.fresh(payload.name@, payload.age as nat),
{
    store.create(payload.name, payload.age)
}

/// Answers with every stored user, oldest first.
pub fn list_users(store: &UserStore) -> (users: Vec<User>)
    ensures
        views(users@) == store@.records,
        users.len() == store@.records.len(),
        forall|i: int| 0 <= i < users.len() ==> (#[trigger] users[i])@ == store@.records[i],
{
    store.list()
}

/// Deletes the user with this identifier. Where the store holds such a user
/// the answer is a message that names the identifier; where it holds none
/// the store stays as it is and the answer is the not-found status with an
/// error body that names the identifier.
pub fn delete_user(store: &mut UserStore, id: u32) -> (response: Result<String, (Status, ErrorBody)>)
    requires
        old(store).wf(),
    ensures
        final(store).wf(),
        final(store)@ == old(store)@.delete(id as nat),
        response is Ok <==> old(store)@.contains_id(id as nat),
        response matches Ok(message) ==> message@ == deleted_message(id as nat),
        response matches Err((status, body)) ==> {
            &&& status == Status::NotFound
            &&& body.error@ == not_found_message(id as nat)
            &&& *final(store) == *old(store)
        },
{
    if store.delete(id) {
        Ok(deleted(id))
    } else {
        Err((Status::NotFound, ErrorBody { error: not_found(id) }))
    }
}

} // verus!
