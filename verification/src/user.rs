//! The record kept for one user.

use vstd::prelude::*;

verus! {

/// One directory entry. The identifier is chosen by the store, never by a caller.
#[derive(Debug, PartialEq, Eq)]
pub struct User {
    pub id: u32,
    pub name: String,
    pub age: u32,
}

/// The mathematical value of a `User`.
pub struct UserView {
    pub id: nat,
    pub name: Seq<char>,
    pub age: nat,
}

impl View for User {
    type V = UserView;

    open spec fn view(&self) -> UserView {
        UserView { id: self.id as nat, name: self.name@, age: self.age as nat }
    }
}

impl Clone for User {
    fn clone(&self) -> (copy: User)
        ensures
            copy@ == self@,
    {
        User { id: self.id, name: self.name.clone(), age: self.age }
    }
}

/// The values of a sequence of records, in the same order.
pub open spec fn views(users: Seq<User>) -> Seq<UserView> {
    users.map_values(|u: User| u@)
}

} // verus!
