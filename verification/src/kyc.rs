//! The registration collaborator's decisions. The service talks to a
//! user store over the network (the embedding application's work); what
//! is decided from each answer — whether the account exists, the insert
//! payload, whether the insert took, and the reply texts — is verified
//! here.

use vstd::prelude::*;
use vstd::string::StringExecFns;

verus! {

/// The registration service.
#[derive(Debug, Default)]
pub struct Service;

/// The JSON document inserted for a new user.
pub open spec fn register_payload(email: Seq<char>, password_hash: Seq<char>) -> Seq<char> {
    "{\"email\": \""@ + email + "\", \"password\": \""@ + password_hash + "\"}"@
}

impl Service {
    /// The reply to a liveness ping.
    pub fn ping_reply(&self) -> (r: String)
        ensures
            r@ == "pong"@,
    {
        "pong".to_owned()
    }

    /// The reply to a completed registration.
    pub fn register_reply(&self) -> (r: String)
        ensures
            r@ == "Account created successfully"@,
    {
        "Account created successfully".to_owned()
    }

    /// Gate on the account lookup: a success status means the account
    /// already exists and registration is refused.
    pub fn registration_gate(&self, lookup_status: u16) -> (r: Result<(), String>)
        ensures
            r is Err <==> lookup_status == 200,
            r matches Err(e) ==> e@ == "user already exist"@,
    {
        if lookup_status == 200 {
            Err("user already exist".to_owned())
        } else {
            Ok(())
        }
    }

    /// The JSON document inserted for a new user, from the address and
    /// the hashed password.
    pub fn insert_payload(&self, email: &str, password_hash: &str) -> (r: String)
        ensures
            r@ == register_payload(email@, password_hash@),
    {
        let mut s = "{\"email\": \"".to_owned();
        s.append(email);
        s.append("\", \"password\": \"");
        s.append(password_hash);
        s.append("\"}");
        s
    }

    /// Gate on the insert's answer: anything but a success status fails
    /// the registration.
    pub fn insert_gate(&self, insert_status: u16) -> (r: Result<(), String>)
        ensures
            r is Ok <==> insert_status == 200,
            r matches Err(e) ==> e@ == "err"@,
    {
        if insert_status == 200 {
            Ok(())
        } else {
            Err("err".to_owned())
        }
    }
}

} // verus!
