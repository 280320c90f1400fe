//! What the user service answers, apart from the transport: the stand-in
//! service that answers from its arguments, and the replies of the networked
//! service that need no network.

use vstd::prelude::*;

verus! {

/// The codes of a user error.
#[derive(Clone, Copy, Debug, PartialEq, Eq, Structural)]
pub enum UserErrCode {
    Unknown,
    ServerError,
}

/// An error of the user service.
#[derive(Clone, Debug, PartialEq, Eq)]
pub struct UserError {
    pub code: UserErrCode,
    pub msg: String,
}

impl UserError {
    /// An error of the given code with an empty message.
    pub fn new(code: UserErrCode) -> (e: UserError)
        ensures
            e.code == code,
            e.msg@.len() == 0,
    {
        UserError { code, msg: String::new() }
    }
}

/// What a user signs up with.
#[derive(Clone, Debug, PartialEq, Eq)]
pub struct SignUpParams {
    pub email: String,
    pub name: String,
    pub password: String,
}

/// What a user signs in with.
#[derive(Clone, Debug, PartialEq, Eq)]
pub struct SignInParams {
    pub email: String,
    pub password: String,
}

/// The answer to a sign-up.
#[derive(Clone, Debug, PartialEq, Eq)]
pub struct SignUpResponse {
    pub uid: String,
    pub name: String,
    pub email: String,
}

/// The answer to a sign-in.
#[derive(Clone, Debug, PartialEq, Eq)]
pub struct SignInResponse {
    pub uid: String,
    pub name: String,
    pub email: String,
}

/// What is known of a user.
#[derive(Clone, Debug, PartialEq, Eq)]
pub struct UserDetail {
    pub email: String,
    pub name: String,
}

/// The user service that talks to a server. Signing up and signing in need the
/// network and are not answered here.
#[derive(Clone, Copy, Debug, Default)]
pub struct UserServerImpl {}

impl UserServerImpl {
    /// The server offers no sign-out: the error `Unknown`.
    pub fn sign_out(&self, user_id: &str) -> (r: Result<(), UserError>)
        ensures
            r matches Err(e) && e.code == UserErrCode::Unknown && e.msg@.len() == 0,
    {
        Err(UserError::new(UserErrCode::Unknown))
    }

    /// The server offers no user details: the error `Unknown`.
    pub fn get_user_info(&self, user_id: &str) -> (r: Result<UserDetail, UserError>)
        ensures
            r matches Err(e) && e.code == UserErrCode::Unknown && e.msg@.len() == 0,
    {
        Err(UserError::new(UserErrCode::Unknown))
    }
}

/// A user service that needs no server: it answers from what it is given.
#[derive(Clone, Copy, Debug, Default)]
pub struct UserServerMock {}

impl UserServerMock {
    /// Signs up: the user id is the email address; name and address are
    /// handed back.
    pub fn sign_up(&self, params: SignUpParams) -> (r: Result<SignUpResponse, UserError>)
        ensures
            r matches Ok(resp) && resp.uid@ == params.email@ && resp.name@ == params.name@
                && resp.email@ == params.email@,
    {
        let uid = params.email.clone();
        Ok(SignUpResponse { uid, name: params.name, email: params.email })
    }

    /// Signs in: user id and name are both the email address.
    pub fn sign_in(&self, params: SignInParams) -> (r: Result<SignInResponse, UserError>)
        ensures
            r matches Ok(resp) && resp.uid@ == params.email@ && resp.name@ == params.email@
                && resp.email@ == params.email@,
    {
        let uid = params.email.clone();
        Ok(SignInResponse { uid, name: params.email.clone(), email: params.email })
    }

    /// Signing out always succeeds.
    pub fn sign_out(&self, user_id: &str) -> (r: Result<(), UserError>)
        ensures
            r is Ok,
    {
        Ok(())
    }

    /// There are no user details to give: the error `Unknown`.
    pub fn get_user_info(&self, user_id: &str) -> (r: Result<UserDetail, UserError>)
        ensures
            r matches Err(e) && e.code == UserErrCode::Unknown && e.msg@.len() == 0,
    {
        Err(UserError::new(UserErrCode::Unknown))
    }
}

} // verus!
