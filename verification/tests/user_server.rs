use grid_group::user_server::{
    SignInParams, SignInResponse, SignUpParams, SignUpResponse, UserErrCode, UserError,
    UserServerImpl, UserServerMock,
};

#[test]
fn mock_sign_up_uses_the_email_as_user_id() {
    let params = SignUpParams {
        email: "a@b.c".to_owned(),
        name: "ann".to_owned(),
        password: "pw".to_owned(),
    };
    assert_eq!(
        UserServerMock {}.sign_up(params),
        Ok(SignUpResponse {
            uid: "a@b.c".to_owned(),
            name: "ann".to_owned(),
            email: "a@b.c".to_owned()
        })
    );
}

#[test]
fn mock_sign_in_uses_the_email_as_user_id_and_name() {
    let params = SignInParams { email: "a@b.c".to_owned(), password: "pw".to_owned() };
    assert_eq!(
        UserServerMock {}.sign_in(params),
        Ok(SignInResponse {
            uid: "a@b.c".to_owned(),
            name: "a@b.c".to_owned(),
            email: "a@b.c".to_owned()
        })
    );
}

#[test]
fn mock_sign_out_succeeds_and_user_info_is_unknown() {
    let unknown = UserError { code: UserErrCode::Unknown, msg: String::new() };
    assert_eq!(UserServerMock {}.sign_out("u1"), Ok(()));
    assert_eq!(UserServerMock {}.get_user_info("u1"), Err(unknown));
}

#[test]
fn server_sign_out_and_user_info_are_unknown() {
    let unknown = UserError { code: UserErrCode::Unknown, msg: String::new() };
    assert_eq!(UserServerImpl {}.sign_out("u1"), Err(unknown.clone()));
    assert_eq!(UserServerImpl {}.get_user_info("u1"), Err(unknown));
    assert_eq!(UserError::new(UserErrCode::ServerError).code, UserErrCode::ServerError);
}
