//! The user-management operations of the sample petstore service.
//!
//! Each function builds the request its operation sends, from plain
//! values — the pure half of the per-operation client methods. The
//! surrounding program dispatches the built request and decodes the
//! response.

use vstd::prelude::*;
use vstd::string::StringExecFns;

verus! {

use vstd::utf8::encode_utf8;

use crate::auth::Auth;
use crate::error::Error;
use crate::method::Method;
use crate::request::Request;

/// `POST /user`, body the user to create, no result body expected.
pub fn create_user_request<T: serde::Serialize>(body: &T) -> (r: Result<Request, Error>)
    ensures
        r matches Ok(req) ==> req.wf() && req.spec_method() == Method::Post && req.spec_path()
            == "/user"@ && req.spec_no_return_type() && req.spec_body() is Some
            && (req.spec_auth() matches Auth::Anonymous)
            && req.spec_query().pairs().len() == 0 && req.spec_path_params().pairs().len() == 0
            && req.spec_form().pairs().len() == 0 && req.spec_headers().pairs().len() == 0,
        r matches Err(e) ==> e matches Error::SerializeError(_),
{
    match Request::new(Method::Post, String::from_str("/user")).with_body_param(body) {
        Ok(req) => Ok(req.returns_nothing()),
        Err(e) => Err(e),
    }
}

/// `POST /user/createWithArray`, body a list of users, no result body.
pub fn create_users_with_array_input_request<T: serde::Serialize>(body: &T) -> (r: Result<
    Request,
    Error,
>)
    ensures
        r matches Ok(req) ==> req.wf() && req.spec_method() == Method::Post && req.spec_path()
            == "/user/createWithArray"@ && req.spec_no_return_type() && req.spec_body() is Some
            && (req.spec_auth() matches Auth::Anonymous)
            && req.spec_query().pairs().len() == 0 && req.spec_path_params().pairs().len() == 0
            && req.spec_form().pairs().len() == 0 && req.spec_headers().pairs().len() == 0,
        r matches Err(e) ==> e matches Error::SerializeError(_),
{
    match Request::new(Method::Post, String::from_str("/user/createWithArray")).with_body_param(
        body,
    ) {
        Ok(req) => Ok(req.returns_nothing()),
        Err(e) => Err(e),
    }
}

/// `POST /user/createWithList`, body a list of users, no result body.
pub fn create_users_with_list_input_request<T: serde::Serialize>(body: &T) -> (r: Result<
    Request,
    Error,
>)
    ensures
        r matches Ok(req) ==> req.wf() && req.spec_method() == Method::Post && req.spec_path()
            == "/user/createWithList"@ && req.spec_no_return_type() && req.spec_body() is Some
            && (req.spec_auth() matches Auth::Anonymous)
            && req.spec_query().pairs().len() == 0 && req.spec_path_params().pairs().len() == 0
            && req.spec_form().pairs().len() == 0 && req.spec_headers().pairs().len() == 0,
        r matches Err(e) ==> e matches Error::SerializeError(_),
{
    match Request::new(Method::Post, String::from_str("/user/createWithList")).with_body_param(
        body,
    ) {
        Ok(req) => Ok(req.returns_nothing()),
        Err(e) => Err(e),
    }
}

/// `DELETE /user/{username}`, no result body expected.
pub fn delete_user_request(username: String) -> (r: Request)
    ensures
        r.wf(),
        r.spec_method() == Method::Delete,
        r.spec_path() == "/user/{username}"@,
        r.spec_path_params().as_map() == Map::<Seq<u8>, Seq<u8>>::empty().insert(
            encode_utf8("username"@),
            encode_utf8(username@),
        ),
        r.spec_no_return_type(),
        r.spec_body() is None,
        r.spec_auth() matches Auth::Anonymous,
        r.spec_query().pairs().len() == 0,
        r.spec_form().pairs().len() == 0,
        r.spec_headers().pairs().len() == 0,
{
    Request::new(Method::Delete, String::from_str("/user/{username}")).with_path_param(
        String::from_str("username"),
        username,
    ).returns_nothing()
}

/// `GET /user/{username}`, the result body decoded into the user.
pub fn get_user_by_name_request(username: String) -> (r: Request)
    ensures
        r.wf(),
        r.spec_method() == Method::Get,
        r.spec_path() == "/user/{username}"@,
        r.spec_path_params().as_map() == Map::<Seq<u8>, Seq<u8>>::empty().insert(
            encode_utf8("username"@),
            encode_utf8(username@),
        ),
        !r.spec_no_return_type(),
        r.spec_body() is None,
        r.spec_auth() matches Auth::Anonymous,
        r.spec_query().pairs().len() == 0,
        r.spec_form().pairs().len() == 0,
        r.spec_headers().pairs().len() == 0,
{
    Request::new(Method::Get, String::from_str("/user/{username}")).with_path_param(
        String::from_str("username"),
        username,
    )
}

/// `GET /user/login?username=..&password=..`, the result body decoded
/// into the session string.
pub fn login_user_request(username: String, password: String) -> (r: Request)
    ensures
        r.wf(),
        r.spec_method() == Method::Get,
        r.spec_path() == "/user/login"@,
        r.spec_query().as_map() == Map::<Seq<u8>, Seq<u8>>::empty().insert(
            encode_utf8("username"@),
            encode_utf8(username@),
        ).insert(encode_utf8("password"@), encode_utf8(password@)),
        !r.spec_no_return_type(),
        r.spec_body() is None,
        r.spec_auth() matches Auth::Anonymous,
        r.spec_path_params().pairs().len() == 0,
        r.spec_form().pairs().len() == 0,
        r.spec_headers().pairs().len() == 0,
{
    Request::new(Method::Get, String::from_str("/user/login")).with_query_param(
        String::from_str("username"),
        username,
    ).with_query_param(String::from_str("password"), password)
}

/// `GET /user/logout`, no result body expected.
pub fn logout_user_request() -> (r: Request)
    ensures
        r.wf(),
        r.spec_method() == Method::Get,
        r.spec_path() == "/user/logout"@,
        r.spec_no_return_type(),
        r.spec_body() is None,
        r.spec_auth() matches Auth::Anonymous,
        r.spec_query().pairs().len() == 0,
        r.spec_path_params().pairs().len() == 0,
        r.spec_form().pairs().len() == 0,
        r.spec_headers().pairs().len() == 0,
{
    Request::new(Method::Get, String::from_str("/user/logout")).returns_nothing()
}

/// `PUT /user/{username}`, body the replacement user, no result body.
pub fn update_user_request<T: serde::Serialize>(username: String, body: &T) -> (r: Result<
    Request,
    Error,
>)
    ensures
        r matches Ok(req) ==> req.wf() && req.spec_method() == Method::Put && req.spec_path()
            == "/user/{username}"@ && req.spec_path_params().as_map() == Map::<
            Seq<u8>,
            Seq<u8>,
        >::empty().insert(encode_utf8("username"@), encode_utf8(username@))
            && req.spec_no_return_type() && req.spec_body() is Some && (req.spec_auth() matches
            Auth::Anonymous) && req.spec_query().pairs().len() == 0 && req.spec_form().pairs().len()
            == 0 && req.spec_headers().pairs().len() == 0,
        r matches Err(e) ==> e matches Error::SerializeError(_),
{
    match Request::new(Method::Put, String::from_str("/user/{username}")).with_path_param(
        String::from_str("username"),
        username,
    ).with_body_param(body) {
        Ok(req) => Ok(req.returns_nothing()),
        Err(e) => Err(e),
    }
}

} // verus!
