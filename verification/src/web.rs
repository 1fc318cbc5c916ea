//! The web service's access check and its entry points.
use crate::text::bytes_equal;
use vstd::prelude::*;
use vstd::string::StringSliceAdditionalSpecFns;

verus! {

/// The path of the login page, which needs no credentials.
pub open spec fn login_path() -> Seq<char> {
    seq!['/', 'l', 'o', 'g', 'i', 'n']
}

/// The access check placed in front of every route.
pub struct CheckLogin;

/// The access check wrapped around the service `S`.
pub struct CheckLoginMiddleware<S> {
    service: S,
}

/// How the access check classes a request; every class is passed on to the service.
#[derive(Clone, Copy, PartialEq, Eq, Structural, Debug)]
pub enum AuthRoute {
    /// The login page.
    Login,
    /// A request that carries an `Authorization` header.
    Authorized,
    /// A request without one.
    Anonymous,
}

impl AuthRoute {
    /// Whether the request goes on to the service: always, since no check refuses one yet.
    pub fn forwards(&self) -> (f: bool)
        ensures
            f,
    {
        true
    }
}

/// Whether `path` is the login page's path.
fn is_login_path(path: &str) -> (b: bool)
    ensures
        b == (path@ == login_path()),
{
    broadcast use vstd::utf8::encode_utf8_decode_utf8;

    let login: &str = "/login";
    proof {
        reveal_strlit("/login");
        assert(login@ =~= login_path());
    }
    let eq = bytes_equal(path.as_bytes(), login.as_bytes());
    proof {
        if eq {
            assert(vstd::utf8::decode_utf8(path.spec_bytes()) == vstd::utf8::decode_utf8(
                login.spec_bytes(),
            ));
        }
    }
    eq
}

impl<S> CheckLoginMiddleware<S> {
    /// The check around `service`.
    pub fn new(service: S) -> (m: Self)
        ensures
            m.spec_service() == service,
    {
        CheckLoginMiddleware { service }
    }

    pub closed spec fn spec_service(&self) -> S {
        self.service
    }

    /// The wrapped service.
    pub fn service(&mut self) -> (s: &mut S)
        ensures
            *s == old(self).spec_service(),
            final(self).spec_service() == *final(s),
    {
        &mut self.service
    }

    /// The class of a request for `path`, with or without an `Authorization` header.
    pub fn route(path: &str, has_authorization: bool) -> (r: AuthRoute)
        ensures
            path@ == login_path() ==> r == AuthRoute::Login,
            path@ != login_path() && has_authorization ==> r == AuthRoute::Authorized,
            path@ != login_path() && !has_authorization ==> r == AuthRoute::Anonymous,
    {
        if is_login_path(path) {
            AuthRoute::Login
        } else if has_authorization {
            AuthRoute::Authorized
        } else {
            AuthRoute::Anonymous
        }
    }
}

/// The client's web application.
pub struct App {}

/// The server's web application.
pub struct Application {}

} // verus!
