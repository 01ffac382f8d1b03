//! The plain data shapes of the portal's login flow: credentials and the
//! bodies of the two posts the flow sends.  Sending them, and scraping the
//! login page they answer, is an external concern.

use vstd::prelude::*;
use vstd::string::StringExecFns;

verus! {

/// A user's credentials: institute id, username and password.
#[derive(Clone, Debug)]
pub struct Credentials {
    inst_id: String,
    username: String,
    passwd: String,
}

impl Credentials {
    pub fn new(inst_id: String, username: String, passwd: String) -> (r: Credentials)
        ensures
            r.spec_inst_id() == inst_id@,
            r.spec_username() == username@,
            r.spec_passwd() == passwd@,
    {
        Credentials { inst_id, username, passwd }
    }

    pub closed spec fn spec_inst_id(&self) -> Seq<char> {
        self.inst_id@
    }

    pub closed spec fn spec_username(&self) -> Seq<char> {
        self.username@
    }

    pub closed spec fn spec_passwd(&self) -> Seq<char> {
        self.passwd@
    }

    pub fn inst_id(&self) -> (r: &str)
        ensures
            r@ == self.spec_inst_id(),
    {
        self.inst_id.as_str()
    }

    pub fn username(&self) -> (r: &str)
        ensures
            r@ == self.spec_username(),
    {
        self.username.as_str()
    }

    pub fn passwd(&self) -> (r: &str)
        ensures
            r@ == self.spec_passwd(),
    {
        self.passwd.as_str()
    }
}

/// What a successfully parsed login page gives the flow: the code verifier
/// chosen before the request, the return url and the verification token read
/// out of the page.
#[derive(Clone, Debug)]
pub struct BeginData {
    pub verifier: String,
    pub return_url: String,
    pub verification_token: String,
}

/// The body of the credentials post.
#[derive(Clone, Debug)]
pub struct LoginBody {
    pub return_url: String,
    pub request_verification_token: String,
    pub username: String,
    pub passwd: String,
    pub inst_code: String,
    /// Always "InstituteLogin".
    pub login_type: String,
    pub client_id: String,
    /// Either "True" or "False".
    pub is_temporary_login: String,
}

impl LoginBody {
    /// Builds the body from each field spelled out.
    pub fn new_explicit(
        return_url: String,
        request_verification_token: String,
        username: String,
        passwd: String,
        inst_code: String,
        client_id: String,
        is_temporary_login: bool,
    ) -> (r: LoginBody)
        ensures
            r.return_url@ == return_url@,
            r.request_verification_token@ == request_verification_token@,
            r.username@ == username@,
            r.passwd@ == passwd@,
            r.inst_code@ == inst_code@,
            r.client_id@ == client_id@,
            r.login_type@ == "InstituteLogin"@,
            is_temporary_login ==> r.is_temporary_login@ == "True"@,
            !is_temporary_login ==> r.is_temporary_login@ == "False"@,
    {
        let is_temporary_login = if is_temporary_login {
            String::from_str("True")
        } else {
            String::from_str("False")
        };
        let login_type = String::from_str("InstituteLogin");
        LoginBody {
            return_url,
            request_verification_token,
            username,
            passwd,
            inst_code,
            login_type,
            client_id,
            is_temporary_login,
        }
    }

    /// Builds the body from a set of credentials.
    pub fn new(
        return_url: String,
        request_verification_token: String,
        credentials: &Credentials,
        client_id: String,
        is_temporary_login: bool,
    ) -> (r: LoginBody)
        ensures
            r.return_url@ == return_url@,
            r.request_verification_token@ == request_verification_token@,
            r.username@ == credentials.spec_username(),
            r.passwd@ == credentials.spec_passwd(),
            r.inst_code@ == credentials.spec_inst_id(),
            r.client_id@ == client_id@,
            r.login_type@ == "InstituteLogin"@,
            is_temporary_login ==> r.is_temporary_login@ == "True"@,
            !is_temporary_login ==> r.is_temporary_login@ == "False"@,
    {
        let username = String::from_str(credentials.username());
        let passwd = String::from_str(credentials.passwd());
        let inst_code = String::from_str(credentials.inst_id());
        LoginBody::new_explicit(
            return_url,
            request_verification_token,
            username,
            passwd,
            inst_code,
            client_id,
            is_temporary_login,
        )
    }
}

/// The body of the token request post.
#[derive(Clone, Debug)]
pub struct ConnectTokenBody {
    pub code: String,
    pub grant_type: String,
    pub redirect_uri: String,
    pub code_verifier: String,
    pub client_id: String,
}

impl ConnectTokenBody {
    pub fn new_explicit(
        code: String,
        grant_type: String,
        redirect_uri: String,
        code_verifier: String,
        client_id: String,
    ) -> (r: ConnectTokenBody)
        ensures
            r.code@ == code@,
            r.grant_type@ == grant_type@,
            r.redirect_uri@ == redirect_uri@,
            r.code_verifier@ == code_verifier@,
            r.client_id@ == client_id@,
    {
        ConnectTokenBody { code, grant_type, redirect_uri, code_verifier, client_id }
    }
}

/// What the token endpoint answers with.
#[derive(Clone, Debug)]
pub struct Tokens {
    pub id_token: String,
    pub access_token: String,
    pub expires_in: i32,
    pub token_type: String,
    pub refresh_token: String,
    pub scope: String,
}

/// The same answer shape as the wire carries it.
#[derive(Clone, Debug)]
pub struct TokensRaw {
    pub id_token: String,
    pub access_token: String,
    pub expires_in: i32,
    pub token_type: String,
    pub refresh_token: String,
    pub scope: String,
}

/// The body of the token refresh post.
#[derive(Clone, Debug)]
pub struct RefreshTokenBody {
    pub institute_code: String,
    pub refresh_token: String,
    pub grant_type: String,
    pub client_id: String,
}

} // verus!
