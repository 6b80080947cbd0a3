//! Choosing the one credential an operation is sent with.
use vstd::prelude::*;
use crate::command_tree::{Operation, SecurityRequirement};
use crate::error::{CredentialSlot, EngineError};
use crate::text::str_eq;

verus! {

/// The credential attached to a request.
#[derive(Clone, Debug, PartialEq)]
pub enum Auth {
    Bearer(String),
    Basic { username: String, password: String },
}

/// The credentials configured for one invocation; each slot is optional.
#[derive(Clone, Debug, PartialEq)]
pub struct Credentials {
    pub access_token: Option<String>,
    pub client_id: Option<String>,
    pub client_secret: Option<String>,
    pub conversion_token: Option<String>,
}

/// Some requirement of `security` names scheme `scheme`.
pub open spec fn names_scheme(security: Seq<SecurityRequirement>, scheme: Seq<char>) -> bool {
    exists|i: int, j: int|
        0 <= i < security.len() && 0 <= j < security[i]@.len() && #[trigger] security[i]@[j].0@ == scheme
}

/// What credential selection gives, as character sequences: `Ok` carries
/// the bearer token, or the client id and secret.
pub enum AuthChoice {
    Bearer(Seq<char>),
    Basic(Seq<char>, Seq<char>),
}

/// The view of a selected credential.
pub open spec fn auth_view(a: Auth) -> AuthChoice {
    match a {
        Auth::Bearer(t) => AuthChoice::Bearer(t@),
        Auth::Basic { username, password } => AuthChoice::Basic(username@, password@),
    }
}

/// The selection policy: basic when any requirement names `basic`; else the
/// conversion token when any requirement names `conversion_token` and one is
/// configured; else the access token.
pub open spec fn auth_policy(security: Seq<SecurityRequirement>, c: Credentials) -> Result<AuthChoice, CredentialSlot> {
    if names_scheme(security, "basic"@) {
        match (c.client_id, c.client_secret) {
            (Some(id), Some(secret)) => Ok(AuthChoice::Basic(id@, secret@)),
            (None, _) => Err(CredentialSlot::ClientId),
            (Some(_), None) => Err(CredentialSlot::ClientSecret),
        }
    } else if names_scheme(security, "conversion_token"@) && c.conversion_token is Some {
        Ok(AuthChoice::Bearer(c.conversion_token->0@))
    } else {
        match c.access_token {
            Some(t) => Ok(AuthChoice::Bearer(t@)),
            None => Err(CredentialSlot::AccessToken),
        }
    }
}

/// Whether some requirement names scheme `scheme`.
pub fn requires_scheme(security: &Vec<SecurityRequirement>, scheme: &str) -> (r: bool)
    ensures
        r == names_scheme(security@, scheme@),
{
    let mut i: usize = 0;
    while i < security.len()
        invariant
            i <= security.len(),
            forall|a: int, b: int|
                0 <= a < i && 0 <= b < security@[a]@.len() ==> security@[a]@[b].0@ != scheme@,
        decreases security.len() - i,
    {
        let req = &security[i];
        let mut j: usize = 0;
        while j < req.len()
            invariant
                i < security.len(),
                req == security@[i as int],
                j <= req.len(),
                forall|a: int, b: int|
                    0 <= a < i && 0 <= b < security@[a]@.len() ==> security@[a]@[b].0@ != scheme@,
                forall|b: int| 0 <= b < j ==> req@[b].0@ != scheme@,
            decreases req.len() - j,
        {
            if str_eq(req[j].0.as_str(), scheme) {
                assert(security@[i as int]@[j as int].0@ == scheme@);
                return true;
            }
            j = j + 1;
        }
        i = i + 1;
    }
    false
}

/// Picks the credential for an operation by the fixed priority of `auth_policy`.
pub fn select_auth(op: &Operation, creds: &Credentials) -> (r: Result<Auth, EngineError>)
    ensures
        match auth_policy(op.security@, *creds) {
            Ok(a) => r matches Ok(x) && auth_view(x) == a,
            Err(slot) => r matches Err(EngineError::MissingCredential(s)) && s == slot,
        },
{
    if requires_scheme(&op.security, "basic") {
        let username = match &creds.client_id {
            Some(v) => v.clone(),
            None => return Err(EngineError::MissingCredential(CredentialSlot::ClientId)),
        };
        let password = match &creds.client_secret {
            Some(v) => v.clone(),
            None => return Err(EngineError::MissingCredential(CredentialSlot::ClientSecret)),
        };
        return Ok(Auth::Basic { username, password });
    }
    if requires_scheme(&op.security, "conversion_token") {
        if let Some(token) = &creds.conversion_token {
            return Ok(Auth::Bearer(token.clone()));
        }
    }
    match &creds.access_token {
        Some(t) => Ok(Auth::Bearer(t.clone())),
        None => Err(EngineError::MissingCredential(CredentialSlot::AccessToken)),
    }
}

/// A basic-scheme requirement selects the client id and secret.
pub proof fn lemma_basic_wins(security: Seq<SecurityRequirement>, c: Credentials)
    requires
        names_scheme(security, "basic"@),
        c.client_id is Some,
        c.client_secret is Some,
    ensures
        auth_policy(security, c) == Ok::<AuthChoice, CredentialSlot>(AuthChoice::Basic(c.client_id->0@, c.client_secret->0@)),
{
}

/// The selection depends on which requirements are declared, not on their
/// order: two lists with the same requirements select the same credential.
pub proof fn lemma_policy_ignores_order(s1: Seq<SecurityRequirement>, s2: Seq<SecurityRequirement>, c: Credentials)
    requires
        s1.to_set() == s2.to_set(),
    ensures
        auth_policy(s1, c) == auth_policy(s2, c),
{
    lemma_names_scheme_by_set(s1, s2, "basic"@);
    lemma_names_scheme_by_set(s2, s1, "basic"@);
    lemma_names_scheme_by_set(s1, s2, "conversion_token"@);
    lemma_names_scheme_by_set(s2, s1, "conversion_token"@);
}

proof fn lemma_names_scheme_by_set(s1: Seq<SecurityRequirement>, s2: Seq<SecurityRequirement>, scheme: Seq<char>)
    requires
        s1.to_set() == s2.to_set(),
    ensures
        names_scheme(s1, scheme) ==> names_scheme(s2, scheme),
{
    if names_scheme(s1, scheme) {
        let (i, j) = choose|i: int, j: int|
            0 <= i < s1.len() && 0 <= j < s1[i]@.len() && #[trigger] s1[i]@[j].0@ == scheme;
        assert(s1.to_set().contains(s1[i]));
        assert(s2.to_set().contains(s1[i]));
        let k = choose|k: int| 0 <= k < s2.len() && s2[k] == s1[i];
        assert(s2[k]@[j].0@ == scheme);
    }
}

/// A conversion-token requirement without a configured conversion token
/// falls back to the access token.
pub proof fn lemma_conversion_falls_back(security: Seq<SecurityRequirement>, c: Credentials)
    requires
        !names_scheme(security, "basic"@),
        c.conversion_token is None,
        c.access_token is Some,
    ensures
        auth_policy(security, c) == Ok::<AuthChoice, CredentialSlot>(AuthChoice::Bearer(c.access_token->0@)),
{
}

/// The credential for a raw request, by the scheme the caller names:
/// `basic` takes the client id and secret, `conversion` the conversion
/// token, anything else the access token; a missing slot is an error.
pub fn raw_auth(scheme: &str, creds: &Credentials) -> (r: Result<Auth, EngineError>)
    ensures
        scheme@ == "basic"@ ==> match (creds.client_id, creds.client_secret) {
            (Some(id), Some(secret)) => r matches Ok(x) && auth_view(x) == AuthChoice::Basic(id@, secret@),
            (None, _) => r matches Err(EngineError::MissingCredential(CredentialSlot::ClientId)),
            (Some(_), None) => r matches Err(EngineError::MissingCredential(CredentialSlot::ClientSecret)),
        },
        scheme@ == "conversion"@ ==> match creds.conversion_token {
            Some(t) => r matches Ok(x) && auth_view(x) == AuthChoice::Bearer(t@),
            None => r matches Err(EngineError::MissingCredential(CredentialSlot::ConversionToken)),
        },
        scheme@ != "basic"@ && scheme@ != "conversion"@ ==> match creds.access_token {
            Some(t) => r matches Ok(x) && auth_view(x) == AuthChoice::Bearer(t@),
            None => r matches Err(EngineError::MissingCredential(CredentialSlot::AccessToken)),
        },
{
    proof {
        reveal_strlit("basic");
        reveal_strlit("conversion");
        assert("basic"@.len() != "conversion"@.len());
    }
    if str_eq(scheme, "basic") {
        let username = match &creds.client_id {
            Some(v) => v.clone(),
            None => return Err(EngineError::MissingCredential(CredentialSlot::ClientId)),
        };
        let password = match &creds.client_secret {
            Some(v) => v.clone(),
            None => return Err(EngineError::MissingCredential(CredentialSlot::ClientSecret)),
        };
        return Ok(Auth::Basic { username, password });
    }
    if str_eq(scheme, "conversion") {
        return match &creds.conversion_token {
            Some(t) => Ok(Auth::Bearer(t.clone())),
            None => Err(EngineError::MissingCredential(CredentialSlot::ConversionToken)),
        };
    }
    match &creds.access_token {
        Some(t) => Ok(Auth::Bearer(t.clone())),
        None => Err(EngineError::MissingCredential(CredentialSlot::AccessToken)),
    }
}

} // verus!
