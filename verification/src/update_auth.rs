use vstd::prelude::*;

use crate::text::{trim, trimmed};
use crate::{Auth, AuthView};

verus! {

/// The session cookies that were typed in, each without the white space
/// around it.
pub fn auth_from_input(
    simple_saml_auth_token: &str,
    simple_saml_session_id: &str,
    sse_name: &str,
    sse_value: &str,
) -> (a: Auth)
    ensures
        a@ == (AuthView {
            simple_saml_auth_token: trim(simple_saml_auth_token@),
            simple_saml_session_id: trim(simple_saml_session_id@),
            sse_pair: (trim(sse_name@), trim(sse_value@)),
        }),
{
    Auth {
        simple_saml_auth_token: trimmed(simple_saml_auth_token),
        simple_saml_session_id: trimmed(simple_saml_session_id),
        sse_pair: (trimmed(sse_name), trimmed(sse_value)),
    }
}

} // verus!
