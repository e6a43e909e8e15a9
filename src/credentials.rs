//! The credential set and the form sent to the identity endpoint.
use vstd::prelude::*;

verus! {

/// The identity endpoint that trades credentials for a token.
pub const TOKEN_ENDPOINT: &'static str = "https://login.windows.net/common/oauth2/token";

/// The value stored under `name`; a later pair replaces an earlier one.
pub open spec fn secret_lookup(secrets: Seq<(String, String)>, name: Seq<char>) -> Option<String>
    decreases secrets.len(),
{
    if secrets.len() == 0 {
        None
    } else if secrets.last().0@ == name {
        Some(secrets.last().1)
    } else {
        secret_lookup(secrets.drop_last(), name)
    }
}

/// The form fields of the password grant, in the order they are sent.
pub open spec fn form_field_names() -> Seq<Seq<char>> {
    seq!["client_id"@, "grant_type"@, "resource"@, "username"@, "password"@]
}

/// Looks up the secret named `name`.
pub fn lookup_secret(secrets: &Vec<(String, String)>, name: &str) -> (r: Option<String>)
    ensures
        r == secret_lookup(secrets@, name@),
{
    let key = String::from_str(name);
    let mut i: usize = secrets.len();
    assert(secrets@.take(i as int) =~= secrets@);
    while i > 0
        invariant
            i <= secrets.len(),
            key@ == name@,
            secret_lookup(secrets@, name@) == secret_lookup(secrets@.take(i as int), name@),
        decreases i,
    {
        let ghost head = secrets@.take(i as int);
        assert(head.drop_last() =~= secrets@.take(i as int - 1));
        if secrets[i - 1].0 == key {
            return Some(secrets[i - 1].1.clone());
        }
        i = i - 1;
    }
    assert(secrets@.take(0) =~= Seq::<(String, String)>::empty());
    None
}

/// The form of the password grant: each field name with the secret of that
/// name, or with nothing where the credential set lacks it.
pub fn acquisition_form(secrets: &Vec<(String, String)>) -> (r: Vec<(String, Option<String>)>)
    ensures
        r@.len() == form_field_names().len(),
        forall|i: int|
            0 <= i < r@.len() ==> (#[trigger] r@[i]).0@ == form_field_names()[i] && r@[i].1 == secret_lookup(
                secrets@,
                form_field_names()[i],
            ),
{
    let names: [&str; 5] = ["client_id", "grant_type", "resource", "username", "password"];
    let mut r: Vec<(String, Option<String>)> = Vec::new();
    let mut i: usize = 0;
    while i < 5
        invariant
            i <= 5,
            names@ == seq!["client_id", "grant_type", "resource", "username", "password"],
            r@.len() == i,
            forall|j: int|
                0 <= j < i ==> (#[trigger] r@[j]).0@ == form_field_names()[j] && r@[j].1 == secret_lookup(
                    secrets@,
                    form_field_names()[j],
                ),
        decreases 5 - i,
    {
        let name = names[i];
        r.push((String::from_str(name), lookup_secret(secrets, name)));
        i = i + 1;
    }
    r
}

} // verus!
