//! Connection credentials, built from startup parameters.
use vstd::prelude::*;

use crate::decode::{lookup_pair, lookup_value};

verus! {

/// The credentials used to reach the relational source.
#[derive(Debug)]
pub struct PostgresCredentials {
    pub host: String,
    pub username: String,
    pub password: String,
    pub database: String,
    pub pass_required: bool,
}

/// The mathematical shape of the credentials.
#[verifier::ext_equal]
pub struct CredModel {
    pub host: Seq<char>,
    pub username: Seq<char>,
    pub password: Seq<char>,
    pub database: Seq<char>,
    pub pass_required: bool,
}

impl View for PostgresCredentials {
    type V = CredModel;

    open spec fn view(&self) -> CredModel {
        CredModel {
            host: self.host@,
            username: self.username@,
            password: self.password@,
            database: self.database@,
            pass_required: self.pass_required,
        }
    }
}

/// The value bound to a startup key, or the empty string; the binding
/// made last wins, as a map filled front to back would have it.
pub open spec fn param_value(params: Seq<(Seq<char>, Seq<char>)>, key: Seq<char>) -> Seq<char> {
    match lookup_pair(params, key) {
        Some(v) => v,
        None => Seq::<char>::empty(),
    }
}

/// Look a key up among the startup parameters, empty when absent.
fn param_get(params: &Vec<(String, String)>, key: &str) -> (r: String)
    ensures
        r@ == param_value(params@.map_values(|p: (String, String)| (p.0@, p.1@)), key@),
{
    match lookup_value(params, key) {
        Some(v) => v,
        None => String::new(),
    }
}

impl PostgresCredentials {
    /// Build credentials from the startup parameters: keys `url`,
    /// `user`, `pass` and `db` fill the fields, empty when absent, and
    /// `np` set to exactly `y` waives the password.
    pub fn create_from_params(params: &Vec<(String, String)>) -> (r: PostgresCredentials)
        ensures
            ({
                let m = params@.map_values(|p: (String, String)| (p.0@, p.1@));
                &&& r@.host == param_value(m, "url"@)
                &&& r@.username == param_value(m, "user"@)
                &&& r@.password == param_value(m, "pass"@)
                &&& r@.database == param_value(m, "db"@)
                &&& r@.pass_required == (param_value(m, "np"@) != "y"@)
            }),
    {
        let host = param_get(params, "url");
        let username = param_get(params, "user");
        let password = param_get(params, "pass");
        let database = param_get(params, "db");
        let nopass = param_get(params, "np");
        let pass_required = !crate::text::str_eq(nopass.as_str(), "y");
        PostgresCredentials { host, username, password, database, pass_required }
    }
}

} // verus!
