//! Configuration for the database dependency: the connection parameters and
//! the exact connection string they determine. The connection itself is an
//! external collaborator; only its inputs are built here.

use crate::text::push_char;
use vstd::prelude::*;

verus! {

/// The character for one decimal digit.
pub open spec fn spec_digit_char(d: nat) -> char {
    if d == 0 {
        '0'
    } else if d == 1 {
        '1'
    } else if d == 2 {
        '2'
    } else if d == 3 {
        '3'
    } else if d == 4 {
        '4'
    } else if d == 5 {
        '5'
    } else if d == 6 {
        '6'
    } else if d == 7 {
        '7'
    } else if d == 8 {
        '8'
    } else {
        '9'
    }
}

/// The decimal rendering of a number, most significant digit first, with no
/// leading zero except for zero itself.
pub open spec fn spec_decimal(n: nat) -> Seq<char>
    decreases n,
{
    if n < 10 {
        seq![spec_digit_char(n)]
    } else {
        spec_decimal(n / 10).push(spec_digit_char(n % 10))
    }
}

fn digit_char(d: u16) -> (c: char)
    requires
        d < 10,
    ensures
        c == spec_digit_char(d as nat),
{
    if d == 0 {
        '0'
    } else if d == 1 {
        '1'
    } else if d == 2 {
        '2'
    } else if d == 3 {
        '3'
    } else if d == 4 {
        '4'
    } else if d == 5 {
        '5'
    } else if d == 6 {
        '6'
    } else if d == 7 {
        '7'
    } else if d == 8 {
        '8'
    } else {
        '9'
    }
}

/// Appends the decimal rendering of a port number.
fn append_decimal(out: &mut String, n: u16)
    ensures
        final(out)@ == old(out)@ + spec_decimal(n as nat),
    decreases n,
{
    if n >= 10 {
        append_decimal(out, n / 10);
    }
    let d = n % 10;
    push_char(out, digit_char(d));
    proof {
        if n < 10 {
            assert(old(out)@.push(spec_digit_char(n as nat)) =~= old(out)@ + seq![
                spec_digit_char(n as nat),
            ]);
        } else {
            assert((old(out)@ + spec_decimal(n as nat / 10)).push(
                spec_digit_char(n as nat % 10),
            ) =~= old(out)@ + spec_decimal(n as nat / 10).push(spec_digit_char(n as nat % 10)));
        }
    }
}

/// The mathematical value of a `DatabaseConfig`.
pub ghost struct DatabaseConfigView {
    pub host: Seq<char>,
    pub port: u16,
    pub name: Seq<char>,
    pub user: Seq<char>,
    pub password: Seq<char>,
    pub db_pool_threads: u32,
}

/// The connection string a configuration determines.
pub open spec fn spec_connection_string(c: DatabaseConfigView) -> Seq<char> {
    "postgres://"@ + c.user + ":"@ + c.password + "@"@ + c.host + ":"@ + spec_decimal(
        c.port as nat,
    ) + "/"@ + c.name
}

/// Connection parameters for the database dependency, supplied by the caller,
/// never read from ambient state.
#[derive(Clone, Debug)]
pub struct DatabaseConfig {
    host: String,
    port: u16,
    name: String,
    user: String,
    password: String,
    db_pool_threads: u32,
}

impl View for DatabaseConfig {
    type V = DatabaseConfigView;

    closed spec fn view(&self) -> DatabaseConfigView {
        DatabaseConfigView {
            host: self.host@,
            port: self.port,
            name: self.name@,
            user: self.user@,
            password: self.password@,
            db_pool_threads: self.db_pool_threads,
        }
    }
}

impl DatabaseConfig {
    pub fn new(
        host: String,
        port: u16,
        name: String,
        user: String,
        password: String,
        db_pool_threads: u32,
    ) -> (r: Self)
        ensures
            r@.host == host@,
            r@.port == port,
            r@.name == name@,
            r@.user == user@,
            r@.password == password@,
            r@.db_pool_threads == db_pool_threads,
    {
        DatabaseConfig { host, port, name, user, password, db_pool_threads }
    }

    /// The exact connection string for these parameters:
    /// `postgres://<user>:<password>@<host>:<port>/<name>`.
    pub fn connection_string(&self) -> (r: String)
        ensures
            r@ == spec_connection_string(self@),
    {
        let mut out = String::from_str("postgres://");
        out.append(self.user.as_str());
        out.append(":");
        out.append(self.password.as_str());
        out.append("@");
        out.append(self.host.as_str());
        out.append(":");
        append_decimal(&mut out, self.port);
        out.append("/");
        out.append(self.name.as_str());
        out
    }

    pub fn db_pool_threads(&self) -> (r: u32)
        ensures
            r == self@.db_pool_threads,
    {
        self.db_pool_threads
    }
}

/// Raised when the database store cannot be set up at all; carries the
/// underlying message.
#[derive(Clone, Debug)]
pub struct PostgresStoreError {
    message: String,
}

impl View for PostgresStoreError {
    type V = Seq<char>;

    closed spec fn view(&self) -> Seq<char> {
        self.message@
    }
}

impl PostgresStoreError {
    pub fn new(message: String) -> (r: Self)
        ensures
            r@ == message@,
    {
        PostgresStoreError { message }
    }

    pub fn message(&self) -> (r: &String)
        ensures
            r@ == self@,
    {
        &self.message
    }
}

} // verus!
