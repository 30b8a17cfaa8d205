//! Build identity: the (environment, build, commit) triple that names the
//! running artifact, and the contract for resolving it.

use crate::text::{chars_of, string_of_chars};
use vstd::prelude::*;

verus! {

/// The deployment environment tag, an opaque text token.
#[derive(Clone, Debug, PartialEq)]
pub struct Environment(String);

impl View for Environment {
    type V = Seq<char>;

    closed spec fn view(&self) -> Seq<char> {
        self.0@
    }
}

impl Environment {
    pub fn new(value: String) -> (r: Self)
        ensures
            r@ == value@,
    {
        Environment(value)
    }

    pub fn as_str(&self) -> (r: &str)
        ensures
            r@ == self@,
    {
        self.0.as_str()
    }
}

/// The build label, an opaque text token.
#[derive(Clone, Debug, PartialEq)]
pub struct Build(String);

impl View for Build {
    type V = Seq<char>;

    closed spec fn view(&self) -> Seq<char> {
        self.0@
    }
}

impl Build {
    pub fn new(value: String) -> (r: Self)
        ensures
            r@ == value@,
    {
        Build(value)
    }

    pub fn as_str(&self) -> (r: &str)
        ensures
            r@ == self@,
    {
        self.0.as_str()
    }
}

/// The commit reference, an opaque text token.
#[derive(Clone, Debug, PartialEq)]
pub struct Commit(String);

impl View for Commit {
    type V = Seq<char>;

    closed spec fn view(&self) -> Seq<char> {
        self.0@
    }
}

impl Commit {
    pub fn new(value: String) -> (r: Self)
        ensures
            r@ == value@,
    {
        Commit(value)
    }

    pub fn as_str(&self) -> (r: &str)
        ensures
            r@ == self@,
    {
        self.0.as_str()
    }
}

/// The mathematical value of a `Version`: its three tokens as character
/// sequences.
#[verifier::ext_equal]
pub ghost struct VersionView {
    pub env: Seq<char>,
    pub build: Seq<char>,
    pub commit: Seq<char>,
}

/// The resolved identity of the running artifact. Immutable once constructed.
#[derive(Clone, Debug, PartialEq)]
pub struct Version {
    env: Environment,
    build: Build,
    commit: Commit,
}

impl View for Version {
    type V = VersionView;

    closed spec fn view(&self) -> VersionView {
        VersionView { env: self.env@, build: self.build@, commit: self.commit@ }
    }
}

impl Version {
    pub fn new(env: Environment, build: Build, commit: Commit) -> (r: Self)
        ensures
            r@.env == env@,
            r@.build == build@,
            r@.commit == commit@,
    {
        Version { env, build, commit }
    }

    pub fn env(&self) -> (r: &Environment)
        ensures
            r@ == self@.env,
    {
        &self.env
    }

    pub fn build(&self) -> (r: &Build)
        ensures
            r@ == self@.build,
    {
        &self.build
    }

    pub fn commit(&self) -> (r: &Commit)
        ensures
            r@ == self@.commit,
    {
        &self.commit
    }
}

/// Raised when the identity of the running artifact cannot be resolved:
/// the backing record is missing, unreadable or malformed. Fatal to the
/// whole aggregation attempt.
#[derive(Clone, Debug)]
pub struct VersionLoadError {
    message: String,
}

impl View for VersionLoadError {
    type V = Seq<char>;

    closed spec fn view(&self) -> Seq<char> {
        self.message@
    }
}

impl VersionLoadError {
    pub fn new(message: String) -> (r: Self)
        ensures
            r@ == message@,
    {
        VersionLoadError { message }
    }

    pub fn message(&self) -> (r: &String)
        ensures
            r@ == self@,
    {
        &self.message
    }
}

/// A source for the running build's identity. Resolution may fail; a failure
/// is terminal for the aggregation attempt that asked for it.
pub trait Versioned {
    fn version(&self) -> Result<Version, VersionLoadError>;
}

/// The position of the first line break, or the length when there is none.
pub open spec fn spec_find_newline(s: Seq<char>) -> int
    decreases s.len(),
{
    if s.len() == 0 {
        0
    } else if s[0] == '\n' {
        0
    } else {
        1 + spec_find_newline(s.drop_first())
    }
}

/// The first line of a text record: everything before the first line break,
/// with a carriage return stripped when the break is a full `\r\n` ending.
pub open spec fn spec_first_line(s: Seq<char>) -> Seq<char> {
    let k = spec_find_newline(s);
    let raw = s.take(k);
    if k < s.len() && raw.len() > 0 && raw.last() == '\r' {
        raw.drop_last()
    } else {
        raw
    }
}

/// What follows the first line break; empty when there is no break.
pub open spec fn spec_after_first_line(s: Seq<char>) -> Seq<char> {
    let k = spec_find_newline(s);
    if k < s.len() {
        s.skip(k + 1)
    } else {
        Seq::empty()
    }
}

proof fn lemma_find_newline(s: Seq<char>)
    ensures
        0 <= spec_find_newline(s) <= s.len(),
        spec_find_newline(s) < s.len() ==> s[spec_find_newline(s)] == '\n',
        forall|j: int| 0 <= j < spec_find_newline(s) ==> s[j] != '\n',
    decreases s.len(),
{
    if s.len() > 0 && s[0] != '\n' {
        lemma_find_newline(s.drop_first());
        let k = spec_find_newline(s);
        assert forall|j: int| 0 <= j < k implies s[j] != '\n' by {
            if j > 0 {
                assert(s.drop_first()[j - 1] != '\n');
            }
        }
        if k < s.len() {
            assert(s.drop_first()[k - 1] == '\n');
        }
    }
}

fn find_newline(s: &[char]) -> (k: usize)
    ensures
        k == spec_find_newline(s@),
{
    proof {
        lemma_find_newline(s@);
    }
    let n = s.len();
    let mut i: usize = 0;
    while i < n && s[i] != '\n'
        invariant
            n == s@.len(),
            0 <= i <= n,
            forall|j: int| 0 <= j < i ==> s@[j] != '\n',
        decreases n - i,
    {
        i = i + 1;
    }
    proof {
        let k = spec_find_newline(s@);
        if i < n {
            // s[i] is the break and nothing earlier is: the spec agrees
            if k < i {
                assert(s@[k] != '\n');
            }
            if k > i {
                assert(s@[i as int] != '\n');
            }
        } else {
            if k < i {
                assert(s@[k] != '\n');
            }
        }
    }
    i
}

/// The first line of a character slice, as `str::lines` would yield it.
fn first_line_of(s: &[char]) -> (r: String)
    ensures
        r@ == spec_first_line(s@),
{
    proof {
        lemma_find_newline(s@);
    }
    let k = find_newline(s);
    let end: usize = if k < s.len() && k > 0 && s[k - 1] == '\r' {
        k - 1
    } else {
        k
    };
    proof {
        assert(s@.take(k as int) =~= s@.subrange(0, k as int));
        if end < k {
            assert(s@.take(k as int).drop_last() =~= s@.subrange(0, k as int - 1));
            assert(s@.take(k as int).last() == s@[k as int - 1]);
        }
    }
    string_of_chars(&s[0..end])
}

/// Reads a build identity out of a two-line text record: line one is the
/// build label, line two the commit reference; the environment tag comes from
/// the caller, not from the record. A record without a first or a second line
/// is malformed and yields a `VersionLoadError` naming the missing line.
pub fn parse_version(env: Environment, content: &str) -> (r: Result<Version, VersionLoadError>)
    ensures
        match r {
            Ok(version) => {
                &&& content@.len() > 0
                &&& spec_after_first_line(content@).len() > 0
                &&& version@.env == env@
                &&& version@.build == spec_first_line(content@)
                &&& version@.commit == spec_first_line(spec_after_first_line(content@))
            },
            Err(e) => {
                ||| (content@.len() == 0 && e@
                    == "No build number specified in 'rustic.version'"@)
                ||| (content@.len() > 0 && spec_after_first_line(content@).len() == 0 && e@
                    == "No commit hash specified in 'rustic.version'"@)
            },
        },
{
    let cs = chars_of(content);
    let s = cs.as_slice();
    if s.len() == 0 {
        return Err(
            VersionLoadError::new(
                String::from_str("No build number specified in 'rustic.version'"),
            ),
        );
    }
    proof {
        lemma_find_newline(s@);
    }
    let build = first_line_of(s);
    let k = find_newline(s);
    if k >= s.len() || k + 1 >= s.len() {
        proof {
            if spec_find_newline(s@) < s@.len() {
                assert(s@.skip(spec_find_newline(s@) + 1).len() == 0);
            }
        }
        return Err(
            VersionLoadError::new(
                String::from_str("No commit hash specified in 'rustic.version'"),
            ),
        );
    }
    let rest = &s[k + 1..s.len()];
    proof {
        assert(rest@ =~= s@.skip(spec_find_newline(s@) + 1));
    }
    let commit = first_line_of(rest);
    Ok(Version::new(env, Build::new(build), Commit::new(commit)))
}

} // verus!
