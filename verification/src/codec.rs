//! The status codec: the stable wire contract for a `ServiceStatus`.
//!
//! The wire document is a flat JSON-like object: the three identity fields as
//! top-level siblings, the overall status as an `"Ok"`/`"Degraded"` token,
//! and each dependency outcome as a single-key object whose key is the
//! dependency's canonical lowercase name. Encoding and decoding are a
//! hand-written symmetric pair: the wire shape deliberately does not mirror
//! the in-memory structs, so no derived mapping would fit.

use crate::health_check::service_status::{
    overall_status, Dependency, DependencyStatus, ServiceStatus, ServiceStatusView, Status,
};
use crate::health_check::version::{Build, Commit, Environment, Version, VersionView};
use crate::text::{chars_of, push_char, string_of_chars};
use vstd::prelude::*;

verus! {

// ---------------------------------------------------------------------------
// Spec model: tokens and escaping
// ---------------------------------------------------------------------------

/// The wire token for a status value.
pub open spec fn spec_status_token(status: Status) -> Seq<char> {
    match status {
        Status::Healthy => "Ok"@,
        Status::Degraded => "Degraded"@,
    }
}

/// The codec's name table: the canonical lowercase wire token for each known
/// dependency kind.
pub open spec fn spec_dependency_token(dependency: Dependency) -> Seq<char> {
    match dependency {
        Dependency::Auth0 => "auth0"@,
        Dependency::Database => "database"@,
        Dependency::Snitch => "snitch"@,
    }
}

/// The inverse of the status token table.
pub open spec fn spec_status_of_token(token: Seq<char>) -> Option<Status> {
    if token == "Ok"@ {
        Some(Status::Healthy)
    } else if token == "Degraded"@ {
        Some(Status::Degraded)
    } else {
        None
    }
}

/// The inverse of the dependency name table.
pub open spec fn spec_dependency_of_token(token: Seq<char>) -> Option<Dependency> {
    if token == "auth0"@ {
        Some(Dependency::Auth0)
    } else if token == "database"@ {
        Some(Dependency::Database)
    } else if token == "snitch"@ {
        Some(Dependency::Snitch)
    } else {
        None
    }
}

/// String escaping on the wire: a quote or a backslash inside a text token is
/// preceded by a backslash; every other character stands for itself.
pub open spec fn escape(s: Seq<char>) -> Seq<char>
    decreases s.len(),
{
    if s.len() == 0 {
        Seq::empty()
    } else if s[0] == '"' || s[0] == '\\' {
        seq!['\\', s[0]] + escape(s.drop_first())
    } else {
        seq![s[0]] + escape(s.drop_first())
    }
}

// ---------------------------------------------------------------------------
// Spec model: encoding
// ---------------------------------------------------------------------------

/// One dependency outcome on the wire: a single-key object, the dependency's
/// canonical name against its status token.
pub open spec fn spec_encode_dependency(d: DependencyStatus) -> Seq<char> {
    "{\""@ + spec_dependency_token(d.dependency) + "\":\""@ + spec_status_token(d.status)
        + "\"}"@
}

/// The dependency list on the wire, comma-separated, in sequence order.
pub open spec fn spec_encode_dependencies(deps: Seq<DependencyStatus>) -> Seq<char>
    decreases deps.len(),
{
    if deps.len() == 0 {
        Seq::empty()
    } else if deps.len() == 1 {
        spec_encode_dependency(deps[0])
    } else {
        spec_encode_dependency(deps[0]) + ","@ + spec_encode_dependencies(deps.drop_first())
    }
}

/// Everything before the dependency list: the flattened identity fields and
/// the status token.
pub open spec fn spec_encode_prefix(v: ServiceStatusView) -> Seq<char> {
    "{\"env\":\""@ + escape(v.version.env) + "\",\"build\":\""@ + escape(v.version.build)
        + "\",\"commit\":\""@ + escape(v.version.commit) + "\",\"status\":\""@
        + spec_status_token(v.status) + "\",\"dependencies\":["@
}

/// The canonical wire document for a service status: identity fields
/// flattened to the top level, then the status token, then the dependency
/// list, with no whitespace.
pub open spec fn spec_encode(v: ServiceStatusView) -> Seq<char> {
    spec_encode_prefix(v) + spec_encode_dependencies(v.dependencies) + "]}"@
}

// ---------------------------------------------------------------------------
// Spec model: decoding
// ---------------------------------------------------------------------------

/// The distinct ways a wire document can be rejected.
pub ghost enum DecodeErrorView {
    /// The document does not have the canonical shape at all.
    Malformed,
    /// A status field holds a token outside the status table.
    UnknownStatus(Seq<char>),
    /// A dependency object's key is outside the name table.
    UnknownDependency(Seq<char>),
    /// A dependency object has zero keys or more than one key.
    MalformedDependencyObject,
    /// The document's status token is not the fold of its dependency list,
    /// so it is not the encoding of any well-formed service status.
    InconsistentStatus,
}

/// Whitespace that may separate wire tokens.
pub open spec fn is_ws(c: char) -> bool {
    c == ' ' || c == '\n' || c == '\r' || c == '\t'
}

/// Drops leading whitespace.
pub open spec fn skip_ws(s: Seq<char>) -> Seq<char>
    decreases s.len(),
{
    if s.len() > 0 && is_ws(s[0]) {
        skip_ws(s.drop_first())
    } else {
        s
    }
}

/// Scans a string body just after its opening quote: the unescaped content
/// and the remainder after the closing quote.
pub open spec fn parse_string_body(s: Seq<char>) -> Option<(Seq<char>, Seq<char>)>
    decreases s.len(),
{
    if s.len() == 0 {
        None
    } else if s[0] == '"' {
        Some((Seq::empty(), s.drop_first()))
    } else if s[0] == '\\' {
        if s.len() >= 2 && (s[1] == '"' || s[1] == '\\') {
            match parse_string_body(s.skip(2)) {
                Some((t, r)) => Some((seq![s[1]] + t, r)),
                None => None,
            }
        } else {
            None
        }
    } else {
        match parse_string_body(s.drop_first()) {
            Some((t, r)) => Some((seq![s[0]] + t, r)),
            None => None,
        }
    }
}

/// Parses one quoted string, allowing leading whitespace.
pub open spec fn parse_string(s: Seq<char>) -> Option<(Seq<char>, Seq<char>)> {
    let t = skip_ws(s);
    if t.len() > 0 && t[0] == '"' {
        parse_string_body(t.drop_first())
    } else {
        None
    }
}

/// Consumes one expected punctuation character, allowing leading whitespace.
pub open spec fn expect_char(s: Seq<char>, c: char) -> Option<Seq<char>> {
    let t = skip_ws(s);
    if t.len() > 0 && t[0] == c {
        Some(t.drop_first())
    } else {
        None
    }
}

/// Parses `"<name>" : "<value>"`, requiring the key to be exactly `name`.
pub open spec fn parse_field(s: Seq<char>, name: Seq<char>) -> Option<(Seq<char>, Seq<char>)> {
    match parse_string(s) {
        Some((key, r)) => if key == name {
            match expect_char(r, ':') {
                Some(r2) => parse_string(r2),
                None => None,
            }
        } else {
            None
        },
        None => None,
    }
}

/// Parses one dependency object: exactly one key, which must be a known
/// dependency name, against a known status token.
pub open spec fn parse_entry(s: Seq<char>) -> Result<(DependencyStatus, Seq<char>), DecodeErrorView> {
    match expect_char(s, '{') {
        None => Err(DecodeErrorView::Malformed),
        Some(r) => {
            let t = skip_ws(r);
            if t.len() > 0 && t[0] == '}' {
                // zero keys
                Err(DecodeErrorView::MalformedDependencyObject)
            } else {
                match parse_string(r) {
                    None => Err(DecodeErrorView::Malformed),
                    Some((name, r2)) => match spec_dependency_of_token(name) {
                        None => Err(DecodeErrorView::UnknownDependency(name)),
                        Some(dependency) => match expect_char(r2, ':') {
                            None => Err(DecodeErrorView::Malformed),
                            Some(r3) => match parse_string(r3) {
                                None => Err(DecodeErrorView::Malformed),
                                Some((token, r4)) => match spec_status_of_token(token) {
                                    None => Err(DecodeErrorView::UnknownStatus(token)),
                                    Some(status) => {
                                        let t2 = skip_ws(r4);
                                        if t2.len() > 0 && t2[0] == ',' {
                                            // a second key follows
                                            Err(DecodeErrorView::MalformedDependencyObject)
                                        } else {
                                            match expect_char(r4, '}') {
                                                None => Err(DecodeErrorView::Malformed),
                                                Some(r5) => Ok(
                                                    (
                                                        DependencyStatus { dependency, status },
                                                        r5,
                                                    ),
                                                ),
                                            }
                                        }
                                    },
                                },
                            },
                        },
                    },
                }
            }
        },
    }
}

/// Skipping whitespace never lengthens the input.
pub proof fn lemma_skip_ws_len(s: Seq<char>)
    ensures
        skip_ws(s).len() <= s.len(),
    decreases s.len(),
{
    if s.len() > 0 && is_ws(s[0]) {
        lemma_skip_ws_len(s.drop_first());
    }
}

/// A successful string-body parse consumes at least the closing quote.
pub proof fn lemma_parse_string_body_progress(s: Seq<char>)
    ensures
        parse_string_body(s) matches Some((t, r)) ==> r.len() < s.len(),
    decreases s.len(),
{
    if s.len() == 0 {
    } else if s[0] == '"' {
    } else if s[0] == '\\' {
        if s.len() >= 2 && (s[1] == '"' || s[1] == '\\') {
            lemma_parse_string_body_progress(s.skip(2));
        }
    } else {
        lemma_parse_string_body_progress(s.drop_first());
    }
}

/// A successful string parse consumes at least the two quotes.
pub proof fn lemma_parse_string_progress(s: Seq<char>)
    ensures
        parse_string(s) matches Some((t, r)) ==> r.len() < s.len(),
{
    lemma_skip_ws_len(s);
    let t = skip_ws(s);
    if t.len() > 0 && t[0] == '"' {
        lemma_parse_string_body_progress(t.drop_first());
    }
}

/// Consuming an expected character strictly shortens the input.
pub proof fn lemma_expect_char_progress(s: Seq<char>, c: char)
    ensures
        expect_char(s, c) matches Some(r) ==> r.len() < s.len(),
{
    lemma_skip_ws_len(s);
}

/// A successful dependency-object parse strictly shortens the input.
pub proof fn lemma_parse_entry_progress(s: Seq<char>)
    ensures
        parse_entry(s) matches Ok((d, r)) ==> r.len() < s.len(),
{
    lemma_expect_char_progress(s, '{');
    if let Some(r) = expect_char(s, '{') {
        lemma_parse_string_progress(r);
        if let Some((name, r2)) = parse_string(r) {
            lemma_expect_char_progress(r2, ':');
            if let Some(r3) = expect_char(r2, ':') {
                lemma_parse_string_progress(r3);
                if let Some((token, r4)) = parse_string(r3) {
                    lemma_expect_char_progress(r4, '}');
                }
            }
        }
    }
}

/// Parses the dependency entries that follow a complete entry: either the
/// closing bracket, or a comma and a further entry.
pub open spec fn parse_dependencies_rest(s: Seq<char>) -> Result<
    (Seq<DependencyStatus>, Seq<char>),
    DecodeErrorView,
>
    decreases s.len(),
        via parse_dependencies_rest_decreases
{
    let t = skip_ws(s);
    if t.len() > 0 && t[0] == ']' {
        Ok((Seq::empty(), t.drop_first()))
    } else if t.len() > 0 && t[0] == ',' {
        match parse_entry(t.drop_first()) {
            Err(e) => Err(e),
            Ok((d, r)) => match parse_dependencies_rest(r) {
                Err(e) => Err(e),
                Ok((ds, r2)) => Ok((seq![d] + ds, r2)),
            },
        }
    } else {
        Err(DecodeErrorView::Malformed)
    }
}

#[via_fn]
proof fn parse_dependencies_rest_decreases(s: Seq<char>) {
    lemma_skip_ws_len(s);
    let t = skip_ws(s);
    if t.len() > 0 && t[0] == ',' {
        lemma_parse_entry_progress(t.drop_first());
    }
}

/// Parses the dependency list just after its opening bracket.
pub open spec fn parse_dependencies(s: Seq<char>) -> Result<
    (Seq<DependencyStatus>, Seq<char>),
    DecodeErrorView,
> {
    let t = skip_ws(s);
    if t.len() > 0 && t[0] == ']' {
        Ok((Seq::empty(), t.drop_first()))
    } else {
        match parse_entry(s) {
            Err(e) => Err(e),
            Ok((d, r)) => match parse_dependencies_rest(r) {
                Err(e) => Err(e),
                Ok((ds, r2)) => Ok((seq![d] + ds, r2)),
            },
        }
    }
}

/// The meaning of a whole wire document: either the service status it
/// denotes, or the exact reason it is rejected. The document must have the
/// canonical key order, known name and status tokens, single-key dependency
/// objects, a status token that agrees with the fold of the dependency list,
/// and nothing but whitespace after the closing brace.
pub open spec fn spec_decode(s: Seq<char>) -> Result<ServiceStatusView, DecodeErrorView> {
    match expect_char(s, '{') {
        None => Err(DecodeErrorView::Malformed),
        Some(r0) => match parse_field(r0, "env"@) {
            None => Err(DecodeErrorView::Malformed),
            Some((env, r1)) => match expect_char(r1, ',') {
                None => Err(DecodeErrorView::Malformed),
                Some(r2) => match parse_field(r2, "build"@) {
                    None => Err(DecodeErrorView::Malformed),
                    Some((build, r3)) => match expect_char(r3, ',') {
                        None => Err(DecodeErrorView::Malformed),
                        Some(r4) => match parse_field(r4, "commit"@) {
                            None => Err(DecodeErrorView::Malformed),
                            Some((commit, r5)) => match expect_char(r5, ',') {
                                None => Err(DecodeErrorView::Malformed),
                                Some(r6) => match parse_field(r6, "status"@) {
                                    None => Err(DecodeErrorView::Malformed),
                                    Some((token, r7)) => match spec_status_of_token(token) {
                                        None => Err(DecodeErrorView::UnknownStatus(token)),
                                        Some(status) => spec_decode_tail(
                                            r7,
                                            VersionView { env, build, commit },
                                            status,
                                        ),
                                    },
                                },
                            },
                        },
                    },
                },
            },
        },
    }
}

/// The tail of the document after the status field: the dependency list, the
/// closing brace, trailing whitespace only, and the consistency check between
/// the stated status and the fold of the list.
pub open spec fn spec_decode_tail(
    s: Seq<char>,
    version: VersionView,
    status: Status,
) -> Result<ServiceStatusView, DecodeErrorView> {
    match expect_char(s, ',') {
        None => Err(DecodeErrorView::Malformed),
        Some(r0) => match parse_string(r0) {
            None => Err(DecodeErrorView::Malformed),
            Some((key, r1)) => if key != "dependencies"@ {
                Err(DecodeErrorView::Malformed)
            } else {
                match expect_char(r1, ':') {
                    None => Err(DecodeErrorView::Malformed),
                    Some(r2) => match expect_char(r2, '[') {
                        None => Err(DecodeErrorView::Malformed),
                        Some(r3) => match parse_dependencies(r3) {
                            Err(e) => Err(e),
                            Ok((dependencies, r4)) => match expect_char(r4, '}') {
                                None => Err(DecodeErrorView::Malformed),
                                Some(r5) => if skip_ws(r5).len() != 0 {
                                    Err(DecodeErrorView::Malformed)
                                } else if status != overall_status(dependencies) {
                                    Err(DecodeErrorView::InconsistentStatus)
                                } else {
                                    Ok(
                                        ServiceStatusView {
                                            version,
                                            status,
                                            dependencies,
                                        },
                                    )
                                },
                            },
                        },
                    },
                }
            },
        },
    }
}

// ---------------------------------------------------------------------------
// Executable helpers
// ---------------------------------------------------------------------------

fn is_ws_exec(c: char) -> (b: bool)
    ensures
        b == is_ws(c),
{
    c == ' ' || c == '\n' || c == '\r' || c == '\t'
}

fn skip_ws_exec(s: &[char]) -> (r: &[char])
    ensures
        r@ == skip_ws(s@),
{
    let mut i: usize = 0;
    proof {
        assert(s@.skip(0) =~= s@);
    }
    while i < s.len() && is_ws_exec(s[i])
        invariant
            0 <= i <= s@.len(),
            skip_ws(s@) == skip_ws(s@.skip(i as int)),
        decreases s@.len() - i,
    {
        proof {
            assert(s@.skip(i as int)[0] == s@[i as int]);
            assert(s@.skip(i as int).drop_first() =~= s@.skip(i as int + 1));
        }
        i = i + 1;
    }
    proof {
        if i < s@.len() {
            assert(s@.skip(i as int)[0] == s@[i as int]);
            assert(skip_ws(s@.skip(i as int)) == s@.skip(i as int));
        } else {
            assert(s@.skip(i as int).len() == 0);
            assert(skip_ws(s@.skip(i as int)) == s@.skip(i as int));
        }
    }
    &s[i..s.len()]
}

fn expect_exec<'a>(s: &'a [char], c: char) -> (r: Option<&'a [char]>)
    ensures
        r matches Some(rest) ==> expect_char(s@, c) == Some(rest@),
        r is None ==> expect_char(s@, c) is None,
{
    let t = skip_ws_exec(s);
    if t.len() > 0 && t[0] == c {
        proof {
            assert(t@.drop_first() =~= t@.subrange(1, t@.len() as int));
        }
        Some(&t[1..t.len()])
    } else {
        None
    }
}

fn parse_string_exec<'a>(s: &'a [char]) -> (r: Option<(Vec<char>, &'a [char])>)
    ensures
        r matches Some(p) ==> parse_string(s@) == Some((p.0@, p.1@)),
        r is None ==> parse_string(s@) is None,
{
    let t = skip_ws_exec(s);
    if t.len() == 0 || t[0] != '"' {
        return None;
    }
    let mut out: Vec<char> = Vec::new();
    let mut i: usize = 1;
    proof {
        assert(t@.skip(1) =~= t@.drop_first());
        assert(out@ + Seq::<char>::empty() =~= out@);
    }
    loop
        invariant
            1 <= i <= t@.len(),
            t@ == skip_ws(s@),
            t@.len() > 0 && t@[0] == '"',
            parse_string(s@) == match parse_string_body(t@.skip(i as int)) {
                Some((u, rest)) => Some((out@ + u, rest)),
                None => None::<(Seq<char>, Seq<char>)>,
            },
        decreases t@.len() - i,
    {
        if i >= t.len() {
            return None;
        }
        let c = t[i];
        proof {
            assert(t@.skip(i as int)[0] == c);
            assert(t@.skip(i as int).drop_first() =~= t@.skip(i as int + 1));
        }
        if c == '"' {
            proof {
                assert(out@ + Seq::<char>::empty() =~= out@);
                assert(t@.skip(i as int + 1) =~= t@.subrange(i as int + 1, t@.len() as int));
            }
            return Some((out, &t[i + 1..t.len()]));
        }
        if c == '\\' {
            if i + 1 >= t.len() {
                return None;
            }
            let c2 = t[i + 1];
            proof {
                assert(t@.skip(i as int)[1] == c2);
                assert(t@.skip(i as int).skip(2) =~= t@.skip(i as int + 2));
            }
            if c2 == '"' || c2 == '\\' {
                proof {
                    let ghost body = parse_string_body(t@.skip(i as int + 2));
                    if body is Some {
                        let ghost (u, rest) = body->Some_0;
                        assert(out@ + (seq![c2] + u) =~= out@.push(c2) + u);
                    }
                }
                out.push(c2);
                i = i + 2;
            } else {
                return None;
            }
        } else {
            proof {
                let ghost body = parse_string_body(t@.skip(i as int + 1));
                if body is Some {
                    let ghost (u, rest) = body->Some_0;
                    assert(out@ + (seq![c] + u) =~= out@.push(c) + u);
                }
            }
            out.push(c);
            i = i + 1;
        }
    }
}

fn token_is(token: &Vec<char>, lit: &str) -> (b: bool)
    ensures
        b == (token@ == lit@),
{
    let n = lit.unicode_len();
    if token.len() != n {
        return false;
    }
    for i in 0..n
        invariant
            n == lit@.len(),
            token@.len() == n,
            forall|j: int| 0 <= j < i ==> token@[j] == lit@[j],
    {
        let c = lit.get_char(i);
        if token[i] != c {
            return false;
        }
    }
    proof {
        assert(token@ =~= lit@);
    }
    true
}

// ---------------------------------------------------------------------------
// The token tables, executable
// ---------------------------------------------------------------------------

/// The wire token a status is written as.
pub fn status_token(status: Status) -> (r: &'static str)
    ensures
        r@ == spec_status_token(status),
{
    match status {
        Status::Healthy => "Ok",
        Status::Degraded => "Degraded",
    }
}

/// The canonical lowercase wire name of a dependency.
pub fn dependency_token(dependency: Dependency) -> (r: &'static str)
    ensures
        r@ == spec_dependency_token(dependency),
{
    match dependency {
        Dependency::Auth0 => "auth0",
        Dependency::Database => "database",
        Dependency::Snitch => "snitch",
    }
}

/// Looks a status token up; tokens outside the table have no status.
pub fn status_of_token(token: &Vec<char>) -> (r: Option<Status>)
    ensures
        r == spec_status_of_token(token@),
{
    if token_is(token, "Ok") {
        Some(Status::Healthy)
    } else if token_is(token, "Degraded") {
        Some(Status::Degraded)
    } else {
        None
    }
}

/// Looks a dependency name token up; names outside the table have no
/// dependency.
pub fn dependency_of_token(token: &Vec<char>) -> (r: Option<Dependency>)
    ensures
        r == spec_dependency_of_token(token@),
{
    if token_is(token, "auth0") {
        Some(Dependency::Auth0)
    } else if token_is(token, "database") {
        Some(Dependency::Database)
    } else if token_is(token, "snitch") {
        Some(Dependency::Snitch)
    } else {
        None
    }
}

// ---------------------------------------------------------------------------
// Decoding
// ---------------------------------------------------------------------------

/// The rejection of a wire document, as `decode` reports it. The variant
/// names the malformed field; the unknown-token variants carry the token.
#[derive(Debug)]
pub enum DecodeError {
    Malformed,
    UnknownStatus(String),
    UnknownDependency(String),
    MalformedDependencyObject,
    InconsistentStatus,
}

impl View for DecodeError {
    type V = DecodeErrorView;

    closed spec fn view(&self) -> DecodeErrorView {
        match self {
            DecodeError::Malformed => DecodeErrorView::Malformed,
            DecodeError::UnknownStatus(t) => DecodeErrorView::UnknownStatus(t@),
            DecodeError::UnknownDependency(t) => DecodeErrorView::UnknownDependency(t@),
            DecodeError::MalformedDependencyObject => DecodeErrorView::MalformedDependencyObject,
            DecodeError::InconsistentStatus => DecodeErrorView::InconsistentStatus,
        }
    }
}

fn parse_entry_exec<'a>(s: &'a [char]) -> (r: Result<(DependencyStatus, &'a [char]), DecodeError>)
    ensures
        r matches Ok(p) ==> parse_entry(s@) == Ok::<_, DecodeErrorView>((p.0, p.1@)),
        r matches Err(e) ==> parse_entry(s@) == Err::<(DependencyStatus, Seq<char>), _>(e@),
{
    let r0 = match expect_exec(s, '{') {
        Some(r) => r,
        None => {
            return Err(DecodeError::Malformed);
        },
    };
    let t = skip_ws_exec(r0);
    if t.len() > 0 && t[0] == '}' {
        return Err(DecodeError::MalformedDependencyObject);
    }
    let (name, r2) = match parse_string_exec(r0) {
        Some(p) => p,
        None => {
            return Err(DecodeError::Malformed);
        },
    };
    let dependency = match dependency_of_token(&name) {
        Some(d) => d,
        None => {
            return Err(DecodeError::UnknownDependency(string_of_chars(name.as_slice())));
        },
    };
    let r3 = match expect_exec(r2, ':') {
        Some(r) => r,
        None => {
            return Err(DecodeError::Malformed);
        },
    };
    let (token, r4) = match parse_string_exec(r3) {
        Some(p) => p,
        None => {
            return Err(DecodeError::Malformed);
        },
    };
    let status = match status_of_token(&token) {
        Some(st) => st,
        None => {
            return Err(DecodeError::UnknownStatus(string_of_chars(token.as_slice())));
        },
    };
    let t2 = skip_ws_exec(r4);
    if t2.len() > 0 && t2[0] == ',' {
        return Err(DecodeError::MalformedDependencyObject);
    }
    let r5 = match expect_exec(r4, '}') {
        Some(r) => r,
        None => {
            return Err(DecodeError::Malformed);
        },
    };
    Ok((DependencyStatus::new(dependency, status), r5))
}

fn parse_dependencies_exec<'a>(s: &'a [char]) -> (r: Result<
    (Vec<DependencyStatus>, &'a [char]),
    DecodeError,
>)
    ensures
        r matches Ok(p) ==> parse_dependencies(s@) == Ok::<_, DecodeErrorView>((p.0@, p.1@)),
        r matches Err(e) ==> parse_dependencies(s@) == Err::<(Seq<DependencyStatus>, Seq<char>), _>(
            e@,
        ),
{
    let t = skip_ws_exec(s);
    if t.len() > 0 && t[0] == ']' {
        let empty: Vec<DependencyStatus> = Vec::new();
        proof {
            assert(t@.drop_first() =~= t@.subrange(1, t@.len() as int));
        }
        return Ok((empty, &t[1..t.len()]));
    }
    let (first, r0) = match parse_entry_exec(s) {
        Ok(p) => p,
        Err(e) => {
            return Err(e);
        },
    };
    let mut out: Vec<DependencyStatus> = Vec::new();
    out.push(first);
    let mut cur: &[char] = r0;
    proof {
        let ghost rest_res = parse_dependencies_rest(cur@);
        if rest_res is Ok {
            let ghost (ds, rr) = rest_res->Ok_0;
            assert(seq![first] + ds =~= out@ + ds);
        }
    }
    loop
        invariant
            parse_dependencies(s@) == (match parse_dependencies_rest(cur@) {
                Ok((ds, rest)) => Ok::<(Seq<DependencyStatus>, Seq<char>), DecodeErrorView>(
                    (out@ + ds, rest),
                ),
                Err(e) => Err(e),
            }),
        decreases cur@.len(),
    {
        let ghost cur0 = cur@;
        let t2 = skip_ws_exec(cur);
        proof {
            lemma_skip_ws_len(cur0);
        }
        if t2.len() == 0 {
            return Err(DecodeError::Malformed);
        }
        if t2[0] == ']' {
            proof {
                assert(out@ + Seq::<DependencyStatus>::empty() =~= out@);
                assert(t2@.drop_first() =~= t2@.subrange(1, t2@.len() as int));
            }
            return Ok((out, &t2[1..t2.len()]));
        }
        if t2[0] != ',' {
            return Err(DecodeError::Malformed);
        }
        proof {
            assert(t2@.drop_first() =~= t2@.subrange(1, t2@.len() as int));
        }
        let after = &t2[1..t2.len()];
        let (d, r2) = match parse_entry_exec(after) {
            Ok(p) => p,
            Err(e) => {
                return Err(e);
            },
        };
        proof {
            lemma_parse_entry_progress(after@);
            let ghost rest_res = parse_dependencies_rest(r2@);
            if rest_res is Ok {
                let ghost (ds, rr) = rest_res->Ok_0;
                assert(out@ + (seq![d] + ds) =~= out@.push(d) + ds);
            }
        }
        out.push(d);
        cur = r2;
    }
}

fn parse_field_exec<'a>(s: &'a [char], name: &str) -> (r: Option<(Vec<char>, &'a [char])>)
    ensures
        r matches Some(p) ==> parse_field(s@, name@) == Some((p.0@, p.1@)),
        r is None ==> parse_field(s@, name@) is None,
{
    let (key, rest) = match parse_string_exec(s) {
        Some(p) => p,
        None => {
            return None;
        },
    };
    if !token_is(&key, name) {
        return None;
    }
    let r2 = match expect_exec(rest, ':') {
        Some(x) => x,
        None => {
            return None;
        },
    };
    parse_string_exec(r2)
}

/// Decodes a wire document into the service status it denotes, rejecting
/// anything outside the canonical shape: the exact outcome, acceptance or
/// the precise rejection, is `spec_decode` of the document's characters.
pub fn decode(document: &str) -> (r: Result<ServiceStatus, DecodeError>)
    ensures
        r matches Ok(v) ==> spec_decode(document@) == Ok::<_, DecodeErrorView>(v@)
            && v@.well_formed(),
        r matches Err(e) ==> spec_decode(document@) == Err::<ServiceStatusView, _>(e@),
{
    let cs = chars_of(document);
    let s = cs.as_slice();
    let r0 = match expect_exec(s, '{') {
        Some(r) => r,
        None => {
            return Err(DecodeError::Malformed);
        },
    };
    let (env, r1) = match parse_field_exec(r0, "env") {
        Some(p) => p,
        None => {
            return Err(DecodeError::Malformed);
        },
    };
    let r2 = match expect_exec(r1, ',') {
        Some(r) => r,
        None => {
            return Err(DecodeError::Malformed);
        },
    };
    let (build, r3) = match parse_field_exec(r2, "build") {
        Some(p) => p,
        None => {
            return Err(DecodeError::Malformed);
        },
    };
    let r4 = match expect_exec(r3, ',') {
        Some(r) => r,
        None => {
            return Err(DecodeError::Malformed);
        },
    };
    let (commit, r5) = match parse_field_exec(r4, "commit") {
        Some(p) => p,
        None => {
            return Err(DecodeError::Malformed);
        },
    };
    let r6 = match expect_exec(r5, ',') {
        Some(r) => r,
        None => {
            return Err(DecodeError::Malformed);
        },
    };
    let (token, r7) = match parse_field_exec(r6, "status") {
        Some(p) => p,
        None => {
            return Err(DecodeError::Malformed);
        },
    };
    let status = match status_of_token(&token) {
        Some(st) => st,
        None => {
            return Err(DecodeError::UnknownStatus(string_of_chars(token.as_slice())));
        },
    };
    let r8 = match expect_exec(r7, ',') {
        Some(r) => r,
        None => {
            return Err(DecodeError::Malformed);
        },
    };
    let (deps_key, r9) = match parse_string_exec(r8) {
        Some(p) => p,
        None => {
            return Err(DecodeError::Malformed);
        },
    };
    if !token_is(&deps_key, "dependencies") {
        return Err(DecodeError::Malformed);
    }
    let r10 = match expect_exec(r9, ':') {
        Some(r) => r,
        None => {
            return Err(DecodeError::Malformed);
        },
    };
    let r11 = match expect_exec(r10, '[') {
        Some(r) => r,
        None => {
            return Err(DecodeError::Malformed);
        },
    };
    let (dependencies, r12) = match parse_dependencies_exec(r11) {
        Ok(p) => p,
        Err(e) => {
            return Err(e);
        },
    };
    let r13 = match expect_exec(r12, '}') {
        Some(r) => r,
        None => {
            return Err(DecodeError::Malformed);
        },
    };
    let tail = skip_ws_exec(r13);
    if tail.len() != 0 {
        return Err(DecodeError::Malformed);
    }
    let version = Version::new(
        Environment::new(string_of_chars(env.as_slice())),
        Build::new(string_of_chars(build.as_slice())),
        Commit::new(string_of_chars(commit.as_slice())),
    );
    let ghost dependencies_view = dependencies@;
    let service = ServiceStatus::new(version, dependencies);
    if *service.status() != status {
        return Err(DecodeError::InconsistentStatus);
    }
    proof {
        assert(service@.version == (VersionView { env: env@, build: build@, commit: commit@ }));
        assert(service@ == (ServiceStatusView {
            version: VersionView { env: env@, build: build@, commit: commit@ },
            status,
            dependencies: dependencies_view,
        }));
    }
    Ok(service)
}

// ---------------------------------------------------------------------------
// Encoding
// ---------------------------------------------------------------------------

/// Escaping one more character appends its escaped form.
proof fn lemma_escape_snoc(s: Seq<char>, c: char)
    ensures
        escape(s.push(c)) == escape(s) + (if c == '"' || c == '\\' {
            seq!['\\', c]
        } else {
            seq![c]
        }),
    decreases s.len(),
{
    let tail: Seq<char> = if c == '"' || c == '\\' {
        seq!['\\', c]
    } else {
        seq![c]
    };
    if s.len() == 0 {
        assert(s.push(c)[0] == c);
        assert(s.push(c).drop_first() =~= Seq::<char>::empty());
        assert(escape(s.push(c).drop_first()) == Seq::<char>::empty());
        assert(escape(s.push(c)) == tail + Seq::<char>::empty());
        assert(tail + Seq::<char>::empty() =~= tail);
        assert(escape(s) + tail =~= tail);
    } else {
        assert(s.push(c)[0] == s[0]);
        assert(s.push(c).drop_first() =~= s.drop_first().push(c));
        lemma_escape_snoc(s.drop_first(), c);
        if s[0] == '"' || s[0] == '\\' {
            assert(escape(s.push(c)) == seq!['\\', s[0]] + (escape(s.drop_first()) + tail));
            assert(seq!['\\', s[0]] + (escape(s.drop_first()) + tail) =~= (seq!['\\', s[0]]
                + escape(s.drop_first())) + tail);
        } else {
            assert(escape(s.push(c)) == seq![s[0]] + (escape(s.drop_first()) + tail));
            assert(seq![s[0]] + (escape(s.drop_first()) + tail) =~= (seq![s[0]] + escape(
                s.drop_first(),
            )) + tail);
        }
    }
}

/// Encoding one more dependency appends its entry, preceded by a comma when
/// it is not the first.
proof fn lemma_encode_dependencies_snoc(deps: Seq<DependencyStatus>, d: DependencyStatus)
    ensures
        spec_encode_dependencies(deps.push(d)) == if deps.len() == 0 {
            spec_encode_dependency(d)
        } else {
            spec_encode_dependencies(deps) + ","@ + spec_encode_dependency(d)
        },
    decreases deps.len(),
{
    let whole = deps.push(d);
    if deps.len() == 0 {
        assert(whole.len() == 1);
        assert(whole[0] == d);
    } else {
        assert(whole[0] == deps[0]);
        assert(whole.drop_first() =~= deps.drop_first().push(d));
        lemma_encode_dependencies_snoc(deps.drop_first(), d);
        if deps.len() == 1 {
            assert(whole.len() == 2);
            assert(spec_encode_dependencies(whole) == spec_encode_dependency(deps[0]) + ","@
                + spec_encode_dependencies(deps.drop_first().push(d)));
            assert(spec_encode_dependencies(deps.drop_first().push(d))
                == spec_encode_dependency(d));
        } else {
            assert(spec_encode_dependencies(whole) == spec_encode_dependency(deps[0]) + ","@
                + (spec_encode_dependencies(deps.drop_first()) + ","@ + spec_encode_dependency(
                d,
            )));
            assert(spec_encode_dependency(deps[0]) + ","@ + (spec_encode_dependencies(
                deps.drop_first(),
            ) + ","@ + spec_encode_dependency(d)) =~= (spec_encode_dependency(deps[0]) + ","@
                + spec_encode_dependencies(deps.drop_first())) + ","@ + spec_encode_dependency(
                d,
            ));
        }
    }
}

/// Appends a text token to the output with wire escaping applied.
fn append_escaped(out: &mut String, s: &str)
    ensures
        final(out)@ == old(out)@ + escape(s@),
{
    let ghost start = out@;
    let n = s.unicode_len();
    proof {
        assert(escape(s@.take(0)) =~= Seq::<char>::empty());
        assert(start + escape(s@.take(0)) =~= start);
    }
    for i in 0..n
        invariant
            n == s@.len(),
            out@ == start + escape(s@.take(i as int)),
    {
        let c = s.get_char(i);
        proof {
            assert(s@.take(i + 1) =~= s@.take(i as int).push(s@[i as int]));
            lemma_escape_snoc(s@.take(i as int), s@[i as int]);
        }
        if c == '"' || c == '\\' {
            push_char(out, '\\');
            push_char(out, c);
            proof {
                assert((start + escape(s@.take(i as int))).push('\\').push(c) =~= start + escape(
                    s@.take(i + 1),
                ));
            }
        } else {
            push_char(out, c);
            proof {
                assert((start + escape(s@.take(i as int))).push(c) =~= start + escape(
                    s@.take(i + 1),
                ));
            }
        }
    }
    proof {
        assert(s@.take(n as int) =~= s@);
    }
}

/// Appends one dependency outcome as its single-key wire object.
fn append_dependency(out: &mut String, d: DependencyStatus)
    ensures
        final(out)@ == old(out)@ + spec_encode_dependency(d),
{
    out.append("{\"");
    out.append(dependency_token(d.dependency));
    out.append("\":\"");
    out.append(status_token(d.status));
    out.append("\"}");
    proof {
        assert(out@ =~= old(out)@ + spec_encode_dependency(d));
    }
}

/// Encodes a service status as its canonical wire document, exactly
/// `spec_encode` of its value: no whitespace, fields in canonical order,
/// every dependency as a single-key object.
pub fn encode(status: &ServiceStatus) -> (r: String)
    ensures
        r@ == spec_encode(status@),
{
    let mut out = String::new();
    out.append("{\"env\":\"");
    append_escaped(&mut out, status.version().env().as_str());
    out.append("\",\"build\":\"");
    append_escaped(&mut out, status.version().build().as_str());
    out.append("\",\"commit\":\"");
    append_escaped(&mut out, status.version().commit().as_str());
    out.append("\",\"status\":\"");
    out.append(status_token(*status.status()));
    out.append("\",\"dependencies\":[");
    proof {
        assert(out@ =~= spec_encode_prefix(status@));
        assert(spec_encode_dependencies(status@.dependencies.take(0)) =~= Seq::<char>::empty());
        assert(out@ + spec_encode_dependencies(status@.dependencies.take(0)) =~= out@);
    }
    let deps = status.dependencies();
    let n = deps.len();
    for i in 0..n
        invariant
            n == status@.dependencies.len(),
            deps@ == status@.dependencies,
            out@ == spec_encode_prefix(status@) + spec_encode_dependencies(
                status@.dependencies.take(i as int),
            ),
    {
        let d = deps[i];
        proof {
            assert(status@.dependencies.take(i + 1) =~= status@.dependencies.take(
                i as int,
            ).push(status@.dependencies[i as int]));
            lemma_encode_dependencies_snoc(status@.dependencies.take(i as int), d);
        }
        if i > 0 {
            out.append(",");
        }
        append_dependency(&mut out, d);
        proof {
            if i == 0 {
                assert(spec_encode_dependencies(status@.dependencies.take(0)) =~= Seq::<
                    char,
                >::empty());
            }
            assert(out@ =~= spec_encode_prefix(status@) + spec_encode_dependencies(
                status@.dependencies.take(i + 1),
            ));
        }
    }
    out.append("]}");
    proof {
        assert(status@.dependencies.take(n as int) =~= status@.dependencies);
        assert(out@ =~= spec_encode(status@));
    }
    out
}

// ---------------------------------------------------------------------------
// The round-trip law
// ---------------------------------------------------------------------------

/// A text token with no character the wire would escape.
spec fn plain(s: Seq<char>) -> bool {
    forall|i: int| 0 <= i < s.len() ==> s[i] != '"' && s[i] != '\\'
}

/// Escaping does nothing to a plain token.
proof fn lemma_escape_plain(s: Seq<char>)
    requires
        plain(s),
    ensures
        escape(s) == s,
    decreases s.len(),
{
    if s.len() == 0 {
        assert(escape(s) =~= s);
    } else {
        assert(s[0] != '"' && s[0] != '\\');
        lemma_escape_plain(s.drop_first());
        assert(seq![s[0]] + s.drop_first() =~= s);
    }
}

/// Scanning the body of an escaped token recovers exactly the token and the
/// remainder after its closing quote.
proof fn lemma_parse_string_body_of_escape(t: Seq<char>, rest: Seq<char>)
    ensures
        parse_string_body(escape(t) + seq!['"'] + rest) == Some((t, rest)),
    decreases t.len(),
{
    let s = escape(t) + seq!['"'] + rest;
    if t.len() == 0 {
        assert(escape(t) =~= Seq::<char>::empty());
        assert(s =~= seq!['"'] + rest);
        assert(s[0] == '"');
        assert(s.drop_first() =~= rest);
        assert(t =~= Seq::<char>::empty());
    } else {
        let c = t[0];
        let t1 = t.drop_first();
        lemma_parse_string_body_of_escape(t1, rest);
        if c == '"' || c == '\\' {
            assert(escape(t) == seq!['\\', c] + escape(t1));
            assert(s =~= seq!['\\', c] + (escape(t1) + seq!['"'] + rest));
            assert(s[0] == '\\');
            assert(s.len() >= 2);
            assert(s[1] == c);
            assert(s.skip(2) =~= escape(t1) + seq!['"'] + rest);
            assert(seq![c] + t1 =~= t);
        } else {
            assert(escape(t) == seq![c] + escape(t1));
            assert(s =~= seq![c] + (escape(t1) + seq!['"'] + rest));
            assert(s[0] == c);
            assert(s.drop_first() =~= escape(t1) + seq!['"'] + rest);
            assert(seq![c] + t1 =~= t);
        }
    }
}

/// Parsing a quoted, escaped token recovers exactly the token.
proof fn lemma_parse_string_quoted(t: Seq<char>, rest: Seq<char>)
    ensures
        parse_string(seq!['"'] + escape(t) + seq!['"'] + rest) == Some((t, rest)),
{
    let s = seq!['"'] + escape(t) + seq!['"'] + rest;
    assert(s[0] == '"');
    assert(!is_ws('"'));
    assert(skip_ws(s) == s);
    assert(s.drop_first() =~= escape(t) + seq!['"'] + rest);
    lemma_parse_string_body_of_escape(t, rest);
}

/// Consuming an expected leading punctuation character leaves the tail.
proof fn lemma_expect_leading(c: char, rest: Seq<char>)
    requires
        !is_ws(c),
    ensures
        expect_char(seq![c] + rest, c) == Some(rest),
{
    let s = seq![c] + rest;
    assert(s[0] == c);
    assert(skip_ws(s) == s);
    assert(s.drop_first() =~= rest);
}

/// The flattened shape of one encoded `"<name>":"<value>"` field followed by
/// the rest of the document.
spec fn doc_field(name: Seq<char>, value: Seq<char>, rest: Seq<char>) -> Seq<char> {
    seq!['"'] + name + seq!['"'] + seq![':'] + seq!['"'] + escape(value) + seq!['"'] + rest
}

/// Parsing an encoded `"<name>":"<value>"` field recovers the value.
proof fn lemma_parse_field_encoded(name: Seq<char>, value: Seq<char>, rest: Seq<char>)
    requires
        plain(name),
    ensures
        parse_field(doc_field(name, value, rest), name) == Some((value, rest)),
{
    let value_part = seq!['"'] + escape(value) + seq!['"'] + rest;
    let after_key = seq![':'] + value_part;
    let s = doc_field(name, value, rest);
    lemma_escape_plain(name);
    assert(s =~= seq!['"'] + escape(name) + seq!['"'] + after_key);
    lemma_parse_string_quoted(name, after_key);
    assert(parse_string(s) == Some((name, after_key)));
    lemma_expect_leading(':', value_part);
    assert(!is_ws(':'));
    lemma_parse_string_quoted(value, rest);
    assert(value_part =~= seq!['"'] + escape(value) + seq!['"'] + rest);
}

/// The status token table inverts cleanly, and its tokens are plain.
proof fn lemma_status_token_inverse(status: Status)
    ensures
        plain(spec_status_token(status)),
        spec_status_of_token(spec_status_token(status)) == Some(status),
{
    reveal_strlit("Ok");
    reveal_strlit("Degraded");
    assert("Ok"@.len() == 2);
    assert("Degraded"@.len() == 8);
}

/// The dependency name table inverts cleanly, and its names are plain.
proof fn lemma_dependency_token_inverse(dependency: Dependency)
    ensures
        plain(spec_dependency_token(dependency)),
        spec_dependency_of_token(spec_dependency_token(dependency)) == Some(dependency),
{
    reveal_strlit("auth0");
    reveal_strlit("database");
    reveal_strlit("snitch");
    assert("auth0"@.len() == 5);
    assert("database"@.len() == 8);
    assert("snitch"@.len() == 6);
}

/// Parsing an encoded dependency object recovers exactly that outcome.
#[verifier::rlimit(100)]
proof fn lemma_parse_entry_encoded(d: DependencyStatus, rest: Seq<char>)
    ensures
        parse_entry(spec_encode_dependency(d) + rest) == Ok::<_, DecodeErrorView>((d, rest)),
{
    reveal_strlit("{\"");
    reveal_strlit("\":\"");
    reveal_strlit("\"}");
    let name = spec_dependency_token(d.dependency);
    let token = spec_status_token(d.status);
    lemma_dependency_token_inverse(d.dependency);
    lemma_status_token_inverse(d.status);
    lemma_escape_plain(name);
    lemma_escape_plain(token);
    let s = spec_encode_dependency(d) + rest;
    assert("{\""@ =~= seq!['{', '"']);
    assert("\":\""@ =~= seq!['"', ':', '"']);
    assert("\"}"@ =~= seq!['"', '}']);

    let close_part = seq!['}'] + rest;
    let status_part = seq!['"'] + token + seq!['"'] + close_part;
    let colon_part = seq![':'] + status_part;
    let name_part = seq!['"'] + name + seq!['"'] + colon_part;
    assert(s =~= seq!['{'] + name_part);

    assert(!is_ws('{'));
    lemma_expect_leading('{', name_part);
    assert(expect_char(s, '{') == Some(name_part));

    // the object is not empty: its first character is a quote, not a brace
    assert(name_part[0] == '"');
    assert(skip_ws(name_part) == name_part);

    assert(name_part =~= seq!['"'] + escape(name) + seq!['"'] + colon_part);
    lemma_parse_string_quoted(name, colon_part);
    assert(parse_string(name_part) == Some((name, colon_part)));

    assert(!is_ws(':'));
    lemma_expect_leading(':', status_part);

    assert(status_part =~= seq!['"'] + escape(token) + seq!['"'] + close_part);
    lemma_parse_string_quoted(token, close_part);
    assert(parse_string(status_part) == Some((token, close_part)));

    // exactly one key: after the value comes the closing brace, not a comma
    assert(close_part[0] == '}');
    assert(!is_ws('}'));
    assert(skip_ws(close_part) == close_part);
    lemma_expect_leading('}', rest);
    assert(expect_char(close_part, '}') == Some(rest));
    assert((DependencyStatus { dependency: d.dependency, status: d.status }) == d);
}

/// The comma-separated continuation of an encoded dependency list.
spec fn spec_encode_dependencies_rest(deps: Seq<DependencyStatus>) -> Seq<char>
    decreases deps.len(),
{
    if deps.len() == 0 {
        Seq::empty()
    } else {
        seq![','] + spec_encode_dependency(deps[0]) + spec_encode_dependencies_rest(
            deps.drop_first(),
        )
    }
}

/// A non-empty encoded list is its first entry followed by the continuation.
proof fn lemma_encode_dependencies_split(deps: Seq<DependencyStatus>)
    ensures
        deps.len() > 0 ==> spec_encode_dependencies(deps) == spec_encode_dependency(deps[0])
            + spec_encode_dependencies_rest(deps.drop_first()),
    decreases deps.len(),
{
    if deps.len() == 1 {
        assert(spec_encode_dependencies_rest(deps.drop_first()) =~= Seq::<char>::empty());
        assert(spec_encode_dependency(deps[0]) + Seq::<char>::empty() =~= spec_encode_dependency(
            deps[0],
        ));
    } else if deps.len() > 1 {
        let tail = deps.drop_first();
        lemma_encode_dependencies_split(tail);
        assert(spec_encode_dependencies(deps) == spec_encode_dependency(deps[0]) + ","@
            + spec_encode_dependencies(tail));
        reveal_strlit(",");
        assert(","@ =~= seq![',']);
        assert(spec_encode_dependency(deps[0]) + ","@ + (spec_encode_dependency(tail[0])
            + spec_encode_dependencies_rest(tail.drop_first())) =~= spec_encode_dependency(
            deps[0],
        ) + (seq![','] + spec_encode_dependency(tail[0]) + spec_encode_dependencies_rest(
            tail.drop_first(),
        )));
    }
}

/// Parsing the encoded continuation recovers the remaining outcomes.
proof fn lemma_parse_dependencies_rest_encoded(deps: Seq<DependencyStatus>, rest: Seq<char>)
    ensures
        parse_dependencies_rest(spec_encode_dependencies_rest(deps) + seq![']'] + rest)
            == Ok::<_, DecodeErrorView>((deps, rest)),
    decreases deps.len(),
{
    let s = spec_encode_dependencies_rest(deps) + seq![']'] + rest;
    if deps.len() == 0 {
        assert(s =~= seq![']'] + rest);
        assert(s[0] == ']');
        assert(!is_ws(']'));
        assert(skip_ws(s) == s);
        assert(s.drop_first() =~= rest);
        assert(parse_dependencies_rest(s) == Ok::<_, DecodeErrorView>(
            (Seq::<DependencyStatus>::empty(), rest),
        ));
        assert(deps =~= Seq::<DependencyStatus>::empty());
    } else {
        let tail = deps.drop_first();
        let entry_part = spec_encode_dependency(deps[0]) + (spec_encode_dependencies_rest(tail)
            + seq![']'] + rest);
        assert(s =~= seq![','] + entry_part);
        assert(s[0] == ',');
        assert(!is_ws(','));
        assert(skip_ws(s) == s);
        assert(s[0] != ']');
        assert(s.drop_first() =~= entry_part);
        lemma_parse_entry_encoded(
            deps[0],
            spec_encode_dependencies_rest(tail) + seq![']'] + rest,
        );
        assert(parse_entry(entry_part) == Ok::<_, DecodeErrorView>(
            (deps[0], spec_encode_dependencies_rest(tail) + seq![']'] + rest),
        ));
        lemma_parse_dependencies_rest_encoded(tail, rest);
        assert(seq![deps[0]] + tail =~= deps);
    }
}

/// Parsing an encoded dependency list recovers exactly the outcomes.
proof fn lemma_parse_dependencies_encoded(deps: Seq<DependencyStatus>, rest: Seq<char>)
    ensures
        parse_dependencies(spec_encode_dependencies(deps) + seq![']'] + rest)
            == Ok::<_, DecodeErrorView>((deps, rest)),
{
    let s = spec_encode_dependencies(deps) + seq![']'] + rest;
    if deps.len() == 0 {
        assert(s =~= seq![']'] + rest);
        assert(s[0] == ']');
        assert(!is_ws(']'));
        assert(skip_ws(s) == s);
        assert(s.drop_first() =~= rest);
        assert(deps =~= Seq::<DependencyStatus>::empty());
    } else {
        let tail = deps.drop_first();
        lemma_encode_dependencies_split(deps);
        let entry_rest = spec_encode_dependencies_rest(tail) + seq![']'] + rest;
        assert(s =~= spec_encode_dependency(deps[0]) + entry_rest);
        // the list is not empty: it opens with a brace, not the closing bracket
        reveal_strlit("{\"");
        assert(spec_encode_dependency(deps[0])[0] == '{');
        assert(s[0] == '{');
        assert(!is_ws('{'));
        assert(skip_ws(s) == s);
        assert(s[0] != ']');
        lemma_parse_entry_encoded(deps[0], entry_rest);
        assert(parse_entry(s) == Ok::<_, DecodeErrorView>((deps[0], entry_rest)));
        lemma_parse_dependencies_rest_encoded(tail, rest);
        assert(seq![deps[0]] + tail =~= deps);
    }
}

/// The rest of the document from the dependency list's opening bracket on.
spec fn doc_deps_tail(v: ServiceStatusView) -> Seq<char> {
    spec_encode_dependencies(v.dependencies) + seq![']'] + seq!['}']
}

/// The rest of the document from the `"dependencies"` key on.
spec fn doc_deps_field(v: ServiceStatusView) -> Seq<char> {
    seq!['"'] + "dependencies"@ + seq!['"'] + (seq![':'] + (seq!['['] + doc_deps_tail(v)))
}

/// The whole encoded document, flattened into parser-sized pieces.
spec fn doc_flat(v: ServiceStatusView) -> Seq<char> {
    seq!['{'] + doc_field(
        "env"@,
        v.version.env,
        seq![','] + doc_field(
            "build"@,
            v.version.build,
            seq![','] + doc_field(
                "commit"@,
                v.version.commit,
                seq![','] + doc_field(
                    "status"@,
                    spec_status_token(v.status),
                    seq![','] + doc_deps_field(v),
                ),
            ),
        ),
    )
}

/// The canonical encoding is exactly the flattened document shape.
#[verifier::rlimit(100)]
proof fn lemma_encode_flat(v: ServiceStatusView)
    ensures
        spec_encode(v) == doc_flat(v),
{
    reveal_strlit("{\"env\":\"");
    reveal_strlit("\",\"build\":\"");
    reveal_strlit("\",\"commit\":\"");
    reveal_strlit("\",\"status\":\"");
    reveal_strlit("\",\"dependencies\":[");
    reveal_strlit("]}");
    reveal_strlit("env");
    reveal_strlit("build");
    reveal_strlit("commit");
    reveal_strlit("status");
    reveal_strlit("dependencies");
    lemma_status_token_inverse(v.status);
    lemma_escape_plain(spec_status_token(v.status));
    assert(spec_encode(v) =~= doc_flat(v));
}

/// The codec round-trip contract: decoding the canonical encoding of any
/// well-formed service status yields exactly that status. Together with the
/// contracts of `encode` and `decode`, this says the wire representation
/// loses nothing.
#[verifier::rlimit(100)]
pub proof fn lemma_codec_round_trip(v: ServiceStatusView)
    requires
        v.well_formed(),
    ensures
        spec_decode(spec_encode(v)) == Ok::<_, DecodeErrorView>(v),
{
    reveal_strlit("env");
    reveal_strlit("build");
    reveal_strlit("commit");
    reveal_strlit("status");
    reveal_strlit("dependencies");

    let token = spec_status_token(v.status);
    lemma_status_token_inverse(v.status);
    lemma_escape_plain(token);
    assert(plain("env"@));
    assert(plain("build"@));
    assert(plain("commit"@));
    assert(plain("status"@));
    assert(plain("dependencies"@));
    lemma_escape_plain("dependencies"@);

    let s_end = seq!['}'];
    let deps_tail = doc_deps_tail(v);
    let after_bracket = seq!['['] + deps_tail;
    let after_deps_key = seq![':'] + after_bracket;
    let s_deps_field = doc_deps_field(v);
    let rest_status = seq![','] + s_deps_field;
    let s_status = doc_field("status"@, token, rest_status);
    let rest_commit = seq![','] + s_status;
    let s_commit = doc_field("commit"@, v.version.commit, rest_commit);
    let rest_build = seq![','] + s_commit;
    let s_build = doc_field("build"@, v.version.build, rest_build);
    let rest_env = seq![','] + s_build;
    let s_env = doc_field("env"@, v.version.env, rest_env);
    let cat = doc_flat(v);

    lemma_encode_flat(v);
    assert(cat == seq!['{'] + s_env);
    assert(deps_tail =~= spec_encode_dependencies(v.dependencies) + seq![']'] + s_end);

    assert(!is_ws('{'));
    lemma_expect_leading('{', s_env);
    assert(expect_char(cat, '{') == Some(s_env));

    lemma_parse_field_encoded("env"@, v.version.env, rest_env);
    assert(parse_field(s_env, "env"@) == Some((v.version.env, rest_env)));
    assert(!is_ws(','));
    lemma_expect_leading(',', s_build);
    assert(expect_char(rest_env, ',') == Some(s_build));

    lemma_parse_field_encoded("build"@, v.version.build, rest_build);
    lemma_expect_leading(',', s_commit);

    lemma_parse_field_encoded("commit"@, v.version.commit, rest_commit);
    lemma_expect_leading(',', s_status);

    lemma_parse_field_encoded("status"@, token, rest_status);
    assert(spec_status_of_token(token) == Some(v.status));
    lemma_expect_leading(',', s_deps_field);

    assert(s_deps_field =~= seq!['"'] + escape("dependencies"@) + seq!['"'] + after_deps_key);
    lemma_parse_string_quoted("dependencies"@, after_deps_key);
    assert(parse_string(s_deps_field) == Some(("dependencies"@, after_deps_key)));
    assert(!is_ws(':'));
    lemma_expect_leading(':', after_bracket);
    assert(!is_ws('['));
    lemma_expect_leading('[', deps_tail);

    lemma_parse_dependencies_encoded(v.dependencies, s_end);
    assert(deps_tail == spec_encode_dependencies(v.dependencies) + seq![']'] + s_end);
    assert(parse_dependencies(deps_tail) == Ok::<_, DecodeErrorView>(
        (v.dependencies, s_end),
    ));

    assert(!is_ws('}'));
    assert(s_end =~= seq!['}'] + Seq::<char>::empty());
    lemma_expect_leading('}', Seq::<char>::empty());
    assert(expect_char(s_end, '}') == Some(Seq::<char>::empty()));
    assert(skip_ws(Seq::<char>::empty()).len() == 0);

    assert(v.status == overall_status(v.dependencies));
    let rebuilt = ServiceStatusView {
        version: VersionView {
            env: v.version.env,
            build: v.version.build,
            commit: v.version.commit,
        },
        status: v.status,
        dependencies: v.dependencies,
    };
    assert(rebuilt =~= v);
    assert(spec_decode_tail(rest_status, rebuilt.version, v.status) == Ok::<
        _,
        DecodeErrorView,
    >(v));
    assert(spec_decode(cat) == Ok::<_, DecodeErrorView>(v));
}

// ---------------------------------------------------------------------------
// The reverse round trip: an accepted document is the encoding of its value
// ---------------------------------------------------------------------------

/// A document with no whitespace anywhere: the canonical encodings are
/// exactly these, since the encoder never emits whitespace and the identity
/// tokens of interest carry none.
pub open spec fn whitespace_free(s: Seq<char>) -> bool {
    forall|i: int| 0 <= i < s.len() ==> !is_ws(s[i])
}

/// Whitespace-freedom distributes over concatenation.
proof fn lemma_whitespace_free_concat(a: Seq<char>, b: Seq<char>)
    ensures
        whitespace_free(a + b) <==> whitespace_free(a) && whitespace_free(b),
{
    if whitespace_free(a + b) {
        assert forall|i: int| 0 <= i < a.len() implies !is_ws(a[i]) by {
            assert((a + b)[i] == a[i]);
        }
        assert forall|i: int| 0 <= i < b.len() implies !is_ws(b[i]) by {
            assert((a + b)[a.len() + i] == b[i]);
        }
    }
    if whitespace_free(a) && whitespace_free(b) {
        assert forall|i: int| 0 <= i < (a + b).len() implies !is_ws((a + b)[i]) by {
            if i < a.len() {
                assert((a + b)[i] == a[i]);
            } else {
                assert((a + b)[i] == b[i - a.len()]);
            }
        }
    }
}

/// On a whitespace-free document, skipping whitespace does nothing.
proof fn lemma_skip_ws_free(s: Seq<char>)
    requires
        whitespace_free(s),
    ensures
        skip_ws(s) == s,
{
    if s.len() > 0 {
        assert(!is_ws(s[0]));
    }
}

/// A parsed string body is the escaped content, the closing quote, and the
/// remainder, exactly.
proof fn lemma_parse_string_body_reconstruct(s: Seq<char>)
    ensures
        parse_string_body(s) matches Some((t, r)) ==> s == escape(t) + seq!['"'] + r,
    decreases s.len(),
{
    if s.len() == 0 {
    } else if s[0] == '"' {
        if let Some((t, r)) = parse_string_body(s) {
            assert(escape(t) =~= Seq::<char>::empty());
            assert(escape(t) + seq!['"'] + r =~= s);
        }
    } else if s[0] == '\\' {
        if s.len() >= 2 && (s[1] == '"' || s[1] == '\\') {
            lemma_parse_string_body_reconstruct(s.skip(2));
            if let Some((t, r)) = parse_string_body(s) {
                let (t1, _) = parse_string_body(s.skip(2))->Some_0;
                assert(t == seq![s[1]] + t1);
                assert(t[0] == s[1]);
                assert(t.drop_first() =~= t1);
                assert(escape(t) == seq!['\\', t[0]] + escape(t1));
                assert(escape(t) + seq!['"'] + r =~= seq!['\\', s[1]] + (escape(t1)
                    + seq!['"'] + r));
                assert(seq!['\\', s[1]] + s.skip(2) =~= s);
            }
        }
    } else {
        lemma_parse_string_body_reconstruct(s.drop_first());
        if let Some((t, r)) = parse_string_body(s) {
            let (t1, _) = parse_string_body(s.drop_first())->Some_0;
            assert(t == seq![s[0]] + t1);
            assert(t[0] == s[0]);
            assert(t.drop_first() =~= t1);
            assert(escape(t) == seq![t[0]] + escape(t1));
            assert(escape(t) + seq!['"'] + r =~= seq![s[0]] + (escape(t1) + seq!['"'] + r));
            assert(seq![s[0]] + s.drop_first() =~= s);
        }
    }
}

/// A parsed string on a whitespace-free document is its quoted, escaped form
/// followed by the remainder, exactly.
proof fn lemma_parse_string_reconstruct(s: Seq<char>)
    requires
        whitespace_free(s),
    ensures
        parse_string(s) matches Some((t, r)) ==> s == seq!['"'] + escape(t) + seq!['"'] + r
            && whitespace_free(r),
{
    lemma_skip_ws_free(s);
    if s.len() > 0 && s[0] == '"' {
        lemma_parse_string_body_reconstruct(s.drop_first());
        if let Some((t, r)) = parse_string(s) {
            assert(s.drop_first() == escape(t) + seq!['"'] + r);
            assert(seq!['"'] + escape(t) + seq!['"'] + r =~= seq![s[0]] + s.drop_first());
            assert(seq![s[0]] + s.drop_first() =~= s);
            lemma_whitespace_free_concat(seq!['"'] + escape(t) + seq!['"'], r);
        }
    }
}

/// A consumed punctuation character on a whitespace-free document heads it.
proof fn lemma_expect_char_reconstruct(s: Seq<char>, c: char)
    requires
        whitespace_free(s),
    ensures
        expect_char(s, c) matches Some(r) ==> s == seq![c] + r && whitespace_free(r),
{
    lemma_skip_ws_free(s);
    if s.len() > 0 && s[0] == c {
        assert(seq![c] + s.drop_first() =~= s);
        lemma_whitespace_free_concat(seq![c], s.drop_first());
    }
}

/// An accepted status token is the table's token for its status.
proof fn lemma_status_of_token_sound(token: Seq<char>)
    ensures
        spec_status_of_token(token) matches Some(st) ==> token == spec_status_token(st),
{
}

/// An accepted dependency name is the table's name for its dependency.
proof fn lemma_dependency_of_token_sound(token: Seq<char>)
    ensures
        spec_dependency_of_token(token) matches Some(d) ==> token == spec_dependency_token(d),
{
}

/// A parsed field on a whitespace-free document is its encoded form followed
/// by the remainder, exactly.
proof fn lemma_parse_field_reconstruct(s: Seq<char>, name: Seq<char>)
    requires
        whitespace_free(s),
    ensures
        parse_field(s, name) matches Some((value, r)) ==> s == seq!['"'] + escape(name)
            + seq!['"'] + seq![':'] + seq!['"'] + escape(value) + seq!['"'] + r
            && whitespace_free(r),
{
    lemma_parse_string_reconstruct(s);
    if let Some((key, r1)) = parse_string(s) {
        if key == name {
            assert(s == seq!['"'] + escape(key) + seq!['"'] + r1);
            lemma_expect_char_reconstruct(r1, ':');
            if let Some(r2) = expect_char(r1, ':') {
                assert(r1 == seq![':'] + r2);
                lemma_parse_string_reconstruct(r2);
                if let Some((value, r)) = parse_string(r2) {
                    assert(r2 == seq!['"'] + escape(value) + seq!['"'] + r);
                    assert(seq!['"'] + escape(name) + seq!['"'] + seq![':'] + seq!['"']
                        + escape(value) + seq!['"'] + r =~= seq!['"'] + escape(key) + seq!['"']
                        + (seq![':'] + (seq!['"'] + escape(value) + seq!['"'] + r)));
                }
            }
        }
    }
}

/// A parsed dependency object on a whitespace-free document is the encoding
/// of its outcome followed by the remainder, exactly.
#[verifier::rlimit(100)]
proof fn lemma_parse_entry_reconstruct(s: Seq<char>)
    requires
        whitespace_free(s),
    ensures
        parse_entry(s) matches Ok((d, r)) ==> s == spec_encode_dependency(d) + r
            && whitespace_free(r),
{
    reveal_strlit("{\"");
    reveal_strlit("\":\"");
    reveal_strlit("\"}");
    assert("{\""@ =~= seq!['{', '"']);
    assert("\":\""@ =~= seq!['"', ':', '"']);
    assert("\"}"@ =~= seq!['"', '}']);
    lemma_expect_char_reconstruct(s, '{');
    if let Some(r0) = expect_char(s, '{') {
        assert(s == seq!['{'] + r0);
        lemma_parse_string_reconstruct(r0);
        if let Some((name, r2)) = parse_string(r0) {
            assert(r0 == seq!['"'] + escape(name) + seq!['"'] + r2);
            if let Some(dependency) = spec_dependency_of_token(name) {
                lemma_dependency_of_token_sound(name);
                lemma_dependency_token_inverse(dependency);
                lemma_escape_plain(name);
                lemma_expect_char_reconstruct(r2, ':');
                if let Some(r3) = expect_char(r2, ':') {
                    assert(r2 == seq![':'] + r3);
                    lemma_parse_string_reconstruct(r3);
                    if let Some((token, r4)) = parse_string(r3) {
                        assert(r3 == seq!['"'] + escape(token) + seq!['"'] + r4);
                        if let Some(status) = spec_status_of_token(token) {
                            lemma_status_of_token_sound(token);
                            lemma_status_token_inverse(status);
                            lemma_escape_plain(token);
                            lemma_expect_char_reconstruct(r4, '}');
                            if let Some(r5) = expect_char(r4, '}') {
                                assert(r4 == seq!['}'] + r5);
                                let d = DependencyStatus { dependency, status };
                                assert(spec_encode_dependency(d) + r5 =~= seq!['{'] + (seq!['"']
                                    + name + seq!['"'] + (seq![':'] + (seq!['"'] + token
                                    + seq!['"'] + (seq!['}'] + r5)))));
                            }
                        }
                    }
                }
            }
        }
    }
}

/// A parsed continuation on a whitespace-free document is the encoded
/// continuation followed by the remainder, exactly.
#[verifier::rlimit(100)]
proof fn lemma_parse_dependencies_rest_reconstruct(s: Seq<char>)
    requires
        whitespace_free(s),
    ensures
        parse_dependencies_rest(s) matches Ok((ds, r)) ==> s == spec_encode_dependencies_rest(
            ds,
        ) + seq![']'] + r && whitespace_free(r),
    decreases s.len(),
{
    lemma_skip_ws_free(s);
    if s.len() > 0 && s[0] == ']' {
        if let Ok((ds, r)) = parse_dependencies_rest(s) {
            assert(ds =~= Seq::<DependencyStatus>::empty());
            assert(spec_encode_dependencies_rest(ds) =~= Seq::<char>::empty());
            assert(spec_encode_dependencies_rest(ds) + seq![']'] + r =~= seq![s[0]]
                + s.drop_first());
            assert(seq![s[0]] + s.drop_first() =~= s);
            lemma_whitespace_free_concat(seq![s[0]], s.drop_first());
        }
    } else if s.len() > 0 && s[0] == ',' {
        let after = s.drop_first();
        assert(seq![','] + after =~= s);
        lemma_whitespace_free_concat(seq![','], after);
        lemma_parse_entry_reconstruct(after);
        lemma_parse_entry_progress(after);
        if let Ok((d, r2)) = parse_entry(after) {
            assert(after == spec_encode_dependency(d) + r2);
            lemma_parse_dependencies_rest_reconstruct(r2);
            if let Ok((ds2, r)) = parse_dependencies_rest(r2) {
                assert(r2 == spec_encode_dependencies_rest(ds2) + seq![']'] + r);
                let ds = seq![d] + ds2;
                assert(ds[0] == d);
                assert(ds.drop_first() =~= ds2);
                assert(spec_encode_dependencies_rest(ds) == seq![','] + spec_encode_dependency(
                    d,
                ) + spec_encode_dependencies_rest(ds2));
                assert(spec_encode_dependencies_rest(ds) + seq![']'] + r =~= seq![',']
                    + (spec_encode_dependency(d) + (spec_encode_dependencies_rest(ds2)
                    + seq![']'] + r)));
            }
        }
    }
}

/// A parsed dependency list on a whitespace-free document is the encoded list
/// followed by the remainder, exactly.
proof fn lemma_parse_dependencies_reconstruct(s: Seq<char>)
    requires
        whitespace_free(s),
    ensures
        parse_dependencies(s) matches Ok((ds, r)) ==> s == spec_encode_dependencies(ds)
            + seq![']'] + r && whitespace_free(r),
{
    lemma_skip_ws_free(s);
    if s.len() > 0 && s[0] == ']' {
        if let Ok((ds, r)) = parse_dependencies(s) {
            assert(ds =~= Seq::<DependencyStatus>::empty());
            assert(spec_encode_dependencies(ds) =~= Seq::<char>::empty());
            assert(spec_encode_dependencies(ds) + seq![']'] + r =~= seq![s[0]]
                + s.drop_first());
            assert(seq![s[0]] + s.drop_first() =~= s);
            lemma_whitespace_free_concat(seq![s[0]], s.drop_first());
        }
    } else {
        lemma_parse_entry_reconstruct(s);
        if let Ok((d, r2)) = parse_entry(s) {
            assert(s == spec_encode_dependency(d) + r2);
            lemma_parse_dependencies_rest_reconstruct(r2);
            if let Ok((ds2, r)) = parse_dependencies_rest(r2) {
                assert(r2 == spec_encode_dependencies_rest(ds2) + seq![']'] + r);
                let ds = seq![d] + ds2;
                assert(ds[0] == d);
                assert(ds.drop_first() =~= ds2);
                lemma_encode_dependencies_split(ds);
                assert(spec_encode_dependencies(ds) + seq![']'] + r =~= spec_encode_dependency(
                    d,
                ) + (spec_encode_dependencies_rest(ds2) + seq![']'] + r));
            }
        }
    }
}

/// The reverse round-trip contract: a whitespace-free document that decodes
/// re-encodes to itself, byte for byte. Documents with whitespace between
/// tokens decode all the same, but re-encode without it, so they match the
/// canonical form only after stripping whitespace; they are left out here.
#[verifier::rlimit(100)]
pub proof fn lemma_decode_encode_round_trip(s: Seq<char>, v: ServiceStatusView)
    requires
        spec_decode(s) == Ok::<ServiceStatusView, DecodeErrorView>(v),
        whitespace_free(s),
    ensures
        s == spec_encode(v),
{
    reveal_strlit("env");
    reveal_strlit("build");
    reveal_strlit("commit");
    reveal_strlit("status");
    reveal_strlit("dependencies");
    assert(plain("env"@));
    assert(plain("build"@));
    assert(plain("commit"@));
    assert(plain("status"@));
    assert(plain("dependencies"@));
    lemma_escape_plain("env"@);
    lemma_escape_plain("build"@);
    lemma_escape_plain("commit"@);
    lemma_escape_plain("status"@);
    lemma_escape_plain("dependencies"@);

    lemma_expect_char_reconstruct(s, '{');
    assert(expect_char(s, '{') is Some);
    let r0 = expect_char(s, '{')->Some_0;

    lemma_parse_field_reconstruct(r0, "env"@);
    assert(parse_field(r0, "env"@) is Some);
    let (env, r1) = parse_field(r0, "env"@)->Some_0;

    lemma_expect_char_reconstruct(r1, ',');
    assert(expect_char(r1, ',') is Some);
    let r2 = expect_char(r1, ',')->Some_0;

    lemma_parse_field_reconstruct(r2, "build"@);
    assert(parse_field(r2, "build"@) is Some);
    let (build, r3) = parse_field(r2, "build"@)->Some_0;

    lemma_expect_char_reconstruct(r3, ',');
    assert(expect_char(r3, ',') is Some);
    let r4 = expect_char(r3, ',')->Some_0;

    lemma_parse_field_reconstruct(r4, "commit"@);
    assert(parse_field(r4, "commit"@) is Some);
    let (commit, r5) = parse_field(r4, "commit"@)->Some_0;

    lemma_expect_char_reconstruct(r5, ',');
    assert(expect_char(r5, ',') is Some);
    let r6 = expect_char(r5, ',')->Some_0;

    lemma_parse_field_reconstruct(r6, "status"@);
    assert(parse_field(r6, "status"@) is Some);
    let (token, r7) = parse_field(r6, "status"@)->Some_0;

    assert(spec_status_of_token(token) is Some);
    let status = spec_status_of_token(token)->Some_0;
    lemma_status_of_token_sound(token);
    lemma_status_token_inverse(status);
    lemma_escape_plain(spec_status_token(status));

    lemma_expect_char_reconstruct(r7, ',');
    assert(expect_char(r7, ',') is Some);
    let t0 = expect_char(r7, ',')->Some_0;

    lemma_parse_string_reconstruct(t0);
    assert(parse_string(t0) is Some);
    let (key, t1) = parse_string(t0)->Some_0;
    assert(key == "dependencies"@);

    lemma_expect_char_reconstruct(t1, ':');
    assert(expect_char(t1, ':') is Some);
    let t2 = expect_char(t1, ':')->Some_0;

    lemma_expect_char_reconstruct(t2, '[');
    assert(expect_char(t2, '[') is Some);
    let t3 = expect_char(t2, '[')->Some_0;

    lemma_parse_dependencies_reconstruct(t3);
    assert(parse_dependencies(t3) is Ok);
    let (deps, t4) = parse_dependencies(t3)->Ok_0;

    lemma_expect_char_reconstruct(t4, '}');
    assert(expect_char(t4, '}') is Some);
    let t5 = expect_char(t4, '}')->Some_0;
    lemma_skip_ws_free(t5);
    assert(skip_ws(t5).len() == 0);
    assert(t5 =~= Seq::<char>::empty());

    assert(status == overall_status(deps));
    assert(v == (ServiceStatusView {
        version: VersionView { env, build, commit },
        status,
        dependencies: deps,
    }));

    assert(t4 =~= seq!['}']);
    assert(t3 =~= doc_deps_tail(v));
    assert(t0 =~= doc_deps_field(v));
    let f_status = doc_field("status"@, spec_status_token(v.status), seq![','] + doc_deps_field(v));
    assert(r6 =~= f_status);
    let f_commit = doc_field("commit"@, v.version.commit, seq![','] + f_status);
    assert(r4 =~= f_commit);
    let f_build = doc_field("build"@, v.version.build, seq![','] + f_commit);
    assert(r2 =~= f_build);
    let f_env = doc_field("env"@, v.version.env, seq![','] + f_build);
    assert(r0 =~= f_env);
    assert(s =~= seq!['{'] + f_env);
    assert(doc_flat(v) == seq!['{'] + f_env);
    lemma_encode_flat(v);
}

} // verus!
