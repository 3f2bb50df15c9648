//! The access policy: its data model, the atom and duration grammars, and
//! the structural validation that every loaded policy goes through.
use vstd::prelude::*;
use vstd::string::*;
use vstd::utf8::*;

use crate::text::str_eq;

verus! {

/// The selector that matches every principal, action or resource.
pub const ANY: &'static str = "any";

/// Longest accepted atom, in bytes.
pub const MAX_ATOM_LEN: usize = 64;

/// Largest number of rules a policy may hold.
pub const MAX_RULES: usize = 64;

/// Why a policy, an atom or a duration was refused.
#[derive(Debug)]
pub enum PolicyError {
    InvalidAtom { value: String, index: usize, byte: u8 },
    EmptyAtom { value: String },
    AtomTooLong { value: String, limit: usize },
    DuplicateRuleName { name: String },
    DuplicatePrincipalId { id: String },
    DuplicateResourceId { id: String },
    MissingSelector { rule: String, selector: &'static str },
    UnknownPrincipal { rule: String, principal: String },
    UnknownResource { rule: String, resource: String },
    InvalidDuration(String),
    TtlExceedsCaMax { rule: String },
    TooManyRules { actual: usize, limit: usize },
}

/// The mathematical value of a [`PolicyError`]: its strings as character
/// sequences.
pub enum PolicyFault {
    InvalidAtom { value: Seq<char>, index: int, byte: u8 },
    EmptyAtom { value: Seq<char> },
    AtomTooLong { value: Seq<char>, limit: int },
    DuplicateRuleName { name: Seq<char> },
    DuplicatePrincipalId { id: Seq<char> },
    DuplicateResourceId { id: Seq<char> },
    MissingSelector { rule: Seq<char>, selector: Seq<char> },
    UnknownPrincipal { rule: Seq<char>, principal: Seq<char> },
    UnknownResource { rule: Seq<char>, resource: Seq<char> },
    InvalidDuration(Seq<char>),
    TtlExceedsCaMax { rule: Seq<char> },
    TooManyRules { actual: int, limit: int },
}

impl View for PolicyError {
    type V = PolicyFault;

    open spec fn view(&self) -> PolicyFault {
        match self {
            PolicyError::InvalidAtom { value, index, byte } => PolicyFault::InvalidAtom {
                value: value@,
                index: *index as int,
                byte: *byte,
            },
            PolicyError::EmptyAtom { value } => PolicyFault::EmptyAtom { value: value@ },
            PolicyError::AtomTooLong { value, limit } => PolicyFault::AtomTooLong {
                value: value@,
                limit: *limit as int,
            },
            PolicyError::DuplicateRuleName { name } => PolicyFault::DuplicateRuleName {
                name: name@,
            },
            PolicyError::DuplicatePrincipalId { id } => PolicyFault::DuplicatePrincipalId {
                id: id@,
            },
            PolicyError::DuplicateResourceId { id } => PolicyFault::DuplicateResourceId {
                id: id@,
            },
            PolicyError::MissingSelector { rule, selector } => PolicyFault::MissingSelector {
                rule: rule@,
                selector: selector@,
            },
            PolicyError::UnknownPrincipal { rule, principal } => PolicyFault::UnknownPrincipal {
                rule: rule@,
                principal: principal@,
            },
            PolicyError::UnknownResource { rule, resource } => PolicyFault::UnknownResource {
                rule: rule@,
                resource: resource@,
            },
            PolicyError::InvalidDuration(v) => PolicyFault::InvalidDuration(v@),
            PolicyError::TtlExceedsCaMax { rule } => PolicyFault::TtlExceedsCaMax { rule: rule@ },
            PolicyError::TooManyRules { actual, limit } => PolicyFault::TooManyRules {
                actual: *actual as int,
                limit: *limit as int,
            },
        }
    }
}

/// A result with its error taken by its view.
pub open spec fn policy_result<T>(r: Result<T, PolicyError>) -> Result<T, PolicyFault> {
    match r {
        Ok(v) => Ok(v),
        Err(e) => Err(e@),
    }
}

/// An outcome that may be undefined (`None`) with its error taken by its view.
pub open spec fn policy_outcome<T>(r: Option<Result<T, PolicyError>>) -> Option<
    Result<T, PolicyFault>,
> {
    match r {
        Some(x) => Some(policy_result(x)),
        None => None,
    }
}

#[derive(Debug, Clone)]
pub struct PolicyFile {
    pub version: u32,
    pub ca: CaConfig,
    pub principals: Vec<PrincipalConfig>,
    pub resources: Vec<ResourceConfig>,
    pub rules: Vec<RuleConfig>,
}

#[derive(Debug, Clone)]
pub struct CaConfig {
    pub name: String,
    pub default_ttl: String,
    pub max_ttl: String,
}

#[derive(Debug, Clone)]
pub struct PrincipalConfig {
    pub id: String,
    pub ssh_principals: Vec<String>,
}

#[derive(Debug, Clone)]
pub struct ResourceConfig {
    pub id: String,
    pub host: String,
    pub trusted_ca_path: String,
}

#[derive(Debug, Clone, Copy, PartialEq, Eq, Structural)]
pub enum Effect {
    Allow,
    Deny,
}

#[derive(Debug, Clone)]
pub struct RuleConfig {
    pub name: String,
    pub effect: Effect,
    pub principal: Option<String>,
    pub action: Option<String>,
    pub resource: Option<String>,
    pub ssh_principal: Option<String>,
    pub max_ttl: Option<String>,
}

// ---------------------------------------------------------------------------
// Atoms
// ---------------------------------------------------------------------------

/// The bytes an atom may hold: lower-case ASCII letters, digits, and
/// `.`, `_`, `:`, `/`, `-`.
pub open spec fn atom_byte_allowed(b: u8) -> bool {
    (97 <= b && b <= 122) || (48 <= b && b <= 57) || b == 46 || b == 95 || b == 58 || b == 47
        || b == 45
}

/// `i` is the position of the first byte of `b` that an atom may not hold.
pub open spec fn is_first_disallowed(b: Seq<u8>, i: int) -> bool {
    &&& 0 <= i < b.len()
    &&& !atom_byte_allowed(b[i])
    &&& forall|j: int| 0 <= j < i ==> atom_byte_allowed(#[trigger] b[j])
}

/// What `validate_atom` answers for a string with the characters `value`.
pub open spec fn spec_validate_atom(value: Seq<char>) -> Result<(), PolicyFault> {
    let b = encode_utf8(value);
    if b.len() == 0 {
        Err(PolicyFault::EmptyAtom { value })
    } else if b.len() > 64 {
        Err(PolicyFault::AtomTooLong { value, limit: 64 })
    } else if exists|i: int| is_first_disallowed(b, i) {
        let i = choose|i: int| is_first_disallowed(b, i);
        Err(PolicyFault::InvalidAtom { value, index: i, byte: b[i] })
    } else {
        Ok(())
    }
}

/// `value` is an atom: between 1 and 64 bytes of UTF-8, each of them allowed.
pub open spec fn is_atom(value: Seq<char>) -> bool {
    let b = encode_utf8(value);
    &&& 1 <= b.len() <= 64
    &&& forall|i: int| 0 <= i < b.len() ==> atom_byte_allowed(#[trigger] b[i])
}

proof fn lemma_first_disallowed_exists(b: Seq<u8>, i: int)
    requires
        0 <= i < b.len(),
        !atom_byte_allowed(b[i]),
    ensures
        exists|k: int| is_first_disallowed(b, k),
    decreases i,
{
    if exists|j: int| 0 <= j < i && !atom_byte_allowed(#[trigger] b[j]) {
        let j = choose|j: int| 0 <= j < i && !atom_byte_allowed(#[trigger] b[j]);
        lemma_first_disallowed_exists(b, j);
    } else {
        assert(is_first_disallowed(b, i));
    }
}

/// `validate_atom` accepts exactly the atoms.
pub proof fn lemma_validate_atom_accepts_atoms(value: Seq<char>)
    ensures
        spec_validate_atom(value) is Ok <==> is_atom(value),
{
    let b = encode_utf8(value);
    if is_atom(value) {
        assert forall|k: int| !is_first_disallowed(b, k) by {
            if 0 <= k < b.len() {
                assert(atom_byte_allowed(b[k]));
            }
        }
    } else if 1 <= b.len() <= 64 {
        let i = choose|i: int| 0 <= i < b.len() && !atom_byte_allowed(#[trigger] b[i]);
        lemma_first_disallowed_exists(b, i);
    }
}

fn is_atom_byte(b: u8) -> (r: bool)
    ensures
        r == atom_byte_allowed(b),
{
    // a..=z, 0..=9, '.', '_', ':', '/', '-'
    (97 <= b && b <= 122) || (48 <= b && b <= 57) || b == 46 || b == 95 || b == 58 || b == 47
        || b == 45
}

/// Checks that `value` is an atom. On refusal, says why: empty, longer than
/// [`MAX_ATOM_LEN`] bytes, or the position and value of the first byte that
/// is not allowed.
pub fn validate_atom(value: &str) -> (r: Result<(), PolicyError>)
    ensures
        policy_result(r) == spec_validate_atom(value@),
        r is Ok <==> is_atom(value@),
{
    let bytes = value.as_bytes();
    let len = bytes.len();
    if len == 0 {
        return Err(PolicyError::EmptyAtom { value: value.to_owned() });
    }
    if len > MAX_ATOM_LEN {
        return Err(PolicyError::AtomTooLong { value: value.to_owned(), limit: MAX_ATOM_LEN });
    }
    let mut i: usize = 0;
    while i < len
        invariant
            len == bytes@.len(),
            bytes@ == encode_utf8(value@),
            1 <= len <= 64,
            i <= len,
            forall|j: int| 0 <= j < i ==> atom_byte_allowed(#[trigger] bytes@[j]),
        decreases len - i,
    {
        let byte = bytes[i];
        if !is_atom_byte(byte) {
            proof {
                let b = bytes@;
                assert(is_first_disallowed(b, i as int));
                let k = choose|k: int| is_first_disallowed(b, k);
                if k < i {
                    assert(atom_byte_allowed(b[k]));
                } else if k > i {
                    assert(atom_byte_allowed(b[i as int]));
                }
            }
            return Err(PolicyError::InvalidAtom { value: value.to_owned(), index: i, byte });
        }
        i = i + 1;
    }
    proof {
        let b = bytes@;
        assert forall|k: int| !is_first_disallowed(b, k) by {
            if 0 <= k < b.len() {
                assert(atom_byte_allowed(b[k]));
            }
        }
    }
    Ok(())
}

// ---------------------------------------------------------------------------
// Durations
// ---------------------------------------------------------------------------

/// `b` is an ASCII decimal digit.
pub open spec fn is_digit(b: u8) -> bool {
    48 <= b && b <= 57
}

/// The number written by the decimal digits `d`.
pub open spec fn decimal_value(d: Seq<u8>) -> nat
    decreases d.len(),
{
    if d.len() == 0 {
        0
    } else {
        decimal_value(d.drop_last()) * 10 + (d.last() - 48) as nat
    }
}

/// The digits of an unsigned number as `u64`'s `FromStr` reads it: an
/// optional leading `+`, then at least one decimal digit.
pub open spec fn unsigned_digits(s: Seq<u8>) -> Seq<u8> {
    if s.len() > 0 && s[0] == 43 {
        s.drop_first()
    } else {
        s
    }
}

/// The value `u64`'s `FromStr` gives the text `s`, or `None` where it fails
/// (no digit, a byte that is not a digit, or a value above `u64::MAX`).
pub open spec fn spec_parse_u64(s: Seq<u8>) -> Option<u64> {
    let d = unsigned_digits(s);
    if d.len() > 0 && (forall|i: int| 0 <= i < d.len() ==> is_digit(#[trigger] d[i]))
        && decimal_value(d) <= u64::MAX {
        Some(decimal_value(d) as u64)
    } else {
        None
    }
}

/// The number of seconds in one unit of the duration suffix `c`
/// (`s`, `m` or `h`), or 0 for any other byte.
pub open spec fn unit_seconds(c: u8) -> nat {
    if c == 115 {
        1
    } else if c == 109 {
        60
    } else if c == 104 {
        3600
    } else {
        0
    }
}

/// What `parse_duration_seconds` gives for a text with characters `value`:
/// a number followed by one of the suffixes `s`, `m`, `h`. `None` marks the
/// texts on which the computation cannot finish: the last character is not
/// a single byte, or the number of seconds does not fit in a `u64`.
pub open spec fn spec_parse_duration(value: Seq<char>) -> Option<Result<u64, PolicyFault>> {
    let b = encode_utf8(value);
    if b.len() < 2 {
        Some(Err(PolicyFault::InvalidDuration(value)))
    } else if !is_char_boundary(b, b.len() - 1) {
        None
    } else {
        match spec_parse_u64(b.take(b.len() - 1)) {
            None => Some(Err(PolicyFault::InvalidDuration(value))),
            Some(n) => {
                let unit = unit_seconds(b.last());
                if unit == 0 {
                    Some(Err(PolicyFault::InvalidDuration(value)))
                } else if n * unit > u64::MAX {
                    None
                } else {
                    Some(Ok((n * unit) as u64))
                }
            },
        }
    }
}

proof fn lemma_decimal_value_prefix(d: Seq<u8>, k: int)
    requires
        0 <= k <= d.len(),
    ensures
        decimal_value(d.take(k)) <= decimal_value(d),
    decreases d.len(),
{
    if k == d.len() {
        assert(d.take(k) =~= d);
    } else {
        lemma_decimal_value_prefix(d.drop_last(), k);
        assert(d.drop_last().take(k) =~= d.take(k));
    }
}

/// Reads a decimal unsigned number as `u64`'s `FromStr` does.
fn parse_u64(s: &[u8]) -> (r: Option<u64>)
    ensures
        r == spec_parse_u64(s@),
{
    let len = s.len();
    let mut start: usize = 0;
    if len > 0 && s[0] == 43 {  // '+'
        start = 1;
    }
    let ghost d = unsigned_digits(s@);
    assert(d =~= s@.subrange(start as int, len as int));
    if start == len {
        return None;
    }
    let mut i: usize = start;
    while i < len
        invariant
            start <= i <= len,
            len == s@.len(),
            d =~= s@.subrange(start as int, len as int),
            d == unsigned_digits(s@),
            forall|j: int| 0 <= j < i - start ==> is_digit(#[trigger] d[j]),
        decreases len - i,
    {
        if !(48 <= s[i] && s[i] <= 57) {  // not '0'..='9'
            proof {
                assert(d[i - start] == s@[i as int]);
                assert(!is_digit(d[i - start]));
            }
            return None;
        }
        i = i + 1;
    }
    let mut v: u64 = 0;
    let mut i: usize = start;
    while i < len
        invariant
            start <= i <= len,
            len == s@.len(),
            d =~= s@.subrange(start as int, len as int),
            d == unsigned_digits(s@),
            forall|j: int| 0 <= j < d.len() ==> is_digit(#[trigger] d[j]),
            v == decimal_value(d.take(i - start)),
        decreases len - i,
    {
        proof {
            assert(d[i - start] == s@[i as int]);
            assert(is_digit(d[i - start]));
            assert(d.take(i - start + 1).drop_last() =~= d.take(i - start));
            assert(d.take(i - start + 1).last() == s@[i as int]);
        }
        let digit = (s[i] - 48) as u64;
        if v > (u64::MAX - digit) / 10 {
            proof {
                let m = u64::MAX as int;
                assert(v * 10 + digit > m) by (nonlinear_arith)
                    requires
                        v > (m - digit) / 10,
                        0 <= digit <= 9,
                        m > 9,
                ;
                assert(decimal_value(d.take(i - start + 1)) > u64::MAX);
                lemma_decimal_value_prefix(d, i - start + 1);
            }
            return None;
        }
        v = v * 10 + digit;
        i = i + 1;
    }
    proof {
        assert(d.take(len - start) =~= d);
    }
    Some(v)
}

/// Whether `parse_duration_seconds` can run to completion on `value`. A
/// caller that cannot prove this tests it first.
pub fn duration_parse_defined(value: &str) -> (r: bool)
    ensures
        r == (spec_parse_duration(value@) is Some),
{
    parse_duration_outcome(value).is_some()
}

fn parse_duration_outcome(value: &str) -> (r: Option<Result<u64, PolicyError>>)
    ensures
        policy_outcome(r) == spec_parse_duration(value@),
{
    let bytes = value.as_bytes();
    let len = bytes.len();
    if len < 2 {
        return Some(Err(PolicyError::InvalidDuration(value.to_owned())));
    }
    if !value.is_char_boundary(len - 1) {
        return None;
    }
    let (number, suffix) = value.split_at(len - 1);
    proof {
        assert(number.spec_bytes() =~= bytes@.take(len - 1));
    }
    let number = match parse_u64(number.as_bytes()) {
        Some(n) => n,
        None => return Some(Err(PolicyError::InvalidDuration(value.to_owned()))),
    };
    let unit = suffix.as_bytes()[0];
    proof {
        assert(suffix.spec_bytes()[0] == bytes@.last());
    }
    if unit == 115 {  // 's'
        Some(Ok(number))
    } else if unit == 109 {  // 'm'
        if number > u64::MAX / 60 {
            None
        } else {
            Some(Ok(number * 60))
        }
    } else if unit == 104 {  // 'h'
        if number > u64::MAX / 3600 {
            None
        } else {
            Some(Ok(number * 60 * 60))
        }
    } else {
        Some(Err(PolicyError::InvalidDuration(value.to_owned())))
    }
}

/// Reads a duration such as `30s`, `5m` or `2h` as a number of seconds.
pub fn parse_duration_seconds(value: &str) -> (r: Result<u64, PolicyError>)
    requires
        spec_parse_duration(value@) is Some,
    ensures
        policy_result(r) == spec_parse_duration(value@).unwrap(),
{
    match parse_duration_outcome(value) {
        Some(r) => r,
        None => {
            proof {
                assert(false);
            }
            Err(PolicyError::InvalidDuration(value.to_owned()))
        },
    }
}

// ---------------------------------------------------------------------------
// Checks in sequence
// ---------------------------------------------------------------------------

/// The first of two checks that fails, or success.
pub open spec fn and_check(a: Result<(), PolicyFault>, b: Result<(), PolicyFault>) -> Result<
    (),
    PolicyFault,
> {
    match a {
        Ok(_) => b,
        Err(e) => Err(e),
    }
}

/// The outcome of running the checks `f(0)`, ..., `f(n - 1)` in order and
/// stopping at the first that fails.
pub open spec fn first_error(f: spec_fn(int) -> Result<(), PolicyFault>, n: int) -> Result<
    (),
    PolicyFault,
>
    decreases n,
{
    if n <= 0 {
        Ok(())
    } else {
        and_check(first_error(f, n - 1), f(n - 1))
    }
}

/// Like [`first_error`], for checks that may also be undefined (`None`),
/// which stops the run as a failure does.
pub open spec fn first_failure(f: spec_fn(int) -> Option<Result<(), PolicyFault>>, n: int) -> Option<
    Result<(), PolicyFault>,
>
    decreases n,
{
    if n <= 0 {
        Some(Ok(()))
    } else {
        match first_failure(f, n - 1) {
            Some(Ok(_)) => f(n - 1),
            other => other,
        }
    }
}

/// Once a check in the run fails, the run's outcome is that failure.
pub proof fn lemma_first_error_stops(f: spec_fn(int) -> Result<(), PolicyFault>, i: int, n: int)
    requires
        0 <= i < n,
        first_error(f, i + 1) is Err,
    ensures
        first_error(f, n) == first_error(f, i + 1),
    decreases n,
{
    if n > i + 1 {
        lemma_first_error_stops(f, i, n - 1);
    }
}

/// A run succeeds only when every check in it does.
pub proof fn lemma_first_error_ok(f: spec_fn(int) -> Result<(), PolicyFault>, n: int, k: int)
    requires
        first_error(f, n) is Ok,
        0 <= k < n,
    ensures
        f(k) is Ok,
        first_error(f, k) is Ok,
    decreases n,
{
    if k < n - 1 {
        lemma_first_error_ok(f, n - 1, k);
    }
}

/// Once a check in the run fails or is undefined, that is the run's outcome.
pub proof fn lemma_first_failure_stops(
    f: spec_fn(int) -> Option<Result<(), PolicyFault>>,
    i: int,
    n: int,
)
    requires
        0 <= i < n,
        !(first_failure(f, i + 1) matches Some(Ok(_))),
    ensures
        first_failure(f, n) == first_failure(f, i + 1),
    decreases n,
{
    if n > i + 1 {
        lemma_first_failure_stops(f, i, n - 1);
    }
}

/// A run succeeds only when every check in it does.
pub proof fn lemma_first_failure_ok(
    f: spec_fn(int) -> Option<Result<(), PolicyFault>>,
    n: int,
    k: int,
)
    requires
        first_failure(f, n) matches Some(Ok(_)),
        0 <= k < n,
    ensures
        f(k) matches Some(Ok(_)),
        first_failure(f, k) matches Some(Ok(_)),
    decreases n,
{
    if k < n - 1 {
        lemma_first_failure_ok(f, n - 1, k);
    }
}

/// The characters of each string slice.
pub open spec fn str_views(xs: Seq<&str>) -> Seq<Seq<char>> {
    xs.map_values(|s: &str| s@)
}

/// Whether `x` is among the strings `xs`.
pub fn contains_str(xs: &Vec<&str>, x: &str) -> (r: bool)
    ensures
        r == str_views(xs@).contains(x@),
{
    let n = xs.len();
    let mut i: usize = 0;
    while i < n
        invariant
            n == xs@.len(),
            i <= n,
            forall|j: int| 0 <= j < i ==> xs@[j]@ != x@,
        decreases n - i,
    {
        if str_eq(xs[i], x) {
            proof {
                assert(str_views(xs@)[i as int] == x@);
            }
            return true;
        }
        i = i + 1;
    }
    proof {
        assert forall|j: int| 0 <= j < str_views(xs@).len() implies str_views(xs@)[j] != x@ by {
            assert(xs@[j]@ != x@);
        }
    }
    false
}

// ---------------------------------------------------------------------------
// Policy validation
// ---------------------------------------------------------------------------

/// The principal ids, in order.
pub open spec fn ids_of_principals(ps: Seq<PrincipalConfig>) -> Seq<Seq<char>> {
    ps.map_values(|p: PrincipalConfig| p.id@)
}

/// The resource ids, in order.
pub open spec fn ids_of_resources(rs: Seq<ResourceConfig>) -> Seq<Seq<char>> {
    rs.map_values(|r: ResourceConfig| r.id@)
}

/// The rule names, in order.
pub open spec fn names_of_rules(rules: Seq<RuleConfig>) -> Seq<Seq<char>> {
    rules.map_values(|r: RuleConfig| r.name@)
}

/// `xs[i]` already occurs before position `i`.
pub open spec fn seen_before(xs: Seq<Seq<char>>, i: int) -> bool {
    xs.take(i).contains(xs[i])
}

/// Each string of `xs` is checked to be an atom, in order.
pub open spec fn atom_checks(xs: Seq<String>) -> spec_fn(int) -> Result<(), PolicyFault> {
    |k: int| spec_validate_atom(xs[k]@)
}

/// The checks on the principal at position `i`: its id is an atom not seen
/// before, and each of its SSH principals is an atom.
pub open spec fn check_principal(ps: Seq<PrincipalConfig>, i: int) -> Result<(), PolicyFault> {
    let p = ps[i];
    and_check(
        spec_validate_atom(p.id@),
        and_check(
            if seen_before(ids_of_principals(ps), i) {
                Err(PolicyFault::DuplicatePrincipalId { id: p.id@ })
            } else {
                Ok(())
            },
            first_error(atom_checks(p.ssh_principals@), p.ssh_principals@.len() as int),
        ),
    )
}

pub open spec fn principal_checks(ps: Seq<PrincipalConfig>) -> spec_fn(int) -> Result<(), PolicyFault> {
    |k: int| check_principal(ps, k)
}

/// The checks on the resource at position `i`: its id and host are atoms,
/// and its id was not seen before.
pub open spec fn check_resource(rs: Seq<ResourceConfig>, i: int) -> Result<(), PolicyFault> {
    let r = rs[i];
    and_check(
        spec_validate_atom(r.id@),
        and_check(
            spec_validate_atom(r.host@),
            if seen_before(ids_of_resources(rs), i) {
                Err(PolicyFault::DuplicateResourceId { id: r.id@ })
            } else {
                Ok(())
            },
        ),
    )
}

pub open spec fn resource_checks(rs: Seq<ResourceConfig>) -> spec_fn(int) -> Result<(), PolicyFault> {
    |k: int| check_resource(rs, k)
}

/// A selector is `any` or an atom.
pub open spec fn spec_validate_selector(v: Seq<char>) -> Result<(), PolicyFault> {
    if v == ANY@ {
        Ok(())
    } else {
        spec_validate_atom(v)
    }
}

/// The checks on a rule whose three selectors are present.
pub open spec fn check_rule_selectors(
    p: PolicyFile,
    rule: RuleConfig,
    principal: Seq<char>,
    action: Seq<char>,
    resource: Seq<char>,
) -> Result<(), PolicyFault> {
    and_check(
        spec_validate_selector(principal),
        and_check(
            spec_validate_selector(action),
            and_check(
                spec_validate_selector(resource),
                and_check(
                    match rule.ssh_principal {
                        Some(s) => spec_validate_atom(s@),
                        None => Ok(()),
                    },
                    and_check(
                        if principal != ANY@ && !ids_of_principals(p.principals@).contains(principal) {
                            Err(PolicyFault::UnknownPrincipal { rule: rule.name@, principal })
                        } else {
                            Ok(())
                        },
                        if resource != ANY@ && !ids_of_resources(p.resources@).contains(resource) {
                            Err(PolicyFault::UnknownResource { rule: rule.name@, resource })
                        } else {
                            Ok(())
                        },
                    ),
                ),
            ),
        ),
    )
}

/// The check of a rule's own `max_ttl` against the CA's maximum.
pub open spec fn check_rule_ttl(rule: RuleConfig, ca_max: u64) -> Option<Result<(), PolicyFault>> {
    match rule.max_ttl {
        None => Some(Ok(())),
        Some(m) => match spec_parse_duration(m@) {
            None => None,
            Some(Err(e)) => Some(Err(e)),
            Some(Ok(t)) => if t > ca_max {
                Some(Err(PolicyFault::TtlExceedsCaMax { rule: rule.name@ }))
            } else {
                Some(Ok(()))
            },
        },
    }
}

/// The checks on the rule at position `i`, in the order `validate` makes
/// them.
pub open spec fn check_rule(p: PolicyFile, ca_max: u64, i: int) -> Option<Result<(), PolicyFault>> {
    let rule = p.rules@[i];
    let name = rule.name@;
    match and_check(
        spec_validate_atom(name),
        if seen_before(names_of_rules(p.rules@), i) {
            Err(PolicyFault::DuplicateRuleName { name })
        } else {
            Ok(())
        },
    ) {
        Err(e) => Some(Err(e)),
        Ok(_) => match (rule.principal, rule.action, rule.resource) {
            (None, _, _) => Some(
                Err(PolicyFault::MissingSelector { rule: name, selector: "principal"@ }),
            ),
            (Some(_), None, _) => Some(
                Err(PolicyFault::MissingSelector { rule: name, selector: "action"@ }),
            ),
            (Some(_), Some(_), None) => Some(
                Err(PolicyFault::MissingSelector { rule: name, selector: "resource"@ }),
            ),
            (Some(pr), Some(ac), Some(rs)) => match check_rule_selectors(p, rule, pr@, ac@, rs@) {
                Err(e) => Some(Err(e)),
                Ok(_) => check_rule_ttl(rule, ca_max),
            },
        },
    }
}

pub open spec fn rule_checks(p: PolicyFile, ca_max: u64) -> spec_fn(int) -> Option<
    Result<(), PolicyFault>,
> {
    |k: int| check_rule(p, ca_max, k)
}

/// What `validate` answers for `p`; `None` where it cannot finish (a
/// duration it reads cannot be computed, see [`spec_parse_duration`]).
pub open spec fn spec_validate(p: PolicyFile) -> Option<Result<(), PolicyFault>> {
    match spec_validate_atom(p.ca.name@) {
        Err(e) => Some(Err(e)),
        Ok(_) => match spec_parse_duration(p.ca.default_ttl@) {
            None => None,
            Some(Err(e)) => Some(Err(e)),
            Some(Ok(_)) => match spec_parse_duration(p.ca.max_ttl@) {
                None => None,
                Some(Err(e)) => Some(Err(e)),
                Some(Ok(ca_max)) => match and_check(
                    first_error(principal_checks(p.principals@), p.principals@.len() as int),
                    first_error(resource_checks(p.resources@), p.resources@.len() as int),
                ) {
                    Err(e) => Some(Err(e)),
                    Ok(_) => if p.rules@.len() > 64 {
                        Some(
                            Err(
                                PolicyFault::TooManyRules {
                                    actual: p.rules@.len() as int,
                                    limit: 64,
                                },
                            ),
                        )
                    } else {
                        first_failure(rule_checks(p, ca_max), p.rules@.len() as int)
                    },
                },
            },
        },
    }
}

/// The value of an optional string as a string slice.
pub fn opt_str(o: &Option<String>) -> (r: Option<&str>)
    ensures
        match *o {
            Some(s) => r matches Some(t) && t@ == s@,
            None => r is None,
        },
{
    match o {
        Some(s) => Some(s.as_str()),
        None => None,
    }
}

/// The selector `value` of `rule`, or the error that names the missing
/// `selector`.
pub fn required_selector<'a>(
    rule: &'a RuleConfig,
    selector: &'static str,
    value: Option<&'a str>,
) -> (r: Result<&'a str, PolicyError>)
    ensures
        match value {
            Some(v) => r matches Ok(w) && w@ == v@,
            None => r matches Err(e) && e@ == PolicyFault::MissingSelector {
                rule: rule.name@,
                selector: selector@,
            },
        },
{
    match value {
        Some(v) => Ok(v),
        None => Err(PolicyError::MissingSelector { rule: rule.name.clone(), selector }),
    }
}

/// A selector is `any` or an atom.
pub fn validate_selector(value: &str) -> (r: Result<(), PolicyError>)
    ensures
        policy_result(r) == spec_validate_selector(value@),
{
    if str_eq(value, ANY) {
        Ok(())
    } else {
        validate_atom(value)
    }
}

fn validate_atoms(xs: &Vec<String>) -> (r: Result<(), PolicyError>)
    ensures
        policy_result(r) == first_error(atom_checks(xs@), xs@.len() as int),
{
    let n = xs.len();
    let mut i: usize = 0;
    while i < n
        invariant
            n == xs@.len(),
            i <= n,
            first_error(atom_checks(xs@), i as int) == Ok::<(), PolicyFault>(()),
        decreases n - i,
    {
        match validate_atom(xs[i].as_str()) {
            Ok(()) => {},
            Err(e) => {
                proof {
                    lemma_first_error_stops(atom_checks(xs@), i as int, n as int);
                }
                return Err(e);
            },
        }
        i = i + 1;
    }
    Ok(())
}

fn validate_principal(ps: &Vec<PrincipalConfig>, i: usize, seen: &Vec<&str>) -> (r: Result<
    (),
    PolicyError,
>)
    requires
        i < ps@.len(),
        str_views(seen@) == ids_of_principals(ps@).take(i as int),
    ensures
        policy_result(r) == check_principal(ps@, i as int),
{
    let principal = &ps[i];
    proof {
        assert(ids_of_principals(ps@)[i as int] == principal.id@);
    }
    if let Err(e) = validate_atom(principal.id.as_str()) {
        Err(e)
    } else if contains_str(seen, principal.id.as_str()) {
        Err(PolicyError::DuplicatePrincipalId { id: principal.id.clone() })
    } else {
        validate_atoms(&principal.ssh_principals)
    }
}

fn validate_resource(rs: &Vec<ResourceConfig>, i: usize, seen: &Vec<&str>) -> (r: Result<
    (),
    PolicyError,
>)
    requires
        i < rs@.len(),
        str_views(seen@) == ids_of_resources(rs@).take(i as int),
    ensures
        policy_result(r) == check_resource(rs@, i as int),
{
    let resource = &rs[i];
    proof {
        assert(ids_of_resources(rs@)[i as int] == resource.id@);
    }
    if let Err(e) = validate_atom(resource.id.as_str()) {
        Err(e)
    } else if let Err(e) = validate_atom(resource.host.as_str()) {
        Err(e)
    } else if contains_str(seen, resource.id.as_str()) {
        Err(PolicyError::DuplicateResourceId { id: resource.id.clone() })
    } else {
        Ok(())
    }
}

fn validate_principals<'a>(ps: &'a Vec<PrincipalConfig>) -> (r: Result<Vec<&'a str>, PolicyError>)
    ensures
        match r {
            Ok(ids) => first_error(principal_checks(ps@), ps@.len() as int) == Ok::<(), PolicyFault>(
                (),
            ) && str_views(ids@) == ids_of_principals(ps@),
            Err(e) => first_error(principal_checks(ps@), ps@.len() as int) == Err::<(), PolicyFault>(
                e@,
            ),
        },
{
    let np = ps.len();
    let mut ids: Vec<&str> = Vec::new();
    let mut i: usize = 0;
    while i < np
        invariant
            np == ps@.len(),
            i <= np,
            first_error(principal_checks(ps@), i as int) == Ok::<(), PolicyFault>(()),
            str_views(ids@) == ids_of_principals(ps@).take(i as int),
        decreases np - i,
    {
        let r = validate_principal(ps, i, &ids);
        proof {
            assert(principal_checks(ps@)(i as int) == check_principal(ps@, i as int));
        }
        if let Err(e) = r {
            proof {
                lemma_first_error_stops(principal_checks(ps@), i as int, np as int);
            }
            return Err(e);
        }
        let ghost before = ids@;
        ids.push(ps[i].id.as_str());
        proof {
            assert(str_views(before).len() == i);
            assert(ids@.len() == before.len() + 1);
            assert forall|j: int| 0 <= j < i + 1 implies str_views(ids@)[j] == ids_of_principals(
                ps@,
            ).take(i + 1)[j] by {
                if j < i {
                    assert(ids@[j] == before[j]);
                    assert(str_views(before)[j] == ids_of_principals(ps@).take(i as int)[j]);
                }
            }
            assert(str_views(ids@) =~= ids_of_principals(ps@).take(i + 1));
        }
        i = i + 1;
    }
    proof {
        assert(ids_of_principals(ps@).take(np as int) =~= ids_of_principals(ps@));
    }
    Ok(ids)
}

fn validate_resources<'a>(rs: &'a Vec<ResourceConfig>) -> (r: Result<Vec<&'a str>, PolicyError>)
    ensures
        match r {
            Ok(ids) => first_error(resource_checks(rs@), rs@.len() as int) == Ok::<(), PolicyFault>(
                (),
            ) && str_views(ids@) == ids_of_resources(rs@),
            Err(e) => first_error(resource_checks(rs@), rs@.len() as int) == Err::<(), PolicyFault>(
                e@,
            ),
        },
{
    let nr = rs.len();
    let mut ids: Vec<&str> = Vec::new();
    let mut i: usize = 0;
    while i < nr
        invariant
            nr == rs@.len(),
            i <= nr,
            first_error(resource_checks(rs@), i as int) == Ok::<(), PolicyFault>(()),
            str_views(ids@) == ids_of_resources(rs@).take(i as int),
        decreases nr - i,
    {
        let r = validate_resource(rs, i, &ids);
        proof {
            assert(resource_checks(rs@)(i as int) == check_resource(rs@, i as int));
        }
        if let Err(e) = r {
            proof {
                lemma_first_error_stops(resource_checks(rs@), i as int, nr as int);
            }
            return Err(e);
        }
        let ghost before = ids@;
        ids.push(rs[i].id.as_str());
        proof {
            assert(str_views(before).len() == i);
            assert(ids@.len() == before.len() + 1);
            assert forall|j: int| 0 <= j < i + 1 implies str_views(ids@)[j] == ids_of_resources(
                rs@,
            ).take(i + 1)[j] by {
                if j < i {
                    assert(ids@[j] == before[j]);
                    assert(str_views(before)[j] == ids_of_resources(rs@).take(i as int)[j]);
                }
            }
            assert(str_views(ids@) =~= ids_of_resources(rs@).take(i + 1));
        }
        i = i + 1;
    }
    proof {
        assert(ids_of_resources(rs@).take(nr as int) =~= ids_of_resources(rs@));
    }
    Ok(ids)
}

impl PolicyFile {
    /// The CA's default certificate lifetime, in seconds.
    pub fn ca_default_ttl_seconds(&self) -> (r: Result<u64, PolicyError>)
        requires
            spec_parse_duration(self.ca.default_ttl@) is Some,
        ensures
            policy_result(r) == spec_parse_duration(self.ca.default_ttl@).unwrap(),
    {
        parse_duration_seconds(self.ca.default_ttl.as_str())
    }

    /// The CA's maximum certificate lifetime, in seconds.
    pub fn ca_max_ttl_seconds(&self) -> (r: Result<u64, PolicyError>)
        requires
            spec_parse_duration(self.ca.max_ttl@) is Some,
        ensures
            policy_result(r) == spec_parse_duration(self.ca.max_ttl@).unwrap(),
    {
        parse_duration_seconds(self.ca.max_ttl.as_str())
    }

    /// Whether `validate` can run to completion on this policy. A caller
    /// that cannot prove this tests it first.
    pub fn validation_defined(&self) -> (r: bool)
        ensures
            r == (spec_validate(*self) is Some),
    {
        self.validate_outcome().is_some()
    }

    /// Checks the policy's structure: every name, id, host and selector is
    /// an atom (or `any`), ids and rule names are unique, every rule names
    /// its principal, action and resource, refers to known principals and
    /// resources, and asks for no longer lifetime than the CA allows; and
    /// there are at most [`MAX_RULES`] rules.
    pub fn validate(&self) -> (r: Result<(), PolicyError>)
        requires
            spec_validate(*self) is Some,
        ensures
            policy_result(r) == spec_validate(*self).unwrap(),
    {
        match self.validate_outcome() {
            Some(r) => r,
            None => {
                proof {
                    assert(false);
                }
                Ok(())
            },
        }
    }

    fn validate_outcome(&self) -> (r: Option<Result<(), PolicyError>>)
        ensures
            policy_outcome(r) == spec_validate(*self),
    {
        if let Err(e) = validate_atom(self.ca.name.as_str()) {
            return Some(Err(e));
        }
        match parse_duration_outcome(self.ca.default_ttl.as_str()) {
            None => return None,
            Some(Err(e)) => return Some(Err(e)),
            Some(Ok(_)) => {},
        }
        let ca_max_ttl = match parse_duration_outcome(self.ca.max_ttl.as_str()) {
            None => return None,
            Some(Err(e)) => return Some(Err(e)),
            Some(Ok(v)) => v,
        };
        let principal_ids = match validate_principals(&self.principals) {
            Ok(ids) => ids,
            Err(e) => return Some(Err(e)),
        };
        let resource_ids = match validate_resources(&self.resources) {
            Ok(ids) => ids,
            Err(e) => return Some(Err(e)),
        };
        if self.rules.len() > MAX_RULES {
            return Some(
                Err(PolicyError::TooManyRules { actual: self.rules.len(), limit: MAX_RULES }),
            );
        }
        self.validate_rules(&principal_ids, &resource_ids, ca_max_ttl)
    }

    fn validate_rules(&self, principal_ids: &Vec<&str>, resource_ids: &Vec<&str>, ca_max_ttl: u64) -> (r: Option<
        Result<(), PolicyError>,
    >)
        requires
            str_views(principal_ids@) == ids_of_principals(self.principals@),
            str_views(resource_ids@) == ids_of_resources(self.resources@),
        ensures
            policy_outcome(r) == first_failure(
                rule_checks(*self, ca_max_ttl),
                self.rules@.len() as int,
            ),
    {
        let ghost p = *self;
        let n = self.rules.len();
        let mut rule_names: Vec<&str> = Vec::new();
        let mut i: usize = 0;
        while i < n
            invariant
                n == self.rules@.len(),
                p == *self,
                i <= n,
                str_views(principal_ids@) == ids_of_principals(self.principals@),
                str_views(resource_ids@) == ids_of_resources(self.resources@),
                first_failure(rule_checks(p, ca_max_ttl), i as int) == Some(
                    Ok::<(), PolicyFault>(()),
                ),
                str_views(rule_names@) =~= names_of_rules(self.rules@).take(i as int),
            decreases n - i,
        {
            let rule = &self.rules[i];
            proof {
                assert(names_of_rules(self.rules@)[i as int] == rule.name@);
            }
            let r = self.validate_rule(i, &rule_names, principal_ids, resource_ids, ca_max_ttl);
            proof {
                assert(rule_checks(p, ca_max_ttl)(i as int) == check_rule(p, ca_max_ttl, i as int));
            }
            match r {
                Some(Ok(())) => {},
                _ => {
                    proof {
                        lemma_first_failure_stops(rule_checks(p, ca_max_ttl), i as int, n as int);
                    }
                    return r;
                },
            }
            rule_names.push(rule.name.as_str());
            proof {
                assert(names_of_rules(self.rules@).take(i + 1) =~= names_of_rules(self.rules@).take(
                    i as int,
                ).push(rule.name@));
            }
            i = i + 1;
        }
        Some(Ok(()))
    }

    fn validate_rule(
        &self,
        i: usize,
        rule_names: &Vec<&str>,
        principal_ids: &Vec<&str>,
        resource_ids: &Vec<&str>,
        ca_max_ttl: u64,
    ) -> (r: Option<Result<(), PolicyError>>)
        requires
            i < self.rules@.len(),
            str_views(principal_ids@) == ids_of_principals(self.principals@),
            str_views(resource_ids@) == ids_of_resources(self.resources@),
            str_views(rule_names@) == names_of_rules(self.rules@).take(i as int),
        ensures
            policy_outcome(r) == check_rule(*self, ca_max_ttl, i as int),
    {
        let rule = &self.rules[i];
        proof {
            assert(names_of_rules(self.rules@)[i as int] == rule.name@);
        }
        if let Err(e) = validate_atom(rule.name.as_str()) {
            return Some(Err(e));
        }
        if contains_str(rule_names, rule.name.as_str()) {
            return Some(Err(PolicyError::DuplicateRuleName { name: rule.name.clone() }));
        }
        let principal = match required_selector(rule, "principal", opt_str(&rule.principal)) {
            Ok(v) => v,
            Err(e) => return Some(Err(e)),
        };
        let action = match required_selector(rule, "action", opt_str(&rule.action)) {
            Ok(v) => v,
            Err(e) => return Some(Err(e)),
        };
        let resource = match required_selector(rule, "resource", opt_str(&rule.resource)) {
            Ok(v) => v,
            Err(e) => return Some(Err(e)),
        };
        if let Err(e) = validate_selector(principal) {
            return Some(Err(e));
        }
        if let Err(e) = validate_selector(action) {
            return Some(Err(e));
        }
        if let Err(e) = validate_selector(resource) {
            return Some(Err(e));
        }
        if let Some(ssh_principal) = &rule.ssh_principal {
            if let Err(e) = validate_atom(ssh_principal.as_str()) {
                return Some(Err(e));
            }
        }
        if !str_eq(principal, ANY) && !contains_str(principal_ids, principal) {
            return Some(
                Err(
                    PolicyError::UnknownPrincipal {
                        rule: rule.name.clone(),
                        principal: principal.to_owned(),
                    },
                ),
            );
        }
        if !str_eq(resource, ANY) && !contains_str(resource_ids, resource) {
            return Some(
                Err(
                    PolicyError::UnknownResource {
                        rule: rule.name.clone(),
                        resource: resource.to_owned(),
                    },
                ),
            );
        }
        if let Some(max_ttl) = &rule.max_ttl {
            match parse_duration_outcome(max_ttl.as_str()) {
                None => return None,
                Some(Err(e)) => return Some(Err(e)),
                Some(Ok(t)) => {
                    if t > ca_max_ttl {
                        return Some(Err(PolicyError::TtlExceedsCaMax { rule: rule.name.clone() }));
                    }
                },
            }
        }
        Some(Ok(()))
    }
}

// ---------------------------------------------------------------------------
// Lookups
// ---------------------------------------------------------------------------

/// The first position among the first `n` strings of `xs` that holds `x`.
pub open spec fn first_index_in(xs: Seq<Seq<char>>, x: Seq<char>, n: int) -> Option<int>
    decreases n,
{
    if n <= 0 {
        None
    } else {
        match first_index_in(xs, x, n - 1) {
            Some(i) => Some(i),
            None => if xs[n - 1] == x {
                Some(n - 1)
            } else {
                None
            },
        }
    }
}

/// The first position of `x` in `xs`.
pub open spec fn first_index(xs: Seq<Seq<char>>, x: Seq<char>) -> Option<int> {
    first_index_in(xs, x, xs.len() as int)
}

/// Once found, the first position stays the same as more strings are
/// looked at.
pub proof fn lemma_first_index_stable(xs: Seq<Seq<char>>, x: Seq<char>, k: int, n: int)
    requires
        0 <= k <= n,
        first_index_in(xs, x, k) is Some,
    ensures
        first_index_in(xs, x, n) == first_index_in(xs, x, k),
    decreases n,
{
    if n > k {
        lemma_first_index_stable(xs, x, k, n - 1);
    }
}

/// What `first_index` finds is `x`, and no earlier string is.
pub proof fn lemma_first_index_found(xs: Seq<Seq<char>>, x: Seq<char>, n: int)
    requires
        0 <= n <= xs.len(),
    ensures
        first_index_in(xs, x, n) matches Some(i) ==> 0 <= i < n && xs[i] == x && !xs.take(
            i,
        ).contains(x),
        first_index_in(xs, x, n) is None ==> !xs.take(n).contains(x),
    decreases n,
{
    if n > 0 {
        lemma_first_index_found(xs, x, n - 1);
        if first_index_in(xs, x, n - 1) is None {
            assert(xs.take(n) =~= xs.take(n - 1).push(xs[n - 1]));
        }
    } else {
        assert(xs.take(0).len() == 0);
    }
}

impl PolicyFile {
    /// The first principal with the given id.
    pub fn principal(&self, id: &str) -> (r: Option<&PrincipalConfig>)
        ensures
            match first_index(ids_of_principals(self.principals@), id@) {
                Some(i) => r == Some(&self.principals@[i]),
                None => r is None,
            },
    {
        let ghost xs = ids_of_principals(self.principals@);
        let n = self.principals.len();
        let mut i: usize = 0;
        while i < n
            invariant
                n == self.principals@.len(),
                xs == ids_of_principals(self.principals@),
                i <= n,
                first_index_in(xs, id@, i as int) is None,
            decreases n - i,
        {
            if str_eq(self.principals[i].id.as_str(), id) {
                proof {
                    assert(xs[i as int] == id@);
                    lemma_first_index_stable(xs, id@, i + 1, n as int);
                }
                return Some(&self.principals[i]);
            }
            proof {
                assert(xs[i as int] != id@);
            }
            i = i + 1;
        }
        None
    }

    /// The first resource with the given id.
    pub fn resource(&self, id: &str) -> (r: Option<&ResourceConfig>)
        ensures
            match first_index(ids_of_resources(self.resources@), id@) {
                Some(i) => r == Some(&self.resources@[i]),
                None => r is None,
            },
    {
        let ghost xs = ids_of_resources(self.resources@);
        let n = self.resources.len();
        let mut i: usize = 0;
        while i < n
            invariant
                n == self.resources@.len(),
                xs == ids_of_resources(self.resources@),
                i <= n,
                first_index_in(xs, id@, i as int) is None,
            decreases n - i,
        {
            if str_eq(self.resources[i].id.as_str(), id) {
                proof {
                    assert(xs[i as int] == id@);
                    lemma_first_index_stable(xs, id@, i + 1, n as int);
                }
                return Some(&self.resources[i]);
            }
            proof {
                assert(xs[i as int] != id@);
            }
            i = i + 1;
        }
        None
    }
}

} // verus!
