//! The computational half of the HTTP edge. The surrounding server hands in
//! plain bytes and booleans from its configuration; this module decides the
//! CORS plan (which methods, which origin policy) and small per-request
//! decisions, and the server builds its middleware from the result.
use vstd::prelude::*;
use crate::error::Error;

verus! {

/// An HTTP method the CORS layer may allow.
#[derive(Clone, Copy, Debug, PartialEq, Eq, Structural)]
pub enum HttpMethod {
    Get,
    Post,
    Put,
    Delete,
    Head,
    Options,
    Connect,
    Patch,
    Trace,
}

/// ASCII uppercase of one byte.
pub open spec fn upper_byte(c: u8) -> u8 {
    if 97 <= c <= 122 {
        (c - 32) as u8
    } else {
        c
    }
}

/// The canonical spelling of a method.
pub open spec fn method_bytes(m: HttpMethod) -> Seq<u8> {
    match m {
        HttpMethod::Get => seq![71u8, 69u8, 84u8],
        HttpMethod::Post => seq![80u8, 79u8, 83u8, 84u8],
        HttpMethod::Put => seq![80u8, 85u8, 84u8],
        HttpMethod::Delete => seq![68u8, 69u8, 76u8, 69u8, 84u8, 69u8],
        HttpMethod::Head => seq![72u8, 69u8, 65u8, 68u8],
        HttpMethod::Options => seq![79u8, 80u8, 84u8, 73u8, 79u8, 78u8, 83u8],
        HttpMethod::Connect => seq![67u8, 79u8, 78u8, 78u8, 69u8, 67u8, 84u8],
        HttpMethod::Patch => seq![80u8, 65u8, 84u8, 67u8, 72u8],
        HttpMethod::Trace => seq![84u8, 82u8, 65u8, 67u8, 69u8],
    }
}

/// The method a name denotes, case-insensitively; none for anything else.
pub open spec fn spec_parse_method(s: Seq<u8>) -> Option<HttpMethod> {
    let u = s.map_values(|c: u8| upper_byte(c));
    if u == method_bytes(HttpMethod::Get) {
        Option::Some(HttpMethod::Get)
    } else if u == method_bytes(HttpMethod::Post) {
        Option::Some(HttpMethod::Post)
    } else if u == method_bytes(HttpMethod::Put) {
        Option::Some(HttpMethod::Put)
    } else if u == method_bytes(HttpMethod::Delete) {
        Option::Some(HttpMethod::Delete)
    } else if u == method_bytes(HttpMethod::Head) {
        Option::Some(HttpMethod::Head)
    } else if u == method_bytes(HttpMethod::Options) {
        Option::Some(HttpMethod::Options)
    } else if u == method_bytes(HttpMethod::Connect) {
        Option::Some(HttpMethod::Connect)
    } else if u == method_bytes(HttpMethod::Patch) {
        Option::Some(HttpMethod::Patch)
    } else if u == method_bytes(HttpMethod::Trace) {
        Option::Some(HttpMethod::Trace)
    } else {
        Option::None
    }
}

/// ASCII-uppercase a byte string.
pub fn ascii_upper(s: &[u8]) -> (r: Vec<u8>)
    ensures
        r@ == s@.map_values(|c: u8| upper_byte(c)),
{
    let mut out: Vec<u8> = Vec::new();
    let mut i: usize = 0;
    while i < s.len()
        invariant
            i <= s@.len(),
            out@ == s@.take(i as int).map_values(|c: u8| upper_byte(c)),
        decreases s@.len() - i,
    {
        let c = s[i];
        if 97 <= c && c <= 122 {
            out.push(c - 32);
        } else {
            out.push(c);
        }
        i = i + 1;
        proof {
            assert(out@ =~= s@.take(i as int).map_values(|c: u8| upper_byte(c)));
        }
    }
    proof {
        assert(s@.take(s@.len() as int) =~= s@);
    }
    out
}

/// Whether two byte strings are equal.
pub fn bytes_match(a: &[u8], b: &[u8]) -> (r: bool)
    ensures
        r == (a@ == b@),
{
    if a.len() != b.len() {
        return false;
    }
    let mut i: usize = 0;
    while i < a.len()
        invariant
            i <= a@.len(),
            a@.len() == b@.len(),
            forall|j: int| 0 <= j < i ==> a@[j] == b@[j],
        decreases a@.len() - i,
    {
        if a[i] != b[i] {
            return false;
        }
        i = i + 1;
    }
    proof {
        assert(a@ =~= b@);
    }
    true
}

/// Parse a method name, case-insensitively.
pub fn parse_method(s: &[u8]) -> (r: Option<HttpMethod>)
    ensures
        r == spec_parse_method(s@),
{
    let up = ascii_upper(s);
    let get: Vec<u8> = vec![71u8, 69u8, 84u8];
    let post: Vec<u8> = vec![80u8, 79u8, 83u8, 84u8];
    let put: Vec<u8> = vec![80u8, 85u8, 84u8];
    let delete: Vec<u8> = vec![68u8, 69u8, 76u8, 69u8, 84u8, 69u8];
    let head: Vec<u8> = vec![72u8, 69u8, 65u8, 68u8];
    let options: Vec<u8> = vec![79u8, 80u8, 84u8, 73u8, 79u8, 78u8, 83u8];
    let connect: Vec<u8> = vec![67u8, 79u8, 78u8, 78u8, 69u8, 67u8, 84u8];
    let patch: Vec<u8> = vec![80u8, 65u8, 84u8, 67u8, 72u8];
    let trace: Vec<u8> = vec![84u8, 82u8, 65u8, 67u8, 69u8];
    if bytes_match(up.as_slice(), get.as_slice()) {
        Some(HttpMethod::Get)
    } else if bytes_match(up.as_slice(), post.as_slice()) {
        Some(HttpMethod::Post)
    } else if bytes_match(up.as_slice(), put.as_slice()) {
        Some(HttpMethod::Put)
    } else if bytes_match(up.as_slice(), delete.as_slice()) {
        Some(HttpMethod::Delete)
    } else if bytes_match(up.as_slice(), head.as_slice()) {
        Some(HttpMethod::Head)
    } else if bytes_match(up.as_slice(), options.as_slice()) {
        Some(HttpMethod::Options)
    } else if bytes_match(up.as_slice(), connect.as_slice()) {
        Some(HttpMethod::Connect)
    } else if bytes_match(up.as_slice(), patch.as_slice()) {
        Some(HttpMethod::Patch)
    } else if bytes_match(up.as_slice(), trace.as_slice()) {
        Some(HttpMethod::Trace)
    } else {
        None
    }
}

/// How the CORS layer treats origins.
#[derive(Clone, Copy, Debug, PartialEq, Eq, Structural)]
pub enum OriginPolicy {
    /// No origins configured: the layer's default.
    Default,
    /// The first configured origin is `*`: any origin.
    Any,
    /// The configured origins, as an explicit list.
    List,
}

/// The origin policy a configured list calls for.
pub open spec fn spec_classify_origins(origins: Seq<Seq<u8>>) -> OriginPolicy {
    if origins.len() == 0 {
        OriginPolicy::Default
    } else if origins[0] == seq![42u8] {
        OriginPolicy::Any
    } else {
        OriginPolicy::List
    }
}

/// Classify the configured origins: none, a `*` wildcard first, or a list.
pub fn classify_origins(origins: &Vec<Vec<u8>>) -> (r: OriginPolicy)
    ensures
        r == spec_classify_origins(origins@.map_values(|v: Vec<u8>| v@)),
{
    if origins.len() == 0 {
        return OriginPolicy::Default;
    }
    let first = &origins[0];
    if first.len() == 1 && *first.get(0).unwrap() == 42 {
        proof {
            assert(origins@.map_values(|v: Vec<u8>| v@)[0] =~= seq![42u8]);
        }
        OriginPolicy::Any
    } else {
        proof {
            assert(origins@.map_values(|v: Vec<u8>| v@)[0] == origins@[0]@);
            assert(origins@[0]@ != seq![42u8]);
        }
        OriginPolicy::List
    }
}

/// The CORS-relevant configuration, as plain values.
pub struct CorsConfig {
    pub enabled: bool,
    pub allowed_methods: Vec<Vec<u8>>,
    pub allowed_origins: Vec<Vec<u8>>,
    pub allow_credentials: bool,
    pub allow_private_network: bool,
}

/// What the CORS layer should be built from.
pub struct CorsPlan {
    pub methods: Vec<HttpMethod>,
    pub origin: OriginPolicy,
    pub allow_credentials: bool,
    pub allow_private_network: bool,
}

/// Decide the CORS plan from the configuration: every configured method name
/// must parse, case-insensitively; the origin policy follows the configured
/// origins; the flags pass through. An unknown method name is rejected.
pub fn build_cors_plan(config: &CorsConfig) -> (r: Result<CorsPlan, Error>)
    ensures
        match r {
            Ok(plan) => {
                &&& plan.methods@.len() == config.allowed_methods@.len()
                &&& forall|i: int|
                    0 <= i < config.allowed_methods@.len() ==> Option::Some(#[trigger] plan.methods@[i])
                        == spec_parse_method(config.allowed_methods@[i]@)
                &&& plan.origin == spec_classify_origins(
                    config.allowed_origins@.map_values(|v: Vec<u8>| v@),
                )
                &&& plan.allow_credentials == config.allow_credentials
                &&& plan.allow_private_network == config.allow_private_network
            },
            Err(e) => {
                &&& e == Error::InvalidArgument
                &&& exists|i: int|
                    0 <= i < config.allowed_methods@.len() && spec_parse_method(
                        (#[trigger] config.allowed_methods@[i])@,
                    ) is None
            },
        },
{
    let mut methods: Vec<HttpMethod> = Vec::new();
    let mut i: usize = 0;
    while i < config.allowed_methods.len()
        invariant
            i <= config.allowed_methods@.len(),
            methods@.len() == i,
            forall|j: int|
                0 <= j < i ==> Option::Some(#[trigger] methods@[j]) == spec_parse_method(
                    config.allowed_methods@[j]@,
                ),
        decreases config.allowed_methods@.len() - i,
    {
        match parse_method(config.allowed_methods[i].as_slice()) {
            Some(m) => {
                methods.push(m);
            },
            None => {
                return Err(Error::InvalidArgument);
            },
        }
        i = i + 1;
    }
    let origin = classify_origins(&config.allowed_origins);
    Ok(
        CorsPlan {
            methods,
            origin,
            allow_credentials: config.allow_credentials,
            allow_private_network: config.allow_private_network,
        },
    )
}

/// Resolve a client lookup: a missing client is not an error but an absent
/// result; any other failure passes through.
pub fn client_lookup_result<T>(r: Result<T, Error>) -> (out: Result<Option<T>, Error>)
    ensures
        match r {
            Ok(v) => out matches Ok(o) && o matches Some(w) && w == v,
            Err(e) => if e == Error::NotFound {
                out matches Ok(o) && o is None
            } else {
                out matches Err(e2) && e2 == e
            },
        },
{
    match r {
        Ok(v) => Ok(Some(v)),
        Err(e) => {
            if matches!(e, Error::NotFound) {
                Ok(None)
            } else {
                Err(e)
            }
        },
    }
}


/// The decimal digits of a number, most significant first.
pub open spec fn decimal_digits(n: int) -> Seq<u8>
    decreases n,
{
    if n < 10 {
        seq![(48 + n) as u8]
    } else {
        decimal_digits(n / 10) + seq![(48 + n % 10) as u8]
    }
}

/// Render a number in decimal.
pub fn u32_decimal(n: u32) -> (r: Vec<u8>)
    ensures
        r@ == decimal_digits(n as int),
{
    let mut digits: Vec<u8> = Vec::new();
    let mut rest: u32 = n;
    while rest >= 10
        invariant
            decimal_digits(n as int) == decimal_digits(rest as int) + digits@.reverse(),
        decreases rest,
    {
        let d: u8 = 48 + (rest % 10) as u8;
        digits.push(d);
        rest = rest / 10;
        proof {
            assert(decimal_digits(n as int) =~= decimal_digits(rest as int) + digits@.reverse());
        }
    }
    let mut out: Vec<u8> = Vec::new();
    out.push(48 + rest as u8);
    let mut i: usize = digits.len();
    while i > 0
        invariant
            i <= digits@.len(),
            out@ == seq![(48 + rest as int) as u8] + digits@.reverse().take(
                digits@.len() - i as int,
            ),
        decreases i,
    {
        i = i - 1;
        out.push(digits[i]);
        proof {
            assert(digits@.reverse()[digits@.len() - i as int - 1] == digits@[i as int]);
            assert(out@ =~= seq![(48 + rest as int) as u8] + digits@.reverse().take(
                digits@.len() - i as int,
            ));
        }
    }
    proof {
        assert(digits@.reverse().take(digits@.len() as int) =~= digits@.reverse());
        assert(decimal_digits(rest as int) =~= seq![(48 + rest as int) as u8]);
        assert(out@ =~= decimal_digits(n as int));
    }
    out
}

/// The endpoint path of one client: the clients collection, a separator,
/// and the client id in decimal.
pub fn client_endpoint(client_id: u32) -> (r: Vec<u8>)
    ensures
        r@ == seq![47u8, 99u8, 108u8, 105u8, 101u8, 110u8, 116u8, 115u8, 47u8] + decimal_digits(
            client_id as int,
        ),
{
    let mut out: Vec<u8> = vec![47u8, 99u8, 108u8, 105u8, 101u8, 110u8, 116u8, 115u8, 47u8];
    let mut digits = u32_decimal(client_id);
    out.append(&mut digits);
    out
}

} // verus!
