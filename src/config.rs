use vstd::prelude::*;
use vstd::string::StrSliceExecFns;
use vstd::string::StringExecFns;

verus! {

/// Address of a target: a host and a port.
#[derive(Debug)]
pub struct TargetAddr {
    /// Target host.
    pub addr: String,
    /// Target port.
    pub port: u16,
}

/// Configuration of one application.
#[derive(Debug)]
pub struct AppConfig {
    /// Application name, unique within a snapshot.
    pub name: String,
    /// Ports the application listens on.
    pub ports: Vec<u16>,
    /// Targets that connections are forwarded to, in order.
    pub targets: Vec<TargetAddr>,
}

/// A full configuration snapshot.
#[derive(Debug)]
pub struct Apps {
    /// Every configured application.
    pub apps: Vec<AppConfig>,
}

/// A source of configuration snapshots read from a file at `path`.
pub struct ConfigFileSubscriber<P>(pub P);

impl<P> ConfigFileSubscriber<P> {
    /// Create a new instance of the config file watcher.
    pub fn new(path: P) -> (r: Self)
        ensures
            r.0 == path,
    {
        ConfigFileSubscriber(path)
    }
}

/// Why a textual target address was refused.
#[derive(Debug, Clone, Copy, PartialEq, Eq, Structural)]
pub enum ParseTargetError {
    /// No `:` separates the host from the port.
    InvalidFormat,
    /// The text after the last `:` is not a port number.
    InvalidPort,
}

impl ParseTargetError {
    /// Human-readable description of the error.
    pub fn message(&self) -> (r: &'static str)
        ensures
            *self == ParseTargetError::InvalidFormat ==> r@ == "invalid address format (expected {address}:{port})"@,
            *self == ParseTargetError::InvalidPort ==> r@ == "invalid port number"@,
    {
        match self {
            ParseTargetError::InvalidFormat => "invalid address format (expected {address}:{port})",
            ParseTargetError::InvalidPort => "invalid port number",
        }
    }
}

/// Largest port number.
pub const MAX_PORT: u32 = 65535;

/// Index of the last `:` of `s`, if any.
pub open spec fn last_colon(s: Seq<char>) -> Option<int>
    decreases s.len(),
{
    if s.len() == 0 {
        None
    } else if s.last() == ':' {
        Some(s.len() - 1)
    } else {
        last_colon(s.drop_last())
    }
}

/// `c` is an ASCII decimal digit.
pub open spec fn is_digit(c: char) -> bool {
    '0' <= c <= '9'
}

/// The number that the decimal digits `d` spell.
pub open spec fn digits_value(d: Seq<char>) -> nat
    decreases d.len(),
{
    if d.len() == 0 {
        0
    } else {
        digits_value(d.drop_last()) * 10 + ((d.last() as nat) - ('0' as nat)) as nat
    }
}

/// The digits of a port number: one optional leading `+` is skipped.
pub open spec fn port_digits(s: Seq<char>) -> Seq<char> {
    if s.len() > 0 && s[0] == '+' {
        s.skip(1)
    } else {
        s
    }
}

/// The port that `s` spells: an optional `+`, then one or more decimal
/// digits whose value fits in 16 bits.
pub open spec fn port_value(s: Seq<char>) -> Option<u16> {
    let d = port_digits(s);
    if d.len() > 0 && (forall|i: int| 0 <= i < d.len() ==> is_digit(#[trigger] d[i]))
        && digits_value(d) <= MAX_PORT {
        Some(digits_value(d) as u16)
    } else {
        None
    }
}

/// Result of parsing `s` as `host:port`: the host is everything before the
/// last `:`, the port everything after it.
pub open spec fn parse_target_spec(s: Seq<char>) -> Result<(Seq<char>, u16), ParseTargetError> {
    match last_colon(s) {
        None => Err(ParseTargetError::InvalidFormat),
        Some(i) => match port_value(s.subrange(i + 1, s.len() as int)) {
            None => Err(ParseTargetError::InvalidPort),
            Some(p) => Ok((s.subrange(0, i), p)),
        },
    }
}

proof fn lemma_last_colon(s: Seq<char>)
    ensures
        last_colon(s) matches Some(i) ==> 0 <= i < s.len() && s[i] == ':' && (forall|j: int|
            i < j < s.len() ==> s[j] != ':'),
        last_colon(s) is None ==> forall|j: int| 0 <= j < s.len() ==> s[j] != ':',
    decreases s.len(),
{
    if s.len() > 0 {
        lemma_last_colon(s.drop_last());
        assert(forall|j: int| 0 <= j < s.len() - 1 ==> s.drop_last()[j] == s[j]);
    }
}

/// Parse a decimal port number.
fn parse_port(s: &str) -> (r: Option<u16>)
    ensures
        r == port_value(s@),
{
    let n: usize = s.unicode_len();
    let start: usize = if n > 0 && s.get_char(0) == '+' {
        1
    } else {
        0
    };
    let ghost d = port_digits(s@);
    assert(d =~= s@.subrange(start as int, n as int));
    if start == n {
        return None;
    }
    let mut value: u32 = 0;
    let mut i: usize = start;
    while i < n
        invariant
            start <= i <= n,
            n == s@.len(),
            d == s@.subrange(start as int, n as int),
            d == port_digits(s@),
            forall|j: int| 0 <= j < i - start ==> is_digit(#[trigger] d[j]),
            value <= MAX_PORT + 1,
            value <= MAX_PORT ==> value == digits_value(d.take(i - start)),
            value > MAX_PORT ==> digits_value(d.take(i - start)) > MAX_PORT,
        decreases n - i,
    {
        let c = s.get_char(i);
        if c < '0' || c > '9' {
            assert(d[i - start] == c);
            assert(!is_digit(d[i - start]));
            return None;
        }
        let ghost k = i - start;
        assert(d.take(k + 1).drop_last() =~= d.take(k));
        assert(d.take(k + 1).last() == c);
        let digit: u32 = (c as u32) - ('0' as u32);
        if value <= MAX_PORT {
            let next: u32 = value * 10 + digit;
            value = if next > MAX_PORT {
                MAX_PORT + 1
            } else {
                next
            };
        } else {
            assert(digits_value(d.take(k + 1)) >= digits_value(d.take(k)) * 10) by (nonlinear_arith)
                requires
                    digits_value(d.take(k + 1)) == digits_value(d.take(k)) * 10 + digit,
            ;
        }
        i = i + 1;
    }
    assert(d.take(n - start) =~= d);
    if value > MAX_PORT {
        None
    } else {
        Some(value as u16)
    }
}

/// Parse a target written `host:port`.
pub fn parse_target(s: &str) -> (r: Result<TargetAddr, ParseTargetError>)
    ensures
        match parse_target_spec(s@) {
            Ok((host, port)) => r matches Ok(t) && t.addr@ == host && t.port == port,
            Err(e) => r == Err::<TargetAddr, ParseTargetError>(e),
        },
{
    proof {
        lemma_last_colon(s@);
    }
    let n: usize = s.unicode_len();
    let mut i: usize = n;
    while i > 0
        invariant
            i <= n,
            n == s@.len(),
            forall|j: int| i <= j < n ==> s@[j] != ':',
        ensures
            i <= n,
            forall|j: int| i <= j < n ==> s@[j] != ':',
            i == 0 || s@[i - 1] == ':',
        decreases i,
    {
        if s.get_char(i - 1) == ':' {
            break;
        }
        i = i - 1;
    }
    if i == 0 {
        return Err(ParseTargetError::InvalidFormat);
    }
    let colon: usize = i - 1;
    assert(last_colon(s@) == Some(colon as int));
    match parse_port(s.substring_char(colon + 1, n)) {
        None => Err(ParseTargetError::InvalidPort),
        Some(port) => Ok(TargetAddr { addr: String::from_str(s.substring_char(0, colon)), port }),
    }
}

} // verus!
