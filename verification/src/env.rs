//! Values and rules of the mock test environment: durations, XLM amounts,
//! protocol versions, ledger clock arithmetic, and deterministic mock keys.
use vstd::prelude::*;
use crate::assertions::{digits_value, is_digit};
use crate::text::{chars_of, decimal, push_u64};
pub use crate::crypto::{CryptoCurve, MockCryptoRegistry, MockKeyPair};

verus! {

/// The ledger's storage time-to-live settings, in ledgers.
#[derive(Debug, Clone, Copy, PartialEq, Eq, Structural)]
pub struct EntryTtlSettings {
    /// Minimum lifetime of a temporary storage entry.
    pub min_temp: u32,
    /// Minimum lifetime of a persistent storage entry.
    pub min_persistent: u32,
    /// Maximum lifetime any entry may be extended to.
    pub max: u32,
}

/// Nominal seconds between Stellar ledger closes.
pub const DEFAULT_SECONDS_PER_LEDGER: u64 = 5;

/// A duration in whole seconds, for time-based test operations.
#[derive(Debug, Clone, Copy)]
pub struct Duration {
    seconds: u64,
}

impl Duration {
    /// The duration's length in seconds.
    pub closed spec fn secs(&self) -> u64 {
        self.seconds
    }

    /// The duration of `seconds` seconds.
    pub closed spec fn of_seconds(seconds: u64) -> Duration {
        Duration { seconds }
    }

    /// A duration of `seconds` seconds.
    pub fn seconds(seconds: u64) -> (r: Self)
        ensures
            r.secs() == seconds,
    {
        Duration { seconds }
    }

    /// A duration of `minutes` minutes.
    pub fn minutes(minutes: u64) -> (r: Self)
        requires
            minutes * 60 <= u64::MAX,
        ensures
            r.secs() == minutes * 60,
    {
        Duration { seconds: minutes * 60 }
    }

    /// A duration of `hours` hours.
    pub fn hours(hours: u64) -> (r: Self)
        requires
            hours * 3600 <= u64::MAX,
        ensures
            r.secs() == hours * 3600,
    {
        Duration { seconds: hours * 60 * 60 }
    }

    /// A duration of `days` days.
    pub fn days(days: u64) -> (r: Self)
        requires
            days * 86400 <= u64::MAX,
        ensures
            r.secs() == days * 86400,
    {
        Duration { seconds: days * 24 * 60 * 60 }
    }

    /// A duration of `weeks` weeks.
    pub fn weeks(weeks: u64) -> (r: Self)
        requires
            weeks * 604800 <= u64::MAX,
        ensures
            r.secs() == weeks * 604800,
    {
        Duration { seconds: weeks * 7 * 24 * 60 * 60 }
    }

    /// The duration in seconds.
    pub fn as_seconds(&self) -> (r: u64)
        ensures
            r == self.secs(),
    {
        self.seconds
    }
}

/// The whole seconds of a standard duration.
pub uninterp spec fn whole_seconds(d: core::time::Duration) -> u64;

/// `Duration::as_secs`: the whole seconds of a standard duration, its
/// fraction dropped.
#[verifier::external_body]
fn std_duration_secs(d: &core::time::Duration) -> (r: u64)
    ensures
        r == whole_seconds(*d),
{
    d.as_secs()
}

impl From<core::time::Duration> for Duration {
    fn from(duration: core::time::Duration) -> (r: Self) {
        Duration { seconds: std_duration_secs(&duration) }
    }
}

impl vstd::std_specs::convert::FromSpecImpl<core::time::Duration> for Duration {
    open spec fn obeys_from_spec() -> bool {
        true
    }

    open spec fn from_spec(duration: core::time::Duration) -> Duration {
        Duration::of_seconds(whole_seconds(duration))
    }
}

/// Stroops in one XLM.
pub const STROOPS_PER_XLM: i128 = 10_000_000;

/// An amount of XLM in stroops (1 XLM = 10,000,000 stroops); never negative.
#[derive(Debug, Clone, Copy)]
pub struct Stroops {
    amount: i128,
}

impl Stroops {
    /// The amount in stroops.
    pub closed spec fn value(&self) -> int {
        self.amount as int
    }

    /// An amount of `amount` stroops.
    pub fn from(amount: i128) -> (r: Self)
        requires
            amount >= 0,
        ensures
            r.value() == amount,
    {
        Stroops { amount }
    }

    /// An amount of `xlm` whole XLM.
    pub fn xlm(xlm: i128) -> (r: Self)
        requires
            xlm >= 0,
            xlm * STROOPS_PER_XLM <= i128::MAX,
        ensures
            r.value() == xlm * STROOPS_PER_XLM,
    {
        Stroops { amount: xlm * STROOPS_PER_XLM }
    }

    /// An amount of `xlm` whole XLM and `frac` stroops.
    pub fn from_parts(xlm: i128, frac: i128) -> (r: Self)
        requires
            xlm >= 0,
            0 <= frac < STROOPS_PER_XLM,
            xlm * STROOPS_PER_XLM + frac <= i128::MAX,
        ensures
            r.value() == xlm * STROOPS_PER_XLM + frac,
    {
        Stroops { amount: xlm * STROOPS_PER_XLM + frac }
    }

    /// The amount in stroops.
    pub fn as_stroops(&self) -> (r: i128)
        ensures
            r == self.value(),
    {
        self.amount
    }
}

/// Supported Soroban protocol versions for compatibility testing.
#[derive(Debug, Clone, Copy, PartialEq, Eq, Structural, PartialOrd, Ord)]
pub enum ProtocolVersion {
    V20,
    V21,
    V22,
}

/// The number of a protocol version.
pub open spec fn version_number(v: ProtocolVersion) -> u32 {
    match v {
        ProtocolVersion::V20 => 20,
        ProtocolVersion::V21 => 21,
        ProtocolVersion::V22 => 22,
    }
}

/// The protocol version with a number, if it is supported.
pub open spec fn version_of(value: u32) -> Option<ProtocolVersion> {
    if value == 20 {
        Some(ProtocolVersion::V20)
    } else if value == 21 {
        Some(ProtocolVersion::V21)
    } else if value == 22 {
        Some(ProtocolVersion::V22)
    } else {
        None
    }
}

/// The first protocol version that has a host function; every version has
/// the functions not listed.
pub open spec fn host_function_since(function: Seq<char>) -> u32 {
    if function == "v1_low_level_operations"@ || function == "v1_wasm_host_function_with_abi"@ {
        20
    } else if function == "v2_low_level_operations"@ || function
        == "v2_wasm_host_function_with_abi"@ {
        21
    } else if function == "v3_low_level_operations"@ || function
        == "v3_wasm_host_function_with_abi"@ {
        22
    } else {
        0
    }
}

impl ProtocolVersion {
    /// The numeric protocol version.
    pub fn value(&self) -> (r: u32)
        ensures
            r == version_number(*self),
    {
        match self {
            ProtocolVersion::V20 => 20,
            ProtocolVersion::V21 => 21,
            ProtocolVersion::V22 => 22,
        }
    }

    /// Whether this version supports the host function `function`; functions
    /// not listed are assumed available in every version.
    pub fn supports_host_function(&self, function: &str) -> (r: bool)
        ensures
            r == (version_number(*self) >= host_function_since(function@)),
    {
        let version = self.value();
        let name = String::from_str(function);
        let since: u32 = if name == String::from_str("v1_low_level_operations") || name
            == String::from_str("v1_wasm_host_function_with_abi") {
            20
        } else if name == String::from_str("v2_low_level_operations") || name == String::from_str(
            "v2_wasm_host_function_with_abi",
        ) {
            21
        } else if name == String::from_str("v3_low_level_operations") || name == String::from_str(
            "v3_wasm_host_function_with_abi",
        ) {
            22
        } else {
            0
        };
        version >= since
    }

    /// The newest protocol version known.
    pub fn max_supported() -> (r: Self)
        ensures
            r == ProtocolVersion::V22,
    {
        ProtocolVersion::V22
    }

    /// Every supported protocol version, oldest first.
    pub fn all() -> (r: Vec<ProtocolVersion>)
        ensures
            r@ == seq![ProtocolVersion::V20, ProtocolVersion::V21, ProtocolVersion::V22],
    {
        let mut v: Vec<ProtocolVersion> = Vec::new();
        v.push(ProtocolVersion::V20);
        v.push(ProtocolVersion::V21);
        v.push(ProtocolVersion::V22);
        proof {
            assert(v@ =~= seq![ProtocolVersion::V20, ProtocolVersion::V21, ProtocolVersion::V22]);
        }
        v
    }

    /// The version numbered `value`, which must be a supported one.
    pub fn from(value: u32) -> (r: Self)
        requires
            version_of(value) is Some,
        ensures
            version_of(value) == Some(r),
            version_number(r) == value,
    {
        if value == 20 {
            ProtocolVersion::V20
        } else if value == 21 {
            ProtocolVersion::V21
        } else {
            ProtocolVersion::V22
        }
    }

    /// The version numbered `value`, or `None` when it is not supported.
    pub fn try_from_u32(value: u32) -> (r: Option<Self>)
        ensures
            r == version_of(value),
    {
        if value == 20 {
            Some(ProtocolVersion::V20)
        } else if value == 21 {
            Some(ProtocolVersion::V21)
        } else if value == 22 {
            Some(ProtocolVersion::V22)
        } else {
            None
        }
    }

    /// The version as text: `Protocol N`.
    pub fn to_display_string(&self) -> (r: String)
        ensures
            r@ == "Protocol "@ + decimal(version_number(*self) as nat),
    {
        let mut s = String::from_str("Protocol ");
        push_u64(&mut s, self.value() as u64);
        s
    }
}

impl From<ProtocolVersion> for u32 {
    fn from(version: ProtocolVersion) -> (r: u32) {
        version.value()
    }
}

impl vstd::std_specs::convert::FromSpecImpl<ProtocolVersion> for u32 {
    open spec fn obeys_from_spec() -> bool {
        true
    }

    open spec fn from_spec(version: ProtocolVersion) -> u32 {
        version_number(version)
    }
}

/// A version number survives the round trip through its protocol version.
pub proof fn lemma_version_round_trip(v: ProtocolVersion)
    ensures
        version_of(version_number(v)) == Some(v),
{
}

/// Whether a call failed, and the panic message it left.
#[derive(Debug)]
pub struct FailedCallResult {
    failed: bool,
    message: Option<String>,
}

impl FailedCallResult {
    /// Whether the call failed.
    pub closed spec fn failed_spec(&self) -> bool {
        self.failed
    }

    /// The message recorded.
    pub closed spec fn message_spec(&self) -> Option<String> {
        self.message
    }

    /// The result of a call that did or did not fail, leaving `message`; a
    /// call that succeeded keeps no message.
    pub fn from_run(failed: bool, message: Option<String>) -> (r: Self)
        ensures
            r.failed_spec() == failed,
            r.message_spec() == (if failed {
                message
            } else {
                None
            }),
    {
        if failed {
            FailedCallResult { failed: true, message }
        } else {
            FailedCallResult { failed: false, message: None }
        }
    }

    /// Returns `true` if the call panicked (reverted).
    pub fn did_fail(&self) -> (r: bool)
        ensures
            r == self.failed_spec(),
    {
        self.failed
    }

    /// The panic message, if one was captured.
    pub fn panic_message(&self) -> (r: Option<&str>)
        ensures
            r is None <==> self.message_spec() is None,
            r matches Some(m) ==> (self.message_spec() matches Some(s) && m@ == s@),
    {
        match &self.message {
            Some(m) => Some(m.as_str()),
            None => None,
        }
    }
}

/// Why the ledger clock could not be moved.
#[derive(Debug, Clone, Copy, PartialEq, Eq, Structural)]
pub enum LedgerClockError {
    /// The elapsed seconds do not fit in a `u64`.
    ElapsedOverflow,
    /// The new timestamp does not fit in a `u64`.
    TimestampOverflow,
    /// The new sequence number does not fit in a `u32`.
    SequenceOverflow,
    /// The ledger count does not fit in a `u32`.
    TooManyLedgers,
}

/// The timestamp `seconds` after `timestamp`; an overflow is refused.
pub fn advance_timestamp(timestamp: u64, seconds: u64) -> (r: Result<u64, LedgerClockError>)
    ensures
        timestamp + seconds <= u64::MAX ==> r == Ok::<u64, LedgerClockError>(
            (timestamp + seconds) as u64,
        ),
        timestamp + seconds > u64::MAX ==> r == Err::<u64, LedgerClockError>(
            LedgerClockError::TimestampOverflow,
        ),
{
    match timestamp.checked_add(seconds) {
        Some(t) => Ok(t),
        None => Err(LedgerClockError::TimestampOverflow),
    }
}

/// The ledger sequence and timestamp after `ledgers` ledgers of
/// `seconds_per_ledger` seconds each, moving both in step; unchanged for zero
/// ledgers.
pub fn advance_ledger_clock(sequence: u32, timestamp: u64, ledgers: u32, seconds_per_ledger: u64) -> (r:
    Result<(u32, u64), LedgerClockError>)
    ensures
        ledgers == 0 ==> r == Ok::<(u32, u64), LedgerClockError>((sequence, timestamp)),
        ledgers > 0 ==> {
            let elapsed = ledgers * seconds_per_ledger;
            if elapsed > u64::MAX {
                r == Err::<(u32, u64), LedgerClockError>(LedgerClockError::ElapsedOverflow)
            } else if timestamp + elapsed > u64::MAX {
                r == Err::<(u32, u64), LedgerClockError>(LedgerClockError::TimestampOverflow)
            } else if sequence + ledgers > u32::MAX {
                r == Err::<(u32, u64), LedgerClockError>(LedgerClockError::SequenceOverflow)
            } else {
                r == Ok::<(u32, u64), LedgerClockError>(
                    ((sequence + ledgers) as u32, (timestamp + elapsed) as u64),
                )
            }
        },
{
    if ledgers == 0 {
        return Ok((sequence, timestamp));
    }
    let elapsed = match (ledgers as u64).checked_mul(seconds_per_ledger) {
        Some(e) => e,
        None => {
            return Err(LedgerClockError::ElapsedOverflow);
        },
    };
    let new_timestamp = match timestamp.checked_add(elapsed) {
        Some(t) => t,
        None => {
            return Err(LedgerClockError::TimestampOverflow);
        },
    };
    let new_sequence = match sequence.checked_add(ledgers) {
        Some(s) => s,
        None => {
            return Err(LedgerClockError::SequenceOverflow);
        },
    };
    Ok((new_sequence, new_timestamp))
}

/// The ledgers needed to cover `seconds` at `seconds_per_ledger` each,
/// rounded up so the clock never stops short.
pub fn ledgers_covering(seconds: u64, seconds_per_ledger: u64) -> (r: Result<u32, LedgerClockError>)
    requires
        seconds_per_ledger > 0,
    ensures
        ({
            let n = (seconds + seconds_per_ledger - 1) / (seconds_per_ledger as int);
            &&& n <= u32::MAX ==> r == Ok::<u32, LedgerClockError>(n as u32)
            &&& n > u32::MAX ==> r == Err::<u32, LedgerClockError>(LedgerClockError::TooManyLedgers)
        }),
{
    let whole = seconds / seconds_per_ledger;
    let n = if seconds % seconds_per_ledger == 0 {
        whole
    } else {
        proof {
            assert(whole <= seconds / 2) by (nonlinear_arith)
                requires
                    seconds_per_ledger >= 2,
                    whole == seconds / seconds_per_ledger,
            ;
        }
        whole + 1
    };
    proof {
        let s = seconds as int;
        let d = seconds_per_ledger as int;
        let q = (s + d - 1) / d;
        vstd::arithmetic::div_mod::lemma_fundamental_div_mod(s, d);
        vstd::arithmetic::div_mod::lemma_fundamental_div_mod(s + d - 1, d);
        vstd::arithmetic::div_mod::lemma_mod_bound(s, d);
        vstd::arithmetic::div_mod::lemma_mod_bound(s + d - 1, d);
        let w = whole as int;
        let nn = n as int;
        assert(nn == q) by (nonlinear_arith)
            requires
                d > 0,
                s == d * (s / d) + s % d,
                0 <= s % d < d,
                s + d - 1 == d * q + (s + d - 1) % d,
                0 <= (s + d - 1) % d < d,
                w == s / d,
                s % d == 0 ==> nn == w,
                s % d != 0 ==> nn == w + 1,
        ;
    }
    if n > 0xFFFF_FFFF {
        Err(LedgerClockError::TooManyLedgers)
    } else {
        Ok(n as u32)
    }
}

/// Moving the clock by `a` ledgers and then by `b` is moving it by `a + b`
/// when neither move overflows.
pub proof fn lemma_ledger_advances_compose(
    sequence: u32,
    timestamp: u64,
    a: u32,
    b: u32,
    seconds_per_ledger: u64,
)
    requires
        sequence + a + b <= u32::MAX,
        timestamp + (a + b) * seconds_per_ledger <= u64::MAX,
    ensures
        (sequence + a) + b == sequence + (a + b),
        (timestamp + a * seconds_per_ledger) + b * seconds_per_ledger == timestamp + (a + b)
            * seconds_per_ledger,
{
    assert((a + b) * seconds_per_ledger == a * seconds_per_ledger + b * seconds_per_ledger) by (
    nonlinear_arith);
}

/// One step of the test environment's pseudo-random stream: an xorshift with
/// shifts 13, 7 and 17.
pub open spec fn prng_next(x: u64) -> u64 {
    let a = x ^ (x << 13u64);
    let b = a ^ (a >> 7u64);
    b ^ (b << 17u64)
}

/// Advances the pseudo-random stream by one step.
pub fn prng_step(x: u64) -> (r: u64)
    ensures
        r == prng_next(x),
{
    let mut value = x;
    value = value ^ (value << 13u64);
    value = value ^ (value >> 7u64);
    value = value ^ (value << 17u64);
    value
}

/// The stream never reaches zero from a non-zero state, and stays at zero
/// from zero: each step is invertible and fixes zero.
pub proof fn lemma_prng_zero_only_from_zero(x: u64)
    ensures
        (prng_next(x) == 0) == (x == 0),
{
    let a = x ^ (x << 13u64);
    let b = a ^ (a >> 7u64);
    let c = b ^ (b << 17u64);
    assert(c == 0 ==> b == 0) by (bit_vector)
        requires
            c == b ^ (b << 17u64),
    ;
    assert(b == 0 ==> a == 0) by (bit_vector)
        requires
            b == a ^ (a >> 7u64),
    ;
    assert(a == 0 ==> x == 0) by (bit_vector)
        requires
            a == x ^ (x << 13u64),
    ;
    assert(x == 0 ==> c == 0) by (bit_vector)
        requires
            a == x ^ (x << 13u64),
            b == a ^ (a >> 7u64),
            c == b ^ (b << 17u64),
    ;
}

// ── Parsing XLM amounts ─────────────────────────────────────────────────────

/// Whether `c` is Unicode white space, as `char::is_whitespace` has it.
pub open spec fn is_white(c: char) -> bool {
    ('\u{9}' <= c && c <= '\u{d}') || c == ' ' || c == '\u{85}' || c == '\u{a0}' || c == '\u{1680}'
        || ('\u{2000}' <= c && c <= '\u{200a}') || c == '\u{2028}' || c == '\u{2029}' || c
        == '\u{202f}' || c == '\u{205f}' || c == '\u{3000}'
}

/// `s` without leading white space.
pub open spec fn trim_start(s: Seq<char>) -> Seq<char>
    decreases s.len(),
{
    if s.len() > 0 && is_white(s[0]) {
        trim_start(s.drop_first())
    } else {
        s
    }
}

/// `s` without trailing white space.
pub open spec fn trim_end(s: Seq<char>) -> Seq<char>
    decreases s.len(),
{
    if s.len() > 0 && is_white(s.last()) {
        trim_end(s.drop_last())
    } else {
        s
    }
}

/// `s` without leading and trailing white space.
pub open spec fn trimmed(s: Seq<char>) -> Seq<char> {
    trim_end(trim_start(s))
}

/// Whether every character of `s` is an ASCII digit.
pub open spec fn all_digits(s: Seq<char>) -> bool {
    forall|i: int| 0 <= i < s.len() ==> is_digit(#[trigger] s[i])
}

/// `10` to the power `n`.
pub open spec fn pow10(n: nat) -> int
    decreases n,
{
    if n == 0 {
        1
    } else {
        10 * pow10((n - 1) as nat)
    }
}

/// The `i128` a decimal string spells, with an optional sign, as `str::parse`
/// reads it; `None` when it is malformed or out of range.
pub open spec fn parsed_i128(t: Seq<char>) -> Option<int> {
    let neg = t.len() > 0 && t[0] == '-';
    let ds = if t.len() > 0 && (t[0] == '-' || t[0] == '+') {
        t.drop_first()
    } else {
        t
    };
    if ds.len() == 0 || !all_digits(ds) {
        None
    } else {
        let v = if neg {
            -digits_value(ds)
        } else {
            digits_value(ds)
        };
        if i128::MIN <= v <= i128::MAX {
            Some(v)
        } else {
            None
        }
    }
}

/// The position of the first `c` in `s`, or -1.
pub open spec fn char_position(s: Seq<char>, c: char) -> int
    decreases s.len(),
{
    if s.len() == 0 {
        -1
    } else {
        let p = char_position(s.drop_last(), c);
        if p >= 0 {
            p
        } else if s.last() == c {
            s.len() - 1
        } else {
            -1
        }
    }
}

/// Why a decimal XLM amount was refused.
#[derive(Debug, Clone, Copy, PartialEq, Eq, Structural)]
pub enum XlmAmountError {
    /// The text is empty once trimmed.
    Empty,
    /// The whole part is not an integer.
    InvalidAmount,
    /// The amount is negative.
    Negative,
    /// The fractional part holds something other than digits.
    InvalidFraction,
    /// The fractional part has more than seven digits.
    TooManyDecimals,
    /// The amount in stroops does not fit in an `i128`.
    Overflow,
}

/// The stroops a decimal XLM amount such as `1.5` or `0.0000001` spells: the
/// text is trimmed, split at its first `.`, the whole part read as an integer
/// and at most seven fractional digits as stroops.
pub open spec fn xlm_amount(s: Seq<char>) -> Result<int, XlmAmountError> {
    let t = trimmed(s);
    let whole = amount_parts(s).0;
    let frac = amount_parts(s).1;
    let shown = if frac.len() < 7 {
        frac.len()
    } else {
        7
    };
    if t.len() == 0 {
        Err(XlmAmountError::Empty)
    } else if parsed_i128(whole) is None {
        Err(XlmAmountError::InvalidAmount)
    } else if parsed_i128(whole).unwrap() < 0 {
        Err(XlmAmountError::Negative)
    } else if !all_digits(frac.take(shown as int)) {
        Err(XlmAmountError::InvalidFraction)
    } else if frac.len() > 7 {
        Err(XlmAmountError::TooManyDecimals)
    } else if parsed_i128(whole).unwrap() * 10_000_000 > i128::MAX {
        Err(XlmAmountError::Overflow)
    } else if parsed_i128(whole).unwrap() * 10_000_000 + digits_value(frac) * pow10(
        (7 - frac.len()) as nat,
    ) > i128::MAX {
        Err(XlmAmountError::Overflow)
    } else {
        Ok(
            parsed_i128(whole).unwrap() * 10_000_000 + digits_value(frac) * pow10(
                (7 - frac.len()) as nat,
            ),
        )
    }
}

/// The whole and fractional parts of a decimal amount: the trimmed text split
/// at its first `.` (no fractional part without one).
pub open spec fn amount_parts(s: Seq<char>) -> (Seq<char>, Seq<char>) {
    let t = trimmed(s);
    let dot = char_position(t, '.');
    if dot >= 0 {
        (t.take(dot), t.skip(dot + 1))
    } else {
        (t, seq![])
    }
}

/// The bounds of `cs` without its leading and trailing white space.
fn trim_bounds(cs: &Vec<char>) -> (r: (usize, usize))
    ensures
        r.0 <= r.1 <= cs@.len(),
        cs@.subrange(r.0 as int, r.1 as int) == trimmed(cs@),
{
    let n = cs.len();
    let mut lo: usize = 0;
    proof {
        assert(cs@.skip(0) =~= cs@);
    }
    while lo < n && is_white_char(cs[lo])
        invariant
            n == cs@.len(),
            lo <= n,
            trim_start(cs@) == trim_start(cs@.skip(lo as int)),
        decreases n - lo,
    {
        proof {
            assert(cs@.skip(lo as int).drop_first() =~= cs@.skip(lo + 1));
        }
        lo = lo + 1;
    }
    let ghost u = cs@.skip(lo as int);
    proof {
        assert(trim_start(cs@) == u);
        assert(cs@.subrange(lo as int, n as int) =~= u);
    }
    let mut hi: usize = n;
    while hi > lo && is_white_char(cs[hi - 1])
        invariant
            n == cs@.len(),
            lo <= hi <= n,
            u == cs@.skip(lo as int),
            trim_end(u) == trim_end(cs@.subrange(lo as int, hi as int)),
        decreases hi - lo,
    {
        proof {
            assert(cs@.subrange(lo as int, hi as int).drop_last() =~= cs@.subrange(
                lo as int,
                hi - 1,
            ));
        }
        hi = hi - 1;
    }
    (lo, hi)
}

/// Whether `c` is Unicode white space.
fn is_white_char(c: char) -> (r: bool)
    ensures
        r == is_white(c),
{
    ('\u{9}' <= c && c <= '\u{d}') || c == ' ' || c == '\u{85}' || c == '\u{a0}' || c == '\u{1680}'
        || ('\u{2000}' <= c && c <= '\u{200a}') || c == '\u{2028}' || c == '\u{2029}' || c
        == '\u{202f}' || c == '\u{205f}' || c == '\u{3000}'
}

proof fn lemma_char_position_facts(s: Seq<char>, c: char)
    ensures
        -1 <= char_position(s, c) < s.len(),
        char_position(s, c) >= 0 ==> s[char_position(s, c)] == c,
        forall|i: int| 0 <= i < s.len() && (char_position(s, c) == -1 || i < char_position(s, c)) ==> #[trigger] s[i] != c,
    decreases s.len(),
{
    if s.len() > 0 {
        lemma_char_position_facts(s.drop_last(), c);
        assert forall|i: int| 0 <= i < s.len() - 1 implies #[trigger] s[i] == s.drop_last()[i] by {}
    }
}

proof fn lemma_digits_value_push(ds: Seq<char>, c: char)
    ensures
        digits_value(ds.push(c)) == digits_value(ds) * 10 + (c as int - '0' as int),
{
    assert(ds.push(c).drop_last() =~= ds);
}

/// Reads `cs[from..to]` as a signed decimal `i128`.
fn parse_i128_range(cs: &Vec<char>, from: usize, to: usize) -> (r: Option<i128>)
    requires
        from <= to <= cs@.len(),
    ensures
        r matches Some(v) ==> parsed_i128(cs@.subrange(from as int, to as int)) == Some(v as int),
        r is None ==> parsed_i128(cs@.subrange(from as int, to as int)) is None,
{
    let ghost t = cs@.subrange(from as int, to as int);
    let neg = from < to && cs[from] == '-';
    let start = if from < to && (cs[from] == '-' || cs[from] == '+') {
        from + 1
    } else {
        from
    };
    let ghost ds = cs@.subrange(start as int, to as int);
    proof {
        assert(t.len() == to - from);
        if from < to {
            assert(t[0] == cs@[from as int]);
        }
        if from < to && (cs@[from as int] == '-' || cs@[from as int] == '+') {
            assert(t.drop_first() =~= ds);
        } else {
            assert(t =~= ds);
        }
    }
    if start == to {
        return None;
    }
    // The magnitude, refused once it passes 2^127.
    let limit: u128 = 0x8000_0000_0000_0000_0000_0000_0000_0000;
    let mut magnitude: u128 = 0;
    let mut k: usize = start;
    proof {
        assert(ds.take(0) =~= Seq::<char>::empty());
    }
    while k < to
        invariant
            start <= k <= to <= cs@.len(),
            t == cs@.subrange(from as int, to as int),
            ds == if t.len() > 0 && (t[0] == '-' || t[0] == '+') {
                t.drop_first()
            } else {
                t
            },
            neg == (t.len() > 0 && t[0] == '-'),
            limit == 0x8000_0000_0000_0000_0000_0000_0000_0000u128,
            ds == cs@.subrange(start as int, to as int),
            magnitude <= limit,
            all_digits(ds.take(k - start)),
            magnitude as int == digits_value(ds.take(k - start)),
        decreases to - k,
    {
        let c = cs[k];
        let ghost j = (k - start) as int;
        proof {
            assert(ds[j] == c);
            assert(ds.take(j + 1) =~= ds.take(j).push(c));
            lemma_digits_value_push(ds.take(j), c);
        }
        if !('0' <= c && c <= '9') {
            proof {
                assert(!is_digit(ds[j]));
            }
            return None;
        }
        proof {
            assert('0' as u32 <= c as u32 <= '9' as u32);
        }
        let d = ((c as u32) - ('0' as u32)) as u128;
        proof {
            assert(d <= 9);
        }
        if magnitude > (limit - d) / 10 {
            proof {
                assert(magnitude * 10 + d > limit) by (nonlinear_arith)
                    requires
                        magnitude > (limit - d) / 10,
                        d <= 9,
                        limit == 0x8000_0000_0000_0000_0000_0000_0000_0000u128,
                ;
                assert(digits_value(ds.take(j + 1)) > limit);
                assert(all_digits(ds.take(j + 1)));
                lemma_digits_prefix_bound(ds, j + 1);
            }
            return None;
        }
        magnitude = magnitude * 10 + d;
        k = k + 1;
    }
    proof {
        assert(ds.take(ds.len() as int) =~= ds);
    }
    if neg {
        if magnitude == limit {
            Some(i128::MIN)
        } else {
            Some(-(magnitude as i128))
        }
    } else {
        if magnitude == limit {
            None
        } else {
            Some(magnitude as i128)
        }
    }
}

proof fn lemma_digits_prefix_bound(ds: Seq<char>, k: int)
    requires
        0 <= k <= ds.len(),
        all_digits(ds.take(k)),
    ensures
        all_digits(ds) ==> digits_value(ds.take(k)) <= digits_value(ds),
    decreases ds.len() - k,
{
    if k < ds.len() && all_digits(ds) {
        assert(all_digits(ds.take(k + 1)));
        lemma_digits_prefix_bound(ds, k + 1);
        assert(ds.take(k + 1) =~= ds.take(k).push(ds[k]));
        lemma_digits_value_push(ds.take(k), ds[k]);
        lemma_digits_nonneg(ds.take(k));
    } else if k == ds.len() {
        assert(ds.take(k) =~= ds);
    }
}

proof fn lemma_digits_nonneg(ds: Seq<char>)
    requires
        all_digits(ds),
    ensures
        digits_value(ds) >= 0,
    decreases ds.len(),
{
    if ds.len() > 0 {
        assert(all_digits(ds.drop_last()));
        lemma_digits_nonneg(ds.drop_last());
        assert(is_digit(ds[ds.len() - 1]));
    }
}

proof fn lemma_pow10_seven()
    ensures
        pow10(7) == 10_000_000,
{
    reveal_with_fuel(pow10, 8);
}

proof fn lemma_pow10_monotone(a: nat, b: nat)
    requires
        a <= b,
    ensures
        1 <= pow10(a) <= pow10(b),
    decreases b,
{
    if b > a {
        lemma_pow10_monotone(a, (b - 1) as nat);
    } else {
        lemma_pow10_positive(a);
    }
}

proof fn lemma_pow10_positive(n: nat)
    ensures
        pow10(n) >= 1,
    decreases n,
{
    if n > 0 {
        lemma_pow10_positive((n - 1) as nat);
    }
}

impl Stroops {
    /// The stroops of a decimal XLM amount such as `"1.5"` or `"0.0000001"`,
    /// exactly: no float is involved. The text is trimmed and split at its
    /// first `.`; the whole part is an integer, the fractional part at most
    /// seven digits.
    pub fn parse_xlm(s: &str) -> (r: Result<Stroops, XlmAmountError>)
        ensures
            match xlm_amount(s@) {
                Ok(v) => r matches Ok(st) && st.value() == v,
                Err(e) => r == Err::<Stroops, XlmAmountError>(e),
            },
    {
        let cs = chars_of(s);
        let (lo, hi) = trim_bounds(&cs);
        let ghost t = cs@.subrange(lo as int, hi as int);
        if lo == hi {
            return Err(XlmAmountError::Empty);
        }
        let mut dot = lo;
        while dot < hi && cs[dot] != '.'
            invariant
                lo <= dot <= hi <= cs@.len(),
                forall|i: int| lo <= i < dot ==> cs@[i] != '.',
            decreases hi - dot,
        {
            dot = dot + 1;
        }
        let ghost p = char_position(t, '.');
        proof {
            lemma_char_position_facts(t, '.');
            if dot < hi {
                assert(t[dot - lo] == '.');
                if p >= 0 && p < dot - lo {
                    assert(t[p] == cs@[lo + p]);
                }
                assert(p == dot - lo);
                assert(t.take(p) =~= cs@.subrange(lo as int, dot as int));
                assert(t.skip(p + 1) =~= cs@.subrange(dot + 1, hi as int));
            } else {
                if p >= 0 {
                    assert(t[p] == cs@[lo + p]);
                }
                assert(p == -1);
                assert(t =~= cs@.subrange(lo as int, dot as int));
            }
        }
        let frac_start = if dot < hi {
            dot + 1
        } else {
            hi
        };
        let ghost whole = cs@.subrange(lo as int, dot as int);
        let ghost frac = cs@.subrange(frac_start as int, hi as int);
        proof {
            if dot == hi {
                assert(frac =~= Seq::<char>::empty());
            }
        }
        let x = match parse_i128_range(&cs, lo, dot) {
            None => {
                return Err(XlmAmountError::InvalidAmount);
            },
            Some(v) => v,
        };
        if x < 0 {
            return Err(XlmAmountError::Negative);
        }
        let flen = hi - frac_start;
        let shown = if flen < 7 {
            flen
        } else {
            7
        };
        let mut fv: i128 = 0;
        let mut k: usize = 0;
        proof {
            assert(frac.take(0) =~= Seq::<char>::empty());
        }
        proof {
            assert(cs@ == s@);
            assert(trimmed(s@) == t);
            assert(amount_parts(s@).0 == whole);
            assert(amount_parts(s@).1 == frac);
        }
        while k < shown
            invariant
                trimmed(s@).len() > 0,
                parsed_i128(amount_parts(s@).0) == Some(x as int),
                x >= 0,
                amount_parts(s@).1 == frac,
                frac_start <= hi <= cs@.len(),
                frac == cs@.subrange(frac_start as int, hi as int),
                flen == frac.len(),
                shown <= 7,
                shown <= flen,
                k <= shown,
                all_digits(frac.take(k as int)),
                fv as int == digits_value(frac.take(k as int)),
                0 <= fv < pow10(k as nat),
            decreases shown - k,
        {
            let c = cs[frac_start + k];
            proof {
                assert(frac[k as int] == c);
                assert(frac.take(k + 1) =~= frac.take(k as int).push(c));
                lemma_digits_value_push(frac.take(k as int), c);
            }
            if !('0' <= c && c <= '9') {
                proof {
                    assert(frac.take(shown as int)[k as int] == c);
                    assert(!all_digits(frac.take(shown as int)));
                }
                return Err(XlmAmountError::InvalidFraction);
            }
            proof {
                assert('0' as u32 <= c as u32 <= '9' as u32);
            }
            let d = ((c as u32) - ('0' as u32)) as i128;
            proof {
                assert(0 <= d <= 9);
                assert(fv * 10 + d < 10 * pow10(k as nat)) by (nonlinear_arith)
                    requires
                        0 <= fv < pow10(k as nat),
                        0 <= d <= 9,
                ;
                assert(pow10((k + 1) as nat) == 10 * pow10(k as nat));
                lemma_pow10_seven();
                lemma_pow10_monotone((k + 1) as nat, 7);
            }
            fv = fv * 10 + d;
            k = k + 1;
        }
        if flen > 7 {
            return Err(XlmAmountError::TooManyDecimals);
        }
        proof {
            assert(frac.take(flen as int) =~= frac);
            assert(pow10(0) == 1);
            assert(fv as int == digits_value(frac) * pow10(0));
        }
        let mut pad = flen;
        while pad < 7
            invariant
                flen <= pad <= 7,
                fv as int == digits_value(frac) * pow10((pad - flen) as nat),
                0 <= fv < pow10(pad as nat),
            decreases 7 - pad,
        {
            proof {
                lemma_pow10_monotone((pad + 1) as nat, 7);
                assert(pow10((pad + 1 - flen) as nat) == 10 * pow10((pad - flen) as nat));
                assert(pow10((pad + 1) as nat) == 10 * pow10(pad as nat));
                lemma_pow10_seven();
                assert(fv * 10 < 10 * pow10(pad as nat)) by (nonlinear_arith)
                    requires
                        0 <= fv < pow10(pad as nat),
                ;
                assert(fv * 10 == digits_value(frac) * pow10((pad + 1 - flen) as nat)) by (
                nonlinear_arith)
                    requires
                        fv == digits_value(frac) * pow10((pad - flen) as nat),
                        pow10((pad + 1 - flen) as nat) == 10 * pow10((pad - flen) as nat),
                ;
            }
            fv = fv * 10;
            pad = pad + 1;
        }
        proof {
            lemma_pow10_seven();
            assert(7 - flen == (7 - frac.len()) as nat);
        }
        let xs = match x.checked_mul(10_000_000) {
            None => {
                return Err(XlmAmountError::Overflow);
            },
            Some(v) => v,
        };
        match xs.checked_add(fv) {
            None => Err(XlmAmountError::Overflow),
            Some(total) => Ok(Stroops { amount: total }),
        }
    }

    /// The stroops of a decimal XLM amount, which must be well formed; see
    /// [`parse_xlm`](Self::parse_xlm).
    pub fn from_xlm_str(s: &str) -> (r: Self)
        requires
            xlm_amount(s@) is Ok,
        ensures
            xlm_amount(s@) == Ok::<int, XlmAmountError>(r.value()),
    {
        match Stroops::parse_xlm(s) {
            Ok(v) => v,
            Err(_) => Stroops { amount: 0 },
        }
    }
}

} // verus!
