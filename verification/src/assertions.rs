//! Chainable assertions that a contract call reverted, and why.
//!
//! A [`RevertAssertion`] records whether a call reverted and the panic message
//! it left; expectations are attached by the builder methods and checked by
//! [`verify`](RevertAssertion::verify), which reports in detail what differed.
//! Contract failures are rendered by the host as `Error(Contract, #N)`, and the
//! code `N` is parsed out of the message.
use vstd::prelude::*;
use crate::soroban::{error_code, error_code_of, error_is_contract, is_contract_error};
use crate::text::{chars_of, debug_str, decimal, push_u64, str_debug};

verus! {

/// The expectation a [`RevertAssertion`] checks about why a call reverted.
#[derive(Debug, Clone, PartialEq, Eq)]
pub enum ErrorExpectation {
    /// No expectation was declared yet.
    Unset,
    /// Any revert satisfies the assertion.
    Any,
    /// The revert must carry this contract error code.
    Code(u32),
    /// The captured panic message must contain this substring.
    Message(String),
}

/// Whether `pattern` occurs in `s` at position `i`.
pub open spec fn occurs_at(s: Seq<char>, pattern: Seq<char>, i: int) -> bool {
    0 <= i && i + pattern.len() <= s.len() && s.subrange(i, i + pattern.len()) == pattern
}

/// The first position at or after `from` where `pattern` occurs in `s`, or -1.
pub open spec fn first_occurrence_from(s: Seq<char>, pattern: Seq<char>, from: int) -> int
    decreases s.len() + 1 - from,
{
    if from < 0 || from + pattern.len() > s.len() {
        -1
    } else if occurs_at(s, pattern, from) {
        from
    } else {
        first_occurrence_from(s, pattern, from + 1)
    }
}

/// The first position where `pattern` occurs in `s`, or -1.
pub open spec fn first_occurrence(s: Seq<char>, pattern: Seq<char>) -> int {
    first_occurrence_from(s, pattern, 0)
}

/// Whether `s` contains `pattern`.
pub open spec fn contains_text(s: Seq<char>, pattern: Seq<char>) -> bool {
    first_occurrence(s, pattern) >= 0
}

/// Whether `c` is an ASCII decimal digit.
pub open spec fn is_digit(c: char) -> bool {
    '0' <= c && c <= '9'
}

/// The ASCII digits at the start of `s`.
pub open spec fn leading_digits(s: Seq<char>) -> Seq<char>
    decreases s.len(),
{
    if s.len() == 0 || !is_digit(s[0]) {
        seq![]
    } else {
        seq![s[0]] + leading_digits(s.drop_first())
    }
}

/// The number a string of ASCII digits spells.
pub open spec fn digits_value(ds: Seq<char>) -> int
    decreases ds.len(),
{
    if ds.len() == 0 {
        0
    } else {
        digits_value(ds.drop_last()) * 10 + (ds.last() as int - '0' as int)
    }
}

/// The marker the host puts before a contract error code.
pub open spec fn contract_error_marker() -> Seq<char> {
    "Error(Contract, #"@
}

/// The contract error code in a host panic message: the digits right after the
/// first `Error(Contract, #`, when there are some and they fit in a `u32`.
pub open spec fn contract_error_code_in(message: Seq<char>) -> Option<u32> {
    let at = first_occurrence(message, contract_error_marker());
    if at < 0 {
        None
    } else {
        let ds = leading_digits(message.skip(at + contract_error_marker().len()));
        if ds.len() == 0 || digits_value(ds) > u32::MAX {
            None
        } else {
            Some(digits_value(ds) as u32)
        }
    }
}

proof fn lemma_first_occurrence_found(s: Seq<char>, pattern: Seq<char>, from: int)
    ensures
        first_occurrence_from(s, pattern, from) >= 0 ==> occurs_at(
            s,
            pattern,
            first_occurrence_from(s, pattern, from),
        ) && from <= first_occurrence_from(s, pattern, from),
    decreases s.len() + 1 - from,
{
    if !(from < 0 || from + pattern.len() > s.len()) && !occurs_at(s, pattern, from) {
        lemma_first_occurrence_found(s, pattern, from + 1);
    }
}

proof fn lemma_leading_digits_shape(s: Seq<char>)
    ensures
        leading_digits(s).len() <= s.len(),
        forall|i: int| 0 <= i < leading_digits(s).len() ==> #[trigger] leading_digits(s)[i] == s[i],
        forall|i: int| 0 <= i < leading_digits(s).len() ==> is_digit(#[trigger] s[i]),
        leading_digits(s).len() < s.len() ==> !is_digit(s[leading_digits(s).len() as int]),
    decreases s.len(),
{
    if s.len() > 0 && is_digit(s[0]) {
        lemma_leading_digits_shape(s.drop_first());
        assert forall|i: int| 0 <= i < leading_digits(s).len() implies #[trigger] leading_digits(s)[i] == s[i] by {
            if i > 0 {
                assert(leading_digits(s)[i] == leading_digits(s.drop_first())[i - 1]);
            }
        }
        assert forall|i: int| 0 <= i < leading_digits(s).len() implies is_digit(#[trigger] s[i]) by {
            if i > 0 {
                assert(s[i] == s.drop_first()[i - 1]);
            }
        }
    }
}

proof fn lemma_digits_value_grows(ds: Seq<char>, k: int)
    requires
        0 <= k <= ds.len(),
        forall|i: int| 0 <= i < ds.len() ==> is_digit(#[trigger] ds[i]),
    ensures
        digits_value(ds.take(k)) <= digits_value(ds),
        digits_value(ds) >= 0,
    decreases ds.len() - k,
{
    if k < ds.len() {
        lemma_digits_value_grows(ds, k + 1);
        let t = ds.take(k + 1);
        assert(t.drop_last() =~= ds.take(k));
        assert(is_digit(t.last()));
        lemma_digits_value_nonneg(ds.take(k));
    } else {
        assert(ds.take(k) =~= ds);
        lemma_digits_value_nonneg(ds);
    }
}

proof fn lemma_digits_value_nonneg(ds: Seq<char>)
    requires
        forall|i: int| 0 <= i < ds.len() ==> is_digit(#[trigger] ds[i]),
    ensures
        digits_value(ds) >= 0,
    decreases ds.len(),
{
    if ds.len() > 0 {
        lemma_digits_value_nonneg(ds.drop_last());
        assert(is_digit(ds[ds.len() - 1]));
    }
}

/// The first position at or after `from` where `pattern` occurs in `s`.
fn find_text(s: &Vec<char>, pattern: &Vec<char>) -> (r: Option<usize>)
    ensures
        r matches Some(i) ==> i as int == first_occurrence(s@, pattern@) && i + pattern@.len()
            <= s@.len(),
        r is None ==> first_occurrence(s@, pattern@) == -1,
{
    let n = s.len();
    let m = pattern.len();
    let mut i: usize = 0;
    while i <= n && m <= n - i
        invariant
            n == s@.len(),
            m == pattern@.len(),
            i <= n + 1,
            first_occurrence(s@, pattern@) == first_occurrence_from(s@, pattern@, i as int),
        decreases n + 1 - i,
    {
        let mut j: usize = 0;
        let mut same = true;
        while j < m && same
            invariant
                i + m <= n,
                n == s@.len(),
                m == pattern@.len(),
                j <= m,
                same ==> forall|k: int| 0 <= k < j ==> s@[i + k] == pattern@[k],
                !same ==> !occurs_at(s@, pattern@, i as int) && j < m,
            decreases m - j + (if same {
                1int
            } else {
                0int
            }),
        {
            if s[i + j] != pattern[j] {
                same = false;
                proof {
                    assert(s@.subrange(i as int, i + m)[j as int] != pattern@[j as int]);
                }
            } else {
                j = j + 1;
            }
        }
        if same {
            proof {
                assert(s@.subrange(i as int, i + m) =~= pattern@);
            }
            return Some(i);
        }
        proof {
            assert(m > 0);
        }
        i = i + 1;
    }
    None
}

/// Parses the contract error code out of a rendered host panic message, such
/// as the `7` of `HostError: Error(Contract, #7)`; `None` for a message that
/// is not a contract error, or whose code does not fit in a `u32`.
pub fn parse_contract_error_code(message: &str) -> (r: Option<u32>)
    ensures
        r == contract_error_code_in(message@),
{
    let s = chars_of(message);
    let total = s.len();
    let marker = chars_of("Error(Contract, #");
    proof {
        assert(contract_error_marker() == marker@);
    }
    match find_text(&s, &marker) {
        None => None,
        Some(at) => {
            proof {
                lemma_first_occurrence_found(s@, marker@, 0);
            }
            let start = at + marker.len();
            let ghost rest = s@.skip(start as int);
            proof {
                lemma_leading_digits_shape(rest);
            }
            let ghost ds = leading_digits(rest);
            proof {
                assert(ds.take(0) =~= Seq::<char>::empty());
            }
            let mut value: u64 = 0;
            let mut k: usize = start;
            while k < s.len() && '0' <= s[k] && s[k] <= '9'
                invariant
                    start <= k <= s@.len(),
                    rest == s@.skip(start as int),
                    rest == message@.skip(
                        first_occurrence(message@, contract_error_marker())
                            + contract_error_marker().len(),
                    ),
                    first_occurrence(message@, contract_error_marker()) >= 0,
                    ds == leading_digits(rest),
                    k - start <= ds.len(),
                    forall|i: int| 0 <= i < ds.len() ==> #[trigger] ds[i] == rest[i],
                    forall|i: int| 0 <= i < ds.len() ==> is_digit(#[trigger] rest[i]),
                    ds.len() < rest.len() ==> !is_digit(rest[ds.len() as int]),
                    value as int == digits_value(ds.take(k - start)),
                    value <= u32::MAX,
                decreases s@.len() - k,
            {
                let ghost j = (k - start) as int;
                proof {
                    assert(rest[j] == s@[k as int]);
                    assert(j < ds.len());
                    assert(ds.take(j + 1).drop_last() =~= ds.take(j));
                    assert(ds.take(j + 1).last() == s@[k as int]);
                }
                let c = s[k];
                proof {
                    assert('0' as u32 <= c as u32 <= '9' as u32);
                }
                let d = (c as u32) - ('0' as u32);
                let next = value * 10 + (d as u64);
                proof {
                    assert(ds.take(j + 1).last() == ds[j]);
                    assert(next as int == digits_value(ds.take(j + 1)));
                }
                if next > 0xFFFF_FFFF {
                    proof {
                        assert forall|i: int| 0 <= i < ds.len() implies is_digit(#[trigger] ds[i]) by {
                            assert(ds[i] == rest[i]);
                        }
                        lemma_digits_value_grows(ds, j + 1);
                        assert(digits_value(ds) > u32::MAX);
                        assert(ds.len() > 0);
                        assert(rest == message@.skip(
                            first_occurrence(message@, contract_error_marker()) + contract_error_marker().len(),
                        ));
                    }
                    return None;
                }
                value = next;
                k = k + 1;
            }
            let count = k - start;
            proof {
                if count < ds.len() {
                    assert(rest[count as int] == s@[k as int]);
                }
                assert(count == ds.len());
                assert(ds.take(count as int) =~= ds);
                assert(contract_error_marker() == marker@);
            }
            if count == 0 {
                None
            } else {
                Some(value as u32)
            }
        },
    }
}

/// Whether `message` satisfies `expectation`, given the code parsed from it.
pub open spec fn expectation_met(
    expectation: ErrorExpectation,
    code: Option<u32>,
    message: Option<String>,
) -> bool {
    match expectation {
        ErrorExpectation::Unset | ErrorExpectation::Any => true,
        ErrorExpectation::Code(expected) => code == Some(expected),
        ErrorExpectation::Message(substring) => match message {
            Some(m) => contains_text(m@, substring@),
            None => false,
        },
    }
}

/// A message, or `<unavailable>` when there is none.
pub open spec fn message_or_unavailable(message: Option<String>) -> Seq<char> {
    match message {
        Some(m) => m@,
        None => "<unavailable>"@,
    }
}

/// The report of a revert that carried the wrong contract error.
pub open spec fn wrong_error_report(expected: u32, code: Option<u32>, message: Option<String>) -> Seq<
    char,
> {
    "expect_revert failed: the call reverted with a different error.\n\nExpected : contract error #"@
        + decimal(expected as nat) + "\nActual   : "@ + (match code {
        Some(c) => "contract error #"@ + decimal(c as nat),
        None => "no contract error code in the panic payload"@,
    }) + "\nPanic    : "@ + message_or_unavailable(message)
}

/// The report of a revert whose message lacked the expected text.
pub open spec fn missing_text_report(substring: Seq<char>, message: Option<String>) -> Seq<char> {
    "expect_revert failed: the panic message did not contain the expected text.\n\nExpected substring : "@
        + substring + "\nActual message     : "@ + message_or_unavailable(message)
}

/// The description of an expectation in a failure report; a substring of the
/// message is shown as its `Debug` rendering.
pub open spec fn described(expectation: ErrorExpectation) -> Seq<char> {
    match expectation {
        ErrorExpectation::Code(code) => "a revert with contract error #"@ + decimal(code as nat),
        ErrorExpectation::Message(sub) => "a revert whose message contains "@ + str_debug(sub@),
        _ => "a revert (any error)"@,
    }
}

/// Whether `report` is what a call that did not revert is reported with: the
/// expectation, described.
pub open spec fn not_reverted_report(expectation: ErrorExpectation, report: Seq<char>) -> bool {
    report == "expect_revert failed: the call did not revert.\n\nExpected : "@ + described(
        expectation,
    )
}

/// A chainable assertion that a call reverted.
///
/// The call has already run when the assertion is made: it records whether
/// the call reverted, the panic message and the contract error code parsed from
/// it. Expectations are attached with the `with_*` methods and checked by
/// [`verify`](Self::verify) or [`and_assert`](Self::and_assert).
#[derive(Debug)]
#[must_use]
pub struct RevertAssertion {
    reverted: bool,
    message: Option<String>,
    code: Option<u32>,
    expectation: ErrorExpectation,
}

impl RevertAssertion {
    /// Whether the call reverted.
    pub closed spec fn did_revert(&self) -> bool {
        self.reverted
    }

    /// The panic message recorded.
    pub closed spec fn recorded_message(&self) -> Option<String> {
        self.message
    }

    /// Whether `report` is what a failed check of this assertion reports: the
    /// expectation against a call that did not revert, or the declared error or
    /// message against the one that was recorded.
    pub open spec fn failure_report(&self, report: Seq<char>) -> bool {
        &&& !self.did_revert() ==> not_reverted_report(self.expected(), report)
        &&& self.did_revert() ==> match self.expected() {
            ErrorExpectation::Code(expected) => report == wrong_error_report(
                expected,
                self.recorded_code(),
                self.recorded_message(),
            ),
            ErrorExpectation::Message(substring) => report == missing_text_report(
                substring@,
                self.recorded_message(),
            ),
            _ => false,
        }
    }

    /// The contract error code recorded.
    pub closed spec fn recorded_code(&self) -> Option<u32> {
        self.code
    }

    /// The expectation declared.
    pub closed spec fn expected(&self) -> ErrorExpectation {
        self.expectation
    }

    /// An assertion about a call that did or did not revert, leaving `message`;
    /// the contract error code is parsed from the message.
    pub fn from_run(reverted: bool, message: Option<String>) -> (r: Self)
        ensures
            r.did_revert() == reverted,
            r.recorded_message() == (if reverted {
                message
            } else {
                None
            }),
            r.recorded_code() == (match r.recorded_message() {
                Some(m) => contract_error_code_in(m@),
                None => None,
            }),
            r.expected() == ErrorExpectation::Unset,
    {
        if !reverted {
            return RevertAssertion {
                reverted: false,
                message: None,
                code: None,
                expectation: ErrorExpectation::Unset,
            };
        }
        let code = match &message {
            Some(m) => parse_contract_error_code(m.as_str()),
            None => None,
        };
        RevertAssertion { reverted: true, message, code, expectation: ErrorExpectation::Unset }
    }

    /// Requires the revert to carry the given contract error; an error that is
    /// not a contract error is expected as code `u32::MAX`, which no parsed code
    /// can equal by accident.
    pub fn with_error(self, error: soroban_sdk::Error) -> (r: Self)
        ensures
            r.did_revert() == self.did_revert(),
            r.recorded_message() == self.recorded_message(),
            r.recorded_code() == self.recorded_code(),
            r.expected() == ErrorExpectation::Code(
                if is_contract_error(error) {
                    error_code_of(error)
                } else {
                    u32::MAX
                },
            ),
    {
        let code = if error_is_contract(&error) {
            error_code(&error)
        } else {
            u32::MAX
        };
        RevertAssertion { expectation: ErrorExpectation::Code(code), ..self }
    }

    /// Requires the revert to carry the given raw contract error code.
    pub fn with_error_code(self, code: u32) -> (r: Self)
        ensures
            r.did_revert() == self.did_revert(),
            r.recorded_message() == self.recorded_message(),
            r.recorded_code() == self.recorded_code(),
            r.expected() == ErrorExpectation::Code(code),
    {
        RevertAssertion { expectation: ErrorExpectation::Code(code), ..self }
    }

    /// Accepts any revert, regardless of the error it carried.
    pub fn with_any_error(self) -> (r: Self)
        ensures
            r.did_revert() == self.did_revert(),
            r.recorded_message() == self.recorded_message(),
            r.recorded_code() == self.recorded_code(),
            r.expected() == ErrorExpectation::Any,
    {
        RevertAssertion { expectation: ErrorExpectation::Any, ..self }
    }

    /// Requires the recorded panic message to contain `substring`.
    pub fn with_message_containing(self, substring: &str) -> (r: Self)
        ensures
            r.did_revert() == self.did_revert(),
            r.recorded_message() == self.recorded_message(),
            r.recorded_code() == self.recorded_code(),
            r.expected() matches ErrorExpectation::Message(s) && s@ == substring@,
    {
        RevertAssertion {
            expectation: ErrorExpectation::Message(String::from_str(substring)),
            ..self
        }
    }

    /// Returns `true` if the call reverted.
    pub fn reverted(&self) -> (r: bool)
        ensures
            r == self.did_revert(),
    {
        self.reverted
    }

    /// Returns the contract error code carried by the revert, if one was found.
    pub fn error_code(&self) -> (r: Option<u32>)
        ensures
            r == self.recorded_code(),
    {
        self.code
    }

    /// Returns the recorded panic message, if there is one.
    pub fn message(&self) -> (r: Option<&str>)
        ensures
            r is None <==> self.recorded_message() is None,
            r matches Some(m) ==> (self.recorded_message() matches Some(s) && m@ == s@),
    {
        match &self.message {
            Some(m) => Some(m.as_str()),
            None => None,
        }
    }

    /// Checks the assertion: `Ok` when the call reverted as declared (any
    /// revert when nothing was declared), else the report of what differed.
    pub fn verify(self) -> (r: Result<(), String>)
        ensures
            r is Ok <==> self.did_revert() && expectation_met(
                self.expected(),
                self.recorded_code(),
                self.recorded_message(),
            ),
            r matches Err(m) ==> self.failure_report(m@),
    {
        self.check()
    }

    /// Checks the assertion, then runs `assertions` for post-revert checks:
    /// they run only once the call is known to have reverted as declared.
    pub fn and_assert<F: FnOnce() -> T, T>(self, assertions: F) -> (r: Result<T, String>)
        requires
            assertions.requires(()),
        ensures
            r is Ok <==> self.did_revert() && expectation_met(
                self.expected(),
                self.recorded_code(),
                self.recorded_message(),
            ),
            r matches Ok(v) ==> assertions.ensures((), v),
            r matches Err(m) ==> self.failure_report(m@),
    {
        match self.check() {
            Ok(()) => Ok(assertions()),
            Err(m) => Err(m),
        }
    }

    fn check(&self) -> (r: Result<(), String>)
        ensures
            r is Ok <==> self.did_revert() && expectation_met(
                self.expected(),
                self.recorded_code(),
                self.recorded_message(),
            ),
            r matches Err(m) ==> self.failure_report(m@),
    {
        if !self.reverted {
            let mut m = String::from_str("expect_revert failed: the call did not revert.\n\nExpected : ");
            describe(&self.expectation, &mut m);
            return Err(m);
        }
        match &self.expectation {
            ErrorExpectation::Unset => Ok(()),
            ErrorExpectation::Any => Ok(()),
            ErrorExpectation::Code(expected) => {
                if self.code == Some(*expected) {
                    return Ok(());
                }
                let mut m = String::from_str(
                    "expect_revert failed: the call reverted with a different error.\n\nExpected : contract error #",
                );
                push_u64(&mut m, *expected as u64);
                m.append("\nActual   : ");
                match self.code {
                    Some(c) => {
                        m.append("contract error #");
                        push_u64(&mut m, c as u64);
                    },
                    None => m.append("no contract error code in the panic payload"),
                }
                m.append("\nPanic    : ");
                push_message(&mut m, &self.message);
                proof {
                    assert(m@ =~= wrong_error_report(*expected, self.code, self.message));
                }
                Err(m)
            },
            ErrorExpectation::Message(substring) => {
                let matched = match &self.message {
                    Some(text) => {
                        let s = chars_of(text.as_str());
                        let p = chars_of(substring.as_str());
                        find_text(&s, &p).is_some()
                    },
                    None => false,
                };
                if matched {
                    return Ok(());
                }
                let mut m = String::from_str(
                    "expect_revert failed: the panic message did not contain the expected text.\n\nExpected substring : ",
                );
                m.append(substring.as_str());
                m.append("\nActual message     : ");
                push_message(&mut m, &self.message);
                proof {
                    assert(m@ =~= missing_text_report(substring@, self.message));
                }
                Err(m)
            },
        }
    }
}

/// Appends a message, or `<unavailable>` when there is none.
fn push_message(out: &mut String, message: &Option<String>)
    ensures
        final(out)@ == old(out)@ + message_or_unavailable(*message),
{
    match message {
        Some(text) => out.append(text.as_str()),
        None => out.append("<unavailable>"),
    }
}

/// Appends the description of an expectation for a failure report.
fn describe(expectation: &ErrorExpectation, out: &mut String)
    ensures
        final(out)@ == old(out)@ + described(*expectation),
{
    let ghost start = out@;
    match expectation {
        ErrorExpectation::Unset | ErrorExpectation::Any => out.append("a revert (any error)"),
        ErrorExpectation::Code(code) => {
            out.append("a revert with contract error #");
            push_u64(out, *code as u64);
        },
        ErrorExpectation::Message(substring) => {
            out.append("a revert whose message contains ");
            let shown = debug_str(substring.as_str());
            out.append(shown.as_str());
        },
    }
    proof {
        assert(out@ =~= start + described(*expectation));
    }
}

} // verus!
