//! Comparing the authorization tree a contract call recorded against the one a
//! test declares.
//!
//! An address signs a root invocation, and that signature covers a tree of
//! sub-invocations. The comparison walks both trees position by position and
//! reports every place where they diverge: an authorization that is missing, one
//! that is unexpected, or one attached to the wrong contract, function or
//! arguments.
//!
//! Trees are held as plain values. A call target carries the contract address in
//! its string form, the function as rendered for reading, a canonical encoding of
//! the arguments (equal arguments encode to equal bytes) and the arguments'
//! rendering.
use vstd::prelude::*;
use crate::text::{decimal, push_u64, repeat_seq};

verus! {

/// The function an authorization covers, as the host recorded it.
#[derive(Clone, Debug)]
pub enum AuthorizedCall {
    /// A contract function with its arguments.
    Contract { contract: String, function: String, args: Vec<u8>, args_text: String },
    /// Any other authorized action (such as deploying a contract), rendered.
    Other(String),
}

/// One node of a recorded authorization tree.
#[derive(Debug)]
pub struct RecordedInvocation {
    pub function: AuthorizedCall,
    pub sub_invocations: Vec<RecordedInvocation>,
}

/// A recorded `(address, invocation tree)` entry.
#[derive(Debug)]
pub struct RecordedAuth {
    pub address: String,
    pub invocation: RecordedInvocation,
}

/// One node of an expected authorization tree.
#[derive(Debug)]
pub struct ExpectedInvocation {
    /// Contract that requires the authorization, in its string form.
    pub contract: String,
    /// Function whose invocation is authorized, as rendered for reading.
    pub function: String,
    /// Canonical encoding of the arguments the authorization covers.
    pub args: Vec<u8>,
    /// The arguments, rendered for reading.
    pub args_text: String,
    /// Sub-invocations this authorization is expected to cover, in order.
    pub sub_invocations: Vec<ExpectedInvocation>,
}

/// An expected `(address, invocation tree)` entry.
#[derive(Debug)]
pub struct ExpectedAuth {
    /// The address expected to have authorized the tree.
    pub address: String,
    /// The root of the invocation tree that address authorized.
    pub invocation: ExpectedInvocation,
}

/// A single way in which the recorded tree differs from the expected one.
#[derive(Clone, Debug, PartialEq, Eq)]
pub enum AuthMismatch {
    /// The test expected an authorization the host never recorded.
    Missing { path: String, expected: String },
    /// The host recorded an authorization the test did not declare.
    Unexpected { path: String, found: String },
    /// An authorization exists at this position but for a different contract,
    /// function or argument set.
    Mismatched { path: String, expected: String, found: String },
}

/// The text of a mismatch, field by field.
pub enum MismatchView {
    Missing { path: Seq<char>, expected: Seq<char> },
    Unexpected { path: Seq<char>, found: Seq<char> },
    Mismatched { path: Seq<char>, expected: Seq<char>, found: Seq<char> },
}

impl View for AuthMismatch {
    type V = MismatchView;

    open spec fn view(&self) -> MismatchView {
        match self {
            AuthMismatch::Missing { path, expected } => MismatchView::Missing {
                path: path@,
                expected: expected@,
            },
            AuthMismatch::Unexpected { path, found } => MismatchView::Unexpected {
                path: path@,
                found: found@,
            },
            AuthMismatch::Mismatched { path, expected, found } => MismatchView::Mismatched {
                path: path@,
                expected: expected@,
                found: found@,
            },
        }
    }
}

pub open spec fn views(ms: Seq<AuthMismatch>) -> Seq<MismatchView> {
    ms.map_values(|m: AuthMismatch| m@)
}

// ── What the comparison reports ─────────────────────────────────────────────

/// `contract.function(args)`.
pub open spec fn target_text(contract: Seq<char>, function: Seq<char>, args_text: Seq<char>) -> Seq<
    char,
> {
    contract + "."@ + function + "("@ + args_text + ")"@
}

pub open spec fn expected_text(e: ExpectedInvocation) -> Seq<char> {
    target_text(e.contract@, e.function@, e.args_text@)
}

pub open spec fn call_text(c: AuthorizedCall) -> Seq<char> {
    match c {
        AuthorizedCall::Contract { contract, function, args_text, .. } => target_text(
            contract@,
            function@,
            args_text@,
        ),
        AuthorizedCall::Other(text) => text@,
    }
}

/// A recorded call satisfies an expectation when it is a contract call to the
/// same contract and function with equal arguments.
pub open spec fn call_matches(e: ExpectedInvocation, c: AuthorizedCall) -> bool {
    match c {
        AuthorizedCall::Contract { contract, function, args, .. } => contract@ == e.contract@
            && function@ == e.function@ && args@ == e.args@,
        AuthorizedCall::Other(_) => false,
    }
}

pub open spec fn entry_path(i: nat) -> Seq<char> {
    "auth["@ + decimal(i) + "]"@
}

pub open spec fn sub_path(path: Seq<char>, i: nat) -> Seq<char> {
    path + ".sub["@ + decimal(i) + "]"@
}

/// The mismatches of one node and, recursively, of its sub-invocations.
pub open spec fn node_mismatches(
    path: Seq<char>,
    e: ExpectedInvocation,
    f: RecordedInvocation,
) -> Seq<MismatchView>
    decreases e, 1int,
{
    (if call_matches(e, f.function) {
        seq![]
    } else {
        seq![
            MismatchView::Mismatched {
                path: path,
                expected: expected_text(e),
                found: call_text(f.function),
            },
        ]
    }) + subs_mismatches(path, e.sub_invocations@, f.sub_invocations@) + extra_subs(
        path,
        e.sub_invocations@.len(),
        f.sub_invocations@,
    )
}

/// The mismatches of the expected sub-invocations `es`, each compared with
/// the recorded one at its position in `fs`.
pub open spec fn subs_mismatches(
    path: Seq<char>,
    es: Seq<ExpectedInvocation>,
    fs: Seq<RecordedInvocation>,
) -> Seq<MismatchView>
    decreases es, 0int,
{
    if es.len() == 0 {
        seq![]
    } else {
        let i = (es.len() - 1) as nat;
        subs_mismatches(path, es.drop_last(), fs) + (if i < fs.len() {
            node_mismatches(sub_path(path, i), es.last(), fs[i as int])
        } else {
            seq![MismatchView::Missing { path: sub_path(path, i), expected: expected_text(es.last()) }]
        })
    }
}

pub open spec fn unexpected_sub(path: Seq<char>, i: int, fs: Seq<RecordedInvocation>) -> MismatchView {
    MismatchView::Unexpected { path: sub_path(path, i as nat), found: call_text(fs[i].function) }
}

/// The recorded sub-invocations from position `start` on, none expected.
pub open spec fn extra_subs(path: Seq<char>, start: nat, fs: Seq<RecordedInvocation>) -> Seq<
    MismatchView,
> {
    if start < fs.len() {
        Seq::new((fs.len() - start) as nat, |k: int| unexpected_sub(path, start + k, fs))
    } else {
        seq![]
    }
}

/// The mismatches of the `i`th expected entry.
pub open spec fn entry_mismatches(i: nat, e: ExpectedAuth, recorded: Seq<RecordedAuth>) -> Seq<
    MismatchView,
> {
    if i >= recorded.len() {
        seq![
            MismatchView::Missing {
                path: entry_path(i),
                expected: e.address@ + " => "@ + expected_text(e.invocation),
            },
        ]
    } else {
        let r = recorded[i as int];
        (if r.address@ == e.address@ {
            seq![]
        } else {
            seq![
                MismatchView::Mismatched {
                    path: entry_path(i) + ".address"@,
                    expected: e.address@,
                    found: r.address@,
                },
            ]
        }) + node_mismatches(entry_path(i), e.invocation, r.invocation)
    }
}

pub open spec fn expected_mismatches(expected: Seq<ExpectedAuth>, recorded: Seq<RecordedAuth>) -> Seq<
    MismatchView,
>
    decreases expected.len(),
{
    if expected.len() == 0 {
        seq![]
    } else {
        expected_mismatches(expected.drop_last(), recorded) + entry_mismatches(
            (expected.len() - 1) as nat,
            expected.last(),
            recorded,
        )
    }
}

pub open spec fn unexpected_entry(i: int, recorded: Seq<RecordedAuth>) -> MismatchView {
    MismatchView::Unexpected {
        path: entry_path(i as nat),
        found: recorded[i].address@ + " => "@ + call_text(recorded[i].invocation.function),
    }
}

/// The recorded entries from position `start` on, none expected.
pub open spec fn unexpected_entries(start: nat, recorded: Seq<RecordedAuth>) -> Seq<MismatchView> {
    if start < recorded.len() {
        Seq::new((recorded.len() - start) as nat, |k: int| unexpected_entry(start + k, recorded))
    } else {
        seq![]
    }
}

/// Every mismatch between the expected and the recorded entries, compared
/// positionally, outermost first.
pub open spec fn auth_mismatches(expected: Seq<ExpectedAuth>, recorded: Seq<RecordedAuth>) -> Seq<
    MismatchView,
> {
    expected_mismatches(expected, recorded) + unexpected_entries(expected.len(), recorded)
}

// ── When two trees agree ────────────────────────────────────────────────────

/// An expected node agrees with a recorded one when the call matches and the
/// sub-invocations agree one for one.
pub open spec fn invocation_agrees(e: ExpectedInvocation, f: RecordedInvocation) -> bool
    decreases e, 1int,
{
    &&& call_matches(e, f.function)
    &&& e.sub_invocations@.len() == f.sub_invocations@.len()
    &&& invocations_agree(e.sub_invocations@, f.sub_invocations@)
}

/// Each of `es` agrees with the recorded node at its position in `fs`.
pub open spec fn invocations_agree(es: Seq<ExpectedInvocation>, fs: Seq<RecordedInvocation>) -> bool
    decreases es, 0int,
{
    if es.len() == 0 {
        true
    } else {
        &&& invocations_agree(es.drop_last(), fs)
        &&& es.len() - 1 < fs.len()
        &&& invocation_agrees(es.last(), fs[es.len() - 1])
    }
}

/// An expected entry agrees with a recorded one: same address, agreeing trees.
pub open spec fn entry_agrees(e: ExpectedAuth, r: RecordedAuth) -> bool {
    e.address@ == r.address@ && invocation_agrees(e.invocation, r.invocation)
}

/// Each expected entry agrees with the recorded one at its position.
pub open spec fn entries_agree(expected: Seq<ExpectedAuth>, recorded: Seq<RecordedAuth>) -> bool {
    forall|i: int| 0 <= i < expected.len() ==> #[trigger] entry_agrees(expected[i], recorded[i])
}

/// The recorded entries are exactly the expected ones: same number, same
/// addresses, agreeing trees.
pub open spec fn auth_agrees(expected: Seq<ExpectedAuth>, recorded: Seq<RecordedAuth>) -> bool {
    expected.len() == recorded.len() && entries_agree(expected, recorded)
}

proof fn lemma_node_empty_iff(path: Seq<char>, e: ExpectedInvocation, f: RecordedInvocation)
    ensures
        (node_mismatches(path, e, f).len() == 0) == invocation_agrees(e, f),
    decreases e, 1int,
{
    lemma_subs_empty_iff(path, e.sub_invocations@, f.sub_invocations@);
    lemma_subs_len_bound(path, e.sub_invocations@, f.sub_invocations@);
}

proof fn lemma_subs_empty_iff(path: Seq<char>, es: Seq<ExpectedInvocation>, fs: Seq<RecordedInvocation>)
    ensures
        (subs_mismatches(path, es, fs).len() == 0) == invocations_agree(es, fs),
    decreases es, 0int,
{
    if es.len() > 0 {
        lemma_subs_empty_iff(path, es.drop_last(), fs);
        let i = (es.len() - 1) as nat;
        if i < fs.len() {
            lemma_node_empty_iff(sub_path(path, i), es.last(), fs[i as int]);
        }
    }
}

/// Agreement of a non-empty list of sub-invocations needs at least as many
/// recorded ones.
proof fn lemma_subs_len_bound(path: Seq<char>, es: Seq<ExpectedInvocation>, fs: Seq<RecordedInvocation>)
    ensures
        invocations_agree(es, fs) ==> es.len() <= fs.len(),
{
}

proof fn lemma_expected_empty_iff(expected: Seq<ExpectedAuth>, recorded: Seq<RecordedAuth>)
    requires
        expected.len() <= recorded.len(),
    ensures
        (expected_mismatches(expected, recorded).len() == 0) == entries_agree(expected, recorded),
    decreases expected.len(),
{
    if expected.len() > 0 {
        let init = expected.drop_last();
        let n = (expected.len() - 1) as nat;
        lemma_expected_empty_iff(init, recorded);
        lemma_node_empty_iff(entry_path(n), expected.last().invocation, recorded[n as int].invocation);
        let last = entry_mismatches(n, expected.last(), recorded);
        assert(expected_mismatches(expected, recorded) == expected_mismatches(init, recorded) + last);
        assert((last.len() == 0) == entry_agrees(expected.last(), recorded[n as int]));
        if expected_mismatches(expected, recorded).len() == 0 {
            assert forall|i: int| 0 <= i < expected.len() implies #[trigger] entry_agrees(
                expected[i],
                recorded[i],
            ) by {
                if i < n {
                    assert(init[i] == expected[i]);
                    assert(entry_agrees(init[i], recorded[i]));
                }
            }
        } else if entries_agree(expected, recorded) {
            assert forall|i: int| 0 <= i < init.len() implies #[trigger] entry_agrees(
                init[i],
                recorded[i],
            ) by {
                assert(init[i] == expected[i]);
                assert(entry_agrees(expected[i], recorded[i]));
            }
            assert(entry_agrees(expected[n as int], recorded[n as int]));
        }
    }
}

/// The comparison reports no mismatch exactly when the recorded entries agree
/// with the expected ones: the same number of entries, the same addresses, and
/// at every position of every tree the same call with the same number of
/// sub-invocations.
pub proof fn lemma_no_mismatch_iff_trees_agree(
    expected: Seq<ExpectedAuth>,
    recorded: Seq<RecordedAuth>,
)
    ensures
        (auth_mismatches(expected, recorded).len() == 0) == auth_agrees(expected, recorded),
{
    if expected.len() <= recorded.len() {
        lemma_expected_empty_iff(expected, recorded);
    } else {
        lemma_expected_prefix_missing(expected, recorded);
    }
}

/// More expected entries than recorded ones always leave a mismatch.
proof fn lemma_expected_prefix_missing(expected: Seq<ExpectedAuth>, recorded: Seq<RecordedAuth>)
    requires
        expected.len() > recorded.len(),
    ensures
        expected_mismatches(expected, recorded).len() > 0,
{
    assert(expected_mismatches(expected, recorded) == expected_mismatches(
        expected.drop_last(),
        recorded,
    ) + entry_mismatches((expected.len() - 1) as nat, expected.last(), recorded));
}

// ── What is reported where ──────────────────────────────────────────────────

proof fn lemma_contains_concat<A>(a: Seq<A>, b: Seq<A>, x: A)
    ensures
        (a.contains(x) || b.contains(x)) ==> (a + b).contains(x),
{
    if a.contains(x) {
        let w = choose|w: int| 0 <= w < a.len() && a[w] == x;
        assert((a + b)[w] == x);
    } else if b.contains(x) {
        let w = choose|w: int| 0 <= w < b.len() && b[w] == x;
        assert((a + b)[a.len() + w] == x);
    }
}

/// Whether a recorded call is a call of the expected contract's expected
/// function with the expected arguments.
pub open spec fn same_target(e: ExpectedInvocation, c: AuthorizedCall) -> bool {
    c matches AuthorizedCall::Contract { contract, function, args, .. } && contract@ == e.contract@
        && function@ == e.function@ && args@ == e.args@
}

/// A recorded node whose call is not a call of the expected contract's
/// expected function with the expected arguments (another contract, another
/// function, other arguments, or no contract call at all) is reported, first,
/// as a mismatch at the node's own path naming both calls; a node whose call is
/// that call is not reported as mismatched there.
pub proof fn lemma_node_reports_wrong_target(
    path: Seq<char>,
    e: ExpectedInvocation,
    f: RecordedInvocation,
)
    ensures
        !same_target(e, f.function) ==> node_mismatches(path, e, f).len() > 0 && node_mismatches(
            path,
            e,
            f,
        )[0] == (MismatchView::Mismatched {
            path: path,
            expected: expected_text(e),
            found: call_text(f.function),
        }),
        same_target(e, f.function) ==> call_matches(e, f.function),
{
    let first: Seq<MismatchView> = if call_matches(e, f.function) {
        seq![]
    } else {
        seq![
            MismatchView::Mismatched {
                path: path,
                expected: expected_text(e),
                found: call_text(f.function),
            },
        ]
    };
    let rest = subs_mismatches(path, e.sub_invocations@, f.sub_invocations@) + extra_subs(
        path,
        e.sub_invocations@.len(),
        f.sub_invocations@,
    );
    assert(node_mismatches(path, e, f) == first + rest);
    if !same_target(e, f.function) {
        assert((first + rest)[0] == first[0]);
    }
}

proof fn lemma_subs_include_node(
    path: Seq<char>,
    es: Seq<ExpectedInvocation>,
    fs: Seq<RecordedInvocation>,
    k: int,
    x: MismatchView,
)
    requires
        0 <= k < es.len(),
        k < fs.len(),
        node_mismatches(sub_path(path, k as nat), es[k], fs[k]).contains(x),
    ensures
        subs_mismatches(path, es, fs).contains(x),
    decreases es.len(),
{
    let i = (es.len() - 1) as nat;
    let last = if i < fs.len() {
        node_mismatches(sub_path(path, i), es.last(), fs[i as int])
    } else {
        seq![MismatchView::Missing { path: sub_path(path, i), expected: expected_text(es.last()) }]
    };
    assert(subs_mismatches(path, es, fs) == subs_mismatches(path, es.drop_last(), fs) + last);
    if k == i {
        lemma_contains_concat(subs_mismatches(path, es.drop_last(), fs), last, x);
    } else {
        assert(es.drop_last()[k] == es[k]);
        lemma_subs_include_node(path, es.drop_last(), fs, k, x);
        lemma_contains_concat(subs_mismatches(path, es.drop_last(), fs), last, x);
    }
}

/// Whatever is reported for the `k`th sub-invocation of a node, present on both
/// sides, is reported for the node: mismatches deep in a tree surface at their
/// own path.
pub proof fn lemma_node_includes_sub(
    path: Seq<char>,
    e: ExpectedInvocation,
    f: RecordedInvocation,
    k: int,
    x: MismatchView,
)
    requires
        0 <= k < e.sub_invocations@.len(),
        k < f.sub_invocations@.len(),
        node_mismatches(
            sub_path(path, k as nat),
            e.sub_invocations@[k],
            f.sub_invocations@[k],
        ).contains(x),
    ensures
        node_mismatches(path, e, f).contains(x),
{
    let first: Seq<MismatchView> = if call_matches(e, f.function) {
        seq![]
    } else {
        seq![
            MismatchView::Mismatched {
                path: path,
                expected: expected_text(e),
                found: call_text(f.function),
            },
        ]
    };
    let subs = subs_mismatches(path, e.sub_invocations@, f.sub_invocations@);
    let extra = extra_subs(path, e.sub_invocations@.len(), f.sub_invocations@);
    assert(node_mismatches(path, e, f) == first + subs + extra);
    lemma_subs_include_node(path, e.sub_invocations@, f.sub_invocations@, k, x);
    lemma_contains_concat(first, subs, x);
    lemma_contains_concat(first + subs, extra, x);
}

proof fn lemma_expected_include_entry(
    expected: Seq<ExpectedAuth>,
    recorded: Seq<RecordedAuth>,
    i: int,
    x: MismatchView,
)
    requires
        0 <= i < expected.len(),
        entry_mismatches(i as nat, expected[i], recorded).contains(x),
    ensures
        expected_mismatches(expected, recorded).contains(x),
    decreases expected.len(),
{
    let n = (expected.len() - 1) as nat;
    let last = entry_mismatches(n, expected.last(), recorded);
    assert(expected_mismatches(expected, recorded) == expected_mismatches(expected.drop_last(), recorded)
        + last);
    if i == n {
        lemma_contains_concat(expected_mismatches(expected.drop_last(), recorded), last, x);
    } else {
        assert(expected.drop_last()[i] == expected[i]);
        lemma_expected_include_entry(expected.drop_last(), recorded, i, x);
        lemma_contains_concat(expected_mismatches(expected.drop_last(), recorded), last, x);
    }
}

/// Whatever is reported for the tree of the `i`th entry, present on both
/// sides, is in the report.
pub proof fn lemma_report_includes_entry_tree(
    expected: Seq<ExpectedAuth>,
    recorded: Seq<RecordedAuth>,
    i: int,
    x: MismatchView,
)
    requires
        0 <= i < expected.len(),
        i < recorded.len(),
        node_mismatches(entry_path(i as nat), expected[i].invocation, recorded[i].invocation).contains(
            x,
        ),
    ensures
        auth_mismatches(expected, recorded).contains(x),
{
    let e = expected[i];
    let r = recorded[i];
    let addr: Seq<MismatchView> = if r.address@ == e.address@ {
        seq![]
    } else {
        seq![
            MismatchView::Mismatched {
                path: entry_path(i as nat) + ".address"@,
                expected: e.address@,
                found: r.address@,
            },
        ]
    };
    let node = node_mismatches(entry_path(i as nat), e.invocation, r.invocation);
    assert(entry_mismatches(i as nat, e, recorded) == addr + node);
    lemma_contains_concat(addr, node, x);
    lemma_expected_include_entry(expected, recorded, i, x);
    lemma_contains_concat(
        expected_mismatches(expected, recorded),
        unexpected_entries(expected.len(), recorded),
        x,
    );
}

/// An entry whose root authorization is not for the expected contract's
/// expected function with the expected arguments is reported as mismatched at
/// the entry's path: `auth[i]`, with both targets. So the report does not
/// match.
pub proof fn lemma_wrong_root_target_reported(
    expected: Seq<ExpectedAuth>,
    recorded: Seq<RecordedAuth>,
    i: int,
)
    requires
        0 <= i < expected.len(),
        i < recorded.len(),
        !same_target(expected[i].invocation, recorded[i].invocation.function),
    ensures
        auth_mismatches(expected, recorded).contains(
            MismatchView::Mismatched {
                path: entry_path(i as nat),
                expected: expected_text(expected[i].invocation),
                found: call_text(recorded[i].invocation.function),
            },
        ),
        auth_mismatches(expected, recorded).len() > 0,
{
    let node = node_mismatches(entry_path(i as nat), expected[i].invocation, recorded[i].invocation);
    lemma_node_reports_wrong_target(entry_path(i as nat), expected[i].invocation, recorded[i].invocation);
    assert(node.contains(node[0]));
    lemma_report_includes_entry_tree(expected, recorded, i, node[0]);
}

/// A recorded authorization for a contract other than the expected one is
/// reported at its entry, whatever its function and arguments.
pub proof fn lemma_wrong_contract_reported(
    expected: Seq<ExpectedAuth>,
    recorded: Seq<RecordedAuth>,
    i: int,
)
    requires
        0 <= i < expected.len(),
        i < recorded.len(),
        recorded[i].invocation.function matches AuthorizedCall::Contract { contract, .. }
            && contract@ != expected[i].invocation.contract@,
    ensures
        auth_mismatches(expected, recorded).contains(
            MismatchView::Mismatched {
                path: entry_path(i as nat),
                expected: expected_text(expected[i].invocation),
                found: call_text(recorded[i].invocation.function),
            },
        ),
{
    lemma_wrong_root_target_reported(expected, recorded, i);
}

// ── Rendering ───────────────────────────────────────────────────────────────

pub open spec fn mismatch_text(m: MismatchView) -> Seq<char> {
    match m {
        MismatchView::Missing { path, expected } => "  missing authorization at "@ + path
            + "\n    expected: "@ + expected + "\n    found:    <nothing>"@,
        MismatchView::Unexpected { path, found } => "  unexpected authorization at "@ + path
            + "\n    expected: <nothing>\n    found:    "@ + found,
        MismatchView::Mismatched { path, expected, found } => "  mismatched authorization at "@
            + path + "\n    expected: "@ + expected + "\n    found:    "@ + found,
    }
}

pub open spec fn mismatches_text(ms: Seq<MismatchView>) -> Seq<char>
    decreases ms.len(),
{
    if ms.len() == 0 {
        seq![]
    } else {
        mismatches_text(ms.drop_last()) + mismatch_text(ms.last()) + "\n"@
    }
}

/// The full diagnostic: every divergence and then the recorded tree.
pub open spec fn diagnostic_text(ms: Seq<MismatchView>, recorded: Seq<char>) -> Seq<char> {
    if ms.len() == 0 {
        "authorization tree matched"@
    } else {
        "authorization tree did not match:\n"@ + mismatches_text(ms)
            + "\nrecorded authorization tree:\n"@ + (if recorded.len() == 0 {
            "  <no authorizations recorded>\n"@
        } else {
            recorded
        })
    }
}

/// A recorded node and its sub-invocations, one per line, indented by `pad`
/// and one more level for each level of depth.
pub open spec fn invocation_text(inv: RecordedInvocation, pad: Seq<char>) -> Seq<char>
    decreases inv, 1int,
{
    pad + call_text(inv.function) + "\n"@ + invocations_text(inv.sub_invocations@, pad + "  "@)
}

pub open spec fn invocations_text(invs: Seq<RecordedInvocation>, pad: Seq<char>) -> Seq<char>
    decreases invs, 0int,
{
    if invs.len() == 0 {
        seq![]
    } else {
        invocations_text(invs.drop_last(), pad) + invocation_text(invs.last(), pad)
    }
}

/// The recorded authorizations rendered as an indented tree.
pub open spec fn recorded_text(recorded: Seq<RecordedAuth>) -> Seq<char>
    decreases recorded.len(),
{
    if recorded.len() == 0 {
        seq![]
    } else {
        let i = (recorded.len() - 1) as nat;
        recorded_text(recorded.drop_last()) + "  auth["@ + decimal(i) + "] "@
            + recorded.last().address@ + " =>\n"@ + invocation_text(
            recorded.last().invocation,
            repeat_seq("  "@, 2),
        )
    }
}

fn push_target(out: &mut String, contract: &String, function: &String, args_text: &String)
    ensures
        final(out)@ == old(out)@ + target_text(contract@, function@, args_text@),
{
    out.append(contract.as_str());
    out.append(".");
    out.append(function.as_str());
    out.append("(");
    out.append(args_text.as_str());
    out.append(")");
    proof {
        assert(out@ =~= old(out)@ + target_text(contract@, function@, args_text@));
    }
}

fn expected_string(e: &ExpectedInvocation) -> (r: String)
    ensures
        r@ == expected_text(*e),
{
    let mut out = String::new();
    push_target(&mut out, &e.contract, &e.function, &e.args_text);
    proof {
        assert(out@ =~= expected_text(*e));
    }
    out
}

fn push_call(out: &mut String, c: &AuthorizedCall)
    ensures
        final(out)@ == old(out)@ + call_text(*c),
{
    match c {
        AuthorizedCall::Contract { contract, function, args_text, .. } => {
            push_target(out, contract, function, args_text);
        },
        AuthorizedCall::Other(text) => {
            out.append(text.as_str());
        },
    }
}

fn call_string(c: &AuthorizedCall) -> (r: String)
    ensures
        r@ == call_text(*c),
{
    let mut out = String::new();
    push_call(&mut out, c);
    proof {
        assert(out@ =~= call_text(*c));
    }
    out
}

fn bytes_equal(a: &Vec<u8>, b: &Vec<u8>) -> (r: bool)
    ensures
        r == (a@ == b@),
{
    if a.len() != b.len() {
        return false;
    }
    let mut i: usize = 0;
    while i < a.len()
        invariant
            a@.len() == b@.len(),
            i <= a@.len(),
            forall|k: int| 0 <= k < i ==> a@[k] == b@[k],
        decreases a@.len() - i,
    {
        if a[i] != b[i] {
            return false;
        }
        i = i + 1;
    }
    proof {
        assert(a@ =~= b@);
    }
    true
}

/// Whether the recorded call is the expected contract call.
fn function_matches(e: &ExpectedInvocation, c: &AuthorizedCall) -> (r: bool)
    ensures
        r == call_matches(*e, *c),
{
    match c {
        AuthorizedCall::Contract { contract, function, args, .. } => {
            *contract == e.contract && *function == e.function && bytes_equal(args, &e.args)
        },
        AuthorizedCall::Other(_) => false,
    }
}

fn entry_path_string(i: usize) -> (r: String)
    ensures
        r@ == entry_path(i as nat),
{
    let mut out = String::from_str("auth[");
    push_u64(&mut out, i as u64);
    out.append("]");
    proof {
        assert(out@ =~= entry_path(i as nat));
    }
    out
}

fn sub_path_string(path: &String, i: usize) -> (r: String)
    ensures
        r@ == sub_path(path@, i as nat),
{
    let mut out = path.clone();
    out.append(".sub[");
    push_u64(&mut out, i as u64);
    out.append("]");
    proof {
        assert(out@ =~= sub_path(path@, i as nat));
    }
    out
}

proof fn lemma_views_push(ms: Seq<AuthMismatch>, m: AuthMismatch)
    ensures
        views(ms.push(m)) == views(ms).push(m@),
{
    assert(views(ms.push(m)) =~= views(ms).push(m@));
}

/// Compares one node and recurses into its sub-invocations, appending every
/// mismatch found.
fn compare_invocation(
    path: &String,
    e: &ExpectedInvocation,
    f: &RecordedInvocation,
    out: &mut Vec<AuthMismatch>,
)
    ensures
        views(final(out)@) == views(old(out)@) + node_mismatches(path@, *e, *f),
    decreases *e,
{
    let ghost start = views(out@);
    if !function_matches(e, &f.function) {
        let m = AuthMismatch::Mismatched {
            path: path.clone(),
            expected: expected_string(e),
            found: call_string(&f.function),
        };
        proof {
            lemma_views_push(out@, m);
        }
        out.push(m);
    }
    let ghost head = if call_matches(*e, f.function) {
        Seq::<MismatchView>::empty()
    } else {
        seq![
            MismatchView::Mismatched {
                path: path@,
                expected: expected_text(*e),
                found: call_text(f.function),
            },
        ]
    };
    proof {
        assert(views(out@) =~= start + head);
    }
    let n = e.sub_invocations.len();
    let m = f.sub_invocations.len();
    let mut i: usize = 0;
    while i < n
        invariant
            n == e.sub_invocations@.len(),
            m == f.sub_invocations@.len(),
            i <= n,
            views(out@) == start + head + subs_mismatches(
                path@,
                e.sub_invocations@.take(i as int),
                f.sub_invocations@,
            ),
        decreases n - i,
    {
        let sp = sub_path_string(path, i);
        let ghost before = views(out@);
        proof {
            assert(e.sub_invocations@.take(i + 1).drop_last() =~= e.sub_invocations@.take(i as int));
        }
        if i < m {
            compare_invocation(&sp, &e.sub_invocations[i], &f.sub_invocations[i], out);
        } else {
            let mm = AuthMismatch::Missing { path: sp, expected: expected_string(&e.sub_invocations[i]) };
            proof {
                lemma_views_push(out@, mm);
            }
            out.push(mm);
        }
        proof {
            assert(views(out@) =~= start + head + subs_mismatches(
                path@,
                e.sub_invocations@.take(i + 1),
                f.sub_invocations@,
            ));
        }
        i = i + 1;
    }
    proof {
        assert(e.sub_invocations@.take(n as int) =~= e.sub_invocations@);
    }
    let ghost mid = views(out@);
    let mut j: usize = n;
    while j < m
        invariant
            n == e.sub_invocations@.len(),
            m == f.sub_invocations@.len(),
            n <= j,
            j <= m || j == n,
            views(out@) == mid + Seq::new(
                (j - n) as nat,
                |k: int| unexpected_sub(path@, n + k, f.sub_invocations@),
            ),
        decreases m - j,
    {
        let um = AuthMismatch::Unexpected {
            path: sub_path_string(path, j),
            found: call_string(&f.sub_invocations[j].function),
        };
        proof {
            lemma_views_push(out@, um);
            assert(Seq::new(
                (j + 1 - n) as nat,
                |k: int| unexpected_sub(path@, n + k, f.sub_invocations@),
            ) =~= Seq::new(
                (j - n) as nat,
                |k: int| unexpected_sub(path@, n + k, f.sub_invocations@),
            ).push(um@));
        }
        out.push(um);
        j = j + 1;
    }
    proof {
        if n < m {
            assert(Seq::new(
                (m - n) as nat,
                |k: int| unexpected_sub(path@, n + k, f.sub_invocations@),
            ) =~= extra_subs(path@, n as nat, f.sub_invocations@));
        } else {
            assert(Seq::new(
                (j - n) as nat,
                |k: int| unexpected_sub(path@, n + k, f.sub_invocations@),
            ) =~= Seq::<MismatchView>::empty());
        }
        assert(views(out@) =~= start + node_mismatches(path@, *e, *f));
    }
}

fn push_invocation(out: &mut String, inv: &RecordedInvocation, pad: &String)
    ensures
        final(out)@ == old(out)@ + invocation_text(*inv, pad@),
    decreases *inv,
{
    let ghost start = out@;
    out.append(pad.as_str());
    push_call(out, &inv.function);
    out.append("\n");
    let mut deeper = pad.clone();
    deeper.append("  ");
    let ghost head = out@;
    let mut i: usize = 0;
    while i < inv.sub_invocations.len()
        invariant
            i <= inv.sub_invocations@.len(),
            deeper@ == pad@ + "  "@,
            out@ == head + invocations_text(inv.sub_invocations@.take(i as int), deeper@),
        decreases inv.sub_invocations@.len() - i,
    {
        push_invocation(out, &inv.sub_invocations[i], &deeper);
        proof {
            let t = inv.sub_invocations@.take(i + 1);
            assert(t.drop_last() =~= inv.sub_invocations@.take(i as int));
            assert(out@ =~= head + invocations_text(t, deeper@));
        }
        i = i + 1;
    }
    proof {
        assert(inv.sub_invocations@.take(inv.sub_invocations@.len() as int)
            =~= inv.sub_invocations@);
        assert(out@ =~= start + invocation_text(*inv, pad@));
    }
}

fn render_recorded(recorded: &[RecordedAuth]) -> (r: String)
    ensures
        r@ == recorded_text(recorded@),
{
    let mut out = String::new();
    let pad = String::from_str("    ");
    proof {
        reveal_with_fuel(repeat_seq, 3);
        reveal_strlit("    ");
        reveal_strlit("  ");
        assert(pad@ =~= repeat_seq("  "@, 2));
    }
    let mut i: usize = 0;
    while i < recorded.len()
        invariant
            i <= recorded@.len(),
            pad@ == repeat_seq("  "@, 2),
            out@ == recorded_text(recorded@.take(i as int)),
        decreases recorded@.len() - i,
    {
        let ghost before = out@;
        out.append("  auth[");
        push_u64(&mut out, i as u64);
        out.append("] ");
        out.append(recorded[i].address.as_str());
        out.append(" =>\n");
        push_invocation(&mut out, &recorded[i].invocation, &pad);
        proof {
            let t = recorded@.take(i + 1);
            assert(t.drop_last() =~= recorded@.take(i as int));
            assert(out@ =~= recorded_text(t));
        }
        i = i + 1;
    }
    proof {
        assert(recorded@.take(recorded@.len() as int) =~= recorded@);
    }
    out
}

/// Compares the recorded authorizations against `expected`, entry by entry
/// in order: the `n`th expected entry against the `n`th recorded one.
pub fn verify_auth_tree(expected: &[ExpectedAuth], recorded: &[RecordedAuth]) -> (r: AuthTreeReport)
    ensures
        r.mismatch_views() == auth_mismatches(expected@, recorded@),
        r.recorded_view() == recorded_text(recorded@),
{
    let mut mismatches: Vec<AuthMismatch> = Vec::new();
    let mut i: usize = 0;
    while i < expected.len()
        invariant
            i <= expected@.len(),
            views(mismatches@) == expected_mismatches(expected@.take(i as int), recorded@),
        decreases expected@.len() - i,
    {
        let entry = &expected[i];
        let path = entry_path_string(i);
        let ghost before = views(mismatches@);
        proof {
            assert(expected@.take(i + 1).drop_last() =~= expected@.take(i as int));
        }
        if i < recorded.len() {
            let found = &recorded[i];
            if found.address != entry.address {
                let mut p = path.clone();
                p.append(".address");
                let mm = AuthMismatch::Mismatched {
                    path: p,
                    expected: entry.address.clone(),
                    found: found.address.clone(),
                };
                proof {
                    lemma_views_push(mismatches@, mm);
                }
                mismatches.push(mm);
            }
            let ghost mid = views(mismatches@);
            compare_invocation(&path, &entry.invocation, &found.invocation, &mut mismatches);
            proof {
                assert(views(mismatches@) =~= before + entry_mismatches(
                    i as nat,
                    *entry,
                    recorded@,
                ));
            }
        } else {
            let mut text = entry.address.clone();
            text.append(" => ");
            let inv = expected_string(&entry.invocation);
            text.append(inv.as_str());
            let mm = AuthMismatch::Missing { path, expected: text };
            proof {
                lemma_views_push(mismatches@, mm);
                assert(views(mismatches@.push(mm)) =~= before + entry_mismatches(
                    i as nat,
                    *entry,
                    recorded@,
                ));
            }
            mismatches.push(mm);
        }
        i = i + 1;
    }
    proof {
        assert(expected@.take(expected@.len() as int) =~= expected@);
    }
    let ghost mid = views(mismatches@);
    let n = expected.len();
    let mut j: usize = n;
    while j < recorded.len()
        invariant
            n == expected@.len(),
            n <= j,
            j <= recorded@.len() || j == n,
            views(mismatches@) == mid + Seq::new(
                (j - n) as nat,
                |k: int| unexpected_entry(n + k, recorded@),
            ),
        decreases recorded@.len() - j,
    {
        let mut found = recorded[j].address.clone();
        found.append(" => ");
        let call = call_string(&recorded[j].invocation.function);
        found.append(call.as_str());
        let um = AuthMismatch::Unexpected { path: entry_path_string(j), found };
        proof {
            lemma_views_push(mismatches@, um);
            assert(Seq::new((j + 1 - n) as nat, |k: int| unexpected_entry(n + k, recorded@))
                =~= Seq::new((j - n) as nat, |k: int| unexpected_entry(n + k, recorded@)).push(
                um@,
            ));
        }
        mismatches.push(um);
        j = j + 1;
    }
    proof {
        if n < recorded@.len() {
            assert(Seq::new(
                (recorded@.len() - n) as nat,
                |k: int| unexpected_entry(n + k, recorded@),
            ) =~= unexpected_entries(n as nat, recorded@));
        } else {
            assert(Seq::new((j - n) as nat, |k: int| unexpected_entry(n + k, recorded@))
                =~= Seq::<MismatchView>::empty());
        }
        assert(views(mismatches@) =~= auth_mismatches(expected@, recorded@));
    }
    AuthTreeReport { mismatches, recorded: render_recorded(recorded) }
}

impl ExpectedInvocation {
    /// A leaf expectation with no sub-invocations.
    pub fn new(contract: String, function: String, args: Vec<u8>, args_text: String) -> (r: Self)
        ensures
            r.contract == contract,
            r.function == function,
            r.args == args,
            r.args_text == args_text,
            r.sub_invocations@.len() == 0,
    {
        ExpectedInvocation { contract, function, args, args_text, sub_invocations: Vec::new() }
    }

    /// The same expectation, covering the given sub-invocations.
    pub fn with_sub_invocations(self, sub_invocations: Vec<ExpectedInvocation>) -> (r: Self)
        ensures
            r.contract == self.contract,
            r.function == self.function,
            r.args == self.args,
            r.args_text == self.args_text,
            r.sub_invocations == sub_invocations,
    {
        let mut out = self;
        out.sub_invocations = sub_invocations;
        out
    }
}

impl AuthMismatch {
    /// The mismatch as an indented diagnostic block.
    pub fn render(&self) -> (r: String)
        ensures
            r@ == mismatch_text(self@),
    {
        let mut out = String::new();
        match self {
            AuthMismatch::Missing { path, expected } => {
                out.append("  missing authorization at ");
                out.append(path.as_str());
                out.append("\n    expected: ");
                out.append(expected.as_str());
                out.append("\n    found:    <nothing>");
            },
            AuthMismatch::Unexpected { path, found } => {
                out.append("  unexpected authorization at ");
                out.append(path.as_str());
                out.append("\n    expected: <nothing>\n    found:    ");
                out.append(found.as_str());
            },
            AuthMismatch::Mismatched { path, expected, found } => {
                out.append("  mismatched authorization at ");
                out.append(path.as_str());
                out.append("\n    expected: ");
                out.append(expected.as_str());
                out.append("\n    found:    ");
                out.append(found.as_str());
            },
        }
        proof {
            assert(out@ =~= mismatch_text(self@));
        }
        out
    }
}

/// The outcome of comparing a recorded authorization tree against an expected one.
#[derive(Clone, Debug)]
pub struct AuthTreeReport {
    mismatches: Vec<AuthMismatch>,
    recorded: String,
}

impl AuthTreeReport {
    /// Every divergence found, outermost first.
    pub closed spec fn mismatch_views(self) -> Seq<MismatchView> {
        views(self.mismatches@)
    }

    /// The recorded tree as rendered.
    pub closed spec fn recorded_view(self) -> Seq<char> {
        self.recorded@
    }

    /// `true` when the recorded tree matched the expectation exactly.
    pub fn matches(&self) -> (r: bool)
        ensures
            r == (self.mismatch_views().len() == 0),
    {
        self.mismatches.len() == 0
    }

    /// Every way in which the trees differ, outermost first.
    pub fn mismatches(&self) -> (r: &[AuthMismatch])
        ensures
            views(r@) == self.mismatch_views(),
    {
        self.mismatches.as_slice()
    }

    /// The recorded authorization tree, rendered for reading.
    pub fn recorded_tree(&self) -> (r: &str)
        ensures
            r@ == self.recorded_view(),
    {
        self.recorded.as_str()
    }

    /// A full diagnostic showing each divergence and the recorded tree.
    pub fn diagnostic(&self) -> (r: String)
        ensures
            r@ == diagnostic_text(self.mismatch_views(), self.recorded_view()),
    {
        if self.matches() {
            return String::from_str("authorization tree matched");
        }
        let mut out = String::from_str("authorization tree did not match:\n");
        let ghost head = out@;
        let mut i: usize = 0;
        while i < self.mismatches.len()
            invariant
                i <= self.mismatches@.len(),
                out@ == head + mismatches_text(views(self.mismatches@.take(i as int))),
            decreases self.mismatches@.len() - i,
        {
            let block = self.mismatches[i].render();
            out.append(block.as_str());
            out.append("\n");
            proof {
                let t = self.mismatches@.take(i + 1);
                assert(t =~= self.mismatches@.take(i as int).push(self.mismatches@[i as int]));
                lemma_views_push(self.mismatches@.take(i as int), self.mismatches@[i as int]);
                assert(views(t).drop_last() =~= views(self.mismatches@.take(i as int)));
                assert(out@ =~= head + mismatches_text(views(t)));
            }
            i = i + 1;
        }
        proof {
            assert(self.mismatches@.take(self.mismatches@.len() as int) =~= self.mismatches@);
        }
        out.append("\nrecorded authorization tree:\n");
        if self.recorded.as_str().unicode_len() == 0 {
            out.append("  <no authorizations recorded>\n");
        } else {
            out.append(self.recorded.as_str());
        }
        proof {
            assert(out@ =~= diagnostic_text(self.mismatch_views(), self.recorded_view()));
        }
        out
    }

    /// `Ok` when the trees matched; otherwise the diagnostic.
    pub fn assert_matches(&self) -> (r: Result<(), String>)
        ensures
            r is Ok <==> self.mismatch_views().len() == 0,
            r matches Err(m) ==> m@ == diagnostic_text(self.mismatch_views(), self.recorded_view()),
    {
        if self.matches() {
            Ok(())
        } else {
            Err(self.diagnostic())
        }
    }
}

impl Default for AuthTreeReport {
    fn default() -> (r: Self)
        ensures
            r.mismatch_views().len() == 0,
            r.recorded_view().len() == 0,
    {
        AuthTreeReport { mismatches: Vec::new(), recorded: String::new() }
    }
}

} // verus!
