//! The DAO governance contract: its voting rules and its storage.
use vstd::prelude::*;

verus! {

/// A DAO whose proposals pass by token-weighted vote.
pub struct Governance;

/// The outcome of a vote, checked in order: the proposal exists (its
/// deadline is `Some`), the voting period has not ended, the amount is
/// positive, the voter has the power, and has not voted on it yet.
pub open spec fn vote_spec(
    now: u64,
    deadline: Option<u64>,
    amount: i128,
    voting_power: i128,
    already_voted: bool,
) -> Result<(), &'static str> {
    match deadline {
        None => Err("Proposal not found"),
        Some(d) => if now > d {
            Err("Voting period ended")
        } else if amount <= 0 {
            Err("Vote amount must be positive")
        } else if voting_power < amount {
            Err("Insufficient voting power")
        } else if already_voted {
            Err("Already voted")
        } else {
            Ok(())
        },
    }
}

/// Whether a vote of `amount` may be cast at time `now`.
pub fn check_vote(
    now: u64,
    deadline: Option<u64>,
    amount: i128,
    voting_power: i128,
    already_voted: bool,
) -> (r: Result<(), &'static str>)
    ensures
        r == vote_spec(now, deadline, amount, voting_power, already_voted),
{
    match deadline {
        None => Err("Proposal not found"),
        Some(d) => if now > d {
            Err("Voting period ended")
        } else if amount <= 0 {
            Err("Vote amount must be positive")
        } else if voting_power < amount {
            Err("Insufficient voting power")
        } else if already_voted {
            Err("Already voted")
        } else {
            Ok(())
        },
    }
}

/// The vote counts after a vote of `amount` for (`direction`) or against.
pub fn record_vote(votes_for: i128, votes_against: i128, amount: i128, direction: bool) -> (r: (
    i128,
    i128,
))
    requires
        direction ==> votes_for + amount <= i128::MAX && votes_for + amount >= i128::MIN,
        !direction ==> votes_against + amount <= i128::MAX && votes_against + amount >= i128::MIN,
    ensures
        direction ==> r.0 == votes_for + amount && r.1 == votes_against,
        !direction ==> r.0 == votes_for && r.1 == votes_against + amount,
{
    if direction {
        (votes_for + amount, votes_against)
    } else {
        (votes_for, votes_against + amount)
    }
}

/// The outcome of executing a proposal: it must exist, its voting period
/// must have ended, and it must not have been executed; it passes when more
/// votes are for it than against.
pub open spec fn execute_spec(
    now: u64,
    deadline: Option<u64>,
    executed: bool,
    votes_for: i128,
    votes_against: i128,
) -> Result<bool, &'static str> {
    match deadline {
        None => Err("Proposal not found"),
        Some(d) => if now <= d {
            Err("Voting period not ended")
        } else if executed {
            Err("Proposal already executed")
        } else {
            Ok(votes_for > votes_against)
        },
    }
}

/// Once its voting period has ended, an existing proposal that has not been
/// executed passes exactly when more votes are for it than against it; before
/// then, or once executed, it is refused.
pub proof fn lemma_execution_passes_on_majority(
    now: u64,
    deadline: u64,
    executed: bool,
    votes_for: i128,
    votes_against: i128,
)
    ensures
        now > deadline && !executed ==> execute_spec(
            now,
            Some(deadline),
            executed,
            votes_for,
            votes_against,
        ) == Ok::<bool, &'static str>(votes_for > votes_against),
        now <= deadline ==> execute_spec(now, Some(deadline), executed, votes_for, votes_against)
            is Err,
        executed ==> execute_spec(now, Some(deadline), executed, votes_for, votes_against) is Err,
        execute_spec(now, None, executed, votes_for, votes_against) is Err,
{
}

/// Whether a proposal passes when executed at time `now`.
pub fn check_execution(
    now: u64,
    deadline: Option<u64>,
    executed: bool,
    votes_for: i128,
    votes_against: i128,
) -> (r: Result<bool, &'static str>)
    ensures
        r == execute_spec(now, deadline, executed, votes_for, votes_against),
{
    match deadline {
        None => Err("Proposal not found"),
        Some(d) => if now <= d {
            Err("Voting period not ended")
        } else if executed {
            Err("Proposal already executed")
        } else {
            Ok(votes_for > votes_against)
        },
    }
}

/// Moves `amount` of voting power from one holder to another: refused for a
/// non-positive amount or more than the holder has; else the new powers.
pub fn delegate(from_power: i128, to_power: i128, amount: i128) -> (r: Result<(i128, i128), &'static str>)
    requires
        amount > 0 && from_power >= amount ==> to_power + amount <= i128::MAX,
    ensures
        amount <= 0 ==> r == Err::<(i128, i128), &'static str>("Amount must be positive"),
        amount > 0 && from_power < amount ==> r == Err::<(i128, i128), &'static str>(
            "Insufficient power to delegate",
        ),
        amount > 0 && from_power >= amount ==> (r matches Ok(p) && p.0 == from_power - amount
            && p.1 == to_power + amount),
{
    if amount <= 0 {
        return Err("Amount must be positive");
    }
    if from_power < amount {
        return Err("Insufficient power to delegate");
    }
    Ok((from_power - amount, to_power + amount))
}

/// Delegation moves power without creating or destroying any: the two
/// holders' total is unchanged.
pub proof fn lemma_delegation_preserves_total(from_power: int, to_power: int, amount: int)
    ensures
        (from_power - amount) + (to_power + amount) == from_power + to_power,
{
}

// ── The contract's storage ─────────────────────────────────────────────────

/// A proposal as the contract stores it. Addresses are held by their string
/// forms.
pub struct Proposal {
    pub id: u64,
    pub title: String,
    pub description: String,
    pub proposer: String,
    pub votes_for: i128,
    pub votes_against: i128,
    pub created_at: u64,
    pub deadline: u64,
    pub executed: bool,
}

/// The proposal stored under `id`: the latest one written, if any.
pub open spec fn proposal_in(proposals: Seq<Proposal>, id: u64) -> Option<Proposal>
    decreases proposals.len(),
{
    if proposals.len() == 0 {
        None
    } else if proposals.last().id == id {
        Some(proposals.last())
    } else {
        proposal_in(proposals.drop_last(), id)
    }
}

/// The amount recorded for `account`: the latest entry, or 0.
pub open spec fn amount_in(entries: Seq<(String, i128)>, account: Seq<char>) -> int
    decreases entries.len(),
{
    if entries.len() == 0 {
        0
    } else if entries.last().0@ == account {
        entries.last().1 as int
    } else {
        amount_in(entries.drop_last(), account)
    }
}

/// Whether `voter` has a vote recorded on proposal `id`.
pub open spec fn voted_in(votes: Seq<(String, u64)>, voter: Seq<char>, id: u64) -> bool {
    exists|k: int| 0 <= k < votes.len() && (#[trigger] votes[k]).0@ == voter && votes[k].1 == id
}

/// The deadline of the proposal stored under `id`, if there is one.
pub open spec fn deadline_of(p: Option<Proposal>) -> Option<u64> {
    match p {
        Some(q) => Some(q.deadline),
        None => None,
    }
}

/// The governance contract's storage.
///
/// The proposer's, voter's and delegator's authorizations are the caller's to
/// check before it changes the storage; a call whose authorization fails, or
/// that is refused, changes nothing.
pub struct GovernanceState {
    admin: Option<String>,
    total_supply: i128,
    balances: Vec<(String, i128)>,
    proposal_counter: u64,
    proposals: Vec<Proposal>,
    votes: Vec<(String, u64)>,
    voting_power: Vec<(String, i128)>,
}

impl GovernanceState {
    pub closed spec fn admin_of(&self) -> Option<Seq<char>> {
        match self.admin {
            Some(a) => Some(a@),
            None => None,
        }
    }

    pub closed spec fn supply(&self) -> i128 {
        self.total_supply
    }

    /// The token balance recorded for `account`; 0 when none.
    pub closed spec fn balance(&self, account: Seq<char>) -> int {
        amount_in(self.balances@, account)
    }

    /// How many proposals have been created since initialization.
    pub closed spec fn counter(&self) -> u64 {
        self.proposal_counter
    }

    /// The proposal stored under `id`, if any.
    pub closed spec fn proposal(&self, id: u64) -> Option<Proposal> {
        proposal_in(self.proposals@, id)
    }

    /// Whether `voter` has voted on proposal `id`.
    pub closed spec fn has_voted(&self, voter: Seq<char>, id: u64) -> bool {
        voted_in(self.votes@, voter, id)
    }

    /// The voting power recorded for `account`; 0 when none.
    pub closed spec fn power(&self, account: Seq<char>) -> int {
        amount_in(self.voting_power@, account)
    }

    /// A contract that has not been initialized: nothing stored.
    pub fn new() -> (r: Self)
        ensures
            r.admin_of() is None,
            r.counter() == 0,
            forall|id: u64| #[trigger] r.proposal(id) is None,
            forall|a: Seq<char>| #[trigger] r.power(a) == 0,
            forall|a: Seq<char>, id: u64| !#[trigger] r.has_voted(a, id),
    {
        GovernanceState {
            admin: None,
            total_supply: 0,
            balances: Vec::new(),
            proposal_counter: 0,
            proposals: Vec::new(),
            votes: Vec::new(),
            voting_power: Vec::new(),
        }
    }

    /// Sets the admin, the total supply, the admin's balance of all of it,
    /// and the proposal counter back to 0. Proposals, votes and voting power
    /// already stored stay.
    pub fn initialize(&mut self, admin: &str, initial_supply: i128)
        ensures
            final(self).admin_of() == Some(admin@),
            final(self).supply() == initial_supply,
            final(self).counter() == 0,
            final(self).balance(admin@) == initial_supply,
            forall|a: Seq<char>| a != admin@ ==> #[trigger] final(self).balance(a) == old(
                self,
            ).balance(a),
            forall|id: u64| #[trigger] final(self).proposal(id) == old(self).proposal(id),
            forall|a: Seq<char>| #[trigger] final(self).power(a) == old(self).power(a),
            forall|a: Seq<char>, id: u64| #[trigger]
                final(self).has_voted(a, id) == old(self).has_voted(a, id),
    {
        self.admin = Some(String::from_str(admin));
        self.total_supply = initial_supply;
        self.proposal_counter = 0;
        let ghost before = self.balances@;
        self.balances.push((String::from_str(admin), initial_supply));
        proof {
            assert(self.balances@.drop_last() =~= before);
        }
    }

    /// The voting power recorded for `account`.
    pub fn voting_power(&self, account: &str) -> (r: i128)
        ensures
            r == self.power(account@),
    {
        lookup_amount(&self.voting_power, account)
    }

    /// Writes `account`'s voting power entry directly, as a test does through
    /// the contract's storage; the contract itself grants power only by
    /// delegation.
    pub fn set_voting_power(&mut self, account: &str, power: i128)
        ensures
            final(self).power(account@) == power,
            forall|a: Seq<char>| a != account@ ==> #[trigger] final(self).power(a) == old(
                self,
            ).power(a),
            forall|id: u64| #[trigger] final(self).proposal(id) == old(self).proposal(id),
            forall|a: Seq<char>, id: u64| #[trigger]
                final(self).has_voted(a, id) == old(self).has_voted(a, id),
            final(self).counter() == old(self).counter(),
            final(self).admin_of() == old(self).admin_of(),
            final(self).supply() == old(self).supply(),
            forall|a: Seq<char>| #[trigger] final(self).balance(a) == old(self).balance(a),
    {
        let ghost before = self.voting_power@;
        self.voting_power.push((String::from_str(account), power));
        proof {
            assert(self.voting_power@.drop_last() =~= before);
        }
    }

    /// Stores a new proposal under the next id, made at time `now`, and
    /// returns its id.
    pub fn create_proposal(
        &mut self,
        proposer: &str,
        title: String,
        description: String,
        deadline: u64,
        now: u64,
    ) -> (r: Result<u64, &'static str>)
        requires
            old(self).admin_of() is Some,
            old(self).counter() < u64::MAX,
        ensures
            r == Ok::<u64, &'static str>((old(self).counter() + 1) as u64),
            final(self).counter() == old(self).counter() + 1,
            (final(self).proposal((old(self).counter() + 1) as u64) matches Some(p) && p.id == old(
                self,
            ).counter() + 1 && p.title@ == title@ && p.description@ == description@
                && p.proposer@ == proposer@ && p.votes_for == 0 && p.votes_against == 0
                && p.created_at == now && p.deadline == deadline && !p.executed),
            forall|id: u64|
                id != old(self).counter() + 1 ==> #[trigger] final(self).proposal(id) == old(
                    self,
                ).proposal(id),
            final(self).admin_of() == old(self).admin_of(),
            forall|a: Seq<char>| #[trigger] final(self).power(a) == old(self).power(a),
            forall|a: Seq<char>, id: u64| #[trigger]
                final(self).has_voted(a, id) == old(self).has_voted(a, id),
            final(self).supply() == old(self).supply(),
            forall|a: Seq<char>| #[trigger] final(self).balance(a) == old(self).balance(a),
    {
        let id = self.proposal_counter + 1;
        let proposal = Proposal {
            id,
            title,
            description,
            proposer: String::from_str(proposer),
            votes_for: 0,
            votes_against: 0,
            created_at: now,
            deadline,
            executed: false,
        };
        let ghost before = self.proposals@;
        self.proposals.push(proposal);
        proof {
            assert(self.proposals@.drop_last() =~= before);
        }
        self.proposal_counter = id;
        Ok(id)
    }

    /// Casts `voter`'s vote of `amount` on proposal `proposal_id` at time
    /// `now`, for it (`direction`) or against: refused as `vote_spec` says.
    pub fn vote(&mut self, voter: &str, proposal_id: u64, amount: i128, direction: bool, now: u64) -> (r:
        Result<(), &'static str>)
        requires
            vote_spec(
                now,
                deadline_of(old(self).proposal(proposal_id)),
                amount,
                old(self).power(voter@) as i128,
                old(self).has_voted(voter@, proposal_id),
            ) is Ok ==> (old(self).proposal(proposal_id) matches Some(p) && (direction
                ==> p.votes_for + amount <= i128::MAX) && (!direction ==> p.votes_against + amount
                <= i128::MAX)),
        ensures
            r == vote_spec(
                now,
                deadline_of(old(self).proposal(proposal_id)),
                amount,
                old(self).power(voter@) as i128,
                old(self).has_voted(voter@, proposal_id),
            ),
            r is Err ==> *final(self) == *old(self),
            r is Ok ==> {
                &&& final(self).has_voted(voter@, proposal_id)
                &&& forall|a: Seq<char>, id: u64|
                    !(a == voter@ && id == proposal_id) ==> #[trigger] final(self).has_voted(a, id)
                        == old(self).has_voted(a, id)
                &&& match (old(self).proposal(proposal_id), final(self).proposal(proposal_id)) {
                    (Some(p), Some(q)) => q.id == p.id && q.votes_for == (if direction {
                        p.votes_for + amount
                    } else {
                        p.votes_for as int
                    }) && q.votes_against == (if direction {
                        p.votes_against as int
                    } else {
                        p.votes_against + amount
                    }) && q.deadline == p.deadline && q.executed == p.executed && q.created_at
                        == p.created_at && q.title@ == p.title@ && q.description@ == p.description@
                        && q.proposer@ == p.proposer@,
                    _ => false,
                }
                &&& forall|id: u64|
                    id != proposal_id ==> #[trigger] final(self).proposal(id) == old(
                        self,
                    ).proposal(id)
                &&& forall|a: Seq<char>| #[trigger] final(self).power(a) == old(self).power(a)
                &&& forall|a: Seq<char>| #[trigger] final(self).balance(a) == old(self).balance(a)
                &&& final(self).supply() == old(self).supply()
                &&& final(self).counter() == old(self).counter()
                &&& final(self).admin_of() == old(self).admin_of()
            },
    {
        let ghost p0 = self.proposal(proposal_id);
        let found = find_proposal(&self.proposals, proposal_id);
        let deadline = match found {
            Some(k) => Some(self.proposals[k].deadline),
            None => None,
        };
        let power = lookup_amount(&self.voting_power, voter);
        let already = has_vote(&self.votes, voter, proposal_id);
        if let Err(e) = check_vote(now, deadline, amount, power, already) {
            return Err(e);
        }
        let k = match found {
            Some(k) => k,
            None => { return Err("Proposal not found"); },
        };
        let p = &self.proposals[k];
        let (votes_for, votes_against) = record_vote(p.votes_for, p.votes_against, amount, direction);
        let updated = Proposal {
            id: p.id,
            title: p.title.clone(),
            description: p.description.clone(),
            proposer: p.proposer.clone(),
            votes_for,
            votes_against,
            created_at: p.created_at,
            deadline: p.deadline,
            executed: p.executed,
        };
        let ghost before = self.proposals@;
        self.proposals.push(updated);
        proof {
            assert(self.proposals@.drop_last() =~= before);
        }
        let ghost votes_before = self.votes@;
        self.votes.push((String::from_str(voter), proposal_id));
        proof {
            assert forall|a: Seq<char>, id: u64|
                !(a == voter@ && id == proposal_id) implies #[trigger] voted_in(self.votes@, a, id)
                == voted_in(votes_before, a, id) by {
                if voted_in(votes_before, a, id) {
                    let w = choose|w: int|
                        0 <= w < votes_before.len() && (#[trigger] votes_before[w]).0@ == a
                            && votes_before[w].1 == id;
                    assert(self.votes@[w] == votes_before[w]);
                }
                if voted_in(self.votes@, a, id) {
                    let w = choose|w: int|
                        0 <= w < self.votes@.len() && (#[trigger] self.votes@[w]).0@ == a
                            && self.votes@[w].1 == id;
                    assert(w < votes_before.len());
                    assert(votes_before[w] == self.votes@[w]);
                }
            }
            assert(self.votes@[votes_before.len() as int].0@ == voter@);
        }
        Ok(())
    }

    /// Executes proposal `proposal_id` at time `now`: refused as
    /// `execute_spec` says; marked executed when it passed.
    pub fn execute_proposal(&mut self, proposal_id: u64, now: u64) -> (r: Result<bool, &'static str>)
        ensures
            r == execute_spec(
                now,
                deadline_of(old(self).proposal(proposal_id)),
                (old(self).proposal(proposal_id) matches Some(p) && p.executed),
                match old(self).proposal(proposal_id) {
                    Some(p) => p.votes_for,
                    None => 0,
                },
                match old(self).proposal(proposal_id) {
                    Some(p) => p.votes_against,
                    None => 0,
                },
            ),
            r != Ok::<bool, &'static str>(true) ==> *final(self) == *old(self),
            r == Ok::<bool, &'static str>(true) ==> {
                &&& match (old(self).proposal(proposal_id), final(self).proposal(proposal_id)) {
                    (Some(p), Some(q)) => q.executed && q.id == p.id && q.votes_for == p.votes_for
                        && q.votes_against == p.votes_against && q.deadline == p.deadline,
                    _ => false,
                }
                &&& forall|id: u64|
                    id != proposal_id ==> #[trigger] final(self).proposal(id) == old(
                        self,
                    ).proposal(id)
                &&& forall|a: Seq<char>| #[trigger] final(self).power(a) == old(self).power(a)
                &&& final(self).supply() == old(self).supply()
                &&& forall|a: Seq<char>| #[trigger] final(self).balance(a) == old(self).balance(a)
                &&& final(self).counter() == old(self).counter()
                &&& final(self).admin_of() == old(self).admin_of()
            },
    {
        let found = find_proposal(&self.proposals, proposal_id);
        let k = match found {
            Some(k) => k,
            None => { return Err("Proposal not found"); },
        };
        let p = &self.proposals[k];
        let passed = match check_execution(now, Some(p.deadline), p.executed, p.votes_for, p.votes_against) {
            Err(e) => { return Err(e); },
            Ok(passed) => passed,
        };
        if passed {
            let updated = Proposal {
                id: p.id,
                title: p.title.clone(),
                description: p.description.clone(),
                proposer: p.proposer.clone(),
                votes_for: p.votes_for,
                votes_against: p.votes_against,
                created_at: p.created_at,
                deadline: p.deadline,
                executed: true,
            };
            let ghost before = self.proposals@;
            self.proposals.push(updated);
            proof {
                assert(self.proposals@.drop_last() =~= before);
            }
        }
        Ok(passed)
    }

    /// The proposal stored under `proposal_id`.
    pub fn get_proposal(&self, proposal_id: u64) -> (r: Result<&Proposal, &'static str>)
        ensures
            match self.proposal(proposal_id) {
                Some(p) => (r matches Ok(q) && *q == p),
                None => r == Err::<&Proposal, &'static str>("Proposal not found"),
            },
    {
        match find_proposal(&self.proposals, proposal_id) {
            Some(k) => Ok(&self.proposals[k]),
            None => Err("Proposal not found"),
        }
    }

    /// Moves `amount` of voting power from `from` to `to`: refused for a
    /// non-positive amount or more than `from` holds. The new powers are
    /// written in turn, `from`'s first, so delegating to oneself changes
    /// nothing.
    pub fn delegate_voting_power(&mut self, from: &str, to: &str, amount: i128) -> (r: Result<
        (),
        &'static str,
    >)
        requires
            amount > 0 && old(self).power(from@) >= amount && from@ != to@ ==> old(self).power(to@)
                + amount <= i128::MAX,
        ensures
            amount <= 0 ==> r == Err::<(), &'static str>("Amount must be positive"),
            amount > 0 && old(self).power(from@) < amount ==> r == Err::<(), &'static str>(
                "Insufficient power to delegate",
            ),
            amount > 0 && old(self).power(from@) >= amount ==> r is Ok,
            r is Err ==> *final(self) == *old(self),
            r is Ok ==> {
                &&& from@ == to@ ==> final(self).power(from@) == old(self).power(from@)
                &&& from@ != to@ ==> final(self).power(from@) == old(self).power(from@) - amount
                    && final(self).power(to@) == old(self).power(to@) + amount
                &&& forall|a: Seq<char>|
                    a != from@ && a != to@ ==> #[trigger] final(self).power(a) == old(
                        self,
                    ).power(a)
                &&& forall|id: u64| #[trigger] final(self).proposal(id) == old(self).proposal(id)
                &&& final(self).counter() == old(self).counter()
                &&& final(self).supply() == old(self).supply()
                &&& forall|a: Seq<char>| #[trigger] final(self).balance(a) == old(self).balance(a)
            },
    {
        if amount <= 0 {
            return Err("Amount must be positive");
        }
        let current = lookup_amount(&self.voting_power, from);
        if current < amount {
            return Err("Insufficient power to delegate");
        }
        let ghost p0 = self.voting_power@;
        self.voting_power.push((String::from_str(from), current - amount));
        let ghost p1 = self.voting_power@;
        proof {
            assert(p1.drop_last() =~= p0);
            assert(amount_in(p1, from@) == current - amount);
            assert forall|a: Seq<char>| a != from@ implies #[trigger] amount_in(p1, a) == amount_in(
                p0,
                a,
            ) by {}
        }
        let to_power = lookup_amount(&self.voting_power, to);
        self.voting_power.push((String::from_str(to), to_power + amount));
        proof {
            let p2 = self.voting_power@;
            assert(p2.drop_last() =~= p1);
            assert(amount_in(p2, to@) == to_power + amount);
            assert forall|a: Seq<char>| a != to@ implies #[trigger] amount_in(p2, a) == amount_in(
                p1,
                a,
            ) by {}
        }
        Ok(())
    }
}

/// Once a voter's vote on a proposal is recorded, every further vote of
/// theirs on it is refused, whatever its amount, time or the voter's power.
pub proof fn lemma_one_vote_per_proposal(
    s: GovernanceState,
    voter: Seq<char>,
    id: u64,
    now: u64,
    amount: i128,
    power: i128,
)
    requires
        s.has_voted(voter, id),
    ensures
        vote_spec(now, deadline_of(s.proposal(id)), amount, power, s.has_voted(voter, id)) is Err,
{
}

/// The position of the latest proposal stored under `id`.
fn find_proposal(proposals: &Vec<Proposal>, id: u64) -> (r: Option<usize>)
    ensures
        match r {
            Some(k) => k < proposals@.len() && proposals@[k as int].id == id && proposal_in(
                proposals@,
                id,
            ) == Some(proposals@[k as int]),
            None => proposal_in(proposals@, id) is None,
        },
{
    let mut i: usize = proposals.len();
    proof {
        assert(proposals@.take(i as int) =~= proposals@);
    }
    while i > 0
        invariant
            i <= proposals@.len(),
            proposal_in(proposals@, id) == proposal_in(proposals@.take(i as int), id),
        decreases i,
    {
        proof {
            assert(proposals@.take(i as int).drop_last() =~= proposals@.take(i - 1));
            assert(proposals@.take(i as int).last() == proposals@[i - 1]);
        }
        if proposals[i - 1].id == id {
            return Some(i - 1);
        }
        i = i - 1;
    }
    proof {
        assert(proposals@.take(0) =~= Seq::<Proposal>::empty());
    }
    None
}

/// The latest amount recorded for `account`, or 0.
fn lookup_amount(entries: &Vec<(String, i128)>, account: &str) -> (r: i128)
    ensures
        r == amount_in(entries@, account@),
{
    let a = String::from_str(account);
    let mut i: usize = entries.len();
    proof {
        assert(entries@.take(i as int) =~= entries@);
    }
    while i > 0
        invariant
            i <= entries@.len(),
            a@ == account@,
            amount_in(entries@, account@) == amount_in(entries@.take(i as int), account@),
        decreases i,
    {
        proof {
            assert(entries@.take(i as int).drop_last() =~= entries@.take(i - 1));
            assert(entries@.take(i as int).last() == entries@[i - 1]);
        }
        if entries[i - 1].0 == a {
            return entries[i - 1].1;
        }
        i = i - 1;
    }
    proof {
        assert(entries@.take(0) =~= Seq::<(String, i128)>::empty());
    }
    0
}

/// Whether a vote by `voter` on proposal `id` is recorded.
fn has_vote(votes: &Vec<(String, u64)>, voter: &str, id: u64) -> (r: bool)
    ensures
        r == voted_in(votes@, voter@, id),
{
    let v = String::from_str(voter);
    let mut i: usize = 0;
    while i < votes.len()
        invariant
            i <= votes@.len(),
            v@ == voter@,
            forall|k: int| 0 <= k < i ==> !((#[trigger] votes@[k]).0@ == voter@ && votes@[k].1 == id),
        decreases votes@.len() - i,
    {
        if votes[i].0 == v && votes[i].1 == id {
            return true;
        }
        i = i + 1;
    }
    false
}

} // verus!
