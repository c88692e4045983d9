//! The multi-signature treasury contract: its errors, decisions and storage.
//!
//! Admins are held by their addresses' string forms, which are equal exactly
//! when the addresses are.
use vstd::prelude::*;

verus! {

/// Why a treasury call was refused.
#[derive(Copy, Clone, Debug, PartialEq, Eq, Structural, PartialOrd, Ord)]
pub enum ContractError {
    NotAdmin,
    InsufficientQuorum,
    InsufficientBalance,
    /// `initialize` was called after the contract was already set up.
    AlreadyInitialized,
    /// The admin list passed to `initialize` was empty.
    EmptyAdmins,
    /// The quorum was zero or exceeded the number of admins.
    InvalidQuorum,
    /// The admin list contained duplicate addresses.
    DuplicateAdmin,
    /// A reentrant call was refused by the guard.
    ReentrancyGuardLocked,
}

impl ContractError {
    /// The contract error code the host reports for this error.
    pub fn code(&self) -> (r: u32)
        ensures
            r == match *self {
                ContractError::NotAdmin => 1u32,
                ContractError::InsufficientQuorum => 2,
                ContractError::InsufficientBalance => 3,
                ContractError::AlreadyInitialized => 4,
                ContractError::EmptyAdmins => 5,
                ContractError::InvalidQuorum => 6,
                ContractError::DuplicateAdmin => 7,
                ContractError::ReentrancyGuardLocked => 8,
            },
    {
        match self {
            ContractError::NotAdmin => 1,
            ContractError::InsufficientQuorum => 2,
            ContractError::InsufficientBalance => 3,
            ContractError::AlreadyInitialized => 4,
            ContractError::EmptyAdmins => 5,
            ContractError::InvalidQuorum => 6,
            ContractError::DuplicateAdmin => 7,
            ContractError::ReentrancyGuardLocked => 8,
        }
    }
}

/// A treasury whose withdrawals need a quorum of admin signatures.
pub struct Treasury;

pub open spec fn has_duplicate(admins: Seq<String>) -> bool {
    exists|i: int, j: int| 0 <= i < j < admins.len() && #[trigger] admins[i]@ == #[trigger] admins[j]@
}

/// The outcome of `initialize`, checked in order: already initialized, no
/// admins, a quorum of zero or above the number of admins, a duplicate admin.
pub open spec fn initialization_spec(already: bool, admins: Seq<String>, quorum: u32) -> Result<
    (),
    ContractError,
> {
    if already {
        Err(ContractError::AlreadyInitialized)
    } else if admins.len() == 0 {
        Err(ContractError::EmptyAdmins)
    } else if quorum == 0 || quorum > admins.len() {
        Err(ContractError::InvalidQuorum)
    } else if has_duplicate(admins) {
        Err(ContractError::DuplicateAdmin)
    } else {
        Ok(())
    }
}

/// Whether the treasury may be set up with `admins` and `quorum`.
pub fn check_initialization(already_initialized: bool, admins: &[String], quorum: u32) -> (r:
    Result<(), ContractError>)
    ensures
        r == initialization_spec(already_initialized, admins@, quorum),
{
    if already_initialized {
        return Err(ContractError::AlreadyInitialized);
    }
    let n = admins.len();
    if n == 0 {
        return Err(ContractError::EmptyAdmins);
    }
    if quorum == 0 || quorum as usize > n {
        return Err(ContractError::InvalidQuorum);
    }
    let mut i: usize = 0;
    while i < n
        invariant
            n == admins@.len(),
            !already_initialized,
            n > 0,
            quorum != 0,
            quorum <= n,
            i <= n,
            forall|a: int, b: int| 0 <= a < i && a < b < n ==> admins@[a]@ != admins@[b]@,
        decreases n - i,
    {
        let mut j: usize = i + 1;
        while j < n
            invariant
                n == admins@.len(),
                !already_initialized,
                n > 0,
                quorum != 0,
                quorum <= n,
                i < n,
                i + 1 <= j <= n,
                forall|a: int, b: int| 0 <= a < i && a < b < n ==> admins@[a]@ != admins@[b]@,
                forall|b: int| i < b < j ==> admins@[i as int]@ != admins@[b]@,
            decreases n - j,
        {
            if admins[i] == admins[j] {
                proof {
                    assert(admins@[i as int]@ == admins@[j as int]@);
                    assert(has_duplicate(admins@));
                }
                return Err(ContractError::DuplicateAdmin);
            }
            j = j + 1;
        }
        i = i + 1;
    }
    proof {
        if has_duplicate(admins@) {
            let (a, b) = choose|a: int, b: int|
                0 <= a < b < admins@.len() && #[trigger] admins@[a]@ == #[trigger] admins@[b]@;
            assert(admins@[a]@ != admins@[b]@);
        }
    }
    Ok(())
}

/// How many of `signers` are admins; a signer listed twice counts twice.
pub open spec fn admin_signer_count(signers: Seq<String>, admins: Seq<String>) -> nat
    decreases signers.len(),
{
    if signers.len() == 0 {
        0
    } else {
        admin_signer_count(signers.drop_last(), admins) + (if exists|k: int|
            0 <= k < admins.len() && #[trigger] admins[k]@ == signers.last()@ {
            1nat
        } else {
            0nat
        })
    }
}

proof fn lemma_admin_signer_count_bound(signers: Seq<String>, admins: Seq<String>)
    ensures
        admin_signer_count(signers, admins) <= signers.len(),
    decreases signers.len(),
{
    if signers.len() > 0 {
        lemma_admin_signer_count_bound(signers.drop_last(), admins);
    }
}

fn is_admin(admins: &[String], who: &String) -> (r: bool)
    ensures
        r == exists|k: int| 0 <= k < admins@.len() && #[trigger] admins@[k]@ == who@,
{
    let mut k: usize = 0;
    while k < admins.len()
        invariant
            k <= admins@.len(),
            forall|m: int| 0 <= m < k ==> admins@[m]@ != who@,
        decreases admins@.len() - k,
    {
        if admins[k] == *who {
            return true;
        }
        k = k + 1;
    }
    false
}

/// The number of signers that are admins, as the quorum check counts them.
pub fn valid_signer_count(signers: &[String], admins: &[String]) -> (r: u32)
    requires
        signers@.len() <= u32::MAX,
    ensures
        r == admin_signer_count(signers@, admins@),
{
    let mut valid: u32 = 0;
    let mut i: usize = 0;
    while i < signers.len()
        invariant
            signers@.len() <= u32::MAX,
            i <= signers@.len(),
            valid == admin_signer_count(signers@.take(i as int), admins@),
        decreases signers@.len() - i,
    {
        proof {
            let t = signers@.take(i + 1);
            assert(t.drop_last() =~= signers@.take(i as int));
            lemma_admin_signer_count_bound(signers@.take(i as int), admins@);
        }
        if is_admin(admins, &signers[i]) {
            valid = valid + 1;
        }
        i = i + 1;
    }
    proof {
        assert(signers@.take(signers@.len() as int) =~= signers@);
    }
    valid
}

/// The fee of a flash loan: a thousandth of the amount, at least one unit.
pub open spec fn flash_fee_spec(amount: i128) -> int {
    if amount / 1000 == 0 {
        1
    } else {
        amount / 1000
    }
}

/// The fee of a flash loan of a positive `amount`.
pub fn flash_loan_fee(amount: i128) -> (r: i128)
    requires
        amount > 0,
    ensures
        r == flash_fee_spec(amount),
        r >= 1,
{
    let fee = amount / 1000;
    if fee == 0 {
        1
    } else {
        fee
    }
}

/// The outcome of a withdrawal: refused without a quorum of admin signers or
/// without the balance, else the balance left.
pub open spec fn withdraw_spec(valid: u32, quorum: u32, balance: i128, amount: i128) -> Result<
    int,
    ContractError,
> {
    if valid < quorum {
        Err(ContractError::InsufficientQuorum)
    } else if balance < amount {
        Err(ContractError::InsufficientBalance)
    } else {
        Ok(balance - amount)
    }
}

/// Decides a withdrawal of `amount` from `balance` with `valid` admin signers.
pub fn check_withdrawal(valid: u32, quorum: u32, balance: i128, amount: i128) -> (r: Result<
    i128,
    ContractError,
>)
    requires
        balance >= amount ==> balance - amount <= i128::MAX,
    ensures
        match (r, withdraw_spec(valid, quorum, balance, amount)) {
            (Ok(left), Ok(expected)) => left == expected,
            (Err(e), Err(expected)) => e == expected,
            _ => false,
        },
{
    if valid < quorum {
        Err(ContractError::InsufficientQuorum)
    } else if balance < amount {
        Err(ContractError::InsufficientBalance)
    } else {
        Ok(balance - amount)
    }
}

/// The reentrancy guard: a call is refused while another holds the lock.
pub fn check_guard(locked: bool) -> (r: Result<(), ContractError>)
    ensures
        r == (if locked {
            Err(ContractError::ReentrancyGuardLocked)
        } else {
            Ok(())
        }),
{
    if locked {
        Err(ContractError::ReentrancyGuardLocked)
    } else {
        Ok(())
    }
}

// ── The contract's storage and calls ───────────────────────────────────────

/// The balance of `holder` in `token` recorded by `entries`: the latest entry
/// for the pair, or 0 when there is none.
pub open spec fn balance_in(entries: Seq<(String, String, i128)>, holder: Seq<char>, token: Seq<
    char,
>) -> int
    decreases entries.len(),
{
    if entries.len() == 0 {
        0
    } else if entries.last().0@ == holder && entries.last().1@ == token {
        entries.last().2 as int
    } else {
        balance_in(entries.drop_last(), holder, token)
    }
}

/// The treasury contract's storage: its admins and quorum once initialized,
/// the balances it keeps by holder and token, and its reentrancy guard.
///
/// A call that is refused leaves the storage as it was, as the host discards
/// the changes of a call that fails.
pub struct TreasuryState {
    initialized: bool,
    admins: Vec<String>,
    quorum: u32,
    entries: Vec<(String, String, i128)>,
    locked: bool,
}

/// A flash loan in progress: what `begin_flash_loan` granted.
#[derive(Debug, Clone, Copy, PartialEq, Eq)]
pub struct FlashLoan {
    /// The amount lent to the borrower.
    pub amount: i128,
    /// The fee the borrower owes on top of the amount.
    pub fee: i128,
    /// What the borrower must transfer back: amount plus fee.
    pub repayment: i128,
    /// The treasury's balance in the token when the loan began.
    pub balance_before: i128,
}

/// `after` is `before` with the balance of `(holder, token)` set to `value`,
/// every other balance and the rest of the storage unchanged.
pub open spec fn balance_set(
    before: TreasuryState,
    after: TreasuryState,
    holder: Seq<char>,
    token: Seq<char>,
    value: int,
) -> bool {
    &&& after.is_initialized() == before.is_initialized()
    &&& after.admin_list() == before.admin_list()
    &&& after.quorum_of() == before.quorum_of()
    &&& after.balance(holder, token) == value
    &&& forall|h: Seq<char>, t: Seq<char>|
        !(h == holder && t == token) ==> #[trigger] after.balance(h, t) == before.balance(h, t)
}

/// A successful deposit of `amount`: the treasury's balance grows by it.
pub open spec fn deposited(
    before: TreasuryState,
    after: TreasuryState,
    treasury: Seq<char>,
    token: Seq<char>,
    amount: int,
) -> bool {
    &&& balance_set(before, after, treasury, token, before.balance(treasury, token) + amount)
    &&& after.guarded() == before.guarded()
}

/// A successful withdrawal of `amount`: the treasury's balance shrinks by it.
pub open spec fn withdrew(
    before: TreasuryState,
    after: TreasuryState,
    treasury: Seq<char>,
    token: Seq<char>,
    amount: int,
) -> bool {
    &&& balance_set(before, after, treasury, token, before.balance(treasury, token) - amount)
    &&& after.guarded() == before.guarded()
}

impl TreasuryState {
    pub closed spec fn is_initialized(&self) -> bool {
        self.initialized
    }

    pub closed spec fn admin_list(&self) -> Seq<String> {
        self.admins@
    }

    pub closed spec fn quorum_of(&self) -> u32 {
        self.quorum
    }

    /// The balance the contract records for `holder` in `token`; 0 when none.
    pub closed spec fn balance(&self, holder: Seq<char>, token: Seq<char>) -> int {
        balance_in(self.entries@, holder, token)
    }

    /// Whether a flash loan holds the reentrancy guard.
    pub closed spec fn guarded(&self) -> bool {
        self.locked
    }

    /// Once initialized, the treasury has a quorum between 1 and the number of
    /// its admins, and no admin twice.
    pub open spec fn wf(&self) -> bool {
        self.is_initialized() ==> initialization_spec(false, self.admin_list(), self.quorum_of())
            is Ok
    }

    /// A contract that has not been initialized: no admins, no balances.
    pub fn new() -> (r: Self)
        ensures
            !r.is_initialized(),
            !r.guarded(),
            r.wf(),
            forall|h: Seq<char>, t: Seq<char>| #[trigger] r.balance(h, t) == 0,
    {
        TreasuryState {
            initialized: false,
            admins: Vec::new(),
            quorum: 0,
            entries: Vec::new(),
            locked: false,
        }
    }

    /// Sets the treasury up with `admins`, of whom `quorum` must sign a
    /// withdrawal, and no balances. Refused as `initialization_spec` says.
    pub fn initialize(&mut self, admins: Vec<String>, quorum: u32) -> (r: Result<(), ContractError>)
        ensures
            r == initialization_spec(old(self).is_initialized(), admins@, quorum),
            r is Err ==> *final(self) == *old(self),
            r is Ok ==> {
                &&& final(self).is_initialized()
                &&& final(self).admin_list() == admins@
                &&& final(self).quorum_of() == quorum
                &&& final(self).guarded() == old(self).guarded()
                &&& forall|h: Seq<char>, t: Seq<char>| #[trigger] final(self).balance(h, t) == 0
            },
            old(self).wf() ==> final(self).wf(),
    {
        match check_initialization(self.initialized, admins.as_slice(), quorum) {
            Err(e) => Err(e),
            Ok(()) => {
                self.initialized = true;
                self.admins = admins;
                self.quorum = quorum;
                self.entries = Vec::new();
                Ok(())
            },
        }
    }

    /// The balance the contract records for `account` in `token`.
    pub fn balance_of(&self, account: &str, token: &str) -> (r: i128)
        requires
            self.is_initialized(),
        ensures
            r == self.balance(account@, token@),
    {
        lookup_balance(&self.entries, account, token)
    }

    /// Records a deposit of `amount` of `token`, which the caller has already
    /// moved from the depositor to the treasury: refused when it would leave
    /// the treasury's balance negative.
    pub fn deposit(&mut self, treasury: &str, token: &str, amount: i128) -> (r: Result<
        (),
        ContractError,
    >)
        requires
            old(self).is_initialized(),
            i128::MIN <= old(self).balance(treasury@, token@) + amount <= i128::MAX,
        ensures
            old(self).balance(treasury@, token@) + amount < 0 ==> r == Err::<(), ContractError>(
                ContractError::InsufficientBalance,
            ),
            old(self).balance(treasury@, token@) + amount >= 0 ==> r is Ok,
            r is Err ==> *final(self) == *old(self),
            r is Ok ==> deposited(*old(self), *final(self), treasury@, token@, amount as int),
    {
        let current = lookup_balance(&self.entries, treasury, token);
        let updated = current + amount;
        if updated < 0 {
            return Err(ContractError::InsufficientBalance);
        }
        self.set_balance(treasury, token, updated);
        Ok(())
    }

    /// Withdraws `amount` of `token` from the treasury's books, signed by
    /// `signers`: refused while a flash loan holds the guard, then as
    /// `withdraw_spec` says for the number of signers that are admins.
    pub fn withdraw(&mut self, treasury: &str, token: &str, amount: i128, signers: &[String]) -> (r:
        Result<(), ContractError>)
        requires
            old(self).guarded() || old(self).is_initialized(),
            signers@.len() <= u32::MAX,
            old(self).balance(treasury@, token@) >= amount ==> old(self).balance(treasury@, token@)
                - amount <= i128::MAX,
        ensures
            old(self).guarded() ==> r == Err::<(), ContractError>(
                ContractError::ReentrancyGuardLocked,
            ),
            !old(self).guarded() ==> match withdraw_spec(
                admin_signer_count(signers@, old(self).admin_list()) as u32,
                old(self).quorum_of(),
                old(self).balance(treasury@, token@) as i128,
                amount,
            ) {
                Err(e) => r == Err::<(), ContractError>(e),
                Ok(_) => r is Ok,
            },
            r is Err ==> *final(self) == *old(self),
            r is Ok ==> withdrew(*old(self), *final(self), treasury@, token@, amount as int),
    {
        if let Err(e) = check_guard(self.locked) {
            return Err(e);
        }
        let valid = valid_signer_count(signers, self.admins.as_slice());
        let current = lookup_balance(&self.entries, treasury, token);
        match check_withdrawal(valid, self.quorum, current, amount) {
            Err(e) => Err(e),
            Ok(left) => {
                self.set_balance(treasury, token, left);
                Ok(())
            },
        }
    }

    /// Starts a flash loan of `amount` of `token` and takes the guard: refused
    /// while another holds it, for a non-positive amount, or for more than the
    /// treasury holds. The caller then moves the amount to the borrower and
    /// the repayment back, and calls `end_flash_loan`.
    pub fn begin_flash_loan(&mut self, treasury: &str, token: &str, amount: i128) -> (r: Result<
        FlashLoan,
        ContractError,
    >)
        requires
            !old(self).guarded() && amount > 0 ==> old(self).is_initialized(),
            !old(self).guarded() && amount > 0 && old(self).balance(treasury@, token@) >= amount
                ==> amount + flash_fee_spec(amount) <= i128::MAX,
        ensures
            old(self).guarded() ==> r == Err::<FlashLoan, ContractError>(
                ContractError::ReentrancyGuardLocked,
            ),
            !old(self).guarded() && (amount <= 0 || old(self).balance(treasury@, token@) < amount)
                ==> r == Err::<FlashLoan, ContractError>(ContractError::InsufficientBalance),
            !old(self).guarded() && amount > 0 && old(self).balance(treasury@, token@) >= amount
                ==> r is Ok,
            r is Err ==> *final(self) == *old(self),
            r matches Ok(loan) ==> {
                &&& loan.amount == amount
                &&& loan.fee == flash_fee_spec(amount)
                &&& loan.repayment == amount + loan.fee
                &&& loan.balance_before == old(self).balance(treasury@, token@)
                &&& final(self).guarded()
                &&& final(self).is_initialized() == old(self).is_initialized()
                &&& final(self).admin_list() == old(self).admin_list()
                &&& final(self).quorum_of() == old(self).quorum_of()
                &&& forall|h: Seq<char>, t: Seq<char>|
                    #[trigger] final(self).balance(h, t) == old(self).balance(h, t)
            },
    {
        if let Err(e) = check_guard(self.locked) {
            return Err(e);
        }
        if amount <= 0 {
            return Err(ContractError::InsufficientBalance);
        }
        let current = lookup_balance(&self.entries, treasury, token);
        if current < amount {
            return Err(ContractError::InsufficientBalance);
        }
        let fee = flash_loan_fee(amount);
        self.locked = true;
        Ok(FlashLoan { amount, fee, repayment: amount + fee, balance_before: current })
    }

    /// Completes a flash loan once its repayment has arrived: the balance
    /// becomes the one the loan began with plus the fee, and the guard is
    /// released.
    pub fn end_flash_loan(&mut self, treasury: &str, token: &str, loan: FlashLoan)
        requires
            old(self).guarded(),
            loan.balance_before + loan.fee <= i128::MAX,
            loan.balance_before + loan.fee >= i128::MIN,
        ensures
            !final(self).guarded(),
            balance_set(
                *old(self),
                *final(self),
                treasury@,
                token@,
                loan.balance_before + loan.fee,
            ),
    {
        self.set_balance(treasury, token, loan.balance_before + loan.fee);
        let ghost mid = *self;
        self.locked = false;
        proof {
            assert forall|h: Seq<char>, t: Seq<char>| #[trigger]
                self.balance(h, t) == mid.balance(h, t) by {}
        }
    }

    /// Records `value` as the balance of `(holder, token)`.
    fn set_balance(&mut self, holder: &str, token: &str, value: i128)
        ensures
            balance_set(*old(self), *final(self), holder@, token@, value as int),
            final(self).guarded() == old(self).guarded(),
    {
        let h = String::from_str(holder);
        let t = String::from_str(token);
        let ghost before = self.entries@;
        self.entries.push((h, t, value));
        proof {
            assert(self.entries@.drop_last() =~= before);
        }
    }
}

/// The latest entry for `(holder, token)`, or 0.
fn lookup_balance(entries: &Vec<(String, String, i128)>, holder: &str, token: &str) -> (r: i128)
    ensures
        r == balance_in(entries@, holder@, token@),
{
    let h = String::from_str(holder);
    let t = String::from_str(token);
    let mut i: usize = entries.len();
    proof {
        assert(entries@.take(i as int) =~= entries@);
    }
    while i > 0
        invariant
            i <= entries@.len(),
            h@ == holder@,
            t@ == token@,
            balance_in(entries@, holder@, token@) == balance_in(entries@.take(i as int), holder@, token@),
        decreases i,
    {
        proof {
            assert(entries@.take(i as int).drop_last() =~= entries@.take(i - 1));
            assert(entries@.take(i as int).last() == entries@[i - 1]);
        }
        if entries[i - 1].0 == h && entries[i - 1].1 == t {
            return entries[i - 1].2;
        }
        i = i - 1;
    }
    0
}

/// A deposit followed by a withdrawal leaves the treasury's balance moved by
/// their difference; from an empty balance, withdrawing no more than was
/// deposited never leaves it negative.
pub proof fn lemma_deposit_then_withdraw(
    s0: TreasuryState,
    s1: TreasuryState,
    s2: TreasuryState,
    treasury: Seq<char>,
    token: Seq<char>,
    deposit: int,
    withdrawal: int,
)
    requires
        deposited(s0, s1, treasury, token, deposit),
        withdrew(s1, s2, treasury, token, withdrawal),
    ensures
        s2.balance(treasury, token) == s0.balance(treasury, token) + deposit - withdrawal,
        s0.balance(treasury, token) == 0 && 0 <= withdrawal <= deposit ==> s2.balance(
            treasury,
            token,
        ) >= 0,
        forall|h: Seq<char>, t: Seq<char>|
            !(h == treasury && t == token) ==> #[trigger] s2.balance(h, t) == s0.balance(h, t),
{
}

} // verus!
