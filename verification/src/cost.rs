//! Measured execution costs and their report.
use vstd::prelude::*;
use crate::text::{chars_of, decimal, push_char, push_i64, signed_decimal, u64_to_string};

verus! {

/// What a contract call cost: CPU instructions and memory.
#[derive(Debug, Clone, PartialEq, Eq, Structural)]
pub struct CostReport {
    instructions: u64,
    memory: u64,
}

/// A digit string with a comma before every group of three digits counted from
/// the right: `1234567` becomes `1,234,567`.
pub open spec fn grouped(s: Seq<char>) -> Seq<char>
    decreases s.len(),
{
    if s.len() == 0 {
        seq![]
    } else {
        seq![s[0]] + (if s.len() > 1 && (s.len() - 1) % 3 == 0 {
            seq![',']
        } else {
            seq![]
        }) + grouped(s.drop_first())
    }
}

/// The decimal rendering of `n` with thousands separated by commas.
pub fn format_with_commas(n: u64) -> (r: String)
    ensures
        r@ == grouped(decimal(n as nat)),
{
    let digits = u64_to_string(n);
    let chars = chars_of(digits.as_str());
    let len = chars.len();
    let mut out = String::new();
    let mut i: usize = 0;
    proof {
        assert(chars@.skip(0) =~= chars@);
        assert(out@ + grouped(chars@.skip(0)) =~= grouped(chars@));
    }
    while i < len
        invariant
            len == chars@.len(),
            i <= len,
            out@ + grouped(chars@.skip(i as int)) == grouped(chars@),
        decreases len - i,
    {
        let ghost rest = chars@.skip(i as int);
        proof {
            assert(rest[0] == chars@[i as int]);
            assert(rest.drop_first() =~= chars@.skip(i + 1));
        }
        let ghost before = out@;
        push_char(&mut out, chars[i]);
        let remaining = len - i - 1;
        if remaining > 0 && remaining % 3 == 0 {
            push_char(&mut out, ',');
        }
        proof {
            assert(out@ + grouped(chars@.skip(i + 1)) =~= before + grouped(rest));
        }
        i = i + 1;
    }
    proof {
        assert(chars@.skip(len as int) =~= Seq::<char>::empty());
        assert(out@ =~= out@ + grouped(chars@.skip(len as int)));
    }
    out
}

/// The fee, in stroops, charged for `instructions` CPU instructions.
pub open spec fn fee_for(instructions: u64) -> int {
    instructions as int / 100
}

/// The report's three lines.
pub open spec fn report_text(instructions: u64, memory: u64) -> Seq<char> {
    "Instructions: "@ + grouped(decimal(instructions as nat)) + "\nMemory: "@ + grouped(
        decimal(memory as nat),
    ) + " bytes\nFee: "@ + signed_decimal(fee_for(instructions)) + " stroops"@
}

impl CostReport {
    pub closed spec fn instruction_count(self) -> u64 {
        self.instructions
    }

    pub closed spec fn memory_count(self) -> u64 {
        self.memory
    }

    pub fn new(instructions: u64, memory: u64) -> (r: Self)
        ensures
            r.instruction_count() == instructions,
            r.memory_count() == memory,
    {
        CostReport { instructions, memory }
    }

    /// CPU instructions executed.
    pub fn instructions(&self) -> (r: u64)
        ensures
            r == self.instruction_count(),
    {
        self.instructions
    }

    /// Memory used, in bytes.
    pub fn memory_bytes(&self) -> (r: u64)
        ensures
            r == self.memory_count(),
    {
        self.memory
    }

    /// The fee in stroops: one stroop per hundred instructions.
    pub fn fee_stroops(&self) -> (r: i64)
        ensures
            r == fee_for(self.instruction_count()),
    {
        (self.instructions / 100) as i64
    }

    /// The costs as three lines of text, numbers grouped by thousands.
    pub fn report(&self) -> (r: String)
        ensures
            r@ == report_text(self.instruction_count(), self.memory_count()),
    {
        let mut out = String::from_str("Instructions: ");
        let ins = format_with_commas(self.instructions);
        out.append(ins.as_str());
        out.append("\nMemory: ");
        let mem = format_with_commas(self.memory);
        out.append(mem.as_str());
        out.append(" bytes\nFee: ");
        push_i64(&mut out, self.fee_stroops());
        out.append(" stroops");
        proof {
            assert(out@ =~= report_text(self.instructions, self.memory));
        }
        out
    }
}

} // verus!
