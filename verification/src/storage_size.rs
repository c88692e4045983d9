//! Estimating the stored size of a value, to guard against the ledger entry
//! size limit.
//!
//! The estimate goes by the name of the value's type: fixed wire sizes for
//! integers, booleans and addresses, the XDR length for a Soroban string, and
//! the value's in-memory size for anything else.
use vstd::prelude::*;
use crate::text::{chars_of, decimal, push_u64, same_text};

verus! {

/// The estimated size of a value of the type named `name`: `string_xdr`
/// is the XDR length when the value is a Soroban string, and `value_size` its
/// in-memory size.
pub open spec fn type_size(name: Seq<char>, string_xdr: Option<usize>, value_size: usize) -> int {
    if "soroban_sdk::String"@.is_prefix_of(name) && string_xdr is Some {
        string_xdr.unwrap() as int
    } else if name == "soroban_sdk::Address"@ {
        40
    } else if name == "i128"@ || name == "u128"@ {
        16
    } else if name == "i64"@ || name == "u64"@ {
        8
    } else if name == "i32"@ || name == "u32"@ {
        4
    } else if name == "bool"@ {
        1
    } else {
        value_size as int
    }
}

fn is_prefix(prefix: &str, s: &str) -> (r: bool)
    ensures
        r == prefix@.is_prefix_of(s@),
{
    let p = chars_of(prefix);
    let c = chars_of(s);
    if p.len() > c.len() {
        return false;
    }
    let mut i: usize = 0;
    while i < p.len()
        invariant
            p@ == prefix@,
            c@ == s@,
            p@.len() <= c@.len(),
            i <= p@.len(),
            forall|k: int| 0 <= k < i ==> p@[k] == c@[k],
        decreases p@.len() - i,
    {
        if p[i] != c[i] {
            return false;
        }
        i = i + 1;
    }
    proof {
        assert(c@.subrange(0, p@.len() as int) =~= p@);
    }
    true
}

/// The estimated size of a value, given the name of its type, its XDR length
/// when it is a Soroban string, and its in-memory size.
pub fn size_for_type(name: &str, string_xdr: Option<usize>, value_size: usize) -> (r: usize)
    ensures
        r == type_size(name@, string_xdr, value_size),
{
    if is_prefix("soroban_sdk::String", name) && string_xdr.is_some() {
        string_xdr.unwrap()
    } else if same_text(name, "soroban_sdk::Address") {
        40
    } else if same_text(name, "i128") || same_text(name, "u128") {
        16
    } else if same_text(name, "i64") || same_text(name, "u64") {
        8
    } else if same_text(name, "i32") || same_text(name, "u32") {
        4
    } else if same_text(name, "bool") {
        1
    } else {
        value_size
    }
}

pub open spec fn size_limit_text(size: usize, limit: usize) -> Seq<char> {
    "assert_storage_entry_size_limit! failed: estimated size of "@ + decimal(size as nat)
        + " bytes exceeds the limit of "@ + decimal(limit as nat) + " bytes"@
}

/// `Ok` when an estimated size is within a limit; otherwise why not.
pub fn check_size_limit(size: usize, limit: usize) -> (r: Result<(), String>)
    ensures
        r is Ok <==> size <= limit,
        r matches Err(m) ==> m@ == size_limit_text(size, limit),
{
    if size <= limit {
        Ok(())
    } else {
        let mut out = String::from_str("assert_storage_entry_size_limit! failed: estimated size of ");
        push_u64(&mut out, size as u64);
        out.append(" bytes exceeds the limit of ");
        push_u64(&mut out, limit as u64);
        out.append(" bytes");
        proof {
            assert(out@ =~= size_limit_text(size, limit));
        }
        Err(out)
    }
}

} // verus!
