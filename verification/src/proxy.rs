//! The upgradeable proxy contract: its errors and its storage.
use vstd::prelude::*;

verus! {

/// Why a proxy call was refused.
#[derive(Copy, Clone, Debug, PartialEq, Eq, Structural, PartialOrd, Ord)]
pub enum ProxyError {
    AlreadyInitialized,
    NotInitialized,
    NotAdmin,
    InvalidWasmHash,
}

impl ProxyError {
    /// The contract error code the host reports for this error.
    pub fn code(&self) -> (r: u32)
        ensures
            r == match *self {
                ProxyError::AlreadyInitialized => 1u32,
                ProxyError::NotInitialized => 2,
                ProxyError::NotAdmin => 3,
                ProxyError::InvalidWasmHash => 4,
            },
    {
        match self {
            ProxyError::AlreadyInitialized => 1,
            ProxyError::NotInitialized => 2,
            ProxyError::NotAdmin => 3,
            ProxyError::InvalidWasmHash => 4,
        }
    }
}

/// A proxy that forwards to an upgradeable implementation.
pub struct ProxyContract;

/// Whether `initialize` may run: only on an uninitialized proxy.
pub fn initialize_check(already_initialized: bool) -> (r: Result<(), ProxyError>)
    ensures
        r == (if already_initialized {
            Err(ProxyError::AlreadyInitialized)
        } else {
            Ok(())
        }),
{
    if already_initialized {
        Err(ProxyError::AlreadyInitialized)
    } else {
        Ok(())
    }
}

/// The proxy contract's storage: its admin and the hash of the code it
/// forwards to, both set by `initialize`. The admin is held by its address's
/// string form.
///
/// The admin's authorization that `set_implementation`, `upgrade` and
/// `set_admin` need is the caller's to check, against `get_admin`, before it
/// changes the storage; a call whose authorization fails changes nothing.
pub struct ProxyState {
    admin: Option<String>,
    implementation: [u8; 32],
}

impl ProxyState {
    /// The admin, once initialized.
    pub closed spec fn admin_of(&self) -> Option<Seq<char>> {
        match self.admin {
            Some(a) => Some(a@),
            None => None,
        }
    }

    /// The hash of the implementation; meaningful once initialized.
    pub closed spec fn implementation_of(&self) -> Seq<u8> {
        self.implementation@
    }

    /// A proxy that has not been initialized.
    pub fn new() -> (r: Self)
        ensures
            r.admin_of() is None,
    {
        ProxyState { admin: None, implementation: [0u8; 32] }
    }

    /// Sets the admin and the implementation; refused once initialized.
    pub fn initialize(&mut self, admin: &str, implementation: [u8; 32]) -> (r: Result<(), ProxyError>)
        ensures
            old(self).admin_of() is Some ==> r == Err::<(), ProxyError>(
                ProxyError::AlreadyInitialized,
            ) && final(self).admin_of() == old(self).admin_of()
                && final(self).implementation_of() == old(self).implementation_of(),
            old(self).admin_of() is None ==> r is Ok && final(self).admin_of() == Some(admin@)
                && final(self).implementation_of() == implementation@,
    {
        let initialized = self.admin.is_some();
        match initialize_check(initialized) {
            Err(e) => Err(e),
            Ok(()) => {
                self.admin = Some(String::from_str(admin));
                self.implementation = implementation;
                Ok(())
            },
        }
    }

    /// The admin; refused before initialization.
    pub fn get_admin(&self) -> (r: Result<String, ProxyError>)
        ensures
            match self.admin_of() {
                Some(a) => r matches Ok(s) && s@ == a,
                None => r == Err::<String, ProxyError>(ProxyError::NotInitialized),
            },
    {
        match &self.admin {
            Some(a) => Ok(a.clone()),
            None => Err(ProxyError::NotInitialized),
        }
    }

    /// The hash of the implementation; refused before initialization.
    pub fn get_implementation(&self) -> (r: Result<[u8; 32], ProxyError>)
        ensures
            self.admin_of() is Some ==> (r matches Ok(h) && h@ == self.implementation_of()),
            self.admin_of() is None ==> r == Err::<[u8; 32], ProxyError>(
                ProxyError::NotInitialized,
            ),
    {
        match &self.admin {
            Some(_) => Ok(self.implementation),
            None => Err(ProxyError::NotInitialized),
        }
    }

    /// Points the proxy at a new implementation (the admin having
    /// authorized it); refused before initialization.
    pub fn set_implementation(&mut self, new_implementation: [u8; 32]) -> (r: Result<
        (),
        ProxyError,
    >)
        ensures
            old(self).admin_of() is None ==> r == Err::<(), ProxyError>(ProxyError::NotInitialized)
                && final(self).implementation_of() == old(self).implementation_of(),
            old(self).admin_of() is Some ==> r is Ok && final(self).implementation_of()
                == new_implementation@,
            final(self).admin_of() == old(self).admin_of(),
    {
        match &self.admin {
            None => Err(ProxyError::NotInitialized),
            Some(_) => {
                self.implementation = new_implementation;
                Ok(())
            },
        }
    }

    /// Records an upgrade to the code with hash `new_wasm_hash` (the admin
    /// having authorized it); the host's swap of the running code is the
    /// caller's. Refused before initialization.
    pub fn upgrade(&mut self, new_wasm_hash: [u8; 32]) -> (r: Result<(), ProxyError>)
        ensures
            old(self).admin_of() is None ==> r == Err::<(), ProxyError>(ProxyError::NotInitialized)
                && final(self).implementation_of() == old(self).implementation_of(),
            old(self).admin_of() is Some ==> r is Ok && final(self).implementation_of()
                == new_wasm_hash@,
            final(self).admin_of() == old(self).admin_of(),
    {
        self.set_implementation(new_wasm_hash)
    }

    /// Hands the admin role to `new_admin` (the current admin having
    /// authorized it); refused before initialization.
    pub fn set_admin(&mut self, new_admin: &str) -> (r: Result<(), ProxyError>)
        ensures
            old(self).admin_of() is None ==> r == Err::<(), ProxyError>(ProxyError::NotInitialized)
                && final(self).admin_of() is None,
            old(self).admin_of() is Some ==> r is Ok && final(self).admin_of() == Some(new_admin@),
            final(self).implementation_of() == old(self).implementation_of(),
    {
        match &self.admin {
            None => Err(ProxyError::NotInitialized),
            Some(_) => {
                self.admin = Some(String::from_str(new_admin));
                Ok(())
            },
        }
    }
}

} // verus!
