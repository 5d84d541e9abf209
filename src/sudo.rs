//! Transaction admission that lets in only transactions signed by the sudo key.

use vstd::prelude::*;
use vstd::string::StringSliceAdditionalSpecFns;
use crate::bytes::{append_bytes, bytes_eq, copy_bytes};
use crate::key::{item_prefix, item_prefix_spec};
use crate::store::{lookup, opt_bytes, MemoryStore};

verus! {

/// Why a transaction is refused for good.
#[derive(Clone, Copy, Debug, PartialEq, Eq)]
pub enum InvalidTransaction {
    BadSigner,
}

/// Why a transaction cannot be judged now.
#[derive(Clone, Copy, Debug, PartialEq, Eq)]
pub enum UnknownTransaction {
    CannotLookup,
}

#[derive(Clone, Copy, Debug, PartialEq, Eq)]
pub enum TransactionValidityError {
    Invalid(InvalidTransaction),
    Unknown(UnknownTransaction),
}

/// What the pool learns of a valid transaction.
#[derive(Debug)]
pub struct ValidTransaction {
    pub priority: u64,
    pub requires: Vec<Vec<u8>>,
    pub provides: Vec<Vec<u8>>,
    pub longevity: u64,
    pub propagate: bool,
}

/// Admits a signed transaction only if its signer is the sudo key, so that
/// nobody else can fill the transaction pool of a chain that has no fees yet.
#[derive(Clone, Copy, Debug, PartialEq, Eq)]
pub struct CheckOnlySudoAccount;

/// Item name of the sudo key within the sudo module.
pub const SUDO_KEY_ITEM: &'static str = "Key";

/// The store key of the sudo key of the sudo module named `module`.
pub open spec fn sudo_key_spec(module: Seq<u8>) -> Seq<u8> {
    item_prefix_spec(module, SUDO_KEY_ITEM.spec_bytes())
}

/// The encoded sudo account stored by the sudo module named `module`, if any.
pub fn stored_sudo_key(store: &MemoryStore, module: &[u8]) -> (r: Option<Vec<u8>>)
    requires
        store.wf(),
    ensures
        opt_bytes(r) == lookup(store@, sudo_key_spec(module@)),
{
    let k = item_prefix(module, SUDO_KEY_ITEM.as_bytes());
    store.get(k.as_slice())
}

/// The name under which the check is known to the transaction format.
pub const CHECK_ONLY_SUDO_ACCOUNT_IDENTIFIER: &'static str = "CheckOnlySudoAccount";

impl Default for CheckOnlySudoAccount {
    fn default() -> (r: Self)
        ensures
            r == CheckOnlySudoAccount,
    {
        CheckOnlySudoAccount
    }
}

impl CheckOnlySudoAccount {
    /// Creates the check.
    pub fn new() -> (r: Self)
        ensures
            r == CheckOnlySudoAccount,
    {
        CheckOnlySudoAccount
    }

    /// Judges a transaction from its signer (the encoded account, `None` if it is
    /// not signed), the stored sudo key (`None` if there is none), the hash of
    /// the call and the total weight of the call. A valid one gets the call's
    /// weight as priority and provides the signer followed by the call hash.
    pub fn validate(
        &self,
        signer: Option<&[u8]>,
        sudo_key: Option<&[u8]>,
        call_hash: &[u8],
        total_ref_time: u64,
    ) -> (r: Result<ValidTransaction, TransactionValidityError>)
        ensures
            signer is None ==> r == Err::<ValidTransaction, TransactionValidityError>(
                TransactionValidityError::Invalid(InvalidTransaction::BadSigner),
            ),
            signer is Some && sudo_key is None ==> r == Err::<
                ValidTransaction,
                TransactionValidityError,
            >(TransactionValidityError::Unknown(UnknownTransaction::CannotLookup)),
            signer is Some && sudo_key is Some && signer.unwrap()@ != sudo_key.unwrap()@ ==> r
                == Err::<ValidTransaction, TransactionValidityError>(
                TransactionValidityError::Invalid(InvalidTransaction::BadSigner),
            ),
            signer is Some && sudo_key is Some && signer.unwrap()@ == sudo_key.unwrap()@ ==> match r {
                Ok(v) => {
                    &&& v.priority == total_ref_time
                    &&& v.requires@.len() == 0
                    &&& v.provides@.len() == 1
                    &&& v.provides@[0]@ == signer.unwrap()@ + call_hash@
                    &&& v.longevity == u64::MAX
                    &&& v.propagate
                },
                Err(_) => false,
            },
    {
        let who = match signer {
            Some(w) => w,
            None => return Err(TransactionValidityError::Invalid(InvalidTransaction::BadSigner)),
        };
        let key = match sudo_key {
            Some(k) => k,
            None => return Err(TransactionValidityError::Unknown(UnknownTransaction::CannotLookup)),
        };
        if !bytes_eq(who, key) {
            return Err(TransactionValidityError::Invalid(InvalidTransaction::BadSigner));
        }
        let mut tag = copy_bytes(who);
        append_bytes(&mut tag, call_hash);
        let mut provides: Vec<Vec<u8>> = Vec::new();
        provides.push(tag);
        Ok(
            ValidTransaction {
                priority: total_ref_time,
                requires: Vec::new(),
                provides,
                longevity: u64::MAX,
                propagate: true,
            },
        )
    }

    /// Judges a transaction against the sudo key that the sudo module named
    /// `module` holds in `store`.
    pub fn validate_in_store(
        &self,
        store: &MemoryStore,
        module: &[u8],
        signer: Option<&[u8]>,
        call_hash: &[u8],
        total_ref_time: u64,
    ) -> (r: Result<ValidTransaction, TransactionValidityError>)
        requires
            store.wf(),
        ensures
            signer is None ==> r == Err::<ValidTransaction, TransactionValidityError>(
                TransactionValidityError::Invalid(InvalidTransaction::BadSigner),
            ),
            signer is Some && !store@.contains_key(sudo_key_spec(module@)) ==> r == Err::<
                ValidTransaction,
                TransactionValidityError,
            >(TransactionValidityError::Unknown(UnknownTransaction::CannotLookup)),
            signer is Some && store@.contains_key(sudo_key_spec(module@)) && signer.unwrap()@
                != store@[sudo_key_spec(module@)] ==> r == Err::<
                ValidTransaction,
                TransactionValidityError,
            >(TransactionValidityError::Invalid(InvalidTransaction::BadSigner)),
            signer is Some && store@.contains_key(sudo_key_spec(module@)) && signer.unwrap()@
                == store@[sudo_key_spec(module@)] ==> match r {
                Ok(v) => {
                    &&& v.priority == total_ref_time
                    &&& v.requires@.len() == 0
                    &&& v.provides@.len() == 1
                    &&& v.provides@[0]@ == signer.unwrap()@ + call_hash@
                    &&& v.longevity == u64::MAX
                    &&& v.propagate
                },
                Err(_) => false,
            },
    {
        let key = stored_sudo_key(store, module);
        match key {
            Some(k) => self.validate(signer, Some(k.as_slice()), call_hash, total_ref_time),
            None => self.validate(signer, None, call_hash, total_ref_time),
        }
    }
}

} // verus!
