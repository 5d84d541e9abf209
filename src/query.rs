//! Absence policies: how the raw bytes at a store key, or their absence, are
//! seen by the caller of a read.

use vstd::prelude::*;
use crate::codec::Codec;
use crate::store::lookup;

verus! {

/// What a read returns when the key holds nothing.
#[derive(Clone, Copy, Debug, PartialEq, Eq)]
pub enum QueryKind<V, E> {
    /// Absence is reported as `Queried::Missing`.
    OptionQuery,
    /// Absence reads as the given default value.
    ValueQuery(V),
    /// Absence reads as the given error value.
    ResultQuery(E),
}

/// The outcome of a read.
#[derive(Clone, Copy, Debug, PartialEq, Eq)]
pub enum Queried<V, E> {
    Missing,
    Found(V),
    Failed(E),
}

/// The stored bytes do not decode as a value of the item's type: the store is
/// corrupt or holds another schema.
#[derive(Clone, Copy, Debug, PartialEq, Eq)]
pub enum StorageError {
    Undecodable,
}

impl<V: Codec, E: Copy> QueryKind<V, E> {
    /// The encoded value that absence reads as, for metadata: the default's
    /// encoding under `ValueQuery`, nothing otherwise.
    pub fn default_bytes(&self) -> (r: Option<Vec<u8>>)
        ensures
            match *self {
                QueryKind::ValueQuery(d) => r is Some && r.unwrap()@ == d.encode_spec(),
                _ => r is None,
            },
    {
        match self {
            QueryKind::ValueQuery(d) => Some(d.encode()),
            _ => None,
        }
    }
}

/// The result of a read that found `raw` at the key.
pub open spec fn resolve_spec<V: Codec, E>(raw: Option<Seq<u8>>, kind: QueryKind<V, E>) -> Result<
    Queried<V, E>,
    StorageError,
> {
    match raw {
        Some(b) => match V::decode_spec(b) {
            Some(v) => Ok(Queried::Found(v)),
            None => Err(StorageError::Undecodable),
        },
        None => match kind {
            QueryKind::OptionQuery => Ok(Queried::Missing),
            QueryKind::ValueQuery(d) => Ok(Queried::Found(d)),
            QueryKind::ResultQuery(e) => Ok(Queried::Failed(e)),
        },
    }
}

/// Resolves the raw bytes read at a key according to the absence policy.
pub fn resolve<V: Codec, E: Copy>(raw: Option<Vec<u8>>, kind: &QueryKind<V, E>) -> (r: Result<
    Queried<V, E>,
    StorageError,
>)
    ensures
        r == resolve_spec(
            match raw {
                Some(b) => Some(b@),
                None => None,
            },
            *kind,
        ),
{
    match raw {
        Some(b) => match V::decode(b.as_slice()) {
            Some(v) => Ok(Queried::Found(v)),
            None => Err(StorageError::Undecodable),
        },
        None => match kind {
            QueryKind::OptionQuery => Ok(Queried::Missing),
            QueryKind::ValueQuery(d) => Ok(Queried::Found(*d)),
            QueryKind::ResultQuery(e) => Ok(Queried::Failed(*e)),
        },
    }
}

/// A value written at a key reads back as itself, whatever the absence policy.
pub proof fn lemma_written_reads_back<V: Codec, E>(
    m: Map<Seq<u8>, Seq<u8>>,
    key: Seq<u8>,
    v: V,
    kind: QueryKind<V, E>,
)
    ensures
        resolve_spec(lookup(m.insert(key, v.encode_spec()), key), kind) == Ok::<
            Queried<V, E>,
            StorageError,
        >(Queried::Found(v)),
{
    V::lemma_round_trip(v);
}

/// Absence reads as the policy says: nothing, the default, or the error.
pub proof fn lemma_absent_reads_policy<V: Codec, E>(
    m: Map<Seq<u8>, Seq<u8>>,
    key: Seq<u8>,
    kind: QueryKind<V, E>,
)
    requires
        !m.contains_key(key),
    ensures
        resolve_spec(lookup(m, key), kind) == match kind {
            QueryKind::OptionQuery => Ok::<Queried<V, E>, StorageError>(Queried::Missing),
            QueryKind::ValueQuery(d) => Ok(Queried::Found(d)),
            QueryKind::ResultQuery(e) => Ok(Queried::Failed(e)),
        },
{
}

} // verus!
