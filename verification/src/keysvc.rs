//! Master-key backends.  A key service wraps and unwraps the document data
//! key for one master-key entry; backends are network or keyring clients
//! supplied by the caller, and the library ships a local backend that wraps
//! with an in-memory master key through the same cipher as the rest of the
//! engine.

use vstd::prelude::*;
use crate::cipher::{KEY_LEN, NONCE_LEN, open_of, aead_seal, aead_open, random_bytes};
use crate::bytes::{push_all, push_range, bytes_eq};
use crate::tree::clone_bytes;
use crate::error::Error;

verus! {

/// The kind of backend that guards one master-key entry.
#[derive(Clone, Copy, Debug, PartialEq, Eq, Structural)]
pub enum KeyKind {
    Kms,
    GcpKms,
    Vault,
    Pgp,
    Age,
    Local,
}

/// One master-key entry of a key group: which backend, which key of that
/// backend, the wrapped data-key material, and a creation timestamp.
#[derive(Debug, PartialEq)]
pub struct MasterKey {
    pub kind: KeyKind,
    pub id: Vec<u8>,
    pub payload: Vec<u8>,
    pub created_at: Vec<u8>,
}

/// Ghost master-key entry.
pub struct MasterKeyV {
    pub kind: KeyKind,
    pub id: Seq<u8>,
    pub payload: Seq<u8>,
    pub created_at: Seq<u8>,
}

impl View for MasterKey {
    type V = MasterKeyV;

    open spec fn view(&self) -> MasterKeyV {
        MasterKeyV {
            kind: self.kind,
            id: self.id@,
            payload: self.payload@,
            created_at: self.created_at@,
        }
    }
}

impl MasterKey {
    /// Copies an entry.
    pub fn duplicate(&self) -> (r: MasterKey)
        ensures
            r@ == self@,
    {
        MasterKey {
            kind: self.kind,
            id: clone_bytes(&self.id),
            payload: clone_bytes(&self.payload),
            created_at: clone_bytes(&self.created_at),
        }
    }
}

/// A capability that wraps and unwraps data keys against master-key
/// entries.  `unwrap_model` is the backend's own account of what an entry
/// unwraps to; a call that returns a key returns the modelled one, and a
/// freshly wrapped entry is modelled to unwrap to what was wrapped.
/// Nothing promises that a call succeeds: a backend is a fallible outside
/// collaborator.
pub trait KeyService {
    spec fn unwrap_model(&self, entry: MasterKeyV) -> Option<Seq<u8>>;

    /// Wraps `key` for the recipient master key `id` of backend `kind`.
    fn wrap_key(&self, key: &Vec<u8>, kind: KeyKind, id: &Vec<u8>) -> (r: Result<
        MasterKey,
        Error,
    >)
        requires
            key@.len() == KEY_LEN,
        ensures
            r matches Ok(e) ==> e@.kind == kind && e@.id == id@ && self.unwrap_model(e@)
                == Some(key@),
    ;

    /// Attempts to unwrap one entry.
    fn unwrap_key(&self, entry: &MasterKey) -> (r: Result<Vec<u8>, Error>)
        ensures
            r matches Ok(k) ==> self.unwrap_model(entry@) == Some(k@),
    ;
}

/// One named master key held in memory by the local backend.
pub struct LocalMaster {
    pub id: Vec<u8>,
    pub key: Vec<u8>,
}

/// The local backend: wraps the data key with named in-memory master keys,
/// using the same authenticated cipher as the value encryption.
pub struct LocalKeyService {
    pub masters: Vec<LocalMaster>,
}

/// The master key the local backend holds under `id`: the first entry with
/// that name.
pub open spec fn lookup_spec(ms: Seq<LocalMaster>, id: Seq<u8>) -> Option<Seq<u8>>
    decreases ms.len(),
{
    if ms.len() == 0 {
        None
    } else if ms[0].id@ == id {
        Some(ms[0].key@)
    } else {
        lookup_spec(ms.skip(1), id)
    }
}

/// What a local entry unwraps to: its payload is a nonce followed by the
/// sealed data key under the named master key.
pub open spec fn local_unwrap_model(ms: Seq<LocalMaster>, e: MasterKeyV) -> Option<Seq<u8>> {
    if e.kind != KeyKind::Local {
        None
    } else {
        match lookup_spec(ms, e.id) {
            None => None,
            Some(mk) => if mk.len() == KEY_LEN && e.payload.len() >= NONCE_LEN {
                open_of(
                    mk,
                    e.payload.take(NONCE_LEN as int),
                    Seq::empty(),
                    e.payload.skip(NONCE_LEN as int),
                )
            } else {
                None
            },
        }
    }
}

impl LocalKeyService {
    fn lookup(&self, id: &Vec<u8>) -> (r: Option<Vec<u8>>)
        ensures
            r matches Some(k) ==> lookup_spec(self.masters@, id@) == Some(k@),
            r is None ==> lookup_spec(self.masters@, id@) is None,
    {
        let mut i: usize = 0;
        proof {
            assert(self.masters@.skip(0) =~= self.masters@);
        }
        while i < self.masters.len()
            invariant
                0 <= i <= self.masters@.len(),
                lookup_spec(self.masters@, id@) == lookup_spec(
                    self.masters@.skip(i as int),
                    id@,
                ),
            decreases self.masters@.len() - i,
        {
            proof {
                assert(self.masters@.skip(i as int)[0] == self.masters@[i as int]);
                assert(self.masters@.skip(i as int).skip(1) =~= self.masters@.skip(i + 1));
            }
            if bytes_eq(&self.masters[i].id, id) {
                return Some(clone_bytes(&self.masters[i].key));
            }
            i += 1;
        }
        None
    }

    /// Wraps a data key under the named local master key.  Succeeds exactly
    /// when that name is held with a master key of the right length, and the
    /// entry then unwraps to the wrapped key.
    pub fn wrap_local(&self, key: &Vec<u8>, id: &Vec<u8>) -> (r: Result<MasterKey, Error>)
        requires
            key@.len() == KEY_LEN,
        ensures
            (r is Ok) == (lookup_spec(self.masters@, id@) matches Some(mk) && mk.len()
                == KEY_LEN),
            r matches Ok(e) ==> e@.kind == KeyKind::Local && e@.id == id@
                && local_unwrap_model(self.masters@, e@) == Some(key@),
            r matches Err(er) ==> er == Error::KeyRecoveryError,
    {
        let mk = match self.lookup(id) {
            Some(mk) => mk,
            None => {
                return Err(Error::KeyRecoveryError);
            },
        };
        if mk.len() != KEY_LEN {
            return Err(Error::KeyRecoveryError);
        }
        let nonce = random_bytes(NONCE_LEN);
        let empty: Vec<u8> = Vec::new();
        proof {
            assert(empty@ =~= Seq::<u8>::empty());
        }
        let sealed = aead_seal(&mk, &nonce, &empty, key);
        let mut payload = nonce;
        push_all(&mut payload, &sealed);
        let e = MasterKey {
            kind: KeyKind::Local,
            id: clone_bytes(id),
            payload,
            created_at: Vec::new(),
        };
        proof {
            assert(e@.payload.take(NONCE_LEN as int) =~= e@.payload.subrange(
                0,
                NONCE_LEN as int,
            ));
            assert(e@.payload.take(NONCE_LEN as int) =~= sealed@.subrange(0, 0).add(
                e@.payload.subrange(0, NONCE_LEN as int),
            ));
        }
        let ghost nv = e@.payload.take(NONCE_LEN as int);
        let ghost cv = e@.payload.skip(NONCE_LEN as int);
        proof {
            assert(nv =~= nonce@);
            assert(cv =~= sealed@);
        }
        Ok(e)
    }

    /// Unwraps a local entry.  Succeeds exactly where the backend's model
    /// does, and then returns the modelled key.
    pub fn unwrap_local(&self, entry: &MasterKey) -> (r: Result<Vec<u8>, Error>)
        ensures
            (r is Ok) == (local_unwrap_model(self.masters@, entry@) is Some),
            r matches Ok(k) ==> local_unwrap_model(self.masters@, entry@) == Some(k@),
            r matches Err(er) ==> er == Error::KeyRecoveryError,
    {
        if !matches!(entry.kind, KeyKind::Local) {
            return Err(Error::KeyRecoveryError);
        }
        let mk = match self.lookup(&entry.id) {
            Some(mk) => mk,
            None => {
                return Err(Error::KeyRecoveryError);
            },
        };
        if mk.len() != KEY_LEN || entry.payload.len() < NONCE_LEN {
            return Err(Error::KeyRecoveryError);
        }
        let mut nonce: Vec<u8> = Vec::new();
        push_range(&mut nonce, &entry.payload, 0, NONCE_LEN);
        let mut ct: Vec<u8> = Vec::new();
        push_range(&mut ct, &entry.payload, NONCE_LEN, entry.payload.len());
        let empty: Vec<u8> = Vec::new();
        proof {
            assert(empty@ =~= Seq::<u8>::empty());
            assert(nonce@ =~= entry@.payload.take(NONCE_LEN as int));
            assert(ct@ =~= entry@.payload.skip(NONCE_LEN as int));
        }
        match aead_open(&mk, &nonce, &empty, &ct) {
            Some(k) => Ok(k),
            None => Err(Error::KeyRecoveryError),
        }
    }
}

impl KeyService for LocalKeyService {
    open spec fn unwrap_model(&self, entry: MasterKeyV) -> Option<Seq<u8>> {
        local_unwrap_model(self.masters@, entry)
    }

    fn wrap_key(&self, key: &Vec<u8>, kind: KeyKind, id: &Vec<u8>) -> (r: Result<
        MasterKey,
        Error,
    >) {
        if matches!(kind, KeyKind::Local) {
            self.wrap_local(key, id)
        } else {
            Err(Error::KeyRecoveryError)
        }
    }

    fn unwrap_key(&self, entry: &MasterKey) -> (r: Result<Vec<u8>, Error>) {
        self.unwrap_local(entry)
    }
}

} // verus!
