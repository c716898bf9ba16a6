//! The metadata record store: one record per stored blob, keyed by the
//! storage address, with a uniqueness constraint on addresses. The record
//! holds no plaintext filename and no key material.

use vstd::prelude::*;
use vstd::slice::slice_to_vec;
use crate::errors::AppError;

verus! {

/// The only record the server keeps of a blob: its storage address and
/// the sealed filename with the nonce it was sealed under.
#[derive(Clone, Debug, PartialEq)]
pub struct BlobMetadata {
    pub storage_address: Vec<u8>,
    pub filename_cipher: Vec<u8>,
    pub filename_nonce: Vec<u8>,
}

impl BlobMetadata {
    /// Field-for-field equality of the views.
    pub open spec fn like(self, other: BlobMetadata) -> bool {
        &&& self.storage_address@ == other.storage_address@
        &&& self.filename_cipher@ == other.filename_cipher@
        &&& self.filename_nonce@ == other.filename_nonce@
    }

    /// An explicit copy whose fields are byte-for-byte the same.
    pub fn duplicate(&self) -> (r: BlobMetadata)
        ensures
            r.like(*self),
    {
        BlobMetadata {
            storage_address: slice_to_vec(self.storage_address.as_slice()),
            filename_cipher: slice_to_vec(self.filename_cipher.as_slice()),
            filename_nonce: slice_to_vec(self.filename_nonce.as_slice()),
        }
    }
}

/// The first record with the given address, if any.
pub open spec fn spec_find(s: Seq<BlobMetadata>, addr: Seq<u8>) -> Option<BlobMetadata>
    decreases s.len(),
{
    if s.len() == 0 {
        None
    } else if s[0].storage_address@ == addr {
        Some(s[0])
    } else {
        spec_find(s.skip(1), addr)
    }
}

/// Where no record has the address, the search finds none.
proof fn lemma_all_differ_find_none(s: Seq<BlobMetadata>, addr: Seq<u8>)
    requires
        forall|j: int| 0 <= j < s.len() ==> (#[trigger] s[j]).storage_address@ != addr,
    ensures
        spec_find(s, addr) is None,
    decreases s.len(),
{
    if s.len() > 0 {
        assert(forall|j: int| 0 <= j < s.skip(1).len() ==> (#[trigger] s.skip(1)[j]).storage_address@ != addr)
            by {
            assert(forall|j: int| 0 <= j < s.skip(1).len() ==> s.skip(1)[j] == s[j + 1]);
        }
        lemma_all_differ_find_none(s.skip(1), addr);
    }
}

/// Where the search finds none, no record has the address.
proof fn lemma_find_none_all_differ(s: Seq<BlobMetadata>, addr: Seq<u8>)
    requires
        spec_find(s, addr) is None,
    ensures
        forall|j: int| 0 <= j < s.len() ==> (#[trigger] s[j]).storage_address@ != addr,
    decreases s.len(),
{
    if s.len() > 0 {
        lemma_find_none_all_differ(s.skip(1), addr);
        assert(forall|j: int| 1 <= j < s.len() ==> (#[trigger] s[j]).storage_address@ != addr) by {
            assert(forall|j: int| 1 <= j < s.len() ==> s[j] == s.skip(1)[j - 1]);
        }
    }
}

/// An in-memory record store keyed by storage address. Addresses are
/// unique: inserting an existing address is a `Conflict`, and a lookup
/// or deletion of an absent address is `NotFound` - by design the same
/// answer a wrong phrase gets.
#[derive(Clone)]
pub struct MetadataStore {
    pub records: Vec<BlobMetadata>,
}

impl MetadataStore {
    /// No two records share an address.
    pub open spec fn wf(self) -> bool {
        forall|i: int, j: int| 0 <= i < j < self.records@.len()
            ==> (#[trigger] self.records@[i]).storage_address@
                != (#[trigger] self.records@[j]).storage_address@
    }

    /// An empty store.
    pub fn new() -> (s: Self)
        ensures
            s.wf(),
            s.records@.len() == 0,
    {
        MetadataStore { records: Vec::new() }
    }

    /// Looks a record up by address: the record where one has the
    /// address, `NotFound` where none does.
    pub fn find(&self, addr: &[u8]) -> (r: Result<BlobMetadata, AppError>)
        ensures
            match spec_find(self.records@, addr@) {
                Some(m) => r matches Ok(v) && v.like(m),
                None => r == Err::<BlobMetadata, AppError>(AppError::NotFound),
            },
    {
        let ghost all = self.records@;
        let mut i: usize = 0;
        proof {
            assert(all.skip(0) =~= all);
        }
        while i < self.records.len()
            invariant
                i <= self.records@.len(),
                self.records@ == all,
                spec_find(all, addr@) == spec_find(all.skip(i as int), addr@),
            decreases self.records@.len() - i,
        {
            let ghost pre = all.skip(i as int);
            proof {
                assert(pre[0] == all[i as int]);
                assert(pre.skip(1) =~= all.skip(i as int + 1));
            }
            if eq_bytes(self.records[i].storage_address.as_slice(), addr) {
                return Ok(self.records[i].duplicate());
            }
            i = i + 1;
        }
        proof {
            assert(all.skip(all.len() as int) =~= Seq::<BlobMetadata>::empty());
        }
        Err(AppError::NotFound)
    }

    /// Inserts a record: appended where its address is new, `Conflict`
    /// where a record with the address already exists, the store
    /// unchanged.
    pub fn insert(&mut self, meta: BlobMetadata) -> (r: Result<(), AppError>)
        requires
            old(self).wf(),
        ensures
            final(self).wf(),
            match spec_find(old(self).records@, meta.storage_address@) {
                Some(_) => r == Err::<(), AppError>(AppError::Conflict)
                    && final(self).records@ == old(self).records@,
                None => r == Ok::<(), AppError>(())
                    && final(self).records@ == old(self).records@.push(meta),
            },
    {
        match self.find(meta.storage_address.as_slice()) {
            Ok(_) => Err(AppError::Conflict),
            Err(_) => {
                proof {
                    lemma_find_none_all_differ(self.records@, meta.storage_address@);
                }
                self.records.push(meta);
                Ok(())
            },
        }
    }

    /// Deletes the record with the given address: removed where it
    /// exists (and no record with that address remains), `NotFound`
    /// where none does, the store unchanged.
    pub fn delete(&mut self, addr: &[u8]) -> (r: Result<(), AppError>)
        requires
            old(self).wf(),
        ensures
            final(self).wf(),
            match spec_find(old(self).records@, addr@) {
                Some(_) => r == Ok::<(), AppError>(())
                    && (exists|idx: int| 0 <= idx < old(self).records@.len()
                        && (#[trigger] old(self).records@[idx]).storage_address@ == addr@
                        && final(self).records@ == old(self).records@.remove(idx))
                    && spec_find(final(self).records@, addr@) is None,
                None => r == Err::<(), AppError>(AppError::NotFound)
                    && final(self).records@ == old(self).records@,
            },
    {
        let ghost all = self.records@;
        let mut i: usize = 0;
        proof {
            assert(all.skip(0) =~= all);
        }
        while i < self.records.len()
            invariant
                i <= self.records@.len(),
                self.records@ == all,
                all == old(self).records@,
                spec_find(all, addr@) == spec_find(all.skip(i as int), addr@),
                forall|j: int| 0 <= j < i ==> (#[trigger] all[j]).storage_address@ != addr@,
                forall|a: int, b: int| 0 <= a < b < all.len()
                    ==> (#[trigger] all[a]).storage_address@ != (#[trigger] all[b]).storage_address@,
            decreases self.records@.len() - i,
        {
            let ghost pre = all.skip(i as int);
            proof {
                assert(pre[0] == all[i as int]);
                assert(pre.skip(1) =~= all.skip(i as int + 1));
            }
            if eq_bytes(self.records[i].storage_address.as_slice(), addr) {
                let ghost idx = i as int;
                self.records.remove(i);
                proof {
                    assert(self.records@ == all.remove(idx));
                    assert(self.records@ =~= all.subrange(0, idx) + all.subrange(idx + 1, all.len() as int));
                    assert forall|j: int| 0 <= j < self.records@.len()
                        implies (#[trigger] self.records@[j]).storage_address@ != addr@ by {
                        if j < idx {
                            assert(self.records@[j] == all[j]);
                        } else {
                            assert(self.records@[j] == all[j + 1]);
                        }
                    }
                    assert forall|a: int, b: int| 0 <= a < b < self.records@.len()
                        implies (#[trigger] self.records@[a]).storage_address@
                            != (#[trigger] self.records@[b]).storage_address@ by {
                        let a2: int = if a < idx { a } else { a + 1 };
                        let b2: int = if b < idx { b } else { b + 1 };
                        assert(self.records@[a] == all[a2]);
                        assert(self.records@[b] == all[b2]);
                    }
                    lemma_all_differ_find_none(self.records@, addr@);
                    assert(exists|x: int| 0 <= x < all.len()
                        && (#[trigger] all[x]).storage_address@ == addr@
                        && self.records@ == all.remove(x)) by {
                        assert(0 <= idx < all.len()
                            && (#[trigger] all[idx]).storage_address@ == addr@
                            && self.records@ == all.remove(idx));
                    }
                }
                return Ok(());
            }
            i = i + 1;
        }
        proof {
            assert(all.skip(all.len() as int) =~= Seq::<BlobMetadata>::empty());
        }
        Err(AppError::NotFound)
    }
}

/// Byte-for-byte equality of two slices.
pub fn eq_bytes(a: &[u8], b: &[u8]) -> (r: bool)
    ensures
        r == (a@ == b@),
{
    if a.len() != b.len() {
        proof {
            assert(a@ != b@);
        }
        return false;
    }
    let mut i: usize = 0;
    while i < a.len()
        invariant
            a@.len() == b@.len(),
            i <= a@.len(),
            forall|j: int| 0 <= j < i ==> a@[j] == b@[j],
        decreases a@.len() - i,
    {
        if a[i] != b[i] {
            proof {
                assert(a@ != b@);
            }
            return false;
        }
        i = i + 1;
    }
    proof {
        assert(a@ =~= b@);
    }
    true
}

/// What a running service carries: the record store.
#[derive(Clone)]
pub struct AppState {
    pub db: MetadataStore,
}

/// The body of a retrieval or deletion request: the secret phrase.
pub struct AccessInfo {
    pub mnemonic: String,
}

} // verus!
