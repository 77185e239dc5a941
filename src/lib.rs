pub mod file;
pub mod hashing;
pub mod laws;

use vstd::prelude::*;

use crate::file::{
    fresh_file, has_signed, lemma_assign_wf, lemma_delete_wf, lemma_sign_wf, signer_position,
    AccountId, FileId, FileStruct, FileView, H256,
};
use crate::hashing::{blake2_128, blake2_128_of, encode_bytes32, encode_u64, u64_le_bytes};

verus! {

broadcast use vstd::array::group_array_axioms;

/// Why an operation on the store was rejected.
#[derive(Clone, Copy, PartialEq, Eq, Debug, Structural)]
pub enum Error {
    /// The caller is not a signer of the file.
    AddressNotSigner,
    /// The caller is not the owner of the file.
    AddressNotOwner,
    /// No file with the given id is stored.
    FileNotFound,
    /// A file cannot be created with an empty tag.
    EmptyTag,
    /// A file with the chosen id is already stored.
    IdAlreadyExists,
    /// The account to remove is not a signer of the file.
    SignerNotFound,
}

/// A notification of a successful change to the store.
#[derive(Clone, Copy, PartialEq, Eq, Debug)]
pub enum Event {
    /// `(owner, file, signer)`
    SignerAssigned(AccountId, FileId, AccountId),
    /// `(owner, file)`
    FileCreated(AccountId, FileId),
    /// `(owner, file, signer)`
    SignerDeleted(AccountId, FileId, AccountId),
    /// `(signer, file)`
    FileSigned(AccountId, FileId),
}

/// A source of randomness supplied by the host, used to draw file ids.
pub trait Randomness {
    /// A random value derived from `subject`; the same subject may give different values
    /// in different executions.
    fn random(&self, subject: &[u8]) -> H256;
}

/// The nonce that follows `n`; it wraps around after the largest value.
pub open spec fn next_nonce(n: u64) -> u64 {
    if n == u64::MAX {
        0
    } else {
        (n + 1) as u64
    }
}

/// The registry of files, keyed by id, with the nonce used to draw fresh ids and the
/// log of events emitted so far.
pub struct Module<R> {
    files: Vec<FileStruct>,
    nonce: u64,
    events: Vec<Event>,
    randomness: R,
    store: Ghost<Map<FileId, FileView>>,
}

impl<R: Randomness> Module<R> {
    /// The stored files, by id.
    pub closed spec fn files(&self) -> Map<FileId, FileView> {
        self.store@
    }

    /// The nonce that the next drawn id will use.
    pub closed spec fn nonce(&self) -> u64 {
        self.nonce
    }

    /// The events emitted so far, oldest first.
    pub closed spec fn events(&self) -> Seq<Event> {
        self.events@
    }

    /// The files vector holds exactly the stored files, one per id, each well formed.
    pub closed spec fn wf(&self) -> bool {
        store_wf(self.files@, self.store@)
    }

    /// An empty store that draws ids from `randomness`.
    pub fn new(randomness: R) -> (r: Self)
        ensures
            r.wf(),
            r.files() == Map::<FileId, FileView>::empty(),
            r.nonce() == 0,
            r.events() == Seq::<Event>::empty(),
    {
        Module {
            files: Vec::new(),
            nonce: 0,
            events: Vec::new(),
            randomness,
            store: Ghost(Map::empty()),
        }
    }

    /// Position of the file with id `id` in the files vector.
    fn find_file(&self, id: &FileId) -> (r: Option<usize>)
        requires
            self.wf(),
        ensures
            r is None <==> !self.files().contains_key(*id),
            r matches Some(i) ==> i < self.files@.len() && self.files@[i as int].id == *id,
    {
        let mut i: usize = 0;
        while i < self.files.len()
            invariant
                self.wf(),
                i <= self.files@.len(),
                forall|j: int| 0 <= j < i ==> (#[trigger] self.files@[j]).id != *id,
            decreases self.files@.len() - i,
        {
            if same_id(&self.files[i].id, id) {
                return Some(i);
            }
            i += 1;
        }
        None
    }

    /// Hands out the current nonce, encoded, and advances it by one.
    fn get_and_increment_nonce(&mut self) -> (r: Vec<u8>)
        requires
            old(self).wf(),
        ensures
            final(self).wf(),
            r@ == u64_le_bytes(old(self).nonce()),
            final(self).nonce() == next_nonce(old(self).nonce()),
            final(self).files() == old(self).files(),
            final(self).events() == old(self).events(),
    {
        let nonce = self.nonce;
        self.nonce = nonce.wrapping_add(1);
        assert(self.files@ == old(self).files@ && self.store@ == old(self).store@);
        encode_u64(nonce)
    }

    /// Draws a fresh file id from the nonce and the randomness source.
    fn get_random_id(&mut self) -> (r: FileId)
        requires
            old(self).wf(),
        ensures
            final(self).wf(),
            final(self).nonce() == next_nonce(old(self).nonce()),
            final(self).files() == old(self).files(),
            final(self).events() == old(self).events(),
            exists|seed: H256| r@ == blake2_128_of(seed.0@),
    {
        let subject = self.get_and_increment_nonce();
        let seed = self.randomness.random(subject.as_slice());
        let id = file_id_from_random(&seed);
        assert(id@ == blake2_128_of(seed.0@));
        id
    }

    /// Creates a file owned by `caller` whose single version carries `tag` and `filehash`,
    /// under `file_id_option` if given and under a freshly drawn id otherwise.
    /// Returns the id of the new file.
    pub fn create_new_file(
        &mut self,
        caller: AccountId,
        tag: Vec<u8>,
        filehash: H256,
        file_id_option: Option<FileId>,
    ) -> (r: Result<FileId, Error>)
        requires
            old(self).wf(),
        ensures
            final(self).wf(),
            tag@.len() == 0 ==> r == Err::<FileId, Error>(Error::EmptyTag),
            tag@.len() > 0 ==> r != Err::<FileId, Error>(Error::EmptyTag),
            r is Err ==> r == Err::<FileId, Error>(Error::EmptyTag) || r == Err::<FileId, Error>(
                Error::IdAlreadyExists,
            ),
            tag@.len() > 0 ==> (file_id_option matches Some(id) ==> r == if old(
                self,
            ).files().contains_key(id) {
                Err::<FileId, Error>(Error::IdAlreadyExists)
            } else {
                Ok::<FileId, Error>(id)
            }),
            r matches Ok(id) ==> {
                &&& !old(self).files().contains_key(id)
                &&& final(self).files() == old(self).files().insert(
                    id,
                    fresh_file(caller, id, tag@, filehash),
                )
                &&& final(self).events() == old(self).events().push(Event::FileCreated(caller, id))
            },
            r is Err ==> {
                &&& final(self).files() == old(self).files()
                &&& final(self).events() == old(self).events()
            },
            (tag@.len() == 0 || file_id_option is Some) && r is Err ==> *final(self) == *old(self),
            tag@.len() == 0 || file_id_option is Some ==> final(self).nonce() == old(self).nonce(),
            tag@.len() > 0 && file_id_option is None ==> final(self).nonce() == next_nonce(
                old(self).nonce(),
            ),
            file_id_option is None ==> (r matches Ok(id) ==> exists|seed: H256|
                id@ == blake2_128_of(seed.0@)),
    {
        if tag.len() == 0 {
            return Err(Error::EmptyTag);
        }
        let file_id = match file_id_option {
            Some(id) => id,
            None => self.get_random_id(),
        };
        if self.find_file(&file_id).is_some() {
            return Err(Error::IdAlreadyExists);
        }
        let ghost before = self.files@;
        let ghost before_store = self.store@;
        let ghost new_view = fresh_file(caller, file_id, tag@, filehash);
        let new_file = FileStruct::new(caller, file_id, tag, &filehash);
        self.files.push(new_file);
        self.store = Ghost(self.store@.insert(file_id, new_view));
        proof {
            assert(new_view.wf());
            let n = self.files@.len() - 1;
            assert forall|i: int| 0 <= i < n implies self.files@[i] == before[i] && before[i].id
                != file_id by {
                assert(before_store.contains_key(before[i].id));
            }
            assert forall|i: int|
                0 <= i < self.files@.len() implies #[trigger] self.store@.contains_key(
                self.files@[i].id,
            ) && self.store@[self.files@[i].id] == self.files@[i]@ by {
                if i < n {
                    assert(self.files@[i] == before[i]);
                    assert(before_store.contains_key(before[i].id));
                }
            }
            assert forall|id: FileId| #[trigger] self.store@.contains_key(id) implies exists|i: int|
                0 <= i < self.files@.len() && (#[trigger] self.files@[i]).id == id by {
                if id == file_id {
                    assert(self.files@[n].id == id);
                } else {
                    assert(self.store@.contains_key(id));
                    let i = choose|i: int| 0 <= i < before.len() && (#[trigger] before[i]).id == id;
                    assert(self.files@[i] == before[i]);
                }
            }
            assert forall|i: int, j: int|
                0 <= i < self.files@.len() && 0 <= j < self.files@.len() && i != j implies (
                #[trigger] self.files@[i]).id != (#[trigger] self.files@[j]).id by {
                if i < n && j < n {
                    assert(self.files@[i] == before[i] && self.files@[j] == before[j]);
                }
            }
            assert forall|id: FileId| #[trigger]
                self.store@.contains_key(id) implies self.store@[id].wf() && self.store@[id].id == id by {
                if id != file_id {
                    assert(before_store.contains_key(id));
                }
            }
        }
        self.commit_event(Event::FileCreated(caller, file_id));
        Ok(file_id)
    }

    /// Lets the owner `caller` make `signer` a signer of the file `id`; assigning a signer
    /// that is already there changes nothing.
    pub fn assign_signer(&mut self, caller: AccountId, id: FileId, signer: AccountId) -> (r: Result<
        (),
        Error,
    >)
        requires
            old(self).wf(),
        ensures
            final(self).wf(),
            !old(self).files().contains_key(id) ==> r == Err::<(), Error>(Error::FileNotFound),
            old(self).files().contains_key(id) && old(self).files()[id].owner != caller ==> r
                == Err::<(), Error>(Error::AddressNotOwner),
            r is Ok <==> old(self).files().contains_key(id) && old(self).files()[id].owner == caller,
            r is Err ==> *final(self) == *old(self),
            r is Ok ==> {
                &&& final(self).files() == old(self).files().insert(
                    id,
                    old(self).files()[id].assign(signer),
                )
                &&& final(self).events() == old(self).events().push(
                    Event::SignerAssigned(caller, id, signer),
                )
                &&& final(self).nonce() == old(self).nonce()
            },
    {
        let index = match self.find_file(&id) {
            None => return Err(Error::FileNotFound),
            Some(i) => i,
        };
        if self.files[index].owner != caller {
            return Err(Error::AddressNotOwner);
        }
        proof {
            lemma_assign_wf(self.files@[index as int]@, signer);
        }
        self.files[index].assign_signer_to_file(signer);
        proof {
            lemma_replace_file(old(self).files@, old(self).store@, self.files@, index as int);
        }
        self.store = Ghost(self.store@.insert(id, self.files@[index as int]@));
        self.commit_event(Event::SignerAssigned(caller, id, signer));
        Ok(())
    }

    /// Lets the owner `caller` remove `signer` from the signers of the file `id`; fails if
    /// `signer` is not one of them.
    pub fn delete_signer(&mut self, caller: AccountId, id: FileId, signer: AccountId) -> (r: Result<
        (),
        Error,
    >)
        requires
            old(self).wf(),
        ensures
            final(self).wf(),
            !old(self).files().contains_key(id) ==> r == Err::<(), Error>(Error::FileNotFound),
            old(self).files().contains_key(id) && old(self).files()[id].owner != caller ==> r
                == Err::<(), Error>(Error::AddressNotOwner),
            old(self).files().contains_key(id) && old(self).files()[id].owner == caller
                && !old(self).files()[id].signers.contains(signer) ==> r == Err::<(), Error>(
                Error::SignerNotFound,
            ),
            r is Ok <==> old(self).files().contains_key(id) && old(self).files()[id].owner == caller
                && old(self).files()[id].signers.contains(signer),
            r is Err ==> *final(self) == *old(self),
            r is Ok ==> {
                &&& final(self).files() == old(self).files().insert(
                    id,
                    old(self).files()[id].delete(signer),
                )
                &&& final(self).events() == old(self).events().push(
                    Event::SignerDeleted(caller, id, signer),
                )
                &&& final(self).nonce() == old(self).nonce()
            },
    {
        let index = match self.find_file(&id) {
            None => return Err(Error::FileNotFound),
            Some(i) => i,
        };
        if self.files[index].owner != caller {
            return Err(Error::AddressNotOwner);
        }
        if signer_position(&self.files[index].signers, signer).is_none() {
            return Err(Error::SignerNotFound);
        }
        let _ = self.files[index].delete_signer_from_file(signer);
        proof {
            lemma_delete_wf(old(self).files@[index as int]@, signer);
            lemma_replace_file(old(self).files@, old(self).store@, self.files@, index as int);
        }
        self.store = Ghost(self.store@.insert(id, self.files@[index as int]@));
        self.commit_event(Event::SignerDeleted(caller, id, signer));
        Ok(())
    }

    /// Lets the signer `caller` sign the latest version of the file `id`; signing again
    /// changes nothing.
    pub fn sign_latest_version(&mut self, caller: AccountId, id: FileId) -> (r: Result<(), Error>)
        requires
            old(self).wf(),
        ensures
            final(self).wf(),
            !old(self).files().contains_key(id) ==> r == Err::<(), Error>(Error::FileNotFound),
            old(self).files().contains_key(id) && !old(self).files()[id].signers.contains(caller)
                ==> r == Err::<(), Error>(Error::AddressNotSigner),
            r is Ok <==> old(self).files().contains_key(id) && old(self).files()[id].signers.contains(
                caller,
            ),
            r is Err ==> *final(self) == *old(self),
            r is Ok ==> {
                &&& final(self).files() == old(self).files().insert(
                    id,
                    old(self).files()[id].sign_latest(caller),
                )
                &&& final(self).events() == old(self).events().push(Event::FileSigned(caller, id))
                &&& final(self).nonce() == old(self).nonce()
            },
    {
        let index = match self.find_file(&id) {
            None => return Err(Error::FileNotFound),
            Some(i) => i,
        };
        if signer_position(&self.files[index].signers, caller).is_none() {
            return Err(Error::AddressNotSigner);
        }
        proof {
            lemma_sign_wf(self.files@[index as int]@, caller);
        }
        self.files[index].sign_latest_version(caller);
        proof {
            lemma_replace_file(old(self).files@, old(self).store@, self.files@, index as int);
        }
        self.store = Ghost(self.store@.insert(id, self.files@[index as int]@));
        self.commit_event(Event::FileSigned(caller, id));
        Ok(())
    }

    /// The most recent event, if any was emitted.
    pub fn last_event(&self) -> (r: Option<Event>)
        ensures
            self.events().len() == 0 ==> r is None,
            self.events().len() > 0 ==> r == Some(self.events().last()),
    {
        if self.events.len() == 0 {
            None
        } else {
            Some(self.events[self.events.len() - 1])
        }
    }

    /// Appends `event` to the log.
    fn commit_event(&mut self, event: Event)
        requires
            old(self).wf(),
        ensures
            final(self).wf(),
            final(self).files() == old(self).files(),
            final(self).nonce() == old(self).nonce(),
            final(self).events() == old(self).events().push(event),
    {
        self.events.push(event);
        assert(self.files@ == old(self).files@ && self.store@ == old(self).store@);
    }

    /// Whether `address` is currently a signer of the file `id`; false if there is no such file.
    pub fn address_is_signer_for_file(&self, id: FileId, address: &AccountId) -> (r: bool)
        requires
            self.wf(),
        ensures
            r == (self.files().contains_key(id) && self.files()[id].signers.contains(*address)),
    {
        match self.find_file(&id) {
            None => false,
            Some(i) => signer_position(&self.files[i].signers, *address).is_some(),
        }
    }

    /// Whether `address` has signed the latest version of the file `id`; false if there is
    /// no such file.
    pub fn address_has_signed_the_file(&self, id: FileId, address: &AccountId) -> (r: bool)
        requires
            self.wf(),
        ensures
            r == (self.files().contains_key(id) && has_signed(
                self.files()[id].latest().signatures,
                *address,
            )),
    {
        match self.find_file(&id) {
            None => false,
            Some(i) => {
                let file = &self.files[i];
                let last = file.versions.len() - 1;
                let sigs = &file.versions[last].signatures;
                assert(self.files()[id].latest().signatures == sigs@);
                let mut k: usize = 0;
                while k < sigs.len()
                    invariant
                        k <= sigs@.len(),
                        self.files().contains_key(id),
                        self.files()[id].latest().signatures == sigs@,
                        forall|j: int|
                            0 <= j < k ==> !((#[trigger] sigs@[j]).address == *address
                                && sigs@[j].signed),
                    decreases sigs@.len() - k,
                {
                    if sigs[k].address == *address && sigs[k].signed {
                        assert(sigs@[k as int].address == *address && sigs@[k as int].signed);
                        assert(has_signed(sigs@, *address));
                        return true;
                    }
                    k += 1;
                }
                false
            },
        }
    }

    /// Whether `address` owns the file `id`; false if there is no such file.
    pub fn address_is_owner_for_file(&self, id: FileId, address: &AccountId) -> (r: bool)
        requires
            self.wf(),
        ensures
            r == (self.files().contains_key(id) && self.files()[id].owner == *address),
    {
        match self.find_file(&id) {
            None => false,
            Some(i) => self.files[i].owner == *address,
        }
    }

    /// A copy of the file `id`, if it is stored.
    pub fn get_file_by_id(&self, id: FileId) -> (r: Option<FileStruct>)
        requires
            self.wf(),
        ensures
            r is None <==> !self.files().contains_key(id),
            r matches Some(f) ==> f@ == self.files()[id],
    {
        match self.find_file(&id) {
            None => None,
            Some(i) => Some(self.files[i].duplicate()),
        }
    }
}

/// The file id drawn from the random value `seed`: the 128-bit Blake2 digest of its encoding.
pub fn file_id_from_random(seed: &H256) -> (r: FileId)
    ensures
        r@ == blake2_128_of(seed.0@),
{
    let encoded = encode_bytes32(&seed.0);
    blake2_128(encoded.as_slice())
}

/// `files` holds exactly the entries of `store`, one per id, each well formed.
spec fn store_wf(files: Seq<FileStruct>, store: Map<FileId, FileView>) -> bool {
    &&& forall|i: int|
        0 <= i < files.len() ==> {
            &&& store.contains_key(#[trigger] files[i].id)
            &&& store[files[i].id] == files[i]@
        }
    &&& forall|id: FileId| #[trigger]
        store.contains_key(id) ==> exists|i: int| 0 <= i < files.len() && (#[trigger] files[i]).id == id
    &&& forall|i: int, j: int|
        0 <= i < files.len() && 0 <= j < files.len() && i != j ==> (#[trigger] files[i]).id != (
        #[trigger] files[j]).id
    &&& forall|id: FileId| #[trigger] store.contains_key(id) ==> store[id].wf() && store[id].id == id
}

/// Replacing the file at position `k` by a well-formed file with the same id keeps the
/// store well formed, with that id now mapped to the new file.
proof fn lemma_replace_file(
    files: Seq<FileStruct>,
    store: Map<FileId, FileView>,
    after: Seq<FileStruct>,
    k: int,
)
    requires
        store_wf(files, store),
        0 <= k < files.len(),
        after.len() == files.len(),
        forall|i: int| 0 <= i < files.len() && i != k ==> after[i] == files[i],
        after[k].id == files[k].id,
        after[k]@.wf(),
    ensures
        store_wf(after, store.insert(files[k].id, after[k]@)),
{
    let id = files[k].id;
    let st = store.insert(id, after[k]@);
    assert forall|i: int| 0 <= i < after.len() implies #[trigger] st.contains_key(after[i].id)
        && st[after[i].id] == after[i]@ by {
        if i != k {
            assert(after[i] == files[i]);
            assert(files[i].id != files[k].id);
        }
    }
    assert forall|x: FileId| #[trigger] st.contains_key(x) implies exists|i: int|
        0 <= i < after.len() && (#[trigger] after[i]).id == x by {
        if x == id {
            assert(after[k].id == x);
        } else {
            assert(store.contains_key(x));
            let i = choose|i: int| 0 <= i < files.len() && (#[trigger] files[i]).id == x;
            assert(after[i] == files[i]);
        }
    }
    assert forall|i: int, j: int|
        0 <= i < after.len() && 0 <= j < after.len() && i != j implies (#[trigger] after[i]).id
        != (#[trigger] after[j]).id by {
        assert(files[i].id != files[j].id);
        if i != k {
            assert(after[i] == files[i]);
        }
        if j != k {
            assert(after[j] == files[j]);
        }
    }
    assert forall|x: FileId| #[trigger] st.contains_key(x) implies st[x].wf() && st[x].id == x by {
        if x != id {
            assert(store.contains_key(x));
        }
    }
}

/// Whether two ids are equal, byte by byte.
fn same_id(a: &FileId, b: &FileId) -> (r: bool)
    ensures
        r == (*a == *b),
{
    let mut i: usize = 0;
    while i < 16
        invariant
            i <= 16,
            forall|j: int| 0 <= j < i ==> a[j] == b[j],
        decreases 16 - i,
    {
        if a[i] != b[i] {
            return false;
        }
        i += 1;
    }
    assert(*a =~= *b);
    true
}

} // verus!
