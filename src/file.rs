use vstd::prelude::*;

verus! {

/// Identity of an account, as authenticated by the host.
pub type AccountId = u64;

/// Identifier of a file in the store.
pub type FileId = [u8; 16];

/// 256-bit digest of a file's contents; opaque to this crate.
#[derive(Clone, Copy, PartialEq, Eq, Debug)]
pub struct H256(pub [u8; 32]);

impl From<[u8; 32]> for H256 {
    fn from(bytes: [u8; 32]) -> (r: H256)
        ensures
            r == H256(bytes),
    {
        H256(bytes)
    }
}

impl vstd::std_specs::convert::FromSpecImpl<[u8; 32]> for H256 {
    open spec fn obeys_from_spec() -> bool {
        true
    }

    open spec fn from_spec(bytes: [u8; 32]) -> H256 {
        H256(bytes)
    }
}

/// One account's attestation of a version.
#[derive(Clone, Copy, PartialEq, Eq, Debug)]
pub struct SigStruct {
    pub address: AccountId,
    pub signed: bool,
}

/// A content snapshot of a file and the signatures collected on it.
#[derive(Clone, PartialEq, Eq, Debug)]
pub struct VersionStruct {
    pub tag: Vec<u8>,
    pub filehash: H256,
    pub signatures: Vec<SigStruct>,
}

/// Mathematical model of a `VersionStruct`.
pub ghost struct VersionView {
    pub tag: Seq<u8>,
    pub filehash: H256,
    pub signatures: Seq<SigStruct>,
}

impl View for VersionStruct {
    type V = VersionView;

    open spec fn view(&self) -> VersionView {
        VersionView { tag: self.tag@, filehash: self.filehash, signatures: self.signatures@ }
    }
}

/// A versioned document: its owner, its history and the accounts allowed to sign it.
#[derive(Clone, PartialEq, Eq, Debug)]
pub struct FileStruct {
    pub owner: AccountId,
    pub id: FileId,
    pub versions: Vec<VersionStruct>,
    pub signers: Vec<AccountId>,
}

/// Mathematical model of a `FileStruct`.
pub ghost struct FileView {
    pub owner: AccountId,
    pub id: FileId,
    pub versions: Seq<VersionView>,
    pub signers: Seq<AccountId>,
}

impl View for FileStruct {
    type V = FileView;

    open spec fn view(&self) -> FileView {
        FileView {
            owner: self.owner,
            id: self.id,
            versions: self.versions@.map_values(|v: VersionStruct| v@),
            signers: self.signers@,
        }
    }
}

/// Whether some signature in `sigs` is by `address`.
pub open spec fn has_signature_by(sigs: Seq<SigStruct>, address: AccountId) -> bool {
    exists|i: int| 0 <= i < sigs.len() && (#[trigger] sigs[i]).address == address
}

/// Whether `sigs` holds a completed signature by `address`.
pub open spec fn has_signed(sigs: Seq<SigStruct>, address: AccountId) -> bool {
    exists|i: int| 0 <= i < sigs.len() && (#[trigger] sigs[i]).address == address && sigs[i].signed
}

/// No two signatures in `sigs` are by the same account.
pub open spec fn unique_signers(sigs: Seq<SigStruct>) -> bool {
    forall|i: int, j: int|
        0 <= i < sigs.len() && 0 <= j < sigs.len() && i != j ==> (#[trigger] sigs[i]).address
            != (#[trigger] sigs[j]).address
}

/// The version that a freshly created file starts with.
pub open spec fn first_version(tag: Seq<u8>, filehash: H256) -> VersionView {
    VersionView { tag, filehash, signatures: Seq::empty() }
}

/// The file that `create` stores.
pub open spec fn fresh_file(owner: AccountId, id: FileId, tag: Seq<u8>, filehash: H256) -> FileView {
    FileView { owner, id, versions: seq![first_version(tag, filehash)], signers: Seq::empty() }
}

/// The signature list after `address` signs: unchanged if it already signed, else extended.
pub open spec fn signed_by(sigs: Seq<SigStruct>, address: AccountId) -> Seq<SigStruct> {
    if has_signature_by(sigs, address) {
        sigs
    } else {
        sigs.push(SigStruct { address, signed: true })
    }
}

/// The signer list after `signer` is assigned: unchanged if present, else extended.
pub open spec fn with_signer(signers: Seq<AccountId>, signer: AccountId) -> Seq<AccountId> {
    if signers.contains(signer) {
        signers
    } else {
        signers.push(signer)
    }
}

impl FileView {
    /// A stored file always has at least one version, its signers are distinct, and
    /// each version holds at most one signature per account.
    pub open spec fn wf(self) -> bool {
        &&& self.versions.len() > 0
        &&& self.signers.no_duplicates()
        &&& forall|k: int|
            0 <= k < self.versions.len() ==> unique_signers(#[trigger] self.versions[k].signatures)
    }

    /// This file after `signer` is assigned to it.
    pub open spec fn assign(self, signer: AccountId) -> FileView {
        FileView { signers: with_signer(self.signers, signer), ..self }
    }

    /// This file after the first occurrence of `signer` is removed from its signers.
    pub open spec fn delete(self, signer: AccountId) -> FileView {
        FileView { signers: self.signers.remove(first_index(self.signers, signer)), ..self }
    }

    /// The latest version: the only one that signatures are added to.
    pub open spec fn latest(self) -> VersionView {
        self.versions.last()
    }

    /// This file after `address` signs its latest version.
    pub open spec fn sign_latest(self, address: AccountId) -> FileView {
        let last = self.versions.len() - 1;
        FileView {
            versions: self.versions.update(
                last,
                VersionView {
                    signatures: signed_by(self.latest().signatures, address),
                    ..self.latest()
                },
            ),
            ..self
        }
    }
}

impl FileStruct {
    /// A file owned by `owner` whose single version carries `tag` and `filehash`.
    pub fn new(owner: AccountId, id: FileId, tag: Vec<u8>, filehash: &H256) -> (r: Self)
        ensures
            r@ == fresh_file(owner, id, tag@, *filehash),
    {
        let latest_version = VersionStruct { tag, filehash: *filehash, signatures: Vec::new() };
        let mut versions: Vec<VersionStruct> = Vec::with_capacity(1);
        versions.push(latest_version);
        let r = FileStruct { owner, id, versions, signers: Vec::new() };
        assert(r@.versions =~= seq![first_version(latest_version.tag@, *filehash)]);
        r
    }

    /// Adds a signature by `caller` to the latest version, unless one is already there.
    pub fn sign_latest_version(&mut self, caller: AccountId)
        requires
            old(self).versions.len() > 0,
        ensures
            final(self)@ == old(self)@.sign_latest(caller),
    {
        let last = self.versions.len() - 1;
        match signature_position(&self.versions[last].signatures, caller) {
            Some(_) => {},
            None => {
                self.versions[last].signatures.push(SigStruct { address: caller, signed: true });
            },
        }
        assert(self@.versions =~= old(self)@.sign_latest(caller).versions);
    }

    /// Makes `signer` one of the file's signers, if it is not one already.
    pub fn assign_signer_to_file(&mut self, signer: AccountId)
        ensures
            final(self)@ == old(self)@.assign(signer),
    {
        if signer_position(&self.signers, signer).is_none() {
            self.signers.push(signer);
        }
    }

    /// Removes the first occurrence of `signer` from the file's signers; fails if there is none.
    pub fn delete_signer_from_file(&mut self, signer: AccountId) -> (r: Result<(), ()>)
        ensures
            r is Err <==> !old(self)@.signers.contains(signer),
            r is Err ==> *final(self) == *old(self),
            r is Ok ==> final(self)@ == old(self)@.delete(signer),
    {
        let index = match signer_position(&self.signers, signer) {
            Some(i) => i,
            None => return Err(()),
        };
        proof {
            lemma_first_index(old(self)@.signers, signer, index as int);
        }
        self.signers.remove(index);
        Ok(())
    }
}

impl VersionStruct {
    /// A copy of this version.
    pub fn duplicate(&self) -> (r: Self)
        ensures
            r@ == self@,
    {
        VersionStruct {
            tag: copy_vec(&self.tag),
            filehash: self.filehash,
            signatures: copy_vec(&self.signatures),
        }
    }
}

impl FileStruct {
    /// A copy of this file.
    pub fn duplicate(&self) -> (r: Self)
        ensures
            r@ == self@,
    {
        let mut versions: Vec<VersionStruct> = Vec::with_capacity(self.versions.len());
        let mut i: usize = 0;
        while i < self.versions.len()
            invariant
                i <= self.versions@.len(),
                versions@.len() == i,
                forall|j: int| 0 <= j < i ==> (#[trigger] versions@[j])@ == self.versions@[j]@,
            decreases self.versions@.len() - i,
        {
            versions.push(self.versions[i].duplicate());
            i += 1;
        }
        let r = FileStruct {
            owner: self.owner,
            id: self.id,
            versions,
            signers: copy_vec(&self.signers),
        };
        assert(r@.versions =~= self@.versions);
        r
    }
}

/// An element-wise copy of `v`.
fn copy_vec<T: Copy>(v: &Vec<T>) -> (r: Vec<T>)
    ensures
        r@ == v@,
{
    let mut r: Vec<T> = Vec::with_capacity(v.len());
    let mut i: usize = 0;
    while i < v.len()
        invariant
            i <= v@.len(),
            r@ == v@.subrange(0, i as int),
        decreases v@.len() - i,
    {
        r.push(v[i]);
        i += 1;
        assert(r@ =~= v@.subrange(0, i as int));
    }
    assert(r@ =~= v@);
    r
}

/// Assigning a signer keeps a file well formed.
pub proof fn lemma_assign_wf(f: FileView, signer: AccountId)
    requires
        f.wf(),
    ensures
        f.assign(signer).wf(),
{
    let s = f.assign(signer).signers;
    if !f.signers.contains(signer) {
        assert forall|i: int, j: int| 0 <= i < s.len() && 0 <= j < s.len() && i != j implies s[i]
            != s[j] by {
            if i == s.len() - 1 {
                assert(f.signers[j] != signer);
            } else if j == s.len() - 1 {
                assert(f.signers[i] != signer);
            }
        }
    }
}

/// Deleting a signer that is present keeps a file well formed.
pub proof fn lemma_delete_wf(f: FileView, signer: AccountId)
    requires
        f.wf(),
        f.signers.contains(signer),
    ensures
        f.delete(signer).wf(),
{
    let k = first_index(f.signers, signer);
    let i0 = choose|i: int| 0 <= i < f.signers.len() && f.signers[i] == signer;
    lemma_has_first_index(f.signers, signer, i0);
    let s = f.delete(signer).signers;
    assert forall|i: int, j: int| 0 <= i < s.len() && 0 <= j < s.len() && i != j implies s[i]
        != s[j] by {
        let oi = if i < k { i } else { i + 1 };
        let oj = if j < k { j } else { j + 1 };
        assert(s[i] == f.signers[oi] && s[j] == f.signers[oj]);
    }
}

/// Signing the latest version keeps a file well formed.
pub proof fn lemma_sign_wf(f: FileView, address: AccountId)
    requires
        f.wf(),
    ensures
        f.sign_latest(address).wf(),
{
    let g = f.sign_latest(address);
    let last = f.versions.len() - 1;
    let sigs = f.latest().signatures;
    assert(unique_signers(f.versions[last].signatures));
    if !has_signature_by(sigs, address) {
        let t = signed_by(sigs, address);
        assert forall|i: int, j: int| 0 <= i < t.len() && 0 <= j < t.len() && i != j implies (
        #[trigger] t[i]).address != (#[trigger] t[j]).address by {
            if i == t.len() - 1 {
                assert(t[j] == sigs[j]);
            } else if j == t.len() - 1 {
                assert(t[i] == sigs[i]);
            }
        }
    }
    assert forall|k: int| 0 <= k < g.versions.len() implies unique_signers(
        #[trigger] g.versions[k].signatures,
    ) by {
        if k != last {
            assert(g.versions[k] == f.versions[k]);
        }
    }
}

/// A sequence that contains `a` has a first occurrence of it.
pub proof fn lemma_has_first_index(s: Seq<AccountId>, a: AccountId, i: int)
    requires
        0 <= i < s.len(),
        s[i] == a,
    ensures
        is_first_index(s, a, first_index(s, a)),
    decreases i,
{
    if exists|j: int| 0 <= j < i && s[j] == a {
        let j = choose|j: int| 0 <= j < i && s[j] == a;
        lemma_has_first_index(s, a, j);
    } else {
        assert(is_first_index(s, a, i));
    }
}

/// `i` is the position of the first occurrence of `a` in `s`.
pub open spec fn is_first_index(s: Seq<AccountId>, a: AccountId, i: int) -> bool {
    0 <= i < s.len() && s[i] == a && forall|j: int| 0 <= j < i ==> s[j] != a
}

/// The position of the first occurrence of `a` in `s` (meaningful when `s` contains `a`).
pub open spec fn first_index(s: Seq<AccountId>, a: AccountId) -> int {
    choose|i: int| is_first_index(s, a, i)
}

/// The first occurrence is unique, so `first_index` names it.
pub proof fn lemma_first_index(s: Seq<AccountId>, a: AccountId, i: int)
    requires
        is_first_index(s, a, i),
    ensures
        first_index(s, a) == i,
{
    let k = first_index(s, a);
    assert(is_first_index(s, a, k));
    if k < i {
        assert(s[k] != a);
    } else if i < k {
        assert(s[i] != a);
    }
}

/// Index of the signature by `address` in `sigs`, if there is one.
fn signature_position(sigs: &Vec<SigStruct>, address: AccountId) -> (r: Option<usize>)
    ensures
        r is None <==> !has_signature_by(sigs@, address),
        r matches Some(i) ==> i < sigs@.len() && sigs@[i as int].address == address,
{
    let mut i: usize = 0;
    while i < sigs.len()
        invariant
            i <= sigs@.len(),
            forall|j: int| 0 <= j < i ==> (#[trigger] sigs@[j]).address != address,
        decreases sigs@.len() - i,
    {
        if sigs[i].address == address {
            return Some(i);
        }
        i += 1;
    }
    None
}

/// Index of the first occurrence of `signer` in `signers`, if there is one.
pub(crate) fn signer_position(signers: &Vec<AccountId>, signer: AccountId) -> (r: Option<usize>)
    ensures
        r is None <==> !signers@.contains(signer),
        r matches Some(i) ==> is_first_index(signers@, signer, i as int),
{
    let mut i: usize = 0;
    while i < signers.len()
        invariant
            i <= signers@.len(),
            forall|j: int| 0 <= j < i ==> signers@[j] != signer,
        decreases signers@.len() - i,
    {
        if signers[i] == signer {
            return Some(i);
        }
        i += 1;
    }
    None
}

} // verus!
