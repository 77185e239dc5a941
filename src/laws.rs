use vstd::prelude::*;

use crate::file::{
    first_index, has_signature_by, lemma_assign_wf, lemma_has_first_index, lemma_sign_wf,
    signed_by, unique_signers, AccountId, FileId, FileView, SigStruct,
};

verus! {

/// `a` occurs in `s` exactly once.
pub open spec fn occurs_once(s: Seq<AccountId>, a: AccountId) -> bool {
    &&& s.contains(a)
    &&& forall|i: int, j: int|
        0 <= i < s.len() && 0 <= j < s.len() && s[i] == a && s[j] == a ==> i == j
}

/// Exactly one signature in `sigs` is by `a`.
pub open spec fn signed_once(sigs: Seq<SigStruct>, a: AccountId) -> bool {
    &&& has_signature_by(sigs, a)
    &&& forall|i: int, j: int|
        0 <= i < sigs.len() && 0 <= j < sigs.len() && (#[trigger] sigs[i]).address == a && (
        #[trigger] sigs[j]).address == a ==> i == j
}

/// Assigning the same signer to a file twice has the effect of assigning it once, and
/// leaves exactly one copy of it among the file's signers.
pub proof fn law_assign_idempotent(files: Map<FileId, FileView>, id: FileId, signer: AccountId)
    requires
        files.contains_key(id),
        files[id].wf(),
    ensures
        ({
            let once = files.insert(id, files[id].assign(signer));
            let twice = once.insert(id, once[id].assign(signer));
            &&& twice == once
            &&& occurs_once(twice[id].signers, signer)
        }),
{
    let f = files[id];
    let once = files.insert(id, f.assign(signer));
    assert(once[id] == f.assign(signer));
    assert(f.assign(signer).signers.contains(signer)) by {
        if !f.signers.contains(signer) {
            assert(f.assign(signer).signers.last() == signer);
        }
    }
    assert(once[id].assign(signer) == once[id]);
    assert(once.insert(id, once[id]) =~= once);
    lemma_assign_wf(f, signer);
}

/// Once a signer is deleted from a file, it is no longer among the file's signers, so
/// deleting it again is refused.
pub proof fn law_delete_removes(f: FileView, signer: AccountId)
    requires
        f.wf(),
        f.signers.contains(signer),
    ensures
        !f.delete(signer).signers.contains(signer),
        f.delete(signer).signers.len() == f.signers.len() - 1,
{
    let i0 = choose|i: int| 0 <= i < f.signers.len() && f.signers[i] == signer;
    lemma_has_first_index(f.signers, signer, i0);
    let k = first_index(f.signers, signer);
    let s = f.delete(signer).signers;
    if s.contains(signer) {
        let j = choose|j: int| 0 <= j < s.len() && s[j] == signer;
        let oj = if j < k { j } else { j + 1 };
        assert(s[j] == f.signers[oj]);
        assert(f.signers[k] == signer);
    }
}

/// Signing the latest version of a file twice by the same account has the effect of
/// signing once, and leaves exactly one signature by it on that version.
pub proof fn law_sign_idempotent(files: Map<FileId, FileView>, id: FileId, address: AccountId)
    requires
        files.contains_key(id),
        files[id].wf(),
    ensures
        ({
            let once = files.insert(id, files[id].sign_latest(address));
            let twice = once.insert(id, once[id].sign_latest(address));
            &&& twice == once
            &&& signed_once(twice[id].latest().signatures, address)
        }),
{
    let f = files[id];
    let g = f.sign_latest(address);
    let once = files.insert(id, g);
    let last = f.versions.len() - 1;
    let sigs = f.latest().signatures;
    assert(g.latest().signatures == signed_by(sigs, address));
    if !has_signature_by(sigs, address) {
        let t = signed_by(sigs, address);
        assert(t[t.len() - 1].address == address);
    }
    assert(has_signature_by(g.latest().signatures, address));
    assert(g.sign_latest(address).versions =~= g.versions);
    assert(g.sign_latest(address) == g);
    assert(once.insert(id, once[id]) =~= once);
    lemma_sign_wf(f, address);
    assert(unique_signers(g.versions[last].signatures));
}

} // verus!
