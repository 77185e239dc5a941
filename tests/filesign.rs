use filesign::file::{FileId, SigStruct, H256};
use filesign::{file_id_from_random, Error, Event, Module, Randomness};

/// Randomness that echoes its subject into the first bytes of the result.
struct EchoRandomness;

impl Randomness for EchoRandomness {
    fn random(&self, subject: &[u8]) -> H256 {
        let mut out = [0x11u8; 32];
        out[..subject.len()].copy_from_slice(subject);
        H256(out)
    }
}

/// Randomness that always gives the same value.
struct ConstRandomness;

impl Randomness for ConstRandomness {
    fn random(&self, _subject: &[u8]) -> H256 {
        H256([0x42; 32])
    }
}

fn new_store() -> Module<EchoRandomness> {
    Module::new(EchoRandomness)
}

fn generate_file_id() -> FileId {
    [6; 16]
}

fn sample_tag() -> Vec<u8> {
    vec![40, 1, 2, 3, 4, 5, 6, 7, 8, 9, 10]
}

#[test]
fn it_works_for_create_new_file() {
    let mut m = new_store();
    let tag = sample_tag();
    let filehash = H256::from([0x66; 32]);
    let owner = 3;
    let file_id = generate_file_id();

    let create_file_result = m.create_new_file(owner, tag, filehash, Some(file_id));
    let file_option = m.get_file_by_id(file_id);

    assert!(file_option.is_some());
    let file = file_option.unwrap();

    assert_eq!(create_file_result, Ok(file_id));
    assert_eq!(owner, file.owner);
    assert_eq!(file_id, file.id);
    assert_eq!(filehash, file.versions[0].filehash);
    assert_eq!(1, file.versions.len());
    assert_eq!(0, file.signers.len());
}

#[test]
fn it_works_for_create_new_file_id_already_exists() {
    let mut m = new_store();
    let tag = sample_tag();
    let filehash = H256::from([0x66; 32]);
    let owner = 3;
    let second_owner = 4;
    let file_id = generate_file_id();

    let create_file_result = m.create_new_file(owner, tag.clone(), filehash, Some(file_id));
    let create_second_file_result = m.create_new_file(second_owner, tag, filehash, Some(file_id));
    let file_option = m.get_file_by_id(file_id);

    assert!(file_option.is_some());
    let file = file_option.unwrap();

    assert_eq!(create_second_file_result, Err(Error::IdAlreadyExists));
    assert_eq!(create_file_result, Ok(file_id));
    assert_eq!(owner, file.owner);
    assert_eq!(file_id, file.id);
    assert_eq!(filehash, file.versions[0].filehash);
    assert_eq!(1, file.versions.len());
    assert_eq!(0, file.signers.len());
}

#[test]
fn it_works_for_create_new_file_no_file_id() {
    let mut m = new_store();
    let tag = sample_tag();
    let filehash = H256::from([0x66; 32]);
    let owner = 3;

    let create_file_result = m.create_new_file(owner, tag, filehash, None);

    let event = m.last_event().unwrap();

    // get file id from event
    let file_id = match event {
        Event::FileCreated(_, id) => id,
        _ => panic!("event not right"),
    };

    let file_option = m.get_file_by_id(file_id);
    assert!(file_option.is_some());
    let file = file_option.unwrap();

    assert_ne!([0; 16], file_id);
    assert_eq!(create_file_result, Ok(file_id));
    assert_eq!(owner, file.owner);
    assert_eq!(file_id, file.id);
    assert_eq!(filehash, file.versions[0].filehash);
    assert_eq!(1, file.versions.len());
    assert_eq!(0, file.signers.len());
}

#[test]
fn it_fails_for_create_new_file_incorrect_file_input() {
    let mut m = new_store();
    let tag = Vec::new();
    let filehash = H256::from([0x66; 32]);
    let owner = 3;
    let file_id = generate_file_id();

    let create_file_result = m.create_new_file(owner, tag, filehash, Some(file_id));
    let file_opt = m.get_file_by_id(file_id);

    assert!(file_opt.is_none());
    assert_ne!(create_file_result, Ok(file_id));
    assert_eq!(create_file_result, Err(Error::EmptyTag));
}

#[test]
fn it_works_assign_signer() {
    let mut m = new_store();
    let tag = sample_tag();
    let filehash = H256::from([0x66; 32]);
    let account_id = 1;
    let file_id = generate_file_id();

    let create_file_result = m.create_new_file(1, tag, filehash, Some(file_id));
    let assign_signer_result = m.assign_signer(1, file_id, account_id);
    let file_opt = m.get_file_by_id(file_id);

    assert!(file_opt.is_some());
    let file = file_opt.unwrap();

    assert_eq!(create_file_result, Ok(file_id));
    assert_eq!(assign_signer_result, Ok(()));
    assert_eq!(1, file.signers.len());
    assert_eq!(account_id, file.signers[0]);
}

#[test]
fn it_works_assign_signer_do_no_dublicates() {
    let mut m = new_store();
    let tag = sample_tag();
    let filehash = H256::from([0x66; 32]);
    let account_id = 2;
    let file_id = generate_file_id();

    let create_file_result = m.create_new_file(1, tag, filehash, Some(file_id));
    let assign_signer_result = m.assign_signer(1, file_id, account_id);

    // Try a duplicate:
    let _ = m.assign_signer(1, file_id, account_id);

    let file_opt = m.get_file_by_id(file_id);

    assert!(file_opt.is_some());
    let file = file_opt.unwrap();

    assert_eq!(create_file_result, Ok(file_id));
    assert_eq!(assign_signer_result, Ok(()));
    assert_eq!(1, file.signers.len());
    assert_eq!(account_id, file.signers[0]);
}

#[test]
fn it_works_delete_signer() {
    let mut m = new_store();
    let tag = sample_tag();
    let filehash = H256::from([0x66; 32]);
    let account_id = 2;
    let file_id = generate_file_id();

    let create_file_result = m.create_new_file(1, tag, filehash, Some(file_id));
    let assign_signer_result = m.assign_signer(1, file_id, account_id);

    // Check file state before delete
    let file_with_signer_opt = m.get_file_by_id(file_id);
    let delete_signer_result = m.delete_signer(1, file_id, account_id);

    // Check file state after delete
    let file_without_signer_opt = m.get_file_by_id(file_id);

    assert!(file_with_signer_opt.is_some());
    let file_with_signer = file_with_signer_opt.unwrap();
    assert!(file_without_signer_opt.is_some());
    let file_without_signer = file_without_signer_opt.unwrap();

    assert_eq!(create_file_result, Ok(file_id));
    assert_eq!(assign_signer_result, Ok(()));
    assert_eq!(delete_signer_result, Ok(()));
    assert_eq!(1, file_with_signer.signers.len());
    assert_eq!(account_id, file_with_signer.signers[0]);
    assert_eq!(0, file_without_signer.signers.len());
}

#[test]
fn it_fails_delete_signer_no_signers() {
    let mut m = new_store();
    let tag = sample_tag();
    let filehash = H256::from([0x66; 32]);
    let file_id = generate_file_id();

    let account_id = 1;
    let _ = m.create_new_file(1, tag, filehash, Some(file_id));

    // First - try to delete a signer that does not exist
    let delete_signer_result_no_signers = m.delete_signer(1, file_id, account_id);

    // Second - try to delete it again after a delete:
    let _ = m.assign_signer(1, file_id, account_id);
    let _ = m.delete_signer(1, file_id, account_id);
    let delete_signer_result_after_delete = m.delete_signer(1, file_id, account_id);

    assert_ne!(delete_signer_result_no_signers, Ok(()));
    assert_ne!(delete_signer_result_after_delete, Ok(()));
    assert_eq!(delete_signer_result_no_signers, Err(Error::SignerNotFound));
    assert_eq!(delete_signer_result_after_delete, Err(Error::SignerNotFound));
}

#[test]
fn it_works_sign_latest_version() {
    let mut m = new_store();
    let tag = sample_tag();
    let filehash = H256::from([0x66; 32]);
    let account_id = 1;
    let file_id = generate_file_id();

    let _ = m.create_new_file(account_id, tag, filehash, Some(file_id));
    let assign_signer_result = m.assign_signer(account_id, file_id, account_id);
    let sign_latest_version_result = m.sign_latest_version(account_id, file_id);
    let _ = m.sign_latest_version(account_id, file_id);
    let file_opt = m.get_file_by_id(file_id);

    assert!(file_opt.is_some());
    let file = file_opt.unwrap();

    assert_eq!(assign_signer_result, Ok(()));
    assert_eq!(sign_latest_version_result, Ok(()));
    assert_eq!(1, file.versions.last().unwrap().signatures.len());
}

#[test]
fn it_fail_sign_latest_version_not_an_signer() {
    let mut m = new_store();
    let tag = sample_tag();
    let filehash = H256::from([0x66; 32]);
    let file_id = generate_file_id();
    let account_id = 1;

    let _ = m.create_new_file(account_id, tag, filehash, Some(file_id));
    let sign_latest_version_result = m.sign_latest_version(account_id, file_id);
    let file_opt = m.get_file_by_id(file_id);

    assert!(file_opt.is_some());
    let file = file_opt.unwrap();

    assert_ne!(sign_latest_version_result, Ok(()));
    assert_eq!(sign_latest_version_result, Err(Error::AddressNotSigner));
    // No signature has been added
    assert_eq!(0, file.versions.last().unwrap().signatures.len());
}

// ---- further cases ----

#[test]
fn file_id_is_blake2_128_of_the_random_value() {
    let id = file_id_from_random(&H256([0x66; 32]));
    assert_eq!(
        id,
        [23, 235, 195, 101, 68, 41, 158, 217, 186, 228, 46, 201, 48, 63, 21, 28]
    );
}

#[test]
fn drawn_ids_follow_the_nonce() {
    let mut m = new_store();
    let first = m.create_new_file(3, sample_tag(), H256([0x66; 32]), None);
    let second = m.create_new_file(3, sample_tag(), H256([0x66; 32]), None);
    // The subject handed to the randomness source is the nonce, eight bytes little-endian.
    assert_eq!(
        first,
        Ok([91, 151, 3, 234, 40, 230, 85, 96, 29, 44, 158, 112, 194, 15, 195, 69])
    );
    assert_eq!(
        second,
        Ok([244, 26, 243, 42, 204, 55, 68, 228, 221, 93, 58, 43, 159, 23, 184, 16])
    );
}

#[test]
fn empty_tag_does_not_advance_the_nonce() {
    let mut m = new_store();
    assert_eq!(
        m.create_new_file(3, Vec::new(), H256([0x66; 32]), None),
        Err(Error::EmptyTag)
    );
    assert_eq!(m.last_event(), None);
    let first = m.create_new_file(3, sample_tag(), H256([0x66; 32]), None);
    assert_eq!(
        first,
        Ok([91, 151, 3, 234, 40, 230, 85, 96, 29, 44, 158, 112, 194, 15, 195, 69])
    );
}

#[test]
fn drawn_id_collision_is_refused() {
    let mut m = Module::new(ConstRandomness);
    let first = m.create_new_file(3, sample_tag(), H256([0x66; 32]), None);
    assert!(first.is_ok());
    let second = m.create_new_file(4, sample_tag(), H256([0x77; 32]), None);
    assert_eq!(second, Err(Error::IdAlreadyExists));
    let file = m.get_file_by_id(first.unwrap()).unwrap();
    assert_eq!(file.owner, 3);
    assert_eq!(file.versions[0].filehash, H256([0x66; 32]));
}

#[test]
fn created_file_has_the_given_version() {
    let mut m = new_store();
    let file_id = generate_file_id();
    assert_eq!(
        m.create_new_file(3, sample_tag(), H256([0x66; 32]), Some(file_id)),
        Ok(file_id)
    );
    let file = m.get_file_by_id(file_id).unwrap();
    assert_eq!(file.owner, 3);
    assert_eq!(file.versions.len(), 1);
    assert_eq!(file.versions[0].tag, sample_tag());
    assert_eq!(file.versions[0].filehash, H256([0x66; 32]));
    assert!(file.versions[0].signatures.is_empty());
    assert!(file.signers.is_empty());
    assert_eq!(m.last_event(), Some(Event::FileCreated(3, file_id)));
}

#[test]
fn second_create_with_same_id_leaves_file_unchanged() {
    let mut m = new_store();
    let file_id = generate_file_id();
    let _ = m.create_new_file(3, sample_tag(), H256([0x66; 32]), Some(file_id));
    let before = m.get_file_by_id(file_id).unwrap();
    assert_eq!(
        m.create_new_file(4, vec![1], H256([0x77; 32]), Some(file_id)),
        Err(Error::IdAlreadyExists)
    );
    assert_eq!(m.get_file_by_id(file_id).unwrap(), before);
    assert_eq!(m.last_event(), Some(Event::FileCreated(3, file_id)));
}

#[test]
fn operations_on_missing_file_fail() {
    let mut m = new_store();
    let file_id = generate_file_id();
    assert_eq!(m.assign_signer(3, file_id, 1), Err(Error::FileNotFound));
    assert_eq!(m.delete_signer(3, file_id, 1), Err(Error::FileNotFound));
    assert_eq!(m.sign_latest_version(1, file_id), Err(Error::FileNotFound));
    assert!(m.get_file_by_id(file_id).is_none());
    assert!(!m.address_is_owner_for_file(file_id, &3));
    assert!(!m.address_is_signer_for_file(file_id, &1));
    assert!(!m.address_has_signed_the_file(file_id, &1));
    assert_eq!(m.last_event(), None);
}

#[test]
fn only_the_owner_manages_signers() {
    let mut m = new_store();
    let file_id = generate_file_id();
    let _ = m.create_new_file(3, sample_tag(), H256([0x66; 32]), Some(file_id));
    let _ = m.assign_signer(3, file_id, 1);
    assert_eq!(m.assign_signer(4, file_id, 2), Err(Error::AddressNotOwner));
    assert_eq!(m.delete_signer(4, file_id, 1), Err(Error::AddressNotOwner));
    assert_eq!(m.delete_signer(1, file_id, 1), Err(Error::AddressNotOwner));
    let file = m.get_file_by_id(file_id).unwrap();
    assert_eq!(file.signers, vec![1]);
    assert_eq!(m.last_event(), Some(Event::SignerAssigned(3, file_id, 1)));
}

#[test]
fn assign_twice_keeps_one_copy() {
    let mut m = new_store();
    let file_id = generate_file_id();
    let _ = m.create_new_file(3, sample_tag(), H256([0x66; 32]), Some(file_id));
    assert_eq!(m.assign_signer(3, file_id, 1), Ok(()));
    assert_eq!(m.assign_signer(3, file_id, 1), Ok(()));
    assert_eq!(m.get_file_by_id(file_id).unwrap().signers, vec![1]);
    assert_eq!(m.assign_signer(3, file_id, 2), Ok(()));
    assert_eq!(m.get_file_by_id(file_id).unwrap().signers, vec![1, 2]);
    assert!(m.address_is_signer_for_file(file_id, &1));
    assert!(m.address_is_signer_for_file(file_id, &2));
    assert!(!m.address_is_signer_for_file(file_id, &3));
}

#[test]
fn sign_twice_keeps_one_signature() {
    let mut m = new_store();
    let file_id = generate_file_id();
    let _ = m.create_new_file(3, sample_tag(), H256([0x66; 32]), Some(file_id));
    let _ = m.assign_signer(3, file_id, 1);
    assert!(!m.address_has_signed_the_file(file_id, &1));
    assert_eq!(m.sign_latest_version(1, file_id), Ok(()));
    assert_eq!(m.last_event(), Some(Event::FileSigned(1, file_id)));
    assert_eq!(m.sign_latest_version(1, file_id), Ok(()));
    let file = m.get_file_by_id(file_id).unwrap();
    assert_eq!(
        file.versions.last().unwrap().signatures,
        vec![SigStruct { address: 1, signed: true }]
    );
    assert!(m.address_has_signed_the_file(file_id, &1));
    assert!(!m.address_has_signed_the_file(file_id, &3));
}

#[test]
fn delete_then_delete_again() {
    let mut m = new_store();
    let file_id = generate_file_id();
    let _ = m.create_new_file(3, sample_tag(), H256([0x66; 32]), Some(file_id));
    let _ = m.assign_signer(3, file_id, 1);
    let _ = m.assign_signer(3, file_id, 2);
    assert_eq!(m.delete_signer(3, file_id, 1), Ok(()));
    assert_eq!(m.last_event(), Some(Event::SignerDeleted(3, file_id, 1)));
    assert_eq!(m.get_file_by_id(file_id).unwrap().signers, vec![2]);
    assert_eq!(m.delete_signer(3, file_id, 1), Err(Error::SignerNotFound));
    assert_eq!(m.get_file_by_id(file_id).unwrap().signers, vec![2]);
    assert_eq!(m.last_event(), Some(Event::SignerDeleted(3, file_id, 1)));
}

#[test]
fn non_signer_cannot_sign() {
    let mut m = new_store();
    let file_id = generate_file_id();
    let _ = m.create_new_file(3, sample_tag(), H256([0x66; 32]), Some(file_id));
    let _ = m.assign_signer(3, file_id, 1);
    let _ = m.sign_latest_version(1, file_id);
    assert_eq!(m.sign_latest_version(2, file_id), Err(Error::AddressNotSigner));
    assert_eq!(m.sign_latest_version(3, file_id), Err(Error::AddressNotSigner));
    let file = m.get_file_by_id(file_id).unwrap();
    assert_eq!(
        file.versions.last().unwrap().signatures,
        vec![SigStruct { address: 1, signed: true }]
    );
}

#[test]
fn removed_signer_keeps_signature_but_cannot_sign_again() {
    let mut m = new_store();
    let file_id = generate_file_id();
    let _ = m.create_new_file(3, sample_tag(), H256([0x66; 32]), Some(file_id));
    let _ = m.assign_signer(3, file_id, 1);
    let _ = m.sign_latest_version(1, file_id);
    let _ = m.delete_signer(3, file_id, 1);
    assert!(m.address_has_signed_the_file(file_id, &1));
    assert!(!m.address_is_signer_for_file(file_id, &1));
    assert_eq!(m.sign_latest_version(1, file_id), Err(Error::AddressNotSigner));
}

#[test]
fn owner_query() {
    let mut m = new_store();
    let file_id = generate_file_id();
    let _ = m.create_new_file(3, sample_tag(), H256([0x66; 32]), Some(file_id));
    assert!(m.address_is_owner_for_file(file_id, &3));
    assert!(!m.address_is_owner_for_file(file_id, &4));
    assert!(!m.address_is_owner_for_file([7; 16], &3));
}

#[test]
fn full_scenario() {
    let mut m = new_store();
    let x = generate_file_id();
    let h = H256([0x66; 32]);
    assert_eq!(m.create_new_file(3, sample_tag(), h, Some(x)), Ok(x));
    assert_eq!(m.create_new_file(3, sample_tag(), h, Some(x)), Err(Error::IdAlreadyExists));
    assert_eq!(m.assign_signer(3, x, 1), Ok(()));
    assert_eq!(m.assign_signer(3, x, 1), Ok(()));
    assert_eq!(m.get_file_by_id(x).unwrap().signers, vec![1]);
    assert_eq!(m.sign_latest_version(1, x), Ok(()));
    assert_eq!(m.sign_latest_version(1, x), Ok(()));
    assert_eq!(
        m.get_file_by_id(x).unwrap().versions[0].signatures,
        vec![SigStruct { address: 1, signed: true }]
    );
    assert_eq!(m.delete_signer(3, x, 1), Ok(()));
    assert!(m.get_file_by_id(x).unwrap().signers.is_empty());
    assert_eq!(m.delete_signer(3, x, 1), Err(Error::SignerNotFound));
    assert_eq!(m.sign_latest_version(2, x), Err(Error::AddressNotSigner));
    assert_eq!(m.get_file_by_id(x).unwrap().versions[0].signatures.len(), 1);
}
