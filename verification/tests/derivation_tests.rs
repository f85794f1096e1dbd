use multi_account::pallet::Config;
use multi_account::pallet::Pallet;

#[test]
fn identity_matches_reference_derivation() {
    let members: Vec<u64> = vec![1, 2, 3, 4, 5, 6];
    let threshold: u16 = 2;
    let id = Pallet::multi_account_id(&members, threshold);
    // derive the identity independently through the encoder and the hasher
    let entropy =
        parity_scale_codec::Encode::encode(&(b"modlpy/utilisuba", members.as_slice(), threshold));
    let digest = sp_io::hashing::blake2_256(&entropy);
    let expected = u64::from_le_bytes(digest[0..8].try_into().unwrap());
    assert_eq!(id, expected);
}

#[test]
fn identity_is_deterministic() {
    let members: Vec<u64> = vec![1337, 2000, 3000, 10000];
    assert_eq!(
        Pallet::multi_account_id(&members, 3),
        Pallet::multi_account_id(&members, 3)
    );
}

#[test]
fn identity_depends_on_members_and_threshold() {
    let members: Vec<u64> = vec![1337, 2000, 3000, 10000];
    let id = Pallet::multi_account_id(&members, 3);
    assert_ne!(id, Pallet::multi_account_id(&members, 2));
    assert_ne!(id, Pallet::multi_account_id(&vec![1337, 2000, 3000], 3));
}

#[test]
fn permuted_members_derive_same_identity() {
    // the same member set reaches its canonical order from two different
    // submissions: the caller is folded in at its sorted position
    let mut a = Pallet::new(Config { max_signatories: 100 });
    let mut b = Pallet::new(Config { max_signatories: 100 });
    let id_a = a.register_account(1337, vec![2000, 3000, 10000], 3).expect("a failed");
    let id_b = b.register_account(10000, vec![1337, 2000, 3000], 3).expect("b failed");
    assert_eq!(id_a, id_b);
    assert_eq!(a.get_account(id_a), b.get_account(id_b));
}
