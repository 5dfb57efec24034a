use minecrab::game::crypto::{
    generate_crypto_challenge, same_text, BabyBtcChallenge, BedChallenge, Challenge, CrabChallenge,
    CryptoChallenge, CryptoCurrency, DogChallenge, EtherChallenge,
};

#[test]
fn bed_is_solved_by_the_fixed_nonce() {
    let bed = BedChallenge::new(5);
    assert_eq!(bed.get_numeric_id(), 0xbed);
    assert_eq!(bed.get_name(), "bed");
    assert_eq!(bed.get_difficulty(), 5);
    assert!(bed.get_challenge_data().is_empty());
    assert!(bed.verify((0, 1, 2, 3)));
    assert!(!bed.verify((0, 1, 2, 4)));
    assert!(!bed.verify((3, 2, 1, 0)));
    let reward = bed.get_reward();
    assert_eq!(reward.get_currency(CryptoCurrency::StarSleepShortage), -5);
    assert_eq!(reward.get_currency(CryptoCurrency::DogeCoin), 0);
}

#[test]
fn difficulty_keeps_the_low_sixteen_bits() {
    assert_eq!(BedChallenge::new(0x1_0005).get_difficulty(), 5);
    assert_eq!(BedChallenge::new(-1).get_difficulty(), 0xffff);
    assert_eq!(DogChallenge::new(65536 + 7, (0, 0, 0, 0)).get_difficulty(), 7);
}

#[test]
fn dog_is_solved_by_repeating_its_words() {
    let dog = DogChallenge::new(9, (0x1234, 0xabcd, 0, 0xffff));
    assert_eq!(dog.get_numeric_id(), 0x420);
    assert_eq!(dog.get_name(), "dog");
    assert_eq!(dog.get_difficulty(), 9);
    assert_eq!(
        dog.get_challenge_data(),
        vec![0x34, 0x12, 0xcd, 0xab, 0x00, 0x00, 0xff, 0xff]
    );
    assert!(dog.verify((0x1234, 0xabcd, 0, 0xffff)));
    assert!(!dog.verify((0x1234, 0xabcd, 0, 0xfffe)));
    let reward = dog.get_reward();
    assert_eq!(reward.get_currency(CryptoCurrency::DogeCoin), 9);
    assert_eq!(reward.get_currency(CryptoCurrency::StarSleepShortage), 1);
}

#[test]
fn ether_is_solved_by_the_inverse_of_its_word() {
    let ether = EtherChallenge::new(4, 3);
    assert_eq!(ether.get_numeric_id(), 0x1337);
    assert_eq!(ether.get_name(), "ether");
    assert_eq!(ether.get_challenge_data(), vec![3, 0]);
    // 3 * 43691 = 2 * 65536 + 1
    assert!(ether.verify((43691, 0, 0, 0)));
    assert!(!ether.verify((43691, 1, 0, 0)));
    assert!(!ether.verify((43690, 0, 0, 0)));
    let reward = ether.get_reward();
    assert_eq!(reward.get_currency(CryptoCurrency::Ethereum), 4);
    assert_eq!(reward.get_currency(CryptoCurrency::StarSleepShortage), 3);
}

#[test]
fn ether_forces_the_lowest_bit_of_its_word() {
    let ether = EtherChallenge::new(1, 0x1000);
    assert_eq!(ether.get_challenge_data(), vec![0x01, 0x10]);
}

#[test]
fn btc_is_solved_by_the_head_of_the_digest() {
    let btc = BabyBtcChallenge::new([0u8; 32]);
    assert_eq!(btc.get_numeric_id(), 0xb7c);
    assert_eq!(btc.get_name(), "btc");
    assert_eq!(btc.get_difficulty(), 1);
    assert_eq!(btc.get_challenge_data(), vec![0u8; 32]);
    // SHA-256 of 32 zero bytes starts 66 68 7a ad f8 62 bd 77
    assert!(btc.verify((0x6866, 0xad7a, 0x62f8, 0x77bd)));
    assert!(!btc.verify((0x6866, 0xad7a, 0x62f8, 0x77be)));
    assert!(!btc.verify((0, 0, 0, 0)));
    assert_eq!(btc.get_reward().get_currency(CryptoCurrency::BitCoin), 1);
}

#[test]
fn btc_digest_follows_the_challenge() {
    let mut block = [0u8; 32];
    for (i, byte) in block.iter_mut().enumerate() {
        *byte = i as u8;
    }
    let btc = BabyBtcChallenge::new(block);
    assert!(btc.verify((0x0d63, 0x29cd, 0xc466, 0x6633)));
    assert!(!btc.verify((0x6866, 0xad7a, 0x62f8, 0x77bd)));
}

#[test]
fn a_digest_opens_with_a_nonce_only_if_eight_bytes_agree() {
    let digest = [1u8, 0, 2, 0, 3, 0, 4, 0, 9, 9];
    assert!(BabyBtcChallenge::opens_with(&digest, (1, 2, 3, 4)));
    assert!(!BabyBtcChallenge::opens_with(&digest, (1, 2, 3, 5)));
    assert!(!BabyBtcChallenge::opens_with(&digest[..7], (1, 2, 3, 4)));
}

#[test]
fn crab_is_solved_by_a_nonce_that_hashes_to_the_target() {
    let block = [7u8; 32];
    let nonce = (1u16, 2u16, 3u16, 4u16);
    let blank = CrabChallenge::new(99, 0, block);
    let input = blank.sealed_input(nonce);
    assert_eq!(input.len(), 40);
    assert_eq!(&input[..8], &[1, 0, 2, 0, 3, 0, 4, 0]);
    assert_eq!(&input[8..], &block[..]);
    let hash = murmurhash3::murmurhash3_x86_32(&input, 99);
    let crab = CrabChallenge::new(99, hash, block);
    assert_eq!(crab.get_numeric_id(), 0xf980);
    assert_eq!(crab.get_name(), "crab");
    assert_eq!(crab.get_difficulty(), 1);
    assert!(crab.verify(nonce));
    assert!(!CrabChallenge::new(99, hash.wrapping_add(1), block).verify(nonce));
    assert!(!CrabChallenge::new(98, hash, block).verify(nonce));
    assert_eq!(crab.get_reward().get_currency(CryptoCurrency::CrabCoin), 1);
}

#[test]
fn crab_data_holds_seed_hash_and_block() {
    let crab = CrabChallenge::new(0x0403_0201, 0x0807_0605, [0xaa; 32]);
    let data = crab.get_challenge_data();
    assert_eq!(data.len(), 40);
    assert_eq!(&data[..8], &[1, 2, 3, 4, 5, 6, 7, 8]);
    assert_eq!(&data[8..], &[0xaa; 32][..]);
    assert!(crab.hits_target(0x0807_0605));
    assert!(!crab.hits_target(0));
}

#[test]
fn challenges_are_generated_by_name() {
    for name in ["bed", "dog", "ether", "btc", "crab"] {
        let challenge = generate_crypto_challenge(name, 5).expect("a known kind");
        assert_eq!(challenge.get_name(), name);
    }
    assert!(generate_crypto_challenge("cat", 5).is_none());
    assert!(generate_crypto_challenge("", 5).is_none());
    assert!(generate_crypto_challenge("beds", 5).is_none());
}

#[test]
fn generated_challenges_carry_the_asked_difficulty() {
    assert_eq!(generate_crypto_challenge("bed", 5).unwrap().get_difficulty(), 5);
    assert_eq!(generate_crypto_challenge("dog", 6).unwrap().get_difficulty(), 6);
    assert_eq!(generate_crypto_challenge("ether", 7).unwrap().get_difficulty(), 7);
    assert_eq!(generate_crypto_challenge("btc", 8).unwrap().get_difficulty(), 1);
    assert_eq!(generate_crypto_challenge("crab", 9).unwrap().get_difficulty(), 1);
}

#[test]
fn a_generated_ether_challenge_asks_for_an_odd_word() {
    for _ in 0..20 {
        let data = generate_crypto_challenge("ether", 1).unwrap().get_challenge_data();
        assert_eq!(data.len(), 2);
        assert_eq!(data[0] & 1, 1);
    }
}

#[test]
fn a_challenge_of_any_kind_answers_for_its_kind() {
    let bed = Challenge::Bed(BedChallenge::new(2));
    assert_eq!(bed.get_numeric_id(), 0xbed);
    assert!(bed.verify((0, 1, 2, 3)));
    let dog = Challenge::Dog(DogChallenge::new(2, (5, 6, 7, 8)));
    assert_eq!(dog.get_numeric_id(), 0x420);
    assert!(dog.verify((5, 6, 7, 8)));
    assert!(!dog.verify((0, 1, 2, 3)));
}

#[test]
fn texts_compare_by_their_characters() {
    assert!(same_text("bed", "bed"));
    assert!(!same_text("bed", "bee"));
    assert!(!same_text("bed", "be"));
    assert!(same_text("", ""));
}
