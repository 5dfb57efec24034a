use minecrab::game::crypto::{CryptoCurrency, Wallet};

#[test]
fn welcome_pack_holds_the_documented_balances() {
    let wallet = Wallet::get_newbie_welcome_pack();
    assert_eq!(wallet.get_currency(CryptoCurrency::DogeCoin), 1337);
    assert_eq!(wallet.get_currency(CryptoCurrency::StarSleepShortage), -690);
    assert_eq!(wallet.get_currency(CryptoCurrency::Ethereum), 128);
    assert_eq!(wallet.get_currency(CryptoCurrency::BitCoin), 0);
    assert_eq!(wallet.get_currency(CryptoCurrency::CrabCoin), 0);
    assert_eq!(wallet.get_currency(CryptoCurrency::Explosion), 1);
}

#[test]
fn default_wallet_is_empty() {
    let wallet = Wallet::default();
    assert_eq!(wallet.get_currency(CryptoCurrency::DogeCoin), 0);
    assert_eq!(wallet.get_currency(CryptoCurrency::Explosion), 0);
    assert_eq!(wallet.convert_to_score(), 0);
}

#[test]
fn add_currency_changes_one_balance_only() {
    let wallet = Wallet::default()
        .add_currency(CryptoCurrency::Ethereum, 7)
        .add_currency(CryptoCurrency::Ethereum, -2);
    assert_eq!(wallet.get_currency(CryptoCurrency::Ethereum), 5);
    assert_eq!(wallet.get_currency(CryptoCurrency::DogeCoin), 0);
    assert_eq!(wallet.get_currency(CryptoCurrency::BitCoin), 0);
}

#[test]
fn add_currency_wraps_on_overflow() {
    let wallet = Wallet::default()
        .add_currency(CryptoCurrency::DogeCoin, i64::MAX)
        .add_currency(CryptoCurrency::DogeCoin, 1);
    assert_eq!(wallet.get_currency(CryptoCurrency::DogeCoin), i64::MIN);
}

#[test]
fn a_balance_that_covers_the_cost_affords_it() {
    let wallet = Wallet::new(10, 0, 4, 0, 0, 0);
    assert!(wallet.can_afford(&Wallet::new(10, 0, 4, 0, 0, 0)));
    assert!(wallet.can_afford(&Wallet::new(0, 0, 0, 0, 0, 0)));
    assert!(!wallet.can_afford(&Wallet::new(11, 0, 0, 0, 0, 0)));
    assert!(!wallet.can_afford(&Wallet::new(0, 0, 5, 0, 0, 0)));
    assert!(!wallet.can_afford(&Wallet::new(0, 0, 0, 1, 0, 0)));
}

#[test]
fn a_negative_cost_is_always_affordable() {
    let poor = Wallet::new(-5, -690, 0, 0, 0, 0);
    assert!(poor.can_afford(&Wallet::new(0, -1, 0, 0, 0, 0)));
    assert!(poor.can_afford(&Wallet::new(-100, -10, 0, 0, 0, 0)));
    assert!(!poor.can_afford(&Wallet::new(1, -1, 0, 0, 0, 0)));
}

#[test]
fn paying_an_afforded_cost_never_takes_a_balance_below_zero() {
    let mut wallet = Wallet::new(10, -690, 4, 0, 0, 1);
    let cost = Wallet::new(10, -1, 3, 0, 0, 0);
    assert!(wallet.can_afford(&cost));
    wallet -= &cost;
    assert_eq!(wallet.get_currency(CryptoCurrency::DogeCoin), 0);
    assert_eq!(wallet.get_currency(CryptoCurrency::StarSleepShortage), -689);
    assert_eq!(wallet.get_currency(CryptoCurrency::Ethereum), 1);
    assert_eq!(wallet.get_currency(CryptoCurrency::Explosion), 1);
}

#[test]
fn wallets_add_balance_by_balance() {
    let mut wallet = Wallet::new(1, 2, 3, 4, 5, 6);
    wallet += &Wallet::new(10, -20, 30, -40, 50, -60);
    assert_eq!(wallet.get_currency(CryptoCurrency::DogeCoin), 11);
    assert_eq!(wallet.get_currency(CryptoCurrency::StarSleepShortage), -18);
    assert_eq!(wallet.get_currency(CryptoCurrency::Ethereum), 33);
    assert_eq!(wallet.get_currency(CryptoCurrency::BitCoin), -36);
    assert_eq!(wallet.get_currency(CryptoCurrency::CrabCoin), 55);
    assert_eq!(wallet.get_currency(CryptoCurrency::Explosion), -54);
}

#[test]
fn score_of_the_welcome_pack() {
    // 1337 * 3 + 690 + 128 * 420
    assert_eq!(Wallet::get_newbie_welcome_pack().convert_to_score(), 58461);
}

#[test]
fn score_weighs_each_currency() {
    assert_eq!(Wallet::new(1, 0, 0, 0, 0, 0).convert_to_score(), 3);
    assert_eq!(Wallet::new(0, 1, 0, 0, 0, 0).convert_to_score(), -1);
    assert_eq!(Wallet::new(0, 0, 1, 0, 0, 0).convert_to_score(), 420);
    assert_eq!(Wallet::new(0, 0, 0, 1, 0, 0).convert_to_score(), 35_995);
    assert_eq!(Wallet::new(0, 0, 0, 0, 0, 1000).convert_to_score(), 0);
}

#[test]
fn crab_coins_multiply_the_score() {
    // 300 * (1 + 0.01 * 50)
    assert_eq!(Wallet::new(100, 0, 0, 0, 50, 0).convert_to_score(), 450);
    // 300 * (1 - 1)
    assert_eq!(Wallet::new(100, 0, 0, 0, -100, 0).convert_to_score(), 0);
    // 300 * (1 - 2)
    assert_eq!(Wallet::new(100, 0, 0, 0, -200, 0).convert_to_score(), -300);
}

#[test]
fn score_rounds_to_the_nearest_integer() {
    // 3 * 1.01 = 3.03
    assert_eq!(Wallet::new(1, 0, 0, 0, 1, 0).convert_to_score(), 3);
    // 150 * 1.01 = 151.5, a half goes away from zero
    assert_eq!(Wallet::new(50, 0, 0, 0, 1, 0).convert_to_score(), 152);
    // -150 * 1.01 = -151.5
    assert_eq!(Wallet::new(-50, 0, 0, 0, 1, 0).convert_to_score(), -152);
    // 48 * 1.01 = 48.48
    assert_eq!(Wallet::new(16, 0, 0, 0, 1, 0).convert_to_score(), 48);
    // 51 * 1.01 = 51.51
    assert_eq!(Wallet::new(17, 0, 0, 0, 1, 0).convert_to_score(), 52);
}

#[test]
fn score_stays_within_sixty_four_bits() {
    let rich = Wallet::new(0, 0, 0, 0, i64::MAX, 0).add_currency(CryptoCurrency::DogeCoin, 1 << 40);
    assert_eq!(rich.convert_to_score(), i64::MAX);
}
