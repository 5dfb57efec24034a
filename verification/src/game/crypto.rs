//! Wallets of the six currencies, and the crypto challenges that pay into them.

use crate::chance::{random_u16, random_u32, random_u8};
use vstd::prelude::*;
use vstd::string::StrSliceExecFns;

verus! {

/// Number of currencies a wallet holds.
pub const CRYPTO_TYPES: usize = 6;

#[derive(Clone, Copy, Debug, PartialEq, Eq, Structural)]
pub enum CryptoCurrency {
    DogeCoin,
    StarSleepShortage,
    Ethereum,
    BitCoin,
    CrabCoin,
    Explosion,
}

impl CryptoCurrency {
    /// Position of the currency in a wallet.
    pub open spec fn index(self) -> int {
        match self {
            CryptoCurrency::DogeCoin => 0,
            CryptoCurrency::StarSleepShortage => 1,
            CryptoCurrency::Ethereum => 2,
            CryptoCurrency::BitCoin => 3,
            CryptoCurrency::CrabCoin => 4,
            CryptoCurrency::Explosion => 5,
        }
    }

    fn slot(self) -> (i: usize)
        ensures
            i == self.index(),
    {
        match self {
            CryptoCurrency::DogeCoin => 0,
            CryptoCurrency::StarSleepShortage => 1,
            CryptoCurrency::Ethereum => 2,
            CryptoCurrency::BitCoin => 3,
            CryptoCurrency::CrabCoin => 4,
            CryptoCurrency::Explosion => 5,
        }
    }
}

/// Six signed balances, one per currency, in the order of `CryptoCurrency`.
#[derive(Clone, Copy, Debug)]
pub struct Wallet {
    assets: [i64; 6],
}

impl View for Wallet {
    type V = Seq<i64>;

    closed spec fn view(&self) -> Seq<i64> {
        self.assets@
    }
}

impl Wallet {
    pub fn get_currency(&self, currency: CryptoCurrency) -> (amount: i64)
        ensures
            amount == self@[currency.index()],
    {
        self.assets[currency.slot()]
    }

    /// The balances of a wallet, written out in the order of `CryptoCurrency`.
    pub open spec fn holding(
        doge: i64,
        sleep: i64,
        ether: i64,
        bitcoin: i64,
        crab: i64,
        explosion: i64,
    ) -> Seq<i64> {
        seq![doge, sleep, ether, bitcoin, crab, explosion]
    }

    pub fn new(doge: i64, sleep: i64, ether: i64, bitcoin: i64, crab: i64, explosion: i64) -> (res:
        Wallet)
        ensures
            res@ == Wallet::holding(doge, sleep, ether, bitcoin, crab, explosion),
    {
        let res = Wallet { assets: [doge, sleep, ether, bitcoin, crab, explosion] };
        assert(res@ =~= Wallet::holding(doge, sleep, ether, bitcoin, crab, explosion));
        res
    }

    /// What every new user starts with.
    pub fn get_newbie_welcome_pack() -> (res: Wallet)
        ensures
            res@ == Wallet::holding(1337, -690i64, 128, 0, 0, 1),
    {
        Wallet::new(1337, -690, 128, 0, 0, 1)
    }

    /// The same wallet with `amount` added to one balance, wrapping on overflow.
    pub fn add_currency(self, currency: CryptoCurrency, amount: i64) -> (res: Wallet)
        ensures
            res@ == self@.update(currency.index(), self@[currency.index()].wrapping_add(amount)),
    {
        let mut res = self;
        let idx = currency.slot();
        let sum = res.assets[idx].wrapping_add(amount);
        res.assets[idx] = sum;
        assert(res@ =~= self@.update(currency.index(), self@[currency.index()].wrapping_add(amount)));
        res
    }

    /// The balances after `other` is added, each wrapping on overflow.
    pub open spec fn plus(self, other: Wallet) -> Seq<i64> {
        Seq::new(6, |i: int| self@[i].wrapping_add(other@[i]))
    }

    /// The balances after `other` is taken away, each wrapping on overflow.
    pub open spec fn minus(self, other: Wallet) -> Seq<i64> {
        Seq::new(6, |i: int| self@[i].wrapping_sub(other@[i]))
    }

    /// Paying a cost that the wallet affords takes exactly the cost off every
    /// balance that is charged, and leaves no such balance that was at or
    /// above zero below it.
    pub proof fn lemma_afforded_cost_keeps_sign(self, cost: Wallet, i: int)
        requires
            self.affords(cost),
            0 <= i < 6,
            cost@[i] >= 0,
        ensures
            self.minus(cost)[i] == self@[i] - cost@[i],
            self@[i] >= 0 ==> self.minus(cost)[i] >= 0,
    {
    }

    /// A cost below zero is always afforded, and paying it adds to the balance.
    pub proof fn lemma_negative_cost_is_free(self, cost: Wallet)
        requires
            forall|i: int| 0 <= i < 6 ==> cost@[i] <= 0,
        ensures
            self.affords(cost),
    {
    }

    /// Whether every balance covers its cost; a cost of zero or less is always covered.
    pub open spec fn affords(self, cost: Wallet) -> bool {
        covers(self@, cost@)
    }

    /// The weighted sum of the four scoring balances, kept to 64 bits by wrapping.
    pub open spec fn base_score(self) -> int {
        wrap_to_i64(self@[0] * 3 - self@[1] + self@[2] * 420 + self@[3] * 35_995)
    }

    /// The score of a wallet: the base score times `1 + crab / 100`, rounded to the
    /// nearest integer (halves away from zero) and kept within 64 bits.
    pub open spec fn score(self) -> int {
        clamp_to_i64(round_hundredths(self.base_score() * (100 + self@[4])))
    }

    pub fn convert_to_score(&self) -> (score: i64)
        ensures
            score == self.score(),
    {
        let doge = self.assets[0] as i128;
        let sleep = self.assets[1] as i128;
        let ether = self.assets[2] as i128;
        let bitcoin = self.assets[3] as i128;
        let crab = self.assets[4] as i128;
        let total: i128 = doge * 3 - sleep + ether * 420 + bitcoin * 35_995;
        let base = wrap_i128_to_i64(total) as i128;
        let factor: i128 = 100 + crab;
        assert(-0x8000_0000_0000_0000 * 0x8000_0000_0000_0064 <= base * factor
            <= 0x8000_0000_0000_0000 * 0x8000_0000_0000_0064) by (nonlinear_arith)
            requires
                -0x8000_0000_0000_0000 <= base <= 0x7fff_ffff_ffff_ffff,
                -0x8000_0000_0000_0000 + 100 <= factor <= 0x7fff_ffff_ffff_ffff + 100,
        ;
        let scaled: i128 = base * factor;
        let rounded: i128 = if scaled >= 0 {
            (scaled + 50) / 100
        } else {
            -((-scaled + 50) / 100)
        };
        if rounded > i64::MAX as i128 {
            i64::MAX
        } else if rounded < i64::MIN as i128 {
            i64::MIN
        } else {
            rounded as i64
        }
    }

    pub fn can_afford(&self, cost: &Wallet) -> (ok: bool)
        ensures
            ok == self.affords(*cost),
    {
        let mut i: usize = 0;
        while i < 6
            invariant
                i <= 6,
                forall|j: int| 0 <= j < i ==> self@[j] >= cost@[j] || cost@[j] <= 0,
            decreases 6 - i,
        {
            if !(self.assets[i] >= cost.assets[i] || cost.assets[i] <= 0) {
                assert(!(self@[i as int] >= cost@[i as int] || cost@[i as int] <= 0));
                return false;
            }
            i += 1;
        }
        true
    }
}

impl std::ops::AddAssign<&Wallet> for Wallet {
    fn add_assign(&mut self, rhs: &Wallet)
        ensures
            final(self)@ == old(self).plus(*rhs),
    {
        let mut i: usize = 0;
        while i < 6
            invariant
                i <= 6,
                forall|j: int| 0 <= j < i ==> self@[j] == old(self)@[j].wrapping_add(rhs@[j]),
                forall|j: int| i <= j < 6 ==> self@[j] == old(self)@[j],
            decreases 6 - i,
        {
            let ghost before = self@;
            let sum = self.assets[i].wrapping_add(rhs.assets[i]);
            self.assets[i] = sum;
            assert(self@ =~= before.update(i as int, sum));
            i += 1;
        }
        assert(self@ =~= old(self).plus(*rhs));
    }
}

impl std::ops::SubAssign<&Wallet> for Wallet {
    fn sub_assign(&mut self, rhs: &Wallet)
        ensures
            final(self)@ == old(self).minus(*rhs),
    {
        let mut i: usize = 0;
        while i < 6
            invariant
                i <= 6,
                forall|j: int| 0 <= j < i ==> self@[j] == old(self)@[j].wrapping_sub(rhs@[j]),
                forall|j: int| i <= j < 6 ==> self@[j] == old(self)@[j],
            decreases 6 - i,
        {
            let ghost before = self@;
            let difference = self.assets[i].wrapping_sub(rhs.assets[i]);
            self.assets[i] = difference;
            assert(self@ =~= before.update(i as int, difference));
            i += 1;
        }
        assert(self@ =~= old(self).minus(*rhs));
    }
}

impl Default for Wallet {
    fn default() -> (res: Wallet)
        ensures
            res@ == Wallet::holding(0, 0, 0, 0, 0, 0),
    {
        Wallet::new(0, 0, 0, 0, 0, 0)
    }
}

/// The 64-bit signed value that agrees with `x` modulo 2^64.
pub open spec fn wrap_to_i64(x: int) -> int {
    let m = x % 0x1_0000_0000_0000_0000;
    if m >= 0x8000_0000_0000_0000 {
        m - 0x1_0000_0000_0000_0000
    } else {
        m
    }
}

/// The integer nearest to `x / 100`; a half rounds away from zero.
pub open spec fn round_hundredths(x: int) -> int {
    if x >= 0 {
        (x + 50) / 100
    } else {
        -((-x + 50) / 100)
    }
}

/// `x` where it fits in 64 bits, else the nearest bound.
pub open spec fn clamp_to_i64(x: int) -> int {
    if x > i64::MAX {
        i64::MAX as int
    } else if x < i64::MIN {
        i64::MIN as int
    } else {
        x
    }
}

fn wrap_i128_to_i64(x: i128) -> (r: i64)
    requires
        -0x1_0000_0000_0000_0000_0000 <= x <= 0x1_0000_0000_0000_0000_0000,
    ensures
        r == wrap_to_i64(x as int),
{
    let shifted: u128 = (x + 0x1_0000_0000_0000_0000_0000) as u128;
    let m: u128 = shifted % 0x1_0000_0000_0000_0000;
    assert(m == (x as int) % 0x1_0000_0000_0000_0000) by {
        vstd::arithmetic::div_mod::lemma_mod_multiples_vanish(
            0x1_0000,
            x as int,
            0x1_0000_0000_0000_0000,
        );
    }
    if m >= 0x8000_0000_0000_0000 {
        (m as i128 - 0x1_0000_0000_0000_0000) as i64
    } else {
        m as i64
    }
}

/// Whether every one of six balances covers its cost; a cost of zero or
/// less is always covered.
pub open spec fn covers(balances: Seq<i64>, costs: Seq<i64>) -> bool {
    forall|i: int| 0 <= i < 6 ==> balances[i] >= costs[i] || costs[i] <= 0
}

/// The four words a process offers as the answer to a challenge.
pub type Nonce = (u16, u16, u16, u16);

/// A 16-bit word as two bytes, low byte first.
pub open spec fn le_bytes_u16(v: u16) -> Seq<u8> {
    seq![(v % 256) as u8, (v / 256) as u8]
}

/// A 32-bit word as four bytes, low byte first.
pub open spec fn le_bytes_u32(v: u32) -> Seq<u8> {
    seq![
        (v % 256) as u8,
        (v / 256 % 256) as u8,
        (v / 65536 % 256) as u8,
        (v / 16777216) as u8,
    ]
}

/// The eight bytes of a nonce: its four words in order, each low byte first.
pub open spec fn nonce_bytes(nonce: Nonce) -> Seq<u8> {
    le_bytes_u16(nonce.0) + le_bytes_u16(nonce.1) + le_bytes_u16(nonce.2) + le_bytes_u16(nonce.3)
}

/// Appends a 16-bit word to `out`, low byte first.
pub fn push_le_u16(out: &mut Vec<u8>, v: u16)
    ensures
        final(out)@ == old(out)@ + le_bytes_u16(v),
{
    out.push((v % 256) as u8);
    out.push((v / 256) as u8);
    assert(out@ =~= old(out)@ + le_bytes_u16(v));
}

/// Appends a 32-bit word to `out`, low byte first.
pub fn push_le_u32(out: &mut Vec<u8>, v: u32)
    ensures
        final(out)@ == old(out)@ + le_bytes_u32(v),
{
    out.push((v % 256) as u8);
    out.push((v / 256 % 256) as u8);
    out.push((v / 65536 % 256) as u8);
    out.push((v / 16777216) as u8);
    assert(out@ =~= old(out)@ + le_bytes_u32(v));
}

/// Appends all of `bytes` to `out`.
pub fn push_bytes(out: &mut Vec<u8>, bytes: &[u8])
    ensures
        final(out)@ == old(out)@ + bytes@,
{
    let mut i: usize = 0;
    while i < bytes.len()
        invariant
            i <= bytes@.len(),
            out@ == old(out)@ + bytes@.subrange(0, i as int),
        decreases bytes@.len() - i,
    {
        out.push(bytes[i]);
        assert(out@ =~= old(out)@ + bytes@.subrange(0, i + 1));
        i += 1;
    }
    assert(bytes@.subrange(0, i as int) =~= bytes@);
}

fn nonce_to_bytes(nonce: Nonce) -> (out: Vec<u8>)
    ensures
        out@ == nonce_bytes(nonce),
{
    let mut out: Vec<u8> = Vec::new();
    push_le_u16(&mut out, nonce.0);
    push_le_u16(&mut out, nonce.1);
    push_le_u16(&mut out, nonce.2);
    push_le_u16(&mut out, nonce.3);
    assert(out@ =~= nonce_bytes(nonce));
    out
}

/// The SHA-256 digest of a byte string.
pub uninterp spec fn sha256_digest(data: Seq<u8>) -> Seq<u8>;

/// The 32-bit MurmurHash3 (x86 variant) of a byte string under a seed.
pub uninterp spec fn murmur3_x86_32(data: Seq<u8>, seed: u32) -> u32;

/// `Sha256::digest` of the `sha2` crate, copied into a vector. The digest is a
/// function of the input bytes alone, and the crate's output type fixes its
/// length at 32 bytes.
#[verifier::external_body]
fn sha256(data: &[u8]) -> (digest: Vec<u8>)
    ensures
        digest@ == sha256_digest(data@),
        digest@.len() == 32,
{
    <sha2::Sha256 as sha2::Digest>::digest(data).to_vec()
}

/// `murmurhash3_x86_32` of the `murmurhash3` crate. The hash is a function of
/// the bytes and the seed alone. The crate counts the length in 32 bits, so
/// longer inputs are left out.
#[verifier::external_body]
fn murmur3(data: &[u8], seed: u32) -> (hash: u32)
    requires
        data@.len() <= u32::MAX,
    ensures
        hash == murmur3_x86_32(data@, seed),
{
    murmurhash3::murmurhash3_x86_32(data, seed)
}

/// What every kind of challenge offers: an identity, a payload for the solver,
/// a reward, and a test of a proposed nonce.
pub trait CryptoChallenge {
    spec fn numeric_id(&self) -> u16;

    spec fn name(&self) -> Seq<char>;

    spec fn difficulty(&self) -> u16;

    spec fn challenge_data(&self) -> Seq<u8>;

    spec fn reward(&self) -> Seq<i64>;

    spec fn accepts(&self, nonce: Nonce) -> bool;

    fn get_numeric_id(&self) -> (id: u16)
        ensures
            id == self.numeric_id(),
    ;

    fn get_name(&self) -> (name: &'static str)
        ensures
            name@ == self.name(),
    ;

    /// Makes this a fresh challenge of the given difficulty; what the
    /// challenge asks for is drawn at random.
    fn generate(&mut self, difficulty: i64)
        ensures
            final(self).numeric_id() == old(self).numeric_id(),
            final(self).name() == old(self).name(),
    ;

    fn get_reward(&self) -> (reward: Wallet)
        ensures
            reward@ == self.reward(),
    ;

    fn get_difficulty(&self) -> (difficulty: u16)
        ensures
            difficulty == self.difficulty(),
    ;

    fn get_challenge_data(&self) -> (data: Vec<u8>)
        ensures
            data@ == self.challenge_data(),
    ;

    fn verify(&self, nonce: Nonce) -> (ok: bool)
        ensures
            ok == self.accepts(nonce),
    ;
}

/// The low 16 bits of a configured difficulty.
pub open spec fn difficulty_word(difficulty: i64) -> u16 {
    (difficulty as int % 0x1_0000) as u16
}

fn truncate_difficulty(difficulty: i64) -> (word: u16)
    ensures
        word == difficulty_word(difficulty),
{
    let shifted: i128 = difficulty as i128 + 0x8000_0000_0000_0000;
    assert(shifted % 0x1_0000 == (difficulty as int) % 0x1_0000) by {
        vstd::arithmetic::div_mod::lemma_mod_multiples_vanish(
            0x8000_0000_0000,
            difficulty as int,
            0x1_0000,
        );
    }
    ((shifted as u128) % 0x1_0000) as u16
}

/// Pays sleep back: solved by the fixed nonce `(0, 1, 2, 3)`.
#[derive(Clone, Copy, Debug)]
pub struct BedChallenge {
    difficulty: i64,
}

impl BedChallenge {
    pub closed spec fn level(self) -> i64 {
        self.difficulty
    }

    pub fn new(difficulty: i64) -> (res: BedChallenge)
        ensures
            res.level() == difficulty,
    {
        BedChallenge { difficulty }
    }
}

impl Default for BedChallenge {
    fn default() -> (res: BedChallenge)
        ensures
            res.level() == 0,
    {
        BedChallenge { difficulty: 0 }
    }
}

impl CryptoChallenge for BedChallenge {
    open spec fn numeric_id(&self) -> u16 {
        0xbed
    }

    open spec fn name(&self) -> Seq<char> {
        "bed"@
    }

    open spec fn difficulty(&self) -> u16 {
        difficulty_word(self.level())
    }

    open spec fn challenge_data(&self) -> Seq<u8> {
        Seq::empty()
    }

    open spec fn reward(&self) -> Seq<i64> {
        Wallet::holding(0, 0i64.wrapping_sub(self.level()), 0, 0, 0, 0)
    }

    open spec fn accepts(&self, nonce: Nonce) -> bool {
        nonce.0 == 0 && nonce.1 == 1 && nonce.2 == 2 && nonce.3 == 3
    }

    fn get_numeric_id(&self) -> (id: u16) {
        0xbed
    }

    fn get_name(&self) -> (name: &'static str)
        ensures
            name == "bed",
    {
        "bed"
    }

    fn generate(&mut self, difficulty: i64)
        ensures
            final(self).level() == difficulty,
    {
        self.difficulty = difficulty;
    }

    fn get_reward(&self) -> (reward: Wallet) {
        Wallet::new(0, 0i64.wrapping_sub(self.difficulty), 0, 0, 0, 0)
    }

    fn get_difficulty(&self) -> (difficulty: u16) {
        truncate_difficulty(self.difficulty)
    }

    fn get_challenge_data(&self) -> (data: Vec<u8>) {
        Vec::new()
    }

    fn verify(&self, nonce: Nonce) -> (ok: bool) {
        nonce.0 == 0 && nonce.1 == 1 && nonce.2 == 2 && nonce.3 == 3
    }
}

/// Pays doge: solved by repeating the four words of the challenge.
#[derive(Clone, Copy, Debug)]
pub struct DogChallenge {
    difficulty: i64,
    challenge: Nonce,
}

impl DogChallenge {
    pub closed spec fn level(self) -> i64 {
        self.difficulty
    }

    /// The four words to be repeated.
    pub closed spec fn secret(self) -> Nonce {
        self.challenge
    }

    pub fn new(difficulty: i64, challenge: Nonce) -> (res: DogChallenge)
        ensures
            res.level() == difficulty,
            res.secret() == challenge,
    {
        DogChallenge { difficulty, challenge }
    }
}

impl Default for DogChallenge {
    fn default() -> (res: DogChallenge)
        ensures
            res.level() == 0,
            res.secret() == (0u16, 0u16, 0u16, 0u16),
    {
        DogChallenge { difficulty: 0, challenge: (0, 0, 0, 0) }
    }
}

impl CryptoChallenge for DogChallenge {
    open spec fn numeric_id(&self) -> u16 {
        0x420
    }

    open spec fn name(&self) -> Seq<char> {
        "dog"@
    }

    open spec fn difficulty(&self) -> u16 {
        difficulty_word(self.level())
    }

    open spec fn challenge_data(&self) -> Seq<u8> {
        nonce_bytes(self.secret())
    }

    open spec fn reward(&self) -> Seq<i64> {
        Wallet::holding(self.level(), 1, 0, 0, 0, 0)
    }

    open spec fn accepts(&self, nonce: Nonce) -> bool {
        nonce == self.secret()
    }

    fn get_numeric_id(&self) -> (id: u16) {
        0x420
    }

    fn get_name(&self) -> (name: &'static str)
        ensures
            name == "dog",
    {
        "dog"
    }

    fn generate(&mut self, difficulty: i64)
        ensures
            final(self).level() == difficulty,
    {
        self.difficulty = difficulty;
        self.challenge = (random_u16(), random_u16(), random_u16(), random_u16());
    }

    fn get_reward(&self) -> (reward: Wallet) {
        Wallet::new(self.difficulty, 1, 0, 0, 0, 0)
    }

    fn get_difficulty(&self) -> (difficulty: u16) {
        truncate_difficulty(self.difficulty)
    }

    fn get_challenge_data(&self) -> (data: Vec<u8>) {
        nonce_to_bytes(self.challenge)
    }

    fn verify(&self, nonce: Nonce) -> (ok: bool) {
        nonce.0 == self.challenge.0 && nonce.1 == self.challenge.1 && nonce.2 == self.challenge.2
            && nonce.3 == self.challenge.3
    }
}

/// Pays ether: solved by the inverse of an odd word modulo 2^16.
#[derive(Clone, Copy, Debug)]
pub struct EtherChallenge {
    difficulty: i64,
    challenge: u16,
}

impl EtherChallenge {
    pub closed spec fn level(self) -> i64 {
        self.difficulty
    }

    /// The word to be inverted.
    pub closed spec fn factor(self) -> u16 {
        self.challenge
    }

    /// A challenge to invert `word` with its lowest bit set.
    pub fn new(difficulty: i64, word: u16) -> (res: EtherChallenge)
        ensures
            res.level() == difficulty,
            res.factor() == word | 1,
            res.factor() % 2 == 1,
    {
        assert((word | 1) % 2 == 1) by (bit_vector);
        EtherChallenge { difficulty, challenge: word | 1 }
    }
}

impl Default for EtherChallenge {
    fn default() -> (res: EtherChallenge)
        ensures
            res.level() == 0,
            res.factor() == 0,
    {
        EtherChallenge { difficulty: 0, challenge: 0 }
    }
}

impl CryptoChallenge for EtherChallenge {
    open spec fn numeric_id(&self) -> u16 {
        0x1337
    }

    open spec fn name(&self) -> Seq<char> {
        "ether"@
    }

    open spec fn difficulty(&self) -> u16 {
        difficulty_word(self.level())
    }

    open spec fn challenge_data(&self) -> Seq<u8> {
        le_bytes_u16(self.factor())
    }

    open spec fn reward(&self) -> Seq<i64> {
        Wallet::holding(0, 3, self.level(), 0, 0, 0)
    }

    open spec fn accepts(&self, nonce: Nonce) -> bool {
        (nonce.0 * self.factor()) % 0x1_0000 == 1 && nonce.1 == 0 && nonce.2 == 0 && nonce.3 == 0
    }

    fn get_numeric_id(&self) -> (id: u16) {
        0x1337
    }

    fn get_name(&self) -> (name: &'static str)
        ensures
            name == "ether",
    {
        "ether"
    }

    fn generate(&mut self, difficulty: i64)
        ensures
            final(self).level() == difficulty,
            final(self).factor() % 2 == 1,
    {
        *self = EtherChallenge::new(difficulty, random_u16());
    }

    fn get_reward(&self) -> (reward: Wallet) {
        Wallet::new(0, 3, self.difficulty, 0, 0, 0)
    }

    fn get_difficulty(&self) -> (difficulty: u16) {
        truncate_difficulty(self.difficulty)
    }

    fn get_challenge_data(&self) -> (data: Vec<u8>) {
        let mut data: Vec<u8> = Vec::new();
        push_le_u16(&mut data, self.challenge);
        data
    }

    fn verify(&self, nonce: Nonce) -> (ok: bool) {
        nonce.0.wrapping_mul(self.challenge) == 1 && nonce.1 == 0 && nonce.2 == 0 && nonce.3 == 0
    }
}

fn random_block() -> (block: [u8; 32]) {
    let mut block = [0u8; 32];
    let mut i: usize = 0;
    while i < 32
        invariant
            i <= 32,
        decreases 32 - i,
    {
        block[i] = random_u8();
        i += 1;
    }
    block
}

/// Pays bitcoin: solved by the first eight bytes of the SHA-256 digest of the
/// 32-byte challenge.
#[derive(Clone, Copy, Debug)]
pub struct BabyBtcChallenge {
    challenge: [u8; 32],
}

impl BabyBtcChallenge {
    /// The 32 bytes to be hashed.
    pub closed spec fn block(self) -> Seq<u8> {
        self.challenge@
    }

    pub fn new(challenge: [u8; 32]) -> (res: BabyBtcChallenge)
        ensures
            res.block() == challenge@,
    {
        BabyBtcChallenge { challenge }
    }

    /// The challenge is 32 bytes long.
    pub proof fn lemma_block_len(self)
        ensures
            self.block().len() == 32,
    {
    }

    /// Whether a digest starts with the eight bytes of the nonce.
    pub fn opens_with(digest: &[u8], nonce: Nonce) -> (ok: bool)
        ensures
            ok == (digest@.len() >= 8 && digest@.subrange(0, 8) == nonce_bytes(nonce)),
    {
        if digest.len() < 8 {
            return false;
        }
        let wanted = nonce_to_bytes(nonce);
        let mut i: usize = 0;
        while i < 8
            invariant
                i <= 8,
                digest@.len() >= 8,
                wanted@ == nonce_bytes(nonce),
                forall|j: int| 0 <= j < i ==> digest@[j] == wanted@[j],
            decreases 8 - i,
        {
            if digest[i] != wanted[i] {
                assert(digest@.subrange(0, 8)[i as int] != wanted@[i as int]);
                return false;
            }
            i += 1;
        }
        assert(digest@.subrange(0, 8) =~= nonce_bytes(nonce));
        true
    }
}

impl Default for BabyBtcChallenge {
    fn default() -> (res: BabyBtcChallenge)
        ensures
            res.block() == Seq::new(32, |i: int| 0u8),
    {
        let res = BabyBtcChallenge { challenge: [0u8; 32] };
        assert(res.block() =~= Seq::new(32, |i: int| 0u8));
        res
    }
}

impl CryptoChallenge for BabyBtcChallenge {
    open spec fn numeric_id(&self) -> u16 {
        0xb7c
    }

    open spec fn name(&self) -> Seq<char> {
        "btc"@
    }

    open spec fn difficulty(&self) -> u16 {
        1
    }

    open spec fn challenge_data(&self) -> Seq<u8> {
        self.block()
    }

    open spec fn reward(&self) -> Seq<i64> {
        Wallet::holding(0, 0, 0, 1, 0, 0)
    }

    open spec fn accepts(&self, nonce: Nonce) -> bool {
        sha256_digest(self.block()).subrange(0, 8) == nonce_bytes(nonce)
    }

    fn get_numeric_id(&self) -> (id: u16) {
        0xb7c
    }

    fn get_name(&self) -> (name: &'static str)
        ensures
            name == "btc",
    {
        "btc"
    }

    fn generate(&mut self, _difficulty: i64) {
        self.challenge = random_block();
    }

    fn get_reward(&self) -> (reward: Wallet) {
        Wallet::new(0, 0, 0, 1, 0, 0)
    }

    fn get_difficulty(&self) -> (difficulty: u16) {
        1
    }

    fn get_challenge_data(&self) -> (data: Vec<u8>) {
        let mut data: Vec<u8> = Vec::new();
        push_bytes(&mut data, self.challenge.as_slice());
        data
    }

    fn verify(&self, nonce: Nonce) -> (ok: bool) {
        let digest = sha256(self.challenge.as_slice());
        BabyBtcChallenge::opens_with(digest.as_slice(), nonce)
    }
}

/// Pays crab coin: solved by a nonce that, put in front of the 32-byte
/// challenge, hashes to the given word under the given seed.
#[derive(Clone, Copy, Debug)]
pub struct CrabChallenge {
    seed: u32,
    hash: u32,
    challenge: [u8; 32],
}

impl CrabChallenge {
    pub closed spec fn salt(self) -> u32 {
        self.seed
    }

    /// The hash a solution must produce.
    pub closed spec fn target(self) -> u32 {
        self.hash
    }

    pub closed spec fn block(self) -> Seq<u8> {
        self.challenge@
    }

    pub fn new(seed: u32, hash: u32, challenge: [u8; 32]) -> (res: CrabChallenge)
        ensures
            res.salt() == seed,
            res.target() == hash,
            res.block() == challenge@,
    {
        CrabChallenge { seed, hash, challenge }
    }

    /// The challenge is 32 bytes long.
    pub proof fn lemma_block_len(self)
        ensures
            self.block().len() == 32,
    {
    }

    /// The 40 bytes that are hashed for a nonce: the nonce, then the challenge.
    pub fn sealed_input(&self, nonce: Nonce) -> (data: Vec<u8>)
        ensures
            data@ == nonce_bytes(nonce) + self.block(),
    {
        let mut data = nonce_to_bytes(nonce);
        push_bytes(&mut data, self.challenge.as_slice());
        data
    }

    /// Whether a computed hash is the one this challenge asks for.
    pub fn hits_target(&self, hash: u32) -> (ok: bool)
        ensures
            ok == (hash == self.target()),
    {
        hash == self.hash
    }
}

impl Default for CrabChallenge {
    fn default() -> (res: CrabChallenge)
        ensures
            res.salt() == 0,
            res.target() == 0,
            res.block() == Seq::new(32, |i: int| 0u8),
    {
        let res = CrabChallenge { seed: 0, hash: 0, challenge: [0u8; 32] };
        assert(res.block() =~= Seq::new(32, |i: int| 0u8));
        res
    }
}

impl CryptoChallenge for CrabChallenge {
    open spec fn numeric_id(&self) -> u16 {
        0xf980
    }

    open spec fn name(&self) -> Seq<char> {
        "crab"@
    }

    open spec fn difficulty(&self) -> u16 {
        1
    }

    open spec fn challenge_data(&self) -> Seq<u8> {
        le_bytes_u32(self.salt()) + le_bytes_u32(self.target()) + self.block()
    }

    open spec fn reward(&self) -> Seq<i64> {
        Wallet::holding(0, 0, 0, 0, 1, 0)
    }

    open spec fn accepts(&self, nonce: Nonce) -> bool {
        murmur3_x86_32(nonce_bytes(nonce) + self.block(), self.salt()) == self.target()
    }

    fn get_numeric_id(&self) -> (id: u16) {
        0xf980
    }

    fn get_name(&self) -> (name: &'static str)
        ensures
            name == "crab",
    {
        "crab"
    }

    fn generate(&mut self, _difficulty: i64) {
        self.challenge = random_block();
        self.seed = random_u32();
        self.hash = random_u32();
    }

    fn get_reward(&self) -> (reward: Wallet) {
        Wallet::new(0, 0, 0, 0, 1, 0)
    }

    fn get_difficulty(&self) -> (difficulty: u16) {
        1
    }

    fn get_challenge_data(&self) -> (data: Vec<u8>) {
        let mut data: Vec<u8> = Vec::new();
        push_le_u32(&mut data, self.seed);
        push_le_u32(&mut data, self.hash);
        push_bytes(&mut data, self.challenge.as_slice());
        data
    }

    fn verify(&self, nonce: Nonce) -> (ok: bool) {
        let data = self.sealed_input(nonce);
        let hash = murmur3(data.as_slice(), self.seed);
        self.hits_target(hash)
    }
}

/// A challenge of any of the five kinds.
#[derive(Clone, Copy, Debug)]
pub enum Challenge {
    Bed(BedChallenge),
    Dog(DogChallenge),
    Ether(EtherChallenge),
    Btc(BabyBtcChallenge),
    Crab(CrabChallenge),
}

impl CryptoChallenge for Challenge {
    open spec fn numeric_id(&self) -> u16 {
        match *self {
            Challenge::Bed(c) => c.numeric_id(),
            Challenge::Dog(c) => c.numeric_id(),
            Challenge::Ether(c) => c.numeric_id(),
            Challenge::Btc(c) => c.numeric_id(),
            Challenge::Crab(c) => c.numeric_id(),
        }
    }

    open spec fn name(&self) -> Seq<char> {
        match *self {
            Challenge::Bed(c) => c.name(),
            Challenge::Dog(c) => c.name(),
            Challenge::Ether(c) => c.name(),
            Challenge::Btc(c) => c.name(),
            Challenge::Crab(c) => c.name(),
        }
    }

    open spec fn difficulty(&self) -> u16 {
        match *self {
            Challenge::Bed(c) => c.difficulty(),
            Challenge::Dog(c) => c.difficulty(),
            Challenge::Ether(c) => c.difficulty(),
            Challenge::Btc(c) => c.difficulty(),
            Challenge::Crab(c) => c.difficulty(),
        }
    }

    open spec fn challenge_data(&self) -> Seq<u8> {
        match *self {
            Challenge::Bed(c) => c.challenge_data(),
            Challenge::Dog(c) => c.challenge_data(),
            Challenge::Ether(c) => c.challenge_data(),
            Challenge::Btc(c) => c.challenge_data(),
            Challenge::Crab(c) => c.challenge_data(),
        }
    }

    open spec fn reward(&self) -> Seq<i64> {
        match *self {
            Challenge::Bed(c) => c.reward(),
            Challenge::Dog(c) => c.reward(),
            Challenge::Ether(c) => c.reward(),
            Challenge::Btc(c) => c.reward(),
            Challenge::Crab(c) => c.reward(),
        }
    }

    open spec fn accepts(&self, nonce: Nonce) -> bool {
        match *self {
            Challenge::Bed(c) => c.accepts(nonce),
            Challenge::Dog(c) => c.accepts(nonce),
            Challenge::Ether(c) => c.accepts(nonce),
            Challenge::Btc(c) => c.accepts(nonce),
            Challenge::Crab(c) => c.accepts(nonce),
        }
    }

    fn get_numeric_id(&self) -> (id: u16) {
        match self {
            Challenge::Bed(c) => c.get_numeric_id(),
            Challenge::Dog(c) => c.get_numeric_id(),
            Challenge::Ether(c) => c.get_numeric_id(),
            Challenge::Btc(c) => c.get_numeric_id(),
            Challenge::Crab(c) => c.get_numeric_id(),
        }
    }

    fn get_name(&self) -> (name: &'static str)
        ensures
            name == self.label(),
    {
        match self {
            Challenge::Bed(c) => c.get_name(),
            Challenge::Dog(c) => c.get_name(),
            Challenge::Ether(c) => c.get_name(),
            Challenge::Btc(c) => c.get_name(),
            Challenge::Crab(c) => c.get_name(),
        }
    }

    fn generate(&mut self, difficulty: i64)
        ensures
            final(self).same_kind(*old(self)),
            final(self).asked_level(difficulty),
    {
        match self {
            Challenge::Bed(c) => c.generate(difficulty),
            Challenge::Dog(c) => c.generate(difficulty),
            Challenge::Ether(c) => c.generate(difficulty),
            Challenge::Btc(c) => c.generate(difficulty),
            Challenge::Crab(c) => c.generate(difficulty),
        }
    }

    fn get_reward(&self) -> (reward: Wallet) {
        match self {
            Challenge::Bed(c) => c.get_reward(),
            Challenge::Dog(c) => c.get_reward(),
            Challenge::Ether(c) => c.get_reward(),
            Challenge::Btc(c) => c.get_reward(),
            Challenge::Crab(c) => c.get_reward(),
        }
    }

    fn get_difficulty(&self) -> (difficulty: u16) {
        match self {
            Challenge::Bed(c) => c.get_difficulty(),
            Challenge::Dog(c) => c.get_difficulty(),
            Challenge::Ether(c) => c.get_difficulty(),
            Challenge::Btc(c) => c.get_difficulty(),
            Challenge::Crab(c) => c.get_difficulty(),
        }
    }

    fn get_challenge_data(&self) -> (data: Vec<u8>) {
        match self {
            Challenge::Bed(c) => c.get_challenge_data(),
            Challenge::Dog(c) => c.get_challenge_data(),
            Challenge::Ether(c) => c.get_challenge_data(),
            Challenge::Btc(c) => c.get_challenge_data(),
            Challenge::Crab(c) => c.get_challenge_data(),
        }
    }

    fn verify(&self, nonce: Nonce) -> (ok: bool) {
        match self {
            Challenge::Bed(c) => c.verify(nonce),
            Challenge::Dog(c) => c.verify(nonce),
            Challenge::Ether(c) => c.verify(nonce),
            Challenge::Btc(c) => c.verify(nonce),
            Challenge::Crab(c) => c.verify(nonce),
        }
    }
}

impl Challenge {
    /// The name of the kind, as a string.
    pub open spec fn label(self) -> &'static str {
        match self {
            Challenge::Bed(_) => "bed",
            Challenge::Dog(_) => "dog",
            Challenge::Ether(_) => "ether",
            Challenge::Btc(_) => "btc",
            Challenge::Crab(_) => "crab",
        }
    }

    /// The data of a challenge is at most 40 bytes long.
    pub proof fn lemma_data_is_short(self)
        ensures
            self.challenge_data().len() <= 40,
    {
        match self {
            Challenge::Btc(c) => c.lemma_block_len(),
            Challenge::Crab(c) => c.lemma_block_len(),
            _ => {},
        }
    }

    /// Whether two challenges are of the same kind.
    pub open spec fn same_kind(self, other: Challenge) -> bool {
        match (self, other) {
            (Challenge::Bed(_), Challenge::Bed(_)) => true,
            (Challenge::Dog(_), Challenge::Dog(_)) => true,
            (Challenge::Ether(_), Challenge::Ether(_)) => true,
            (Challenge::Btc(_), Challenge::Btc(_)) => true,
            (Challenge::Crab(_), Challenge::Crab(_)) => true,
            _ => false,
        }
    }

    /// Whether the challenge carries the asked difficulty, for the kinds that
    /// carry one; the others always have difficulty 1.
    pub open spec fn asked_level(self, difficulty: i64) -> bool {
        match self {
            Challenge::Bed(c) => c.level() == difficulty,
            Challenge::Dog(c) => c.level() == difficulty,
            Challenge::Ether(c) => c.level() == difficulty && c.factor() % 2 == 1,
            Challenge::Btc(_) => true,
            Challenge::Crab(_) => true,
        }
    }
}

/// Whether two strings hold the same characters.
pub fn same_text(a: &str, b: &str) -> (same: bool)
    ensures
        same == (a@ == b@),
{
    let len = a.unicode_len();
    if len != b.unicode_len() {
        return false;
    }
    let mut i: usize = 0;
    while i < len
        invariant
            i <= len,
            len == a@.len(),
            len == b@.len(),
            forall|j: int| 0 <= j < i ==> a@[j] == b@[j],
        decreases len - i,
    {
        if a.get_char(i) != b.get_char(i) {
            return false;
        }
        i += 1;
    }
    assert(a@ =~= b@);
    true
}

/// Whether a challenge kind is registered under `name`.
pub open spec fn is_challenge_name(name: Seq<char>) -> bool {
    name == "bed"@ || name == "dog"@ || name == "ether"@ || name == "btc"@ || name == "crab"@
}

/// A freshly generated challenge of the kind registered under `name`, if there
/// is one.
pub fn generate_crypto_challenge(name: &str, difficulty: i64) -> (res: Option<Challenge>)
    ensures
        res is Some <==> is_challenge_name(name@),
        res matches Some(c) ==> c.name() == name@ && c.asked_level(difficulty),
{
    let mut challenge = if same_text(name, "bed") {
        Challenge::Bed(BedChallenge::default())
    } else if same_text(name, "dog") {
        Challenge::Dog(DogChallenge::default())
    } else if same_text(name, "ether") {
        Challenge::Ether(EtherChallenge::default())
    } else if same_text(name, "btc") {
        Challenge::Btc(BabyBtcChallenge::default())
    } else if same_text(name, "crab") {
        Challenge::Crab(CrabChallenge::default())
    } else {
        return None;
    };
    challenge.generate(difficulty);
    Some(challenge)
}

} // verus!
