//! The configuration of a game, as the engine takes it.

use crate::game::map::Location;
use crate::vm::emulator::{BYTECODE_SIZE, MEMORY_SIZE};
use vstd::prelude::*;

verus! {

/// Why a configuration could not be used.
#[derive(Debug)]
pub struct ConfigIoError {
    pub message: String,
}

/// A player as the configuration names them: where the two images of their
/// first process are kept, who they are, and where they start.
#[derive(Debug)]
pub struct RawUserConfiguration {
    pub initd_bytecode: String,
    pub initd_memory: String,
    pub uid: u16,
    pub spawn_point: Location,
}

/// A player with the two images of their first process loaded.
#[derive(Debug)]
pub struct UserConfiguration {
    pub initd_memory: Vec<u8>,
    pub initd_bytecode: Vec<u8>,
    pub uid: u16,
    pub spawn_point: Location,
}

/// The odds that stand for certainty: odds count chances in 2^53.
pub const CERTAIN: u64 = 0x20_0000_0000_0000;

/// How one kind of challenge appears on the map: for each pair of a
/// difficulty and odds, a challenge of that difficulty is tried once per
/// tick with those odds.
#[derive(Debug)]
pub struct CryptoSpawn {
    pub name: String,
    pub distributions: Vec<(i64, u64)>,
}

#[derive(Debug)]
pub struct KernelConfiguration {
    pub max_processes: usize,
    pub initd_lifetime: u32,
    pub default_nice: u16,
    pub crypto_spawn: Vec<CryptoSpawn>,
}

#[derive(Debug)]
pub struct GameConfiguration {
    pub user_configs: Vec<RawUserConfiguration>,
    pub default_nice: u16,
    pub initd_lifetime: u32,
    pub max_processes: usize,
    pub mapdata_path: String,
    pub crypto_spawn: Vec<CryptoSpawn>,
}

/// `format!` on the text of the complaint about a file of the wrong size.
#[verifier::external_body]
fn size_complaint(size: usize, path: &String) -> (message: String) {
    format!("Incorrect file size {} for file {:?}", size, path)
}

impl CryptoSpawn {
    /// The name and the pairs, as plain values.
    pub open spec fn content(&self) -> (Seq<char>, Seq<(i64, u64)>) {
        (self.name@, self.distributions@)
    }

    pub fn duplicate(&self) -> (res: CryptoSpawn)
        ensures
            res.content() == self.content(),
    {
        let mut distributions: Vec<(i64, u64)> = Vec::new();
        let mut i: usize = 0;
        while i < self.distributions.len()
            invariant
                i <= self.distributions@.len(),
                distributions@ == self.distributions@.subrange(0, i as int),
            decreases self.distributions@.len() - i,
        {
            let pair = self.distributions[i];
            distributions.push(pair);
            assert(distributions@ =~= self.distributions@.subrange(0, i + 1));
            i += 1;
        }
        assert(distributions@ =~= self.distributions@);
        CryptoSpawn { name: self.name.clone(), distributions }
    }
}

impl UserConfiguration {
    /// The player with the images that were read for them, if both images
    /// have the size that the machine asks for.
    pub fn from_images(raw: &RawUserConfiguration, memory: Vec<u8>, bytecode: Vec<u8>) -> (res:
        Result<UserConfiguration, ConfigIoError>)
        ensures
            res is Ok <==> memory@.len() == 65536 && bytecode@.len() == 65536,
            res matches Ok(user) ==> {
                &&& user.initd_memory@ == memory@
                &&& user.initd_bytecode@ == bytecode@
                &&& user.uid == raw.uid
                &&& user.spawn_point == raw.spawn_point
            },
    {
        if memory.len() != MEMORY_SIZE {
            return Err(ConfigIoError { message: size_complaint(memory.len(), &raw.initd_memory) });
        }
        if bytecode.len() != BYTECODE_SIZE {
            return Err(
                ConfigIoError { message: size_complaint(bytecode.len(), &raw.initd_bytecode) },
            );
        }
        Ok(
            UserConfiguration {
                initd_memory: memory,
                initd_bytecode: bytecode,
                uid: raw.uid,
                spawn_point: raw.spawn_point,
            },
        )
    }
}

impl GameConfiguration {
    /// The part of the configuration that the kernel works with.
    pub fn get_kernel_config(&self) -> (res: KernelConfiguration)
        ensures
            res.max_processes == self.max_processes,
            res.initd_lifetime == self.initd_lifetime,
            res.default_nice == self.default_nice,
            res.crypto_spawn@.len() == self.crypto_spawn@.len(),
            forall|i: int|
                0 <= i < res.crypto_spawn@.len() ==> (#[trigger] res.crypto_spawn@[i]).content()
                    == self.crypto_spawn@[i].content(),
    {
        let mut crypto_spawn: Vec<CryptoSpawn> = Vec::new();
        let mut i: usize = 0;
        while i < self.crypto_spawn.len()
            invariant
                i <= self.crypto_spawn@.len(),
                crypto_spawn@.len() == i,
                forall|j: int|
                    0 <= j < i ==> (#[trigger] crypto_spawn@[j]).content()
                        == self.crypto_spawn@[j].content(),
            decreases self.crypto_spawn@.len() - i,
        {
            crypto_spawn.push(self.crypto_spawn[i].duplicate());
            i += 1;
        }
        KernelConfiguration {
            max_processes: self.max_processes,
            initd_lifetime: self.initd_lifetime,
            default_nice: self.default_nice,
            crypto_spawn,
        }
    }
}

} // verus!
