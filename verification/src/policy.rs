//! The hashing policy: which key-derivation function runs, and at what cost.

use crate::errors::ConfigurationError;
use vstd::prelude::*;

verus! {

/// The largest number of lanes the key-derivation function runs with.
pub const MAX_LANES: u32 = 0x00FF_FFFF;

/// The number of memory blocks that each lane needs at least.
pub const BLOCKS_PER_LANE: u32 = 8;

/// The size in bytes of one memory block; the memory cost counts such blocks.
pub const BLOCK_BYTES: u64 = 1024;

/// How the key-derivation function walks its memory.
#[derive(Clone, Copy, Debug, PartialEq, Eq, Structural)]
pub enum Variant {
    /// Data-dependent addressing.
    Argon2d,
    /// Data-independent addressing.
    Argon2i,
    /// Data-independent addressing in the first half pass, data-dependent after it.
    Argon2id,
}

/// The revision of the key-derivation function.
#[derive(Clone, Copy, Debug, PartialEq, Eq, Structural)]
pub enum Version {
    /// Revision 1.0, written `16` in a record.
    Version10,
    /// Revision 1.3, written `19` in a record.
    Version13,
}

impl Variant {
    /// The variant's name as it stands in a record.
    pub open spec fn name(self) -> Seq<u8> {
        match self {
            Variant::Argon2d => seq![97u8, 114u8, 103u8, 111u8, 110u8, 50u8, 100u8],
            Variant::Argon2i => seq![97u8, 114u8, 103u8, 111u8, 110u8, 50u8, 105u8],
            Variant::Argon2id => seq![97u8, 114u8, 103u8, 111u8, 110u8, 50u8, 105u8, 100u8],
        }
    }

    /// The number by which the key-derivation function knows the variant.
    pub open spec fn code(self) -> u32 {
        match self {
            Variant::Argon2d => 0,
            Variant::Argon2i => 1,
            Variant::Argon2id => 2,
        }
    }

    /// Appends the variant's name to `out`.
    pub fn push_name(self, out: &mut Vec<u8>)
        ensures
            final(out)@ == old(out)@ + self.name(),
    {
        out.push(97);
        out.push(114);
        out.push(103);
        out.push(111);
        out.push(110);
        out.push(50);
        match self {
            Variant::Argon2d => {
                out.push(100);
            },
            Variant::Argon2i => {
                out.push(105);
            },
            Variant::Argon2id => {
                out.push(105);
                out.push(100);
            },
        }
        assert(out@ =~= old(out)@ + self.name());
    }

    /// The variant that `text` names, if it names one.
    pub fn from_name(text: &[u8]) -> (r: Option<Variant>)
        ensures
            match r {
                Some(v) => text@ == v.name(),
                None => forall|v: Variant| text@ != #[trigger] v.name(),
            },
    {
        let len = text.len();
        if len < 7 || text[0] != 97 || text[1] != 114 || text[2] != 103 || text[3] != 111
            || text[4] != 110 || text[5] != 50 {
            proof {
                assert forall|v: Variant| text@ != #[trigger] v.name() by {
                    if text@ == v.name() {
                        assert(text@[0] == 97 && text@[1] == 114 && text@[2] == 103);
                        assert(text@[3] == 111 && text@[4] == 110 && text@[5] == 50);
                    }
                }
            }
            return None;
        }
        if len == 7 && text[6] == 100 {
            assert(text@ =~= Variant::Argon2d.name());
            Some(Variant::Argon2d)
        } else if len == 7 && text[6] == 105 {
            assert(text@ =~= Variant::Argon2i.name());
            Some(Variant::Argon2i)
        } else if len == 8 && text[6] == 105 && text[7] == 100 {
            assert(text@ =~= Variant::Argon2id.name());
            Some(Variant::Argon2id)
        } else {
            proof {
                assert forall|v: Variant| text@ != #[trigger] v.name() by {
                    if text@ == v.name() {
                        assert(text@[6] == v.name()[6]);
                        if len == 8 {
                            assert(text@[7] == v.name()[7]);
                        }
                    }
                }
            }
            None
        }
    }
}

impl Version {
    /// The number by which a record and the key-derivation function know the revision.
    pub open spec fn number(self) -> u32 {
        match self {
            Version::Version10 => 16,
            Version::Version13 => 19,
        }
    }

    /// The revision's number.
    pub fn to_number(self) -> (n: u32)
        ensures
            n == self.number(),
    {
        match self {
            Version::Version10 => 16,
            Version::Version13 => 19,
        }
    }

    /// The revision with the number `n`, if there is one.
    pub fn from_number(n: u32) -> (r: Option<Version>)
        ensures
            match r {
                Some(v) => n == v.number(),
                None => forall|v: Version| n != #[trigger] v.number(),
            },
    {
        if n == 16 {
            Some(Version::Version10)
        } else if n == 19 {
            Some(Version::Version13)
        } else {
            None
        }
    }
}

/// The cost parameters as plain values: what a policy holds and a record carries.
#[derive(Clone, Copy, Debug, PartialEq, Eq)]
pub struct Parameters {
    pub variant: Variant,
    pub version: Version,
    pub memory_cost: u32,
    pub time_cost: u32,
    pub lanes: u32,
}

impl Parameters {
    /// The first rule that the parameters break, if they break one.
    ///
    /// Lanes come first, then memory, then time.
    pub open spec fn fault(self) -> Option<ConfigurationError> {
        if self.lanes < 1 {
            Some(ConfigurationError::LanesTooFew)
        } else if self.lanes > MAX_LANES {
            Some(ConfigurationError::LanesTooMany)
        } else if self.memory_cost < BLOCKS_PER_LANE * self.lanes {
            Some(ConfigurationError::MemoryTooLittle)
        } else if self.memory_cost * BLOCK_BYTES > isize::MAX {
            Some(ConfigurationError::MemoryTooMuch)
        } else if self.time_cost < 1 {
            Some(ConfigurationError::TimeTooSmall)
        } else {
            None
        }
    }

    /// Whether the key-derivation function can run with these parameters here.
    pub open spec fn valid(self) -> bool {
        &&& 1 <= self.lanes <= MAX_LANES
        &&& self.memory_cost >= BLOCKS_PER_LANE * self.lanes
        &&& self.memory_cost * BLOCK_BYTES <= isize::MAX
        &&& self.time_cost >= 1
    }

    /// Parameters are valid exactly when they break no rule.
    pub proof fn lemma_valid_iff_faultless(self)
        ensures
            self.valid() <==> self.fault() is None,
    {
    }
}

/// Cost parameters that were checked: the policy under which passwords are hashed.
///
/// A policy is made once, from settings, and never changes. Every policy is
/// valid: one that the key-derivation function could not run with is refused
/// when it is made.
#[derive(Clone, Copy, Debug, PartialEq, Eq)]
pub struct HashingPolicy {
    variant: Variant,
    version: Version,
    memory_cost: u32,
    time_cost: u32,
    lanes: u32,
}

impl View for HashingPolicy {
    type V = Parameters;

    closed spec fn view(&self) -> Parameters {
        Parameters {
            variant: self.variant,
            version: self.version,
            memory_cost: self.memory_cost,
            time_cost: self.time_cost,
            lanes: self.lanes,
        }
    }
}

impl HashingPolicy {
    /// What holds of every policy: its parameters are valid.
    #[verifier::type_invariant]
    pub open spec fn well_formed(self) -> bool {
        self@.valid()
    }

    /// Checks cost parameters and makes the policy that holds them.
    ///
    /// The error names the first rule that is broken.
    pub fn new(
        variant: Variant,
        version: Version,
        memory_cost: u32,
        time_cost: u32,
        lanes: u32,
    ) -> (r: Result<HashingPolicy, ConfigurationError>)
        ensures
            match r {
                Ok(policy) => policy@ == (Parameters {
                    variant,
                    version,
                    memory_cost,
                    time_cost,
                    lanes,
                }) && policy@.valid(),
                Err(e) => (Parameters { variant, version, memory_cost, time_cost, lanes }).fault()
                    == Some(e),
            },
    {
        let address_space: u64 = isize::MAX as u64;
        if lanes < 1 {
            Err(ConfigurationError::LanesTooFew)
        } else if lanes > MAX_LANES {
            Err(ConfigurationError::LanesTooMany)
        } else if memory_cost < BLOCKS_PER_LANE * lanes {
            Err(ConfigurationError::MemoryTooLittle)
        } else if memory_cost as u64 > address_space / BLOCK_BYTES {
            Err(ConfigurationError::MemoryTooMuch)
        } else if time_cost < 1 {
            Err(ConfigurationError::TimeTooSmall)
        } else {
            Ok(HashingPolicy { variant, version, memory_cost, time_cost, lanes })
        }
    }

    /// The parameters as plain values.
    pub fn parameters(&self) -> (p: Parameters)
        ensures
            p == self@,
            p.valid(),
    {
        proof {
            use_type_invariant(self);
        }
        Parameters {
            variant: self.variant,
            version: self.version,
            memory_cost: self.memory_cost,
            time_cost: self.time_cost,
            lanes: self.lanes,
        }
    }

    /// The variant of the key-derivation function.
    pub fn variant(&self) -> (v: Variant)
        ensures
            v == self@.variant,
    {
        self.variant
    }

    /// The revision of the key-derivation function.
    pub fn version(&self) -> (v: Version)
        ensures
            v == self@.version,
    {
        self.version
    }

    /// The memory cost, in blocks of 1024 bytes: what one hash in flight occupies.
    pub fn memory_cost(&self) -> (m: u32)
        ensures
            m == self@.memory_cost,
    {
        self.memory_cost
    }

    /// The number of passes over the memory.
    pub fn time_cost(&self) -> (t: u32)
        ensures
            t == self@.time_cost,
    {
        self.time_cost
    }

    /// The number of lanes.
    pub fn lanes(&self) -> (p: u32)
        ensures
            p == self@.lanes,
    {
        self.lanes
    }
}

} // verus!
