//! Device profiles: three tiers of devices and the transport parameters advised for
//! each. Post-quantum algorithms are part of every tier.

use crate::text::{decimal, push_decimal};
use crate::types::CipherSuite;
use vstd::prelude::*;

verus! {

/// The class of a device.
#[derive(Debug, Clone, Copy, PartialEq, Eq, Structural)]
pub enum DeviceTier {
    /// Microcontrollers, drones, old phones.
    Constrained,
    /// Smartphones and single-board computers.
    Standard,
    /// Servers, desktops, laptops.
    Performance,
}

/// The strength of the post-quantum key encapsulation.
#[derive(Debug, Clone, Copy, PartialEq, Eq, Structural)]
pub enum PqKemLevel {
    Kyber512,
    Kyber768,
}

/// The strength of the post-quantum signature.
#[derive(Debug, Clone, Copy, PartialEq, Eq, Structural)]
pub enum PqSignLevel {
    Dilithium2,
    Dilithium3,
}

/// What the processor offers.
#[derive(Debug, Clone, Copy, PartialEq, Eq, Structural)]
pub struct HwCaps {
    /// Whether it has AES instructions.
    pub has_hw_aes: bool,
}

impl HwCaps {
    /// The cipher that suits the processor.
    pub open spec fn spec_cipher(self) -> CipherSuite {
        if self.has_hw_aes {
            CipherSuite::Aes256Gcm
        } else {
            CipherSuite::ChaCha20Poly1305
        }
    }

    /// The cipher that suits the processor.
    pub fn recommended_cipher(&self) -> (c: CipherSuite)
        ensures
            c == self.spec_cipher(),
    {
        if self.has_hw_aes {
            CipherSuite::Aes256Gcm
        } else {
            CipherSuite::ChaCha20Poly1305
        }
    }
}

/// The transport parameters of a device.
#[derive(Debug, Clone, Copy, PartialEq, Eq, Structural)]
pub struct DeviceProfile {
    pub tier: DeviceTier,
    /// Preferred cipher.
    pub cipher: CipherSuite,
    pub pq_kem: PqKemLevel,
    pub pq_sign: PqSignLevel,
    /// Size of I/O buffers.
    pub buffer_size: usize,
    /// Most streams at once.
    pub max_streams: u16,
    /// Whether small packets are bundled into datagrams.
    pub coalescing: bool,
    pub max_datagram_size: usize,
    pub compression: bool,
    /// Largest packet payload.
    pub max_payload: usize,
}

/// The profile of a tier.
pub open spec fn profile_of(tier: DeviceTier, caps: HwCaps) -> DeviceProfile {
    match tier {
        DeviceTier::Constrained => DeviceProfile {
            tier,
            cipher: CipherSuite::ChaCha20Poly1305,
            pq_kem: PqKemLevel::Kyber512,
            pq_sign: PqSignLevel::Dilithium2,
            buffer_size: 2048,
            max_streams: 4,
            coalescing: false,
            max_datagram_size: 512,
            compression: false,
            max_payload: 256,
        },
        DeviceTier::Standard => DeviceProfile {
            tier,
            cipher: caps.spec_cipher(),
            pq_kem: PqKemLevel::Kyber768,
            pq_sign: PqSignLevel::Dilithium3,
            buffer_size: 16384,
            max_streams: 64,
            coalescing: true,
            max_datagram_size: 4096,
            compression: true,
            max_payload: 1400,
        },
        DeviceTier::Performance => DeviceProfile {
            tier,
            cipher: CipherSuite::Aes256Gcm,
            pq_kem: PqKemLevel::Kyber768,
            pq_sign: PqSignLevel::Dilithium3,
            buffer_size: 65536,
            max_streams: 256,
            coalescing: true,
            max_datagram_size: 8192,
            compression: true,
            max_payload: 8192,
        },
    }
}

/// The tier of a device with `ram` bytes of memory.
pub open spec fn tier_for_ram(ram: u64) -> DeviceTier {
    if ram < 1_048_576 {
        DeviceTier::Constrained
    } else if ram < 512_000_000 {
        DeviceTier::Standard
    } else {
        DeviceTier::Performance
    }
}

/// The memory that a device with pointers of `bits` bits is taken to have.
pub open spec fn ram_for_pointer_width(bits: u32) -> u64 {
    if bits == 64 {
        8_000_000_000
    } else if bits == 32 {
        512_000
    } else {
        256_000
    }
}

impl DeviceProfile {
    /// The profile for a processor with the given abilities, by the width of a pointer.
    pub fn auto_detect(caps: &HwCaps) -> (p: Self)
        ensures
            p == profile_of(tier_for_ram(ram_for_pointer_width(usize::BITS)), *caps),
    {
        let ram: u64 = DeviceProfile::estimate_available_ram(usize::BITS);
        let tier = if ram < 1_048_576 {
            DeviceTier::Constrained
        } else if ram < 512_000_000 {
            DeviceTier::Standard
        } else {
            DeviceTier::Performance
        };
        DeviceProfile::for_tier(tier, caps)
    }

    /// The profile of a tier.
    pub fn for_tier(tier: DeviceTier, caps: &HwCaps) -> (p: Self)
        ensures
            p == profile_of(tier, *caps),
    {
        match tier {
            DeviceTier::Constrained => DeviceProfile {
                tier,
                cipher: CipherSuite::ChaCha20Poly1305,
                pq_kem: PqKemLevel::Kyber512,
                pq_sign: PqSignLevel::Dilithium2,
                buffer_size: 2048,
                max_streams: 4,
                coalescing: false,
                max_datagram_size: 512,
                compression: false,
                max_payload: 256,
            },
            DeviceTier::Standard => DeviceProfile {
                tier,
                cipher: caps.recommended_cipher(),
                pq_kem: PqKemLevel::Kyber768,
                pq_sign: PqSignLevel::Dilithium3,
                buffer_size: 16384,
                max_streams: 64,
                coalescing: true,
                max_datagram_size: 4096,
                compression: true,
                max_payload: 1400,
            },
            DeviceTier::Performance => DeviceProfile {
                tier,
                cipher: CipherSuite::Aes256Gcm,
                pq_kem: PqKemLevel::Kyber768,
                pq_sign: PqSignLevel::Dilithium3,
                buffer_size: 65536,
                max_streams: 256,
                coalescing: true,
                max_datagram_size: 8192,
                compression: true,
                max_payload: 8192,
            },
        }
    }

    /// The profile of a constrained device.
    pub fn constrained() -> (p: Self)
        ensures
            p == profile_of(DeviceTier::Constrained, (HwCaps { has_hw_aes: false })),
    {
        DeviceProfile::for_tier(DeviceTier::Constrained, &HwCaps { has_hw_aes: false })
    }

    /// The profile of a standard device with the given abilities.
    pub fn standard(caps: &HwCaps) -> (p: Self)
        ensures
            p == profile_of(DeviceTier::Standard, *caps),
    {
        DeviceProfile::for_tier(DeviceTier::Standard, caps)
    }

    /// The profile of a performance device.
    pub fn performance() -> (p: Self)
        ensures
            p == profile_of(DeviceTier::Performance, (HwCaps { has_hw_aes: true })),
    {
        DeviceProfile::for_tier(DeviceTier::Performance, &HwCaps { has_hw_aes: true })
    }

    fn estimate_available_ram(pointer_bits: u32) -> (ram: u64)
        ensures
            ram == ram_for_pointer_width(pointer_bits),
    {
        if pointer_bits == 64 {
            8_000_000_000
        } else if pointer_bits == 32 {
            512_000
        } else {
            256_000
        }
    }

    /// Whether the full key encapsulation is advised.
    pub fn is_full_pq(&self) -> (b: bool)
        ensures
            b == (self.pq_kem == PqKemLevel::Kyber768),
    {
        self.pq_kem == PqKemLevel::Kyber768
    }

    /// The byte that stands for the tier.
    pub fn tier_byte(&self) -> (b: u8)
        ensures
            b == (match self.tier {
                DeviceTier::Constrained => 0u8,
                DeviceTier::Standard => 1u8,
                DeviceTier::Performance => 2u8,
            }),
    {
        match self.tier {
            DeviceTier::Constrained => 0,
            DeviceTier::Standard => 1,
            DeviceTier::Performance => 2,
        }
    }

    /// One line that describes the profile.
    pub open spec fn spec_text(self) -> Seq<char> {
        tier_name(self.tier) + " [cipher="@ + cipher_name(self.cipher) + ", kem="@ + kem_name(
            self.pq_kem,
        ) + ", sign="@ + sign_name(self.pq_sign) + ", buf="@ + decimal(
            (self.buffer_size / 1024) as nat,
        ) + "KB, streams="@ + decimal(self.max_streams as nat) + "]"@
    }

    /// One line that describes the profile.
    pub fn to_text(&self) -> (s: String)
        ensures
            s@ == self.spec_text(),
    {
        let mut s: String = String::new();
        s.append(
            match self.tier {
                DeviceTier::Constrained => "Constrained",
                DeviceTier::Standard => "Standard",
                DeviceTier::Performance => "Performance",
            },
        );
        assert(s@ =~= tier_name(self.tier));
        s.append(" [cipher=");
        s.append(
            match self.cipher {
                CipherSuite::Aes256Gcm => "Aes256Gcm",
                CipherSuite::ChaCha20Poly1305 => "ChaCha20Poly1305",
            },
        );
        s.append(", kem=");
        s.append(
            match self.pq_kem {
                PqKemLevel::Kyber512 => "Kyber512",
                PqKemLevel::Kyber768 => "Kyber768",
            },
        );
        s.append(", sign=");
        s.append(
            match self.pq_sign {
                PqSignLevel::Dilithium2 => "Dilithium2",
                PqSignLevel::Dilithium3 => "Dilithium3",
            },
        );
        s.append(", buf=");
        push_decimal(&mut s, (self.buffer_size / 1024) as u64);
        s.append("KB, streams=");
        push_decimal(&mut s, self.max_streams as u64);
        s.append("]");
        s
    }
}

/// The name of a tier.
pub open spec fn tier_name(tier: DeviceTier) -> Seq<char> {
    match tier {
        DeviceTier::Constrained => "Constrained"@,
        DeviceTier::Standard => "Standard"@,
        DeviceTier::Performance => "Performance"@,
    }
}

/// The name of a cipher.
pub open spec fn cipher_name(cipher: CipherSuite) -> Seq<char> {
    match cipher {
        CipherSuite::Aes256Gcm => "Aes256Gcm"@,
        CipherSuite::ChaCha20Poly1305 => "ChaCha20Poly1305"@,
    }
}

/// The name of a key encapsulation level.
pub open spec fn kem_name(level: PqKemLevel) -> Seq<char> {
    match level {
        PqKemLevel::Kyber512 => "Kyber512"@,
        PqKemLevel::Kyber768 => "Kyber768"@,
    }
}

/// The name of a signature level.
pub open spec fn sign_name(level: PqSignLevel) -> Seq<char> {
    match level {
        PqSignLevel::Dilithium2 => "Dilithium2"@,
        PqSignLevel::Dilithium3 => "Dilithium3"@,
    }
}

/// A larger tier never gets less: not in strength, nor in buffers, streams or payload.
pub proof fn law_tiers_are_ordered(caps: HwCaps)
    ensures
        ({
            let c = profile_of(DeviceTier::Constrained, caps);
            let s = profile_of(DeviceTier::Standard, caps);
            let p = profile_of(DeviceTier::Performance, caps);
            &&& c.buffer_size < s.buffer_size < p.buffer_size
            &&& c.max_streams < s.max_streams < p.max_streams
            &&& c.max_payload < s.max_payload < p.max_payload
            &&& c.max_datagram_size < s.max_datagram_size < p.max_datagram_size
            &&& s.pq_kem == PqKemLevel::Kyber768 && p.pq_kem == PqKemLevel::Kyber768
            &&& s.pq_sign == PqSignLevel::Dilithium3 && p.pq_sign == PqSignLevel::Dilithium3
        }),
{
}

/// A payload of a profile fits its datagrams and its buffers.
pub proof fn law_payload_fits(tier: DeviceTier, caps: HwCaps)
    ensures
        profile_of(tier, caps).max_payload <= profile_of(tier, caps).max_datagram_size,
        profile_of(tier, caps).max_datagram_size <= profile_of(tier, caps).buffer_size,
{
}

/// What each tier is advised, in numbers, and which device is of which tier: one below a mebibyte of memory
/// is constrained, one below 512 megabytes standard, and any larger one of the performance tier. The cipher
/// is AES where the processor has instructions for it or the tier takes it for granted, else ChaCha20.
pub proof fn law_tiers_in_numbers(caps: HwCaps, ram: u64)
    ensures
        ram < 1_048_576 <==> tier_for_ram(ram) == DeviceTier::Constrained,
        1_048_576 <= ram < 512_000_000 <==> tier_for_ram(ram) == DeviceTier::Standard,
        ram >= 512_000_000 <==> tier_for_ram(ram) == DeviceTier::Performance,
        tier_for_ram(ram_for_pointer_width(64)) == DeviceTier::Performance,
        tier_for_ram(ram_for_pointer_width(32)) == DeviceTier::Constrained,
        ({
            let c = profile_of(DeviceTier::Constrained, caps);
            let s = profile_of(DeviceTier::Standard, caps);
            let p = profile_of(DeviceTier::Performance, caps);
            &&& c.tier == DeviceTier::Constrained && s.tier == DeviceTier::Standard && p.tier
                == DeviceTier::Performance
            &&& c.buffer_size == 2048 && s.buffer_size == 16_384 && p.buffer_size == 65_536
            &&& c.max_streams == 4 && s.max_streams == 64 && p.max_streams == 256
            &&& !c.coalescing && s.coalescing && p.coalescing
            &&& !c.compression && s.compression && p.compression
            &&& c.max_datagram_size == 512 && s.max_datagram_size == 4096 && p.max_datagram_size
                == 8192
            &&& c.max_payload == 256 && s.max_payload == 1400 && p.max_payload == 8192
            &&& c.pq_kem == PqKemLevel::Kyber512 && c.pq_sign == PqSignLevel::Dilithium2
            &&& c.cipher == CipherSuite::ChaCha20Poly1305 && p.cipher == CipherSuite::Aes256Gcm
            &&& caps.has_hw_aes ==> s.cipher == CipherSuite::Aes256Gcm
            &&& !caps.has_hw_aes ==> s.cipher == CipherSuite::ChaCha20Poly1305
        }),
{
}

} // verus!
