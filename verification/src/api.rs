//! Configuration presets and the connection builder.

use crate::hybrid::{HybridKeyPackage, HybridVerifyingKey};
use crate::pqc_handshake::{PqcHandshakeClient, PqcHandshakeServer};
use crate::random::RngError;
use crate::types::SchedulerMode;
use vstd::prelude::*;

verus! {

/// Configuration of the transport.
#[derive(Debug, Clone, Copy)]
pub struct PhantomConfig {
    pub pqc_enabled: bool,
    pub scheduler_mode: SchedulerMode,
    /// Largest packet, in bytes.
    pub max_packet_size: usize,
    pub stealth_mode: bool,
}

impl Default for PhantomConfig {
    fn default() -> (c: Self)
        ensures
            c == (PhantomConfig {
                pqc_enabled: true,
                scheduler_mode: SchedulerMode::LowLatency,
                max_packet_size: 1400,
                stealth_mode: false,
            }),
    {
        PhantomConfig {
            pqc_enabled: true,
            scheduler_mode: SchedulerMode::LowLatency,
            max_packet_size: 1400,
            stealth_mode: false,
        }
    }
}

impl PhantomConfig {
    /// For low latency.
    pub fn low_latency() -> (c: Self)
        ensures
            c == (PhantomConfig {
                pqc_enabled: true,
                scheduler_mode: SchedulerMode::LowLatency,
                max_packet_size: 1400,
                stealth_mode: false,
            }),
    {
        PhantomConfig { scheduler_mode: SchedulerMode::LowLatency, ..PhantomConfig::default() }
    }

    /// For high throughput.
    pub fn high_throughput() -> (c: Self)
        ensures
            c == (PhantomConfig {
                pqc_enabled: true,
                scheduler_mode: SchedulerMode::HighThroughput,
                max_packet_size: 1400,
                stealth_mode: false,
            }),
    {
        PhantomConfig { scheduler_mode: SchedulerMode::HighThroughput, ..PhantomConfig::default() }
    }

    /// For stealth.
    pub fn stealth() -> (c: Self)
        ensures
            c == (PhantomConfig {
                pqc_enabled: true,
                scheduler_mode: SchedulerMode::Stealth,
                max_packet_size: 1400,
                stealth_mode: true,
            }),
    {
        PhantomConfig {
            stealth_mode: true,
            scheduler_mode: SchedulerMode::Stealth,
            ..PhantomConfig::default()
        }
    }
}

/// Builds connections.
pub struct PhantomBuilder {
    config: PhantomConfig,
    server_key: Option<HybridVerifyingKey>,
}

impl Default for PhantomBuilder {
    fn default() -> (b: Self)
        ensures
            b.spec_config() == (PhantomConfig {
                pqc_enabled: true,
                scheduler_mode: SchedulerMode::LowLatency,
                max_packet_size: 1400,
                stealth_mode: false,
            }),
            b.spec_server_key() is None,
    {
        PhantomBuilder::new()
    }
}

impl PhantomBuilder {
    /// The configuration.
    pub closed spec fn spec_config(self) -> PhantomConfig {
        self.config
    }

    /// The pinned key.
    pub closed spec fn spec_server_key(self) -> Option<HybridVerifyingKey> {
        self.server_key
    }

    /// A builder with the default configuration and no pinned key.
    pub fn new() -> (b: Self)
        ensures
            b.spec_config() == (PhantomConfig {
                pqc_enabled: true,
                scheduler_mode: SchedulerMode::LowLatency,
                max_packet_size: 1400,
                stealth_mode: false,
            }),
            b.spec_server_key() is None,
    {
        PhantomBuilder { config: PhantomConfig::default(), server_key: None }
    }

    /// The same builder with this configuration.
    pub fn config(self, config: PhantomConfig) -> (b: Self)
        ensures
            b.spec_config() == config,
            b.spec_server_key() == self.spec_server_key(),
    {
        PhantomBuilder { config, server_key: self.server_key }
    }

    /// The same builder with this server key pinned.
    pub fn pin_server_key(self, key: HybridVerifyingKey) -> (b: Self)
        ensures
            b.spec_config() == self.spec_config(),
            b.spec_server_key() == Some(key),
    {
        PhantomBuilder { config: self.config, server_key: Some(key) }
    }

    /// The pinned server key.
    pub fn server_key(&self) -> (k: Option<&HybridVerifyingKey>)
        ensures
            match self.spec_server_key() {
                Some(key) => k == Some(&key),
                None => k is None,
            },
    {
        match &self.server_key {
            Some(key) => Some(key),
            None => None,
        }
    }

    /// The configuration.
    pub fn get_config(&self) -> (c: &PhantomConfig)
        ensures
            *c == self.spec_config(),
    {
        &self.config
    }

    /// A client handshake with these public keys.
    pub fn create_client_handshake(
        &self,
        kem_public: HybridKeyPackage,
        verifying_key: HybridVerifyingKey,
    ) -> (r: Result<PqcHandshakeClient, RngError>)
        ensures
            r matches Ok(c) ==> c.kem() == kem_public@ && c.key() == verifying_key@
                && c.spec_nonce().len() == 32,
    {
        PqcHandshakeClient::new(kem_public, verifying_key)
    }

    /// A server handshake with these public keys.
    pub fn create_server_handshake(
        kem_public: HybridKeyPackage,
        verifying_key: HybridVerifyingKey,
    ) -> (r: Result<PqcHandshakeServer, RngError>)
        ensures
            r matches Ok(s) ==> s.kem() == kem_public@ && s.key() == verifying_key@
                && s.secret().len() == 32,
    {
        PqcHandshakeServer::new(kem_public, verifying_key)
    }
}

} // verus!
