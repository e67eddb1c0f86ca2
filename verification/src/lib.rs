//! A process supervisor and container init: the supervision engine.
//!
//! The library holds the verified core — the event model, the per-service
//! state machine with its scheduler and restart policy, descriptor
//! validation, the broadcast bus, the health-check table and the reaper
//! bookkeeping. Spawning processes, signals and the file system stay with
//! the embedding program, which drives the engine through plain values.
use vstd::prelude::*;

pub mod bus;
pub mod error;
pub mod formats;
pub mod healthcheck;
pub mod reaper;
pub mod runtime;
pub mod signal_handling;
pub mod validate;

pub use crate::error::HorustError;
pub use crate::formats::get_sample_service;
pub use crate::formats::Event;
pub use crate::formats::Service;

verus! {

/// The engine's front door: the validated service set it will supervise
/// and, when they were loaded from a directory, that directory's path.
#[derive(Clone, Debug)]
pub struct Horust {
    pub services: Vec<Service>,
    pub services_dir: Option<String>,
}

impl Horust {
    /// Packs an already validated service set.
    pub fn new(services: Vec<Service>, services_dir: Option<String>) -> (r: Horust)
        ensures
            r.services@ == services@,
            r.services_dir == services_dir,
    {
        Horust { services, services_dir }
    }

    /// An engine that supervises one bare command with every default:
    /// no dependencies, no restart, no probe. Such a single descriptor
    /// is always a valid configuration.
    pub fn from_command(command: String) -> (r: Horust)
        ensures
            r.services@.len() == 1,
            formats::default_shaped(r.services@[0]),
            r.services@[0].name@ == command@,
            r.services@[0].command@ == command@,
            r.services@[0].start_after@.len() == 0,
            command@.len() > 0 ==> validate::valid_config(r.services@),
            r.services_dir is None,
    {
        let service = Service::from_command(command);
        let mut services: Vec<Service> = Vec::new();
        services.push(service);
        proof {
            if command@.len() > 0 {
                crate::signal_handling::lemma_term_signal_known();
                validate::lemma_single_service_valid(services@);
            }
        }
        Horust::new(services, None)
    }
}

} // verus!
