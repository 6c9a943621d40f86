//! The provisioner's handle on one VM configuration.
use vstd::prelude::*;
use crate::config::AppVMConfig;

verus! {

/// Provisions and runs the VM that a configuration describes.
pub struct AppVMProvisioner {
    config: AppVMConfig,
}

impl AppVMProvisioner {
    /// The configuration held.
    pub closed spec fn spec_config(&self) -> AppVMConfig {
        self.config
    }

    pub fn new(config: AppVMConfig) -> (r: Self)
        ensures
            r.spec_config() == config,
    {
        AppVMProvisioner { config }
    }

    /// The configuration this provisioner works from.
    pub fn config(&self) -> (r: &AppVMConfig)
        ensures
            *r == self.spec_config(),
    {
        &self.config
    }
}

} // verus!
