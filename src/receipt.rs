use vstd::prelude::*;
use crate::app_types::TemplateAddr;

verus! {

/// Why deploying a template failed.
#[derive(Debug, Clone, PartialEq, Eq)]
pub struct DeployTemplateError {
    /// What went wrong.
    pub reason: String,
}

/// What deploying a template returns.
#[derive(Debug, Clone, PartialEq)]
pub struct TemplateReceipt {
    /// Whether the deploy succeeded.
    pub success: bool,
    /// The error, where the deploy failed.
    pub error: Option<DeployTemplateError>,
    /// The deployed template's address, where the deploy succeeded.
    pub addr: Option<TemplateAddr>,
    /// The gas the deploy used, where it succeeded.
    pub gas_used: Option<u64>,
}

impl TemplateReceipt {
    /// The receipt of a successful deploy at `addr` that used `gas_used`.
    pub fn new(addr: TemplateAddr, gas_used: u64) -> (r: TemplateReceipt)
        ensures
            r.success,
            r.error is None,
            r.addr == Some(addr),
            r.gas_used == Some(gas_used),
    {
        TemplateReceipt { success: true, error: None, addr: Some(addr), gas_used: Some(gas_used) }
    }

    /// The deployed template's address; only a successful deploy has one.
    pub fn get_template_addr(&self) -> (r: &TemplateAddr)
        requires
            self.addr is Some,
        ensures
            Some(*r) == self.addr,
    {
        self.addr.as_ref().unwrap()
    }
}

impl From<DeployTemplateError> for TemplateReceipt {
    /// The receipt of a failed deploy.
    fn from(error: DeployTemplateError) -> (r: TemplateReceipt) {
        TemplateReceipt { success: false, error: Some(error), addr: None, gas_used: None }
    }
}

impl vstd::std_specs::convert::FromSpecImpl<DeployTemplateError> for TemplateReceipt {
    open spec fn obeys_from_spec() -> bool {
        true
    }

    open spec fn from_spec(error: DeployTemplateError) -> TemplateReceipt {
        TemplateReceipt { success: false, error: Some(error), addr: None, gas_used: None }
    }
}

} // verus!
