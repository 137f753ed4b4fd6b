//! Smart-contract deployment records.
//!
//! Bytecode execution itself is an external collaborator's job; the core
//! only carries a contract's metadata and simulates deployment by
//! reporting the target address for every backend.

use vstd::prelude::*;

verus! {

/// Which virtual machine a contract targets.
pub enum VMType {
    EVM,
    WASM,
    MoveVM,
    CairoVM,
}

/// A contract ready for deployment: its target machine, code, gas budget,
/// deployer and address.
pub struct SmartContract {
    pub vm_type: VMType,
    pub bytecode: Vec<u8>,
    pub gas_limit: u64,
    pub sender: String,
    pub contract_address: String,
}

impl SmartContract {
    /// Simulated deployment: every backend accepts the contract and
    /// reports its target address.
    pub fn deploy(&self) -> (r: Result<String, String>)
        ensures
            r is Ok,
            r.unwrap()@ == self.contract_address@,
    {
        match self.vm_type {
            VMType::EVM => self.deploy_evm(),
            VMType::WASM => self.deploy_wasm(),
            VMType::MoveVM => self.deploy_move(),
            VMType::CairoVM => self.deploy_cairo(),
        }
    }

    fn deploy_evm(&self) -> (r: Result<String, String>)
        ensures
            r is Ok,
            r.unwrap()@ == self.contract_address@,
    {
        Ok(self.contract_address.clone())
    }

    fn deploy_wasm(&self) -> (r: Result<String, String>)
        ensures
            r is Ok,
            r.unwrap()@ == self.contract_address@,
    {
        Ok(self.contract_address.clone())
    }

    fn deploy_move(&self) -> (r: Result<String, String>)
        ensures
            r is Ok,
            r.unwrap()@ == self.contract_address@,
    {
        Ok(self.contract_address.clone())
    }

    fn deploy_cairo(&self) -> (r: Result<String, String>)
        ensures
            r is Ok,
            r.unwrap()@ == self.contract_address@,
    {
        Ok(self.contract_address.clone())
    }
}

} // verus!
