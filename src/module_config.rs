//! The static description of the modules of a setup.
use vstd::prelude::*;

use crate::mdpp_bank::DataKind;

verus! {

/// One configured module: the name of its sub-banks and its hardware.
pub struct Module {
    pub name: String,
    pub address: String,
    pub mod_type: String,
    pub nchannels: u32,
    pub setup_file: String,
}

/// The modules of a setup, in the order in which they are flushed.
pub struct Config {
    pub modules: Vec<Module>,
}

/// The hardware family of a module, which fixes how its sub-banks are decoded.
#[derive(Clone, Copy, Debug, PartialEq, Eq, Structural)]
pub enum ModuleFamily {
    /// The stateful header/data/end family.
    Mdpp(DataKind),
    /// The wide digitizer of three-word hits.
    Triplet,
    /// The simple multi-channel ADC of one 32-value snapshot per sub-bank.
    Snapshot,
}

/// The family that a module type names.
pub open spec fn family_of(mod_type: Seq<char>) -> Option<ModuleFamily> {
    if mod_type == "scp"@ {
        Some(ModuleFamily::Mdpp(DataKind::Scp))
    } else if mod_type == "qdc"@ {
        Some(ModuleFamily::Mdpp(DataKind::Qdc))
    } else if mod_type == "v1730"@ {
        Some(ModuleFamily::Triplet)
    } else if mod_type == "adc"@ {
        Some(ModuleFamily::Snapshot)
    } else {
        None
    }
}

impl Module {
    /// The family of the module, or `None` for a type this library does not know.
    pub fn family(&self) -> (r: Option<ModuleFamily>)
        ensures
            r == family_of(self.mod_type@),
    {
        if self.mod_type == "scp".to_owned() {
            Some(ModuleFamily::Mdpp(DataKind::Scp))
        } else if self.mod_type == "qdc".to_owned() {
            Some(ModuleFamily::Mdpp(DataKind::Qdc))
        } else if self.mod_type == "v1730".to_owned() {
            Some(ModuleFamily::Triplet)
        } else if self.mod_type == "adc".to_owned() {
            Some(ModuleFamily::Snapshot)
        } else {
            None
        }
    }
}

} // verus!
