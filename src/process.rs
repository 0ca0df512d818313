use crate::memory::MemoryImage;
use vstd::prelude::*;

verus! {

/// An attached target: its identity, a snapshot of its readable memory and
/// the extent of its main module.
pub struct Process {
    pub pid: u32,
    pub name: String,
    pub exe_path: String,
    pub memory: MemoryImage,
    pub main_module_base: u64,
    pub main_module_size: u64,
}

impl Process {
    pub open spec fn wf(&self) -> bool {
        self.memory.wf()
    }

    /// End (exclusive) of the main module, held at the top of the address space.
    pub open spec fn module_end(&self) -> int {
        if self.main_module_base + self.main_module_size > u64::MAX {
            u64::MAX as int
        } else {
            self.main_module_base + self.main_module_size
        }
    }

    pub fn main_module_end(&self) -> (r: u64)
        ensures
            r == self.module_end(),
    {
        if self.main_module_size > u64::MAX - self.main_module_base {
            u64::MAX
        } else {
            self.main_module_base + self.main_module_size
        }
    }
}

/// A process listed for attaching: its id and name.
pub struct ProcessInfo {
    pub pid: u32,
    pub name: String,
}

} // verus!
