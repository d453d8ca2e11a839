//! A fixed-capacity catalog of physical memory regions, built at boot before any
//! allocator exists and handed by value to the code that takes over the machine.

pub mod memory_map;
pub mod phys_addr;

pub use memory_map::{
    E820MemoryRegion, MemoryMap, MemoryMapError, MemoryRegion, MemoryRegionType, MAX_REGIONS,
};
pub use phys_addr::{PhysAddr, PHYS_ADDR_LIMIT};
