//! Verified core of a process and GPU monitor: parsing of the text that the
//! kernel, the PCI id database and `nvidia-smi` publish, the bookkeeping that
//! turns cumulative counters into usage, port indexing and the decisions
//! taken around a VirusTotal lookup.

pub mod text;
pub mod pci;
pub mod fdinfo;
pub mod gpu_process;
pub mod gpu;
pub mod ports;
pub mod virustotal;
