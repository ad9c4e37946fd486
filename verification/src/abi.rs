#![allow(non_camel_case_types)]

use vstd::prelude::*;

use crate::signals::Rights;
use crate::signals::Signals;

verus! {

// The kernel ABI's plain-data record layouts and scalar aliases, kept
// under their ABI names.

/// A raw handle value: a plain integer token; negative values are never
/// valid handles.
pub type mx_handle_t = i32;

/// A raw status code: non-negative means success.
pub type mx_status_t = i32;

/// A point in time or a duration, in nanoseconds.
pub type mx_time_t = u64;

pub type mx_signals_t = Signals;

pub type mx_rights_t = Rights;

/// Cache policy of a memory object.
pub enum mx_cache_policy_t {
    MX_CACHE_POLICY_CACHED,
    MX_CACHE_POLICY_UNCACHED,
    MX_CACHE_POLICY_UNCACHED_DEVICE,
    MX_CACHE_POLICY_WRITE_COMBINING,
}

/// One entry of a multi-object wait: which handle, which signals are
/// asked for, and which were pending.
pub struct mx_wait_item_t {
    pub handle: mx_handle_t,
    pub waitfor: mx_signals_t,
    pub pending: mx_signals_t,
}

/// One record of a wait-set poll as the ABI lays it out.
pub struct mx_waitset_result_t {
    pub cookie: u64,
    pub status: mx_status_t,
    pub observed: mx_signals_t,
}

/// One interrupt line's description.
pub struct mx_irq_t {
    pub global_irq: u32,
    pub level_triggered: bool,
    pub active_high: bool,
}

/// One configuration-space window of a PCI root complex.
pub struct mx_ecam_window_t {
    pub base: u64,
    pub size: usize,
    pub bus_start: u8,
    pub bus_end: u8,
}

/// Identification of the n-th PCI device.
pub struct mx_pcie_get_nth_info_t {
    pub vendor_id: u16,
    pub device_id: u16,
    pub base_class: u8,
    pub sub_class: u8,
    pub program_interface: u8,
    pub revision_id: u8,
    pub bus_id: u8,
    pub dev_id: u8,
    pub func_id: u8,
}

} // verus!
