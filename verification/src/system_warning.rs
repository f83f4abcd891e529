//! Warnings about memory and disk space.
use vstd::prelude::*;
use vstd::string::*;

use crate::text;

verus! {

pub const BYTES_PER_GIGABYTE: u64 = 1000000000;

/// The daemon uses too much of the memory.
#[derive(Clone, Copy, Debug, PartialEq, Eq, Structural)]
pub struct MemoryPressureHigh {
    pub system_total_memory: u64,
    pub process_memory: u64,
}

/// Too little of the disk is left.
#[derive(Clone, Copy, Debug, PartialEq, Eq, Structural)]
pub struct LowDiskSpace {
    pub total_disk_space: u64,
    pub used_disk_space: u64,
}

/// What was measured last.
#[derive(Clone, Copy, Debug, PartialEq, Eq, Structural)]
pub struct Snapshot {
    pub process_memory: Option<u64>,
    pub used_disk_space_bytes: Option<u64>,
}

/// What is known of the system.
#[derive(Clone, Copy, Debug, PartialEq, Eq, Structural)]
pub struct SystemInfo {
    pub system_total_memory_bytes: Option<u64>,
    pub memory_pressure_threshold_percent: Option<u64>,
    pub total_disk_space_bytes: Option<u64>,
    pub remaining_disk_space_threshold_gb: Option<u64>,
}

/// Where to read about high memory pressure.
pub const SYSTEM_MEMORY_REMEDIATION_LINK: &'static str = ": https://fburl.com/buck2_mem_remediation";

/// Where to read about low disk space.
pub const DISK_REMEDIATION_LINK: &'static str = ": https://fburl.com/buck2_disk_remediation";

/// The warning about memory. The amounts are given as they are to be shown.
pub fn system_memory_exceeded_msg(
    process_memory: &str,
    system_total_memory: &str,
    open_source: bool,
) -> (r: String)
    ensures
        r@ == "High memory pressure: buck2 is using "@ + process_memory@ + " out of "@
            + system_total_memory@ + (if open_source {
            ""@
        } else {
            SYSTEM_MEMORY_REMEDIATION_LINK@
        }),
{
    let link = if open_source {
        ""
    } else {
        SYSTEM_MEMORY_REMEDIATION_LINK
    };
    text::concat5(
        "High memory pressure: buck2 is using ",
        process_memory,
        " out of ",
        system_total_memory,
        link,
    )
}

/// The warning about disk space. The amounts are given as they are to be shown.
pub fn low_disk_space_msg(used_disk_space: &str, total_disk_space: &str, open_source: bool) -> (r:
    String)
    ensures
        r@ == "Low disk space: only "@ + used_disk_space@ + " remaining out of "@
            + total_disk_space@ + (if open_source {
            ""@
        } else {
            DISK_REMEDIATION_LINK@
        }),
{
    let link = if open_source {
        ""
    } else {
        DISK_REMEDIATION_LINK
    };
    text::concat5(
        "Low disk space: only ",
        used_disk_space,
        " remaining out of ",
        total_disk_space,
        link,
    )
}

/// The memory in use is at least `percent` of `total`, in whole percent.
pub open spec fn is_pressure(used: u64, total: u64, percent: u64) -> bool {
    total > 0 && (used * 100) / total as int >= percent
}

/// Warns if the daemon uses too much of the memory. There is no warning while something is not
/// known.
pub fn check_memory_pressure(last_snapshot: Option<&Snapshot>, system_info: &SystemInfo) -> (r:
    Option<MemoryPressureHigh>)
    requires
        last_snapshot matches Some(s) ==> s.process_memory matches Some(m) ==> m * 100 <= u64::MAX,
    ensures
        r == (match last_snapshot {
            None => None,
            Some(s) => match (
                s.process_memory,
                system_info.system_total_memory_bytes,
                system_info.memory_pressure_threshold_percent,
            ) {
                (Some(used), Some(total), Some(percent)) => if is_pressure(used, total, percent) {
                    Some(MemoryPressureHigh { system_total_memory: total, process_memory: used })
                } else {
                    None
                },
                _ => None,
            },
        }),
{
    let process_memory = last_snapshot?.process_memory?;
    let system_total_memory = system_info.system_total_memory_bytes?;
    let threshold = system_info.memory_pressure_threshold_percent?;
    if system_total_memory > 0 && (process_memory * 100) / system_total_memory >= threshold {
        Some(MemoryPressureHigh { system_total_memory, process_memory })
    } else {
        None
    }
}

/// Warns if too little of the disk is left. There is no warning while something is not known.
pub fn check_remaining_disk_space(last_snapshot: Option<&Snapshot>, system_info: &SystemInfo) -> (r:
    Option<LowDiskSpace>)
    requires
        last_snapshot matches Some(s) ==> s.used_disk_space_bytes matches Some(used) ==>
            system_info.total_disk_space_bytes matches Some(total) ==> used <= total,
        system_info.remaining_disk_space_threshold_gb matches Some(gb) ==> gb
            * BYTES_PER_GIGABYTE <= u64::MAX,
    ensures
        r == (match last_snapshot {
            None => None,
            Some(s) => match (
                s.used_disk_space_bytes,
                system_info.total_disk_space_bytes,
                system_info.remaining_disk_space_threshold_gb,
            ) {
                (Some(used), Some(total), Some(gb)) => if total - used <= gb * BYTES_PER_GIGABYTE {
                    Some(LowDiskSpace { total_disk_space: total, used_disk_space: used })
                } else {
                    None
                },
                _ => None,
            },
        }),
{
    let used_disk_space = last_snapshot?.used_disk_space_bytes?;
    let total_disk_space = system_info.total_disk_space_bytes?;
    let threshold = system_info.remaining_disk_space_threshold_gb? * BYTES_PER_GIGABYTE;
    if total_disk_space - used_disk_space <= threshold {
        Some(LowDiskSpace { total_disk_space, used_disk_space })
    } else {
        None
    }
}

/// Memory is under pressure from the given part of all memory on; more in use is more pressure.
pub proof fn law_when_memory_is_under_pressure(used: u64, more: u64, total: u64, percent: u64)
    ensures
        total > 0 ==> (is_pressure(used, total, percent) <==> used * 100 >= percent * total),
        total == 0 ==> !is_pressure(used, total, percent),
        is_pressure(used, total, percent) && used <= more ==> is_pressure(more, total, percent),
{
    lemma_pressure(used, total, percent);
    lemma_pressure(more, total, percent);
}

proof fn lemma_pressure(used: u64, total: u64, percent: u64)
    ensures
        total > 0 ==> (is_pressure(used, total, percent) <==> used * 100 >= percent * total),
{
    if total > 0 {
        let u = used * 100;
        let t = total as int;
        let p = percent as int;
        assert(u / t >= p <==> u >= p * t) by (nonlinear_arith)
            requires
                t > 0,
                u >= 0,
                p >= 0,
        ;
    }
}

} // verus!
