//! What the tracker knows of a process, and the source it samples processes
//! from.

use vstd::prelude::*;

verus! {

/// One observation of a process.
#[derive(Debug)]
pub struct ProcessInfo {
    pub pid: u32,
    pub name: String,
    /// The command line the process was started with.
    pub command: String,
    /// The CPU share in percent, held as the bit pattern of an `f64`
    /// (`f64::to_bits`).
    pub cpu_percent_bits: u64,
    pub memory_bytes: u64,
}

/// A source of process observations. Its answers depend on the machine; the
/// one thing an implementation promises is that an observation of `pid` is
/// an observation of that process.
pub trait ProcessSampler {
    /// Observes the process `pid`, or returns `None` when it no longer exists.
    fn sample(&mut self, pid: u32) -> (r: Option<ProcessInfo>)
        ensures
            r matches Some(info) ==> info.pid == pid,
    ;

    /// Observes every process of the machine.
    fn list_all_processes(&mut self) -> Vec<ProcessInfo>;
}

/// A copy of an observation.
pub fn clone_process_info(p: &ProcessInfo) -> (r: ProcessInfo)
    ensures
        r == *p,
{
    ProcessInfo {
        pid: p.pid,
        name: p.name.clone(),
        command: p.command.clone(),
        cpu_percent_bits: p.cpu_percent_bits,
        memory_bytes: p.memory_bytes,
    }
}

/// A copy of a list of observations, in the same order.
pub fn clone_process_list(list: &[ProcessInfo]) -> (r: Vec<ProcessInfo>)
    ensures
        r@ == list@,
{
    let n = list.len();
    let mut r: Vec<ProcessInfo> = Vec::new();
    let mut i: usize = 0;
    while i < n
        invariant
            n == list@.len(),
            i <= n,
            r@ == list@.take(i as int),
        decreases n - i,
    {
        r.push(clone_process_info(&list[i]));
        assert(list@.take(i + 1) == list@.take(i as int).push(list@[i as int]));
        i = i + 1;
    }
    assert(list@.take(n as int) == list@);
    r
}

} // verus!
