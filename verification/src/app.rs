//! The tracker's state machine: the process picker and the monitoring view,
//! driven by key presses and periodic ticks.

use crate::clock::{nanos_since, now, secs_since};
use crate::metrics::{ring_push, window, DataPoint, TimeSeries};
use crate::picker::{
    cpu_is_finite, filter_processes, is_orderable, lemma_finite_shares_are_orderable,
    lemma_finite_shares_narrow_to_orderable, lemma_stable_sort_is_unique, matching, orderable,
    sort_processes, stably_sorted,
};
use crate::sampler::{clone_process_list, ProcessInfo, ProcessSampler};
use crate::text::{pop_char, push_char};
use std::time::Instant;
use vstd::prelude::*;

verus! {

/// How many samples each series of the monitoring view keeps.
pub const RING_CAPACITY: usize = 300;

/// How many whole seconds pass between two refreshes of the picker's list.
pub const REFRESH_SECS: u64 = 2;

/// Which screen the tracker shows.
#[derive(Debug, Clone, Copy, PartialEq, Eq, Structural)]
pub enum AppMode {
    Picker,
    Monitoring,
}

/// The column the process list is ordered by.
#[derive(Debug, Clone, Copy, PartialEq, Eq, Structural)]
pub enum SortColumn {
    Cpu,
    Memory,
}

/// The keys the tracker reacts to; every other key is `Other`.
#[derive(Debug, Clone, Copy, PartialEq, Eq, Structural)]
pub enum KeyCode {
    Char(char),
    Esc,
    Backspace,
    Up,
    Down,
    Tab,
    Enter,
    Other,
}

/// Why the picker's list could not be ordered.
#[derive(Debug, Clone, Copy, PartialEq, Eq, Structural)]
pub enum OrderError {
    /// Two or more processes were to be ordered by CPU share and one of the
    /// shares is NaN, which has no order.
    NanCpuShare,
}

/// The query after Backspace: its last character removed, if any.
pub open spec fn erased(q: Seq<char>) -> Seq<char> {
    if q.len() > 0 { q.drop_last() } else { q }
}

/// The other sort column.
pub open spec fn toggled(c: SortColumn) -> SortColumn {
    match c {
        SortColumn::Cpu => SortColumn::Memory,
        SortColumn::Memory => SortColumn::Cpu,
    }
}

/// A selection index moved back into a list of `len` entries: the last
/// entry when it lies past the end, 0 for an empty list.
pub open spec fn clamp_index(index: usize, len: nat) -> usize {
    if index >= len {
        if len == 0 { 0 } else { (len - 1) as usize }
    } else {
        index
    }
}

/// Whether `key` ends the monitoring view.
pub open spec fn is_monitoring_quit_key(key: KeyCode) -> bool {
    key == KeyCode::Char('q') || key == KeyCode::Char('Q') || key == KeyCode::Esc
}

/// The state of the tracker.
///
/// The monitoring series hold points `(nanoseconds since monitoring began,
/// measure)`: the CPU series measures the CPU share as in
/// `ProcessInfo::cpu_percent_bits`, the memory series the resident bytes.
pub struct App<S: ProcessSampler> {
    pub mode: AppMode,
    pub target_pid: u32,
    pub last_sample: Option<ProcessInfo>,
    pub cpu_series: TimeSeries<u64>,
    pub mem_series: TimeSeries<u64>,
    pub process_exited: bool,
    pub should_quit: bool,
    // Picker state
    pub search_query: String,
    pub all_processes: Vec<ProcessInfo>,
    pub filtered_processes: Vec<ProcessInfo>,
    pub picker_index: usize,
    pub sort_column: SortColumn,
    pub sort_ascending: bool,
    pub last_refresh: Instant,
    pub sampler: S,
    pub start_time: Instant,
    pub interval_ms: u64,
}

impl<S: ProcessSampler> App<S> {
    /// Both states read the same clocks: the last refresh of the list, the
    /// start of monitoring and the poll interval.
    pub open spec fn same_clocks(&self, o: &Self) -> bool {
        &&& self.last_refresh == o.last_refresh
        &&& self.start_time == o.start_time
        &&& self.interval_ms == o.interval_ms
    }

    /// Both states agree but for the instant monitoring began.
    pub open spec fn same_clocks_but_start(&self, o: &Self) -> bool {
        &&& self.last_refresh == o.last_refresh
        &&& self.interval_ms == o.interval_ms
    }

    /// Both states agree but for the instant of the last refresh.
    pub open spec fn same_clocks_but_refresh(&self, o: &Self) -> bool {
        &&& self.start_time == o.start_time
        &&& self.interval_ms == o.interval_ms
    }

    /// The picker's selection lies in its list, or is 0 when the list is empty.
    pub open spec fn selection_in_range(&self) -> bool {
        self.picker_index == 0 || self.picker_index < self.filtered_processes@.len()
    }

    /// The picker's list is the list of all processes narrowed to the query
    /// and stably sorted by the sort settings.
    /// With an empty query the list holds every process.
    pub open spec fn list_matches_query(&self) -> bool {
        &&& stably_sorted(
            self.filtered_processes@,
            self.all_processes@.filter(matching(self.search_query@)),
            self.sort_column,
            self.sort_ascending,
        )
        &&& self.search_query@.len() == 0 ==> stably_sorted(
            self.filtered_processes@,
            self.all_processes@,
            self.sort_column,
            self.sort_ascending,
        )
    }

    /// Both states show the same monitoring data.
    pub open spec fn same_monitoring(&self, o: &Self) -> bool {
        &&& self.target_pid == o.target_pid
        &&& self.last_sample == o.last_sample
        &&& self.cpu_series@ == o.cpu_series@
        &&& self.cpu_series.spec_capacity() == o.cpu_series.spec_capacity()
        &&& self.mem_series@ == o.mem_series@
        &&& self.mem_series.spec_capacity() == o.mem_series.spec_capacity()
        &&& self.process_exited == o.process_exited
    }

    /// Both states show the same picker.
    pub open spec fn same_picker(&self, o: &Self) -> bool {
        &&& self.search_query@ == o.search_query@
        &&& self.all_processes@ == o.all_processes@
        &&& self.filtered_processes@ == o.filtered_processes@
        &&& self.picker_index == o.picker_index
        &&& self.sort_column == o.sort_column
        &&& self.sort_ascending == o.sort_ascending
    }

    /// `self` is `old` with nothing changed.
    pub open spec fn unchanged_from(&self, old: &Self) -> bool {
        &&& self.mode == old.mode
        &&& self.should_quit == old.should_quit
        &&& self.same_monitoring(old)
        &&& self.same_picker(old)
        &&& self.same_clocks(old)
        &&& self.sampler == old.sampler
    }

    /// `self` is `old` with the quit flag raised.
    pub open spec fn quit_from(&self, old: &Self) -> bool {
        &&& self.should_quit
        &&& self.mode == old.mode
        &&& self.same_monitoring(old)
        &&& self.same_picker(old)
        &&& self.same_clocks(old)
        &&& self.sampler == old.sampler
    }

    /// `self` is `old` with the selection moved to `index`.
    pub open spec fn moved_from(&self, old: &Self, index: usize) -> bool {
        &&& self.picker_index == index
        &&& self.search_query@ == old.search_query@
        &&& self.all_processes@ == old.all_processes@
        &&& self.filtered_processes@ == old.filtered_processes@
        &&& self.sort_column == old.sort_column
        &&& self.sort_ascending == old.sort_ascending
        &&& self.mode == old.mode
        &&& self.should_quit == old.should_quit
        &&& self.same_monitoring(old)
        &&& self.same_clocks(old)
        &&& self.sampler == old.sampler
    }

    /// `self` is `old` with the query set to `query` and the list narrowed
    /// anew: the list matches the query and the selection is clamped to it.
    pub open spec fn requeried_from(&self, old: &Self, query: Seq<char>) -> bool {
        &&& self.search_query@ == query
        &&& self.all_processes@ == old.all_processes@
        &&& self.sort_column == old.sort_column
        &&& self.sort_ascending == old.sort_ascending
        &&& self.list_matches_query()
        &&& self.picker_index == clamp_index(old.picker_index, self.filtered_processes@.len())
        &&& self.mode == old.mode
        &&& self.should_quit == old.should_quit
        &&& self.same_monitoring(old)
        &&& self.same_clocks(old)
        &&& self.sampler == old.sampler
    }

    /// `self` is `old` with the other sort column, largest first, and the
    /// list stably re-sorted by it.
    pub open spec fn resorted_from(&self, old: &Self) -> bool {
        &&& self.sort_column == toggled(old.sort_column)
        &&& !self.sort_ascending
        &&& stably_sorted(self.filtered_processes@, old.filtered_processes@, self.sort_column, false)
        &&& self.filtered_processes@.to_multiset() == old.filtered_processes@.to_multiset()
        &&& self.filtered_processes@.len() == old.filtered_processes@.len()
        &&& self.search_query@ == old.search_query@
        &&& self.all_processes@ == old.all_processes@
        &&& self.picker_index == old.picker_index
        &&& self.mode == old.mode
        &&& self.should_quit == old.should_quit
        &&& self.same_monitoring(old)
        &&& self.same_clocks(old)
        &&& self.sampler == old.sampler
    }

    /// `self` is `old` switched to monitoring the selected process, with a
    /// new instant for the start of monitoring.
    pub open spec fn selected_from(&self, old: &Self) -> bool {
        &&& self.mode == AppMode::Monitoring
        &&& self.target_pid == old.filtered_processes@[old.picker_index as int].pid
        &&& self.last_sample == old.last_sample
        &&& self.cpu_series@ == old.cpu_series@
        &&& self.mem_series@ == old.mem_series@
        &&& self.cpu_series.spec_capacity() == old.cpu_series.spec_capacity()
        &&& self.mem_series.spec_capacity() == old.mem_series.spec_capacity()
        &&& self.process_exited == old.process_exited
        &&& self.should_quit == old.should_quit
        &&& self.same_picker(old)
        &&& self.same_clocks_but_start(old)
        &&& self.sampler == old.sampler
    }

    /// What a key does in the monitoring view: q, Q and Esc raise the quit
    /// flag, every other key changes nothing.
    pub open spec fn after_monitoring_key(&self, old: &Self, key: KeyCode) -> bool {
        if is_monitoring_quit_key(key) {
            self.quit_from(old)
        } else {
            self.unchanged_from(old)
        }
    }

    /// What a key does in the picker.
    pub open spec fn after_picker_key(&self, old: &Self, key: KeyCode) -> bool {
        let n = old.filtered_processes@.len();
        let i = old.picker_index;
        match key {
            KeyCode::Esc => self.quit_from(old),
            KeyCode::Char(c) => if c == 'q' && old.search_query@.len() == 0 {
                self.quit_from(old)
            } else {
                self.requeried_from(old, old.search_query@.push(c))
            },
            KeyCode::Backspace => self.requeried_from(old, erased(old.search_query@)),
            KeyCode::Up => self.moved_from(old, if i > 0 { (i - 1) as usize } else { i }),
            KeyCode::Down => self.moved_from(old, if n > 0 && i < n - 1 { (i + 1) as usize } else { i }),
            KeyCode::Tab => self.resorted_from(old),
            KeyCode::Enter => if i < n { self.selected_from(old) } else { self.unchanged_from(old) },
            KeyCode::Other => self.unchanged_from(old),
        }
    }

    /// `self` is `old` after taking in the outcome `sample` of sampling the
    /// monitored process `elapsed_ns` nanoseconds after monitoring began: once
    /// the process has exited nothing changes; a sample is kept as the last
    /// one and its CPU share and memory are pushed onto the series; no sample
    /// marks the process as exited.
    pub open spec fn after_sample(&self, old: &Self, elapsed_ns: u64, sample: Option<ProcessInfo>) -> bool {
        &&& self.mode == old.mode
        &&& self.should_quit == old.should_quit
        &&& self.same_picker(old)
        &&& self.same_clocks(old)
        &&& self.target_pid == old.target_pid
        &&& self.cpu_series.spec_capacity() == old.cpu_series.spec_capacity()
        &&& self.mem_series.spec_capacity() == old.mem_series.spec_capacity()
        &&& if old.process_exited {
            self.same_monitoring(old)
        } else {
            match sample {
                Some(info) => {
                    &&& self.last_sample == Some(info)
                    &&& !self.process_exited
                    &&& self.cpu_series@ == ring_push(
                        old.cpu_series@,
                        old.cpu_series.spec_capacity() as nat,
                        DataPoint { time: elapsed_ns, value: info.cpu_percent_bits },
                    )
                    &&& self.mem_series@ == ring_push(
                        old.mem_series@,
                        old.mem_series.spec_capacity() as nat,
                        DataPoint { time: elapsed_ns, value: info.memory_bytes },
                    )
                },
                None => {
                    &&& self.process_exited
                    &&& self.last_sample == old.last_sample
                    &&& self.cpu_series@ == old.cpu_series@
                    &&& self.mem_series@ == old.mem_series@
                },
            }
        }
    }

    /// `self` is `old` with the list of all processes replaced by `all` and
    /// the picker's list narrowed anew: it matches the query and the
    /// selection is clamped to it.
    pub open spec fn relisted_from(&self, old: &Self, all: Seq<ProcessInfo>) -> bool {
        &&& self.all_processes@ == all
        &&& self.search_query@ == old.search_query@
        &&& self.sort_column == old.sort_column
        &&& self.sort_ascending == old.sort_ascending
        &&& self.list_matches_query()
        &&& self.picker_index == clamp_index(old.picker_index, self.filtered_processes@.len())
        &&& self.mode == old.mode
        &&& self.should_quit == old.should_quit
        &&& self.same_monitoring(old)
        &&& self.same_clocks_but_refresh(old)
    }

    /// `self` is `old` with only the sampler changed.
    pub open spec fn unchanged_but_sampler(&self, old: &Self) -> bool {
        &&& self.mode == old.mode
        &&& self.should_quit == old.should_quit
        &&& self.same_monitoring(old)
        &&& self.same_picker(old)
        &&& self.same_clocks(old)
    }

    /// Whether the list a key leaves in the picker can be ordered: typing or
    /// erasing narrows the list of all processes anew, Tab orders the list by
    /// the other column; every other key orders nothing.
    pub open spec fn picker_key_orderable(&self, key: KeyCode) -> bool {
        match key {
            KeyCode::Char(c) => (c == 'q' && self.search_query@.len() == 0) || orderable(
                self.all_processes@.filter(matching(self.search_query@.push(c))),
                self.sort_column,
            ),
            KeyCode::Backspace => orderable(
                self.all_processes@.filter(matching(erased(self.search_query@))),
                self.sort_column,
            ),
            KeyCode::Tab => orderable(self.filtered_processes@, toggled(self.sort_column)),
            _ => true,
        }
    }

    /// The two monitoring series hold points taken at the same times, and no
    /// more of them than their capacity allows.
    pub open spec fn series_in_step(&self) -> bool {
        &&& self.cpu_series@.len() == self.mem_series@.len()
        &&& self.cpu_series.spec_capacity() == self.mem_series.spec_capacity()
        &&& self.cpu_series@.len() <= window(self.cpu_series.spec_capacity() as nat)
        &&& forall|i: int| 0 <= i < self.cpu_series@.len() ==> #[trigger] self.cpu_series@[i].time == self.mem_series@[i].time
    }

    /// `self` is a new picker over `processes`, in the order given, polling
    /// for input every `interval_ms` milliseconds.
    pub open spec fn is_new_picker(&self, interval_ms: u64, processes: Seq<ProcessInfo>) -> bool {
        &&& self.mode == AppMode::Picker
        &&& self.target_pid == 0
        &&& self.last_sample is None
        &&& self.cpu_series@.len() == 0
        &&& self.cpu_series.spec_capacity() == RING_CAPACITY
        &&& self.mem_series@.len() == 0
        &&& self.mem_series.spec_capacity() == RING_CAPACITY
        &&& !self.process_exited
        &&& !self.should_quit
        &&& self.search_query@.len() == 0
        &&& self.all_processes@ == processes
        &&& self.filtered_processes@ == processes
        &&& self.picker_index == 0
        &&& self.sort_column == SortColumn::Cpu
        &&& !self.sort_ascending
        &&& self.interval_ms == interval_ms
    }

    /// A tracker that monitors process `pid` and polls for input every
    /// `interval_ms` milliseconds.
    pub fn new_monitoring_with_sampler(pid: u32, interval_ms: u64, sampler: S) -> (r: Self)
        ensures
            r.mode == AppMode::Monitoring,
            r.target_pid == pid,
            r.last_sample is None,
            r.cpu_series@.len() == 0,
            r.cpu_series.spec_capacity() == RING_CAPACITY,
            r.mem_series@.len() == 0,
            r.mem_series.spec_capacity() == RING_CAPACITY,
            !r.process_exited,
            !r.should_quit,
            r.search_query@.len() == 0,
            r.all_processes@.len() == 0,
            r.filtered_processes@.len() == 0,
            r.picker_index == 0,
            r.sort_column == SortColumn::Cpu,
            !r.sort_ascending,
            r.sampler == sampler,
            r.interval_ms == interval_ms,
            r.series_in_step(),
    {
        App {
            mode: AppMode::Monitoring,
            target_pid: pid,
            last_sample: None,
            cpu_series: TimeSeries::new(RING_CAPACITY),
            mem_series: TimeSeries::new(RING_CAPACITY),
            process_exited: false,
            should_quit: false,
            search_query: String::new(),
            all_processes: Vec::new(),
            filtered_processes: Vec::new(),
            picker_index: 0,
            sort_column: SortColumn::Cpu,
            sort_ascending: false,
            last_refresh: now(),
            sampler,
            start_time: now(),
            interval_ms,
        }
    }

    /// A tracker that shows the picker over `processes`, in the order given,
    /// and polls for input every `interval_ms` milliseconds.
    pub fn new_picker_with_processes(interval_ms: u64, sampler: S, processes: Vec<ProcessInfo>) -> (r: Self)
        ensures
            r.is_new_picker(interval_ms, processes@),
            r.sampler == sampler,
            r.series_in_step(),
    {
        let filtered = clone_process_list(processes.as_slice());
        App {
            mode: AppMode::Picker,
            target_pid: 0,
            last_sample: None,
            cpu_series: TimeSeries::new(RING_CAPACITY),
            mem_series: TimeSeries::new(RING_CAPACITY),
            process_exited: false,
            should_quit: false,
            search_query: String::new(),
            all_processes: processes,
            filtered_processes: filtered,
            picker_index: 0,
            sort_column: SortColumn::Cpu,
            sort_ascending: false,
            last_refresh: now(),
            sampler,
            start_time: now(),
            interval_ms,
        }
    }

    /// A tracker that shows the picker over every process the sampler lists,
    /// in the order listed, and polls for input every `interval_ms`
    /// milliseconds. What the sampler lists is open.
    pub fn new_picker_with_sampler(interval_ms: u64, sampler: S) -> (r: Self)
        ensures
            exists|listed: Seq<ProcessInfo>| r.is_new_picker(interval_ms, listed),
            r.series_in_step(),
    {
        let mut sampler = sampler;
        let listed = sampler.list_all_processes();
        let r = Self::new_picker_with_processes(interval_ms, sampler, listed);
        assert(r.is_new_picker(interval_ms, r.all_processes@));
        r
    }

    /// The poll interval of the event loop, in milliseconds.
    pub fn interval_ms(&self) -> (r: u64)
        ensures
            r == self.interval_ms,
    {
        self.interval_ms
    }

    /// Reacts to a key in the monitoring view.
    pub fn handle_monitoring_key(&mut self, key: KeyCode)
        ensures
            final(self).after_monitoring_key(old(self), key),
    {
        match key {
            KeyCode::Char('q') | KeyCode::Char('Q') | KeyCode::Esc => {
                self.should_quit = true;
            },
            _ => {},
        }
    }

    /// The processes of `all` that match `query`, stably sorted by `column`,
    /// when that list can be ordered.
    fn narrowed(all: &Vec<ProcessInfo>, query: &str, column: SortColumn, ascending: bool) -> (r: Option<Vec<ProcessInfo>>)
        ensures
            r is Some <==> orderable(all@.filter(matching(query@)), column),
            r matches Some(v) ==> stably_sorted(v@, all@.filter(matching(query@)), column, ascending),
            r matches Some(v) ==> (query@.len() == 0 ==> stably_sorted(v@, all@, column, ascending)),
    {
        let mut filtered = filter_processes(all, query);
        if !is_orderable(&filtered, column) {
            return None;
        }
        sort_processes(&mut filtered, column, ascending);
        Some(filtered)
    }

    /// Narrows the list to the query, sorts it and clamps the selection. The
    /// narrowed list must be orderable by the sort column.
    pub fn update_filter(&mut self)
        requires
            orderable(old(self).all_processes@.filter(matching(old(self).search_query@)), old(self).sort_column),
        ensures
            final(self).requeried_from(old(self), old(self).search_query@),
    {
        if let Some(filtered) = Self::narrowed(&self.all_processes, self.search_query.as_str(), self.sort_column, self.sort_ascending) {
            self.filtered_processes = filtered;
        }
        let n = self.filtered_processes.len();
        if self.picker_index >= n {
            self.picker_index = if n == 0 { 0 } else { n - 1 };
        }
    }

    /// Sorts the list by the current sort settings. The list must be
    /// orderable by the sort column.
    pub fn sort_filtered(&mut self)
        requires
            orderable(old(self).filtered_processes@, old(self).sort_column),
        ensures
            stably_sorted(final(self).filtered_processes@, old(self).filtered_processes@, old(self).sort_column, old(self).sort_ascending),
            final(self).filtered_processes@.to_multiset() == old(self).filtered_processes@.to_multiset(),
            final(self).filtered_processes@.len() == old(self).filtered_processes@.len(),
            final(self).search_query@ == old(self).search_query@,
            final(self).all_processes@ == old(self).all_processes@,
            final(self).picker_index == old(self).picker_index,
            final(self).sort_column == old(self).sort_column,
            final(self).sort_ascending == old(self).sort_ascending,
            final(self).mode == old(self).mode,
            final(self).should_quit == old(self).should_quit,
            final(self).same_monitoring(old(self)),
            final(self).same_clocks(old(self)),
            final(self).sampler == old(self).sampler,
    {
        sort_processes(&mut self.filtered_processes, self.sort_column, self.sort_ascending);
    }

    /// Whether the list that `key` would leave in the picker can be ordered;
    /// where it cannot, the key cannot be handled.
    pub fn picker_key_is_orderable(&self, key: KeyCode) -> (b: bool)
        ensures
            b == self.picker_key_orderable(key),
    {
        match key {
            KeyCode::Char(c) => {
                if c == 'q' && self.search_query.as_str().is_empty() {
                    return true;
                }
                let mut query = self.search_query.clone();
                push_char(&mut query, c);
                is_orderable(&filter_processes(&self.all_processes, query.as_str()), self.sort_column)
            },
            KeyCode::Backspace => {
                let mut query = self.search_query.clone();
                let _ = pop_char(&mut query);
                is_orderable(&filter_processes(&self.all_processes, query.as_str()), self.sort_column)
            },
            KeyCode::Tab => {
                let column = match self.sort_column {
                    SortColumn::Cpu => SortColumn::Memory,
                    SortColumn::Memory => SortColumn::Cpu,
                };
                is_orderable(&self.filtered_processes, column)
            },
            _ => true,
        }
    }

    /// Reacts to a key in the picker.
    pub fn handle_picker_key(&mut self, key: KeyCode)
        requires
            old(self).picker_key_orderable(key),
        ensures
            final(self).after_picker_key(old(self), key),
    {
        match key {
            KeyCode::Esc => {
                self.should_quit = true;
            },
            KeyCode::Char(c) => {
                if c == 'q' && self.search_query.as_str().is_empty() {
                    self.should_quit = true;
                } else {
                    push_char(&mut self.search_query, c);
                    self.update_filter();
                }
            },
            KeyCode::Backspace => {
                let _ = pop_char(&mut self.search_query);
                self.update_filter();
            },
            KeyCode::Up => {
                if self.picker_index > 0 {
                    self.picker_index = self.picker_index - 1;
                }
            },
            KeyCode::Down => {
                let n = self.filtered_processes.len();
                if n > 0 && self.picker_index < n - 1 {
                    self.picker_index = self.picker_index + 1;
                }
            },
            KeyCode::Tab => {
                self.sort_column = match self.sort_column {
                    SortColumn::Cpu => SortColumn::Memory,
                    SortColumn::Memory => SortColumn::Cpu,
                };
                self.sort_ascending = false;
                self.sort_filtered();
            },
            KeyCode::Enter => {
                if self.picker_index < self.filtered_processes.len() {
                    self.target_pid = self.filtered_processes[self.picker_index].pid;
                    self.mode = AppMode::Monitoring;
                    self.start_time = now();
                }
            },
            KeyCode::Other => {},
        }
    }

    /// Takes in the outcome `sample` of sampling the monitored process
    /// `elapsed_ns` nanoseconds after monitoring began.
    pub fn record_sample(&mut self, elapsed_ns: u64, sample: Option<ProcessInfo>)
        ensures
            final(self).after_sample(old(self), elapsed_ns, sample),
            final(self).sampler == old(self).sampler,
    {
        if self.process_exited {
            return;
        }
        match sample {
            Some(info) => {
                self.cpu_series.push(elapsed_ns, info.cpu_percent_bits);
                self.mem_series.push(elapsed_ns, info.memory_bytes);
                self.last_sample = Some(info);
            },
            None => {
                self.process_exited = true;
            },
        }
    }

    /// Replaces the list of all processes and narrows the picker's list anew;
    /// fails, changing nothing, when the narrowed list cannot be ordered.
    pub fn refresh_processes(&mut self, processes: Vec<ProcessInfo>) -> (r: Result<(), OrderError>)
        ensures
            r is Ok <==> orderable(processes@.filter(matching(old(self).search_query@)), old(self).sort_column),
            r is Ok ==> final(self).relisted_from(old(self), processes@),
            r is Err ==> final(self).unchanged_from(old(self)),
            r matches Err(e) ==> e == OrderError::NanCpuShare,
            final(self).last_refresh == old(self).last_refresh,
            final(self).sampler == old(self).sampler,
    {
        match Self::narrowed(&processes, self.search_query.as_str(), self.sort_column, self.sort_ascending) {
            Some(filtered) => {
                self.all_processes = processes;
                self.filtered_processes = filtered;
                let n = self.filtered_processes.len();
                if self.picker_index >= n {
                    self.picker_index = if n == 0 { 0 } else { n - 1 };
                }
                Ok(())
            },
            None => Err(OrderError::NanCpuShare),
        }
    }

    /// The process the monitoring view is due to sample: its target, unless
    /// the picker is shown or the target has exited.
    pub fn sample_request(&self) -> (r: Option<u32>)
        ensures
            r == (if self.mode == AppMode::Monitoring && !self.process_exited { Some(self.target_pid) } else { None::<u32> }),
    {
        if self.mode == AppMode::Monitoring && !self.process_exited {
            Some(self.target_pid)
        } else {
            None
        }
    }

    /// Samples the monitored process, unless it has exited.
    fn tick_monitoring(&mut self)
        requires
            old(self).mode == AppMode::Monitoring,
        ensures
            old(self).process_exited ==> final(self).unchanged_from(old(self)),
            !old(self).process_exited ==> exists|t: u64, sample: Option<ProcessInfo>|
                final(self).after_sample(old(self), t, sample)
                && (sample matches Some(info) ==> info.pid == old(self).target_pid),
    {
        match self.sample_request() {
            None => {},
            Some(pid) => {
                let elapsed = nanos_since(&self.start_time);
                let sample = self.sampler.sample(pid);
                self.record_sample(elapsed, sample);
                assert(self.after_sample(old(self), elapsed, sample));
            },
        }
    }

    /// Lists the processes anew when `elapsed_secs` whole seconds since the
    /// last refresh reach `REFRESH_SECS`, and restarts the refresh clock; fails,
    /// changing nothing but the sampler, when the new list cannot be ordered.
    pub fn tick_picker_at(&mut self, elapsed_secs: u64) -> (r: Result<(), OrderError>)
        ensures
            elapsed_secs < REFRESH_SECS ==> r is Ok && final(self).unchanged_from(old(self)),
            elapsed_secs >= REFRESH_SECS && r is Ok ==> exists|all: Seq<ProcessInfo>|
                final(self).relisted_from(old(self), all),
            r is Err ==> final(self).unchanged_but_sampler(old(self)),
    {
        if elapsed_secs >= REFRESH_SECS {
            let processes = self.sampler.list_all_processes();
            let ghost listed = processes@;
            match self.refresh_processes(processes) {
                Ok(()) => {
                    self.last_refresh = now();
                    assert(self.relisted_from(old(self), listed));
                    Ok(())
                },
                Err(e) => Err(e),
            }
        } else {
            Ok(())
        }
    }

    /// Lists the processes anew once `REFRESH_SECS` seconds have passed since
    /// the last refresh.
    fn tick_picker(&mut self) -> (r: Result<(), OrderError>)
        ensures
            r is Ok ==> final(self).unchanged_from(old(self)) || exists|all: Seq<ProcessInfo>|
                final(self).relisted_from(old(self), all),
            r is Err ==> final(self).unchanged_but_sampler(old(self)),
    {
        let elapsed_secs = secs_since(&self.last_refresh);
        self.tick_picker_at(elapsed_secs)
    }

    /// Advances the current view by one period: the monitoring view samples
    /// its process, the picker refreshes its list when it is due. What the
    /// sampler answers and when are open; the state changes only in these
    /// ways. A refreshed list that cannot be ordered is refused.
    pub fn tick(&mut self) -> (r: Result<(), OrderError>)
        ensures
            old(self).mode == AppMode::Monitoring ==> r is Ok,
            old(self).mode == AppMode::Monitoring && old(self).process_exited ==> final(self).unchanged_from(old(self)),
            old(self).mode == AppMode::Monitoring && !old(self).process_exited ==> exists|t: u64, sample: Option<ProcessInfo>|
                final(self).after_sample(old(self), t, sample)
                && (sample matches Some(info) ==> info.pid == old(self).target_pid),
            old(self).mode == AppMode::Picker && r is Ok ==> final(self).unchanged_from(old(self)) || exists|all: Seq<ProcessInfo>|
                final(self).relisted_from(old(self), all),
            old(self).mode == AppMode::Picker && r is Err ==> final(self).unchanged_but_sampler(old(self)),
    {
        match self.mode {
            AppMode::Monitoring => {
                self.tick_monitoring();
                Ok(())
            },
            AppMode::Picker => self.tick_picker(),
        }
    }

    /// Reacts to a key in the current view, when it can be handled: in the
    /// picker, a key that would leave a list that cannot be ordered is
    /// refused and changes nothing.
    pub fn try_handle_key(&mut self, key: KeyCode) -> (r: Result<(), OrderError>)
        ensures
            r is Ok <==> (old(self).mode == AppMode::Picker ==> old(self).picker_key_orderable(key)),
            r is Ok && old(self).mode == AppMode::Monitoring ==> final(self).after_monitoring_key(old(self), key),
            r is Ok && old(self).mode == AppMode::Picker ==> final(self).after_picker_key(old(self), key),
            r is Err ==> final(self).unchanged_from(old(self)),
            r matches Err(e) ==> e == OrderError::NanCpuShare,
    {
        if self.mode == AppMode::Picker && !self.picker_key_is_orderable(key) {
            return Err(OrderError::NanCpuShare);
        }
        self.handle_key(key);
        Ok(())
    }

    /// Reacts to a key in the current view.
    pub fn handle_key(&mut self, key: KeyCode)
        requires
            old(self).mode == AppMode::Picker ==> old(self).picker_key_orderable(key),
        ensures
            old(self).mode == AppMode::Monitoring ==> final(self).after_monitoring_key(old(self), key),
            old(self).mode == AppMode::Picker ==> final(self).after_picker_key(old(self), key),
    {
        match self.mode {
            AppMode::Monitoring => self.handle_monitoring_key(key),
            AppMode::Picker => self.handle_picker_key(key),
        }
    }
}

/// Every key keeps the picker's selection inside its list (or at 0 when
/// the list is empty).
pub proof fn lemma_picker_key_keeps_selection_in_range<S: ProcessSampler>(old: &App<S>, new: &App<S>, key: KeyCode)
    requires
        old.selection_in_range(),
        new.after_picker_key(old, key),
    ensures
        new.selection_in_range(),
{
}

/// A tick keeps the picker's selection inside its list (or at 0 when the
/// list is empty), whatever the sampler answers.
pub proof fn lemma_tick_keeps_selection_in_range<S: ProcessSampler>(
    old: &App<S>,
    new: &App<S>,
    all: Seq<ProcessInfo>,
    elapsed_ns: u64,
    sample: Option<ProcessInfo>,
)
    requires
        old.selection_in_range(),
        new.unchanged_from(old) || new.relisted_from(old, all) || new.after_sample(old, elapsed_ns, sample),
    ensures
        new.selection_in_range(),
{
}

/// The two monitoring series stay in step: every sample pushes one point at
/// the same time onto both, so they keep equal lengths, equal times and at
/// most their capacity of points; keys and picker refreshes leave them be.
pub proof fn lemma_samples_keep_series_in_step<S: ProcessSampler>(
    old: &App<S>,
    new: &App<S>,
    key: KeyCode,
    all: Seq<ProcessInfo>,
    elapsed_ns: u64,
    sample: Option<ProcessInfo>,
)
    requires
        old.series_in_step(),
        new.after_sample(old, elapsed_ns, sample) || new.after_picker_key(old, key)
            || new.after_monitoring_key(old, key) || new.unchanged_from(old)
            || new.unchanged_but_sampler(old) || new.relisted_from(old, all),
    ensures
        new.series_in_step(),
        new.cpu_series.spec_capacity() == old.cpu_series.spec_capacity(),
{
    if new.after_sample(old, elapsed_ns, sample) && !old.process_exited && sample is Some {
        let c = old.cpu_series@;
        let m = old.mem_series@;
        let cap = old.cpu_series.spec_capacity() as nat;
        assert forall|i: int| 0 <= i < new.cpu_series@.len() implies #[trigger] new.cpu_series@[i].time == new.mem_series@[i].time by {
            if c.len() >= cap && c.len() > 0 {
                if i < c.len() - 1 {
                    assert(new.cpu_series@[i] == c[i + 1] && new.mem_series@[i] == m[i + 1]);
                }
            } else {
                if i < c.len() {
                    assert(new.cpu_series@[i] == c[i] && new.mem_series@[i] == m[i]);
                }
            }
        }
    }
}

/// In a picker whose processes all have finite CPU shares (idle ones at 0.0%
/// included), every key can be handled: `try_handle_key` answers `Ok` and
/// `handle_picker_key` may be called.
pub proof fn lemma_finite_shares_accept_every_key<S: ProcessSampler>(app: &App<S>, key: KeyCode)
    requires
        forall|i: int| 0 <= i < app.all_processes@.len() ==> cpu_is_finite(#[trigger] app.all_processes@[i].cpu_percent_bits),
        forall|i: int| 0 <= i < app.filtered_processes@.len() ==> cpu_is_finite(#[trigger] app.filtered_processes@[i].cpu_percent_bits),
    ensures
        app.picker_key_orderable(key),
{
    match key {
        KeyCode::Char(c) => {
            lemma_finite_shares_narrow_to_orderable(app.all_processes@, app.search_query@.push(c), app.sort_column);
        },
        KeyCode::Backspace => {
            lemma_finite_shares_narrow_to_orderable(app.all_processes@, erased(app.search_query@), app.sort_column);
        },
        KeyCode::Tab => {
            lemma_finite_shares_are_orderable(app.filtered_processes@, toggled(app.sort_column));
        },
        _ => {},
    }
}

/// Narrowing the list anew (a typed or erased character, or a refresh of
/// the listing) keeps the selection where it was while it still lies in the
/// new list; otherwise the selection moves to the new list's last entry, or
/// to 0 when the list is empty.
pub proof fn lemma_renarrowing_keeps_selection<S: ProcessSampler>(
    old: &App<S>,
    new: &App<S>,
    key: KeyCode,
    query: Seq<char>,
    all: Seq<ProcessInfo>,
)
    requires
        new.requeried_from(old, query) || new.relisted_from(old, all) || (new.after_picker_key(old, key) && (
        key == KeyCode::Backspace || (key matches KeyCode::Char(c) && !(c == 'q' && old.search_query@.len() == 0)))),
    ensures
        old.picker_index < new.filtered_processes@.len() ==> new.picker_index == old.picker_index,
        old.picker_index >= new.filtered_processes@.len() > 0 ==> new.picker_index + 1 == new.filtered_processes@.len(),
        new.filtered_processes@.len() == 0 ==> new.picker_index == 0,
{
}

/// A sample of a live process is taken in whole: it becomes the last sample,
/// its CPU share and memory become the newest points of the two series at
/// the sample's time, a series below its capacity grows by one point, and
/// the process stays live. Only no answer marks the process exited, and then
/// the series and the last sample stay as they were.
pub proof fn lemma_live_sample_is_recorded<S: ProcessSampler>(
    old: &App<S>,
    new: &App<S>,
    elapsed_ns: u64,
    sample: Option<ProcessInfo>,
)
    requires
        !old.process_exited,
        new.after_sample(old, elapsed_ns, sample),
    ensures
        new.process_exited <==> sample is None,
        sample matches Some(info) ==> {
            &&& new.last_sample == Some(info)
            &&& new.cpu_series@.len() > 0
            &&& new.cpu_series@.last() == DataPoint { time: elapsed_ns, value: info.cpu_percent_bits }
            &&& new.mem_series@.last() == DataPoint { time: elapsed_ns, value: info.memory_bytes }
            &&& old.cpu_series@.len() < old.cpu_series.spec_capacity() ==> new.cpu_series@.len() == old.cpu_series@.len() + 1
            &&& old.mem_series@.len() < old.mem_series.spec_capacity() ==> new.mem_series@.len() == old.mem_series@.len() + 1
        },
        sample is None ==> new.last_sample == old.last_sample && new.cpu_series@ == old.cpu_series@
            && new.mem_series@ == old.mem_series@,
{
}

/// Series in step at the tracker's ring capacity hold at most
/// `RING_CAPACITY` points each.
pub proof fn lemma_series_hold_at_most_ring_capacity<S: ProcessSampler>(app: &App<S>)
    requires
        app.series_in_step(),
        app.cpu_series.spec_capacity() == RING_CAPACITY,
    ensures
        app.cpu_series@.len() <= RING_CAPACITY,
        app.mem_series@.len() <= RING_CAPACITY,
{
}

/// Esc quits from either view.
pub proof fn lemma_escape_quits<S: ProcessSampler>(old: &App<S>, new: &App<S>)
    requires
        new.after_picker_key(old, KeyCode::Esc) || new.after_monitoring_key(old, KeyCode::Esc),
    ensures
        new.should_quit,
{
}

/// Enter on a non-empty picker list starts monitoring the highlighted process.
pub proof fn lemma_enter_monitors_highlighted<S: ProcessSampler>(old: &App<S>, new: &App<S>)
    requires
        old.picker_index < old.filtered_processes@.len(),
        new.after_picker_key(old, KeyCode::Enter),
    ensures
        new.mode == AppMode::Monitoring,
        new.target_pid == old.filtered_processes@[old.picker_index as int].pid,
{
}

/// Nothing leaves the monitoring view: keys and ticks keep its mode.
pub proof fn lemma_monitoring_view_is_kept<S: ProcessSampler>(
    old: &App<S>,
    new: &App<S>,
    key: KeyCode,
    elapsed_ns: u64,
    sample: Option<ProcessInfo>,
)
    requires
        old.mode == AppMode::Monitoring,
        new.after_monitoring_key(old, key) || new.unchanged_from(old) || new.after_sample(old, elapsed_ns, sample),
    ensures
        new.mode == AppMode::Monitoring,
{
}

/// Once the monitored process has exited, samples change nothing it shows.
pub proof fn lemma_exited_process_takes_no_samples<S: ProcessSampler>(
    old: &App<S>,
    new: &App<S>,
    elapsed_ns: u64,
    sample: Option<ProcessInfo>,
)
    requires
        old.process_exited,
        new.after_sample(old, elapsed_ns, sample),
    ensures
        new.same_monitoring(old),
        new.process_exited,
{
}

/// Pressing Tab twice brings back the sort column, largest first.
pub proof fn lemma_tab_twice_restores_column<S: ProcessSampler>(old: &App<S>, mid: &App<S>, new: &App<S>)
    requires
        mid.after_picker_key(old, KeyCode::Tab),
        new.after_picker_key(mid, KeyCode::Tab),
    ensures
        new.sort_column == old.sort_column,
        !new.sort_ascending,
{
}

/// Typing a character into the search and erasing it again restores the
/// query and, when the list matched the query before, the list itself.
pub proof fn lemma_type_then_erase_restores<S: ProcessSampler>(old: &App<S>, mid: &App<S>, new: &App<S>, c: char)
    requires
        !(c == 'q' && old.search_query@.len() == 0),
        old.list_matches_query(),
        mid.after_picker_key(old, KeyCode::Char(c)),
        new.after_picker_key(mid, KeyCode::Backspace),
    ensures
        new.search_query@ == old.search_query@,
        new.all_processes@ == old.all_processes@,
        new.filtered_processes@ == old.filtered_processes@,
        new.sort_column == old.sort_column,
        new.sort_ascending == old.sort_ascending,
{
    assert(old.search_query@.push(c).drop_last() =~= old.search_query@);
    lemma_stable_sort_is_unique(
        new.filtered_processes@,
        old.filtered_processes@,
        old.all_processes@.filter(matching(old.search_query@)),
        old.sort_column,
        old.sort_ascending,
    );
}

/// Erasing the whole query lists every process again.
pub proof fn lemma_empty_query_lists_all<S: ProcessSampler>(old: &App<S>, new: &App<S>)
    requires
        new.after_picker_key(old, KeyCode::Backspace),
        old.search_query@.len() <= 1,
    ensures
        new.search_query@.len() == 0,
        stably_sorted(new.filtered_processes@, old.all_processes@, old.sort_column, old.sort_ascending),
{
}

} // verus!
