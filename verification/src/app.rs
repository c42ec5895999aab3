//! The state of a dashboard session: the latest metrics, the rates derived
//! from cumulative counters, the list of open ports with the selection in
//! it, and the dialog that asks before a process is terminated.

use crate::counters::interval_delta;
use crate::ports::{entry_view, entry_views};
use std::collections::VecDeque;
use vstd::prelude::*;

verus! {

/// Number of processor-load samples that the history keeps: one minute at
/// one sample a second.
pub const HISTORY_CAPACITY: usize = 60;

/// The confirmation dialog: closed, or asking whether to terminate the
/// process behind a port.
#[derive(Debug)]
pub enum ConfirmDialog {
    /// No dialog is open.
    Idle,
    /// The dialog asks about the process `process_name` bound to `port`;
    /// `selected_yes` tells which answer is highlighted.
    KillProcess { port: u16, process_name: String, selected_yes: bool },
}

/// The confirmation dialog as contracts see it.
pub enum DialogView {
    /// No dialog is open.
    Idle,
    /// The dialog asks about a process bound to a port.
    KillProcess { port: u16, process_name: Seq<char>, selected_yes: bool },
}

impl View for ConfirmDialog {
    type V = DialogView;

    open spec fn view(&self) -> DialogView {
        match *self {
            ConfirmDialog::Idle => DialogView::Idle,
            ConfirmDialog::KillProcess { port, process_name, selected_yes } => {
                DialogView::KillProcess { port, process_name: process_name@, selected_yes }
            },
        }
    }
}

impl Default for ConfirmDialog {
    fn default() -> (dialog: Self)
        ensures
            dialog@ == DialogView::Idle,
    {
        ConfirmDialog::Idle
    }
}

/// The session state as contracts see it.
pub struct AppView {
    /// Processor-load samples in hundredths of a percent, oldest first.
    pub cpu_history: Seq<u32>,
    /// Memory in use, in bytes.
    pub memory_used: u64,
    /// Memory installed, in bytes.
    pub memory_total: u64,
    /// Bytes read from disk in the last interval.
    pub disk_read: u64,
    /// Bytes written to disk in the last interval.
    pub disk_write: u64,
    /// Bytes received from the network in the last interval.
    pub network_rx: u64,
    /// Bytes sent to the network in the last interval.
    pub network_tx: u64,
    /// The open ports: port, process name, process id.
    pub open_ports: Seq<(u16, Seq<char>, u32)>,
    /// Whether the session is to end.
    pub should_quit: bool,
    /// Index of the selected port.
    pub selected_port_idx: usize,
    /// The confirmation dialog.
    pub confirm_dialog: DialogView,
    /// Cumulative bytes read from disk at the last sample.
    pub prev_disk_read: u64,
    /// Cumulative bytes written to disk at the last sample.
    pub prev_disk_write: u64,
    /// Cumulative bytes received at the last sample.
    pub prev_network_rx: u64,
    /// Cumulative bytes sent at the last sample.
    pub prev_network_tx: u64,
}

/// The history with one more sample: the oldest sample leaves first where
/// the history is full.
pub open spec fn record_sample(history: Seq<u32>, sample: u32) -> Seq<u32> {
    if history.len() >= HISTORY_CAPACITY {
        history.drop_first().push(sample)
    } else {
        history.push(sample)
    }
}

/// The selection after the port list was replaced by one of `len`
/// entries: an index beyond a list that is not empty moves to the last
/// entry.
pub open spec fn clamp_selection(selected: usize, len: nat) -> usize {
    if selected >= len && len > 0 {
        (len - 1) as usize
    } else {
        selected
    }
}

impl AppView {
    /// The state of a session that has seen no sample yet.
    pub open spec fn initial() -> AppView {
        AppView {
            cpu_history: Seq::empty(),
            memory_used: 0,
            memory_total: 0,
            disk_read: 0,
            disk_write: 0,
            network_rx: 0,
            network_tx: 0,
            open_ports: Seq::empty(),
            should_quit: false,
            selected_port_idx: 0,
            confirm_dialog: DialogView::Idle,
            prev_disk_read: 0,
            prev_disk_write: 0,
            prev_network_rx: 0,
            prev_network_tx: 0,
        }
    }

    /// What holds of every session state: the history is within its
    /// capacity, the port list can be indexed, and the selection lies in
    /// the port list unless the list is empty.
    pub open spec fn wf(self) -> bool {
        &&& self.cpu_history.len() <= HISTORY_CAPACITY
        &&& self.open_ports.len() <= usize::MAX
        &&& self.open_ports.len() > 0 ==> self.selected_port_idx < self.open_ports.len()
    }

    /// The entry under the selection, if there is one.
    pub open spec fn selected_entry(self) -> Option<(u16, Seq<char>, u32)> {
        if self.selected_port_idx < self.open_ports.len() {
            Some(self.open_ports[self.selected_port_idx as int])
        } else {
            None
        }
    }

    /// Whether a dialog is open.
    pub open spec fn dialog_open(self) -> bool {
        self.confirm_dialog is KillProcess
    }

    /// The state after the port list was replaced.
    pub open spec fn replace_ports(self, ports: Seq<(u16, Seq<char>, u32)>) -> AppView {
        AppView {
            open_ports: ports,
            selected_port_idx: clamp_selection(self.selected_port_idx, ports.len()),
            ..self
        }
    }

    /// The state after one tick. The disk rates are deltas once a disk
    /// read counter above zero has been seen, and stay as they are until
    /// then; the network rates likewise, by the receive counter. The
    /// counters seen are remembered either way.
    pub open spec fn update(
        self,
        cpu: u32,
        memory: (u64, u64),
        disk: (u64, u64),
        network: (u64, u64),
        ports: Seq<(u16, Seq<char>, u32)>,
    ) -> AppView {
        let disk_seen = self.prev_disk_read > 0;
        let network_seen = self.prev_network_rx > 0;
        AppView {
            cpu_history: record_sample(self.cpu_history, cpu),
            memory_used: memory.0,
            memory_total: memory.1,
            disk_read: if disk_seen {
                interval_delta(self.prev_disk_read, disk.0)
            } else {
                self.disk_read
            },
            disk_write: if disk_seen {
                interval_delta(self.prev_disk_write, disk.1)
            } else {
                self.disk_write
            },
            network_rx: if network_seen {
                interval_delta(self.prev_network_rx, network.0)
            } else {
                self.network_rx
            },
            network_tx: if network_seen {
                interval_delta(self.prev_network_tx, network.1)
            } else {
                self.network_tx
            },
            prev_disk_read: disk.0,
            prev_disk_write: disk.1,
            prev_network_rx: network.0,
            prev_network_tx: network.1,
            open_ports: ports,
            selected_port_idx: clamp_selection(self.selected_port_idx, ports.len()),
            ..self
        }
    }

    /// The state after the selection moved down, from the last entry to
    /// the first.
    pub open spec fn select_next(self) -> AppView {
        if self.open_ports.len() > 0 {
            AppView {
                selected_port_idx: ((self.selected_port_idx + 1) % (
                self.open_ports.len() as int)) as usize,
                ..self
            }
        } else {
            self
        }
    }

    /// The state after the selection moved up, from the first entry to
    /// the last.
    pub open spec fn select_prev(self) -> AppView {
        if self.open_ports.len() > 0 {
            AppView {
                selected_port_idx: if self.selected_port_idx == 0 {
                    (self.open_ports.len() - 1) as usize
                } else {
                    (self.selected_port_idx - 1) as usize
                },
                ..self
            }
        } else {
            self
        }
    }

    /// The state after termination of the selected process was asked
    /// for: the dialog opens on the selected entry with the answer "no".
    pub open spec fn request_kill(self) -> AppView {
        match self.selected_entry() {
            Some(entry) => AppView {
                confirm_dialog: DialogView::KillProcess {
                    port: entry.0,
                    process_name: entry.1,
                    selected_yes: false,
                },
                ..self
            },
            None => self,
        }
    }

    /// The state after the highlighted answer changed.
    pub open spec fn toggle_confirm(self) -> AppView {
        match self.confirm_dialog {
            DialogView::KillProcess { port, process_name, selected_yes } => AppView {
                confirm_dialog: DialogView::KillProcess {
                    port,
                    process_name,
                    selected_yes: !selected_yes,
                },
                ..self
            },
            DialogView::Idle => self,
        }
    }

    /// The state after the dialog was dismissed.
    pub open spec fn cancel(self) -> AppView {
        AppView { confirm_dialog: DialogView::Idle, ..self }
    }

    /// The process to terminate when the dialog is confirmed: the one
    /// under the selection at that moment, where the dialog is open with
    /// the answer "yes".
    pub open spec fn confirmed_pid(self) -> Option<u32> {
        match (self.confirm_dialog, self.selected_entry()) {
            (DialogView::KillProcess { selected_yes, .. }, Some(entry)) => if selected_yes {
                Some(entry.2)
            } else {
                None
            },
            _ => None,
        }
    }

    /// The process to terminate when the quick answer "yes" is given: the
    /// one under the selection, where a dialog is open.
    pub open spec fn quick_pid(self) -> Option<u32> {
        match (self.confirm_dialog, self.selected_entry()) {
            (DialogView::KillProcess { .. }, Some(entry)) => Some(entry.2),
            _ => None,
        }
    }

    /// The state after the quick answer "yes": the dialog closes where a
    /// process is to be terminated, and nothing changes otherwise.
    pub open spec fn quick_confirm(self) -> AppView {
        if self.quick_pid() is Some {
            self.cancel()
        } else {
            self
        }
    }

    /// The state after the session was told to end.
    pub open spec fn force_quit(self) -> AppView {
        AppView { should_quit: true, ..self }
    }
}

/// The state of a dashboard session.
pub struct App {
    cpu_history: VecDeque<u32>,
    memory_used: u64,
    memory_total: u64,
    disk_read: u64,
    disk_write: u64,
    network_rx: u64,
    network_tx: u64,
    open_ports: Vec<(u16, String, u32)>,
    should_quit: bool,
    selected_port_idx: usize,
    confirm_dialog: ConfirmDialog,
    prev_disk_read: u64,
    prev_disk_write: u64,
    prev_network_rx: u64,
    prev_network_tx: u64,
}

impl View for App {
    type V = AppView;

    closed spec fn view(&self) -> AppView {
        AppView {
            cpu_history: self.cpu_history@,
            memory_used: self.memory_used,
            memory_total: self.memory_total,
            disk_read: self.disk_read,
            disk_write: self.disk_write,
            network_rx: self.network_rx,
            network_tx: self.network_tx,
            open_ports: entry_views(self.open_ports@),
            should_quit: self.should_quit,
            selected_port_idx: self.selected_port_idx,
            confirm_dialog: self.confirm_dialog@,
            prev_disk_read: self.prev_disk_read,
            prev_disk_write: self.prev_disk_write,
            prev_network_rx: self.prev_network_rx,
            prev_network_tx: self.prev_network_tx,
        }
    }
}

impl App {
    /// What holds of every session state; see [`AppView::wf`].
    pub open spec fn wf(&self) -> bool {
        self@.wf()
    }

    /// A session that has seen no sample yet.
    pub fn new() -> (app: App)
        ensures
            app@ == AppView::initial(),
            app.wf(),
    {
        let app = App {
            cpu_history: VecDeque::with_capacity(HISTORY_CAPACITY),
            memory_used: 0,
            memory_total: 0,
            disk_read: 0,
            disk_write: 0,
            network_rx: 0,
            network_tx: 0,
            open_ports: Vec::new(),
            should_quit: false,
            selected_port_idx: 0,
            confirm_dialog: ConfirmDialog::Idle,
            prev_disk_read: 0,
            prev_disk_write: 0,
            prev_network_rx: 0,
            prev_network_tx: 0,
        };
        proof {
            assert(app@.open_ports =~= Seq::empty());
            assert(app@.cpu_history =~= Seq::empty());
        }
        app
    }

    /// Takes in the readings of one tick: the processor load in
    /// hundredths of a percent, memory used and installed, the cumulative
    /// disk and network counters, and the port list, which replaces the
    /// one held. The dialog is left as it is.
    pub fn update(
        &mut self,
        cpu: u32,
        memory: (u64, u64),
        disk: (u64, u64),
        network: (u64, u64),
        ports: Vec<(u16, String, u32)>,
    )
        requires
            old(self).wf(),
        ensures
            final(self)@ == old(self)@.update(cpu, memory, disk, network, entry_views(ports@)),
            final(self).wf(),
    {
        if self.cpu_history.len() >= HISTORY_CAPACITY {
            self.cpu_history.pop_front();
        }
        self.cpu_history.push_back(cpu);
        proof {
            assert(self.cpu_history@ =~= record_sample(old(self).cpu_history@, cpu));
        }
        self.memory_used = memory.0;
        self.memory_total = memory.1;

        let (curr_disk_read, curr_disk_write) = disk;
        if self.prev_disk_read > 0 {
            self.disk_read = curr_disk_read.saturating_sub(self.prev_disk_read);
            self.disk_write = curr_disk_write.saturating_sub(self.prev_disk_write);
        }
        self.prev_disk_read = curr_disk_read;
        self.prev_disk_write = curr_disk_write;

        let (curr_rx, curr_tx) = network;
        if self.prev_network_rx > 0 {
            self.network_rx = curr_rx.saturating_sub(self.prev_network_rx);
            self.network_tx = curr_tx.saturating_sub(self.prev_network_tx);
        }
        self.prev_network_rx = curr_rx;
        self.prev_network_tx = curr_tx;

        self.open_ports = ports;
        if self.selected_port_idx >= self.open_ports.len() && !self.open_ports.is_empty() {
            self.selected_port_idx = self.open_ports.len() - 1;
        }
    }

    /// Replaces the port list outside a tick, as after a process was
    /// terminated. A selection beyond the new list moves to its last
    /// entry; nothing else changes.
    pub fn replace_ports(&mut self, ports: Vec<(u16, String, u32)>)
        requires
            old(self).wf(),
        ensures
            final(self)@ == old(self)@.replace_ports(entry_views(ports@)),
            final(self).wf(),
    {
        self.open_ports = ports;
        if self.selected_port_idx >= self.open_ports.len() && !self.open_ports.is_empty() {
            self.selected_port_idx = self.open_ports.len() - 1;
        }
    }

    /// Moves the selection to the next port, from the last to the first.
    /// Nothing changes while the port list is empty.
    pub fn select_next_port(&mut self)
        requires
            old(self).wf(),
        ensures
            final(self)@ == old(self)@.select_next(),
            final(self).wf(),
    {
        if !self.open_ports.is_empty() {
            self.selected_port_idx = (self.selected_port_idx + 1) % self.open_ports.len();
        }
    }

    /// Moves the selection to the port before, from the first to the
    /// last. Nothing changes while the port list is empty.
    pub fn select_prev_port(&mut self)
        requires
            old(self).wf(),
        ensures
            final(self)@ == old(self)@.select_prev(),
            final(self).wf(),
    {
        if !self.open_ports.is_empty() {
            self.selected_port_idx = match self.selected_port_idx.checked_sub(1) {
                Some(before) => before,
                None => self.open_ports.len() - 1,
            };
        }
    }

    /// Opens the dialog on the selected port, with the answer "no"
    /// highlighted. Nothing changes while the port list is empty.
    pub fn request_kill_selected(&mut self)
        requires
            old(self).wf(),
        ensures
            final(self)@ == old(self)@.request_kill(),
            final(self).wf(),
    {
        if self.selected_port_idx < self.open_ports.len() {
            let port = self.open_ports[self.selected_port_idx].0;
            let process_name = self.open_ports[self.selected_port_idx].1.clone();
            self.confirm_dialog = ConfirmDialog::KillProcess {
                port,
                process_name,
                selected_yes: false,
            };
        }
    }

    /// Changes the highlighted answer of the dialog. Nothing changes
    /// while no dialog is open.
    pub fn toggle_confirm_selection(&mut self)
        requires
            old(self).wf(),
        ensures
            final(self)@ == old(self)@.toggle_confirm(),
            final(self).wf(),
    {
        match &mut self.confirm_dialog {
            ConfirmDialog::KillProcess { selected_yes, .. } => {
                *selected_yes = !*selected_yes;
            },
            ConfirmDialog::Idle => {},
        }
    }

    /// Closes the dialog.
    pub fn cancel_dialog(&mut self)
        requires
            old(self).wf(),
        ensures
            final(self)@ == old(self)@.cancel(),
            final(self).wf(),
    {
        self.confirm_dialog = ConfirmDialog::Idle;
    }

    /// Closes the dialog and tells which process to terminate: the one
    /// under the selection now, where the dialog was open with the answer
    /// "yes", and none otherwise.
    pub fn confirm_dialog_action(&mut self) -> (pid: Option<u32>)
        requires
            old(self).wf(),
        ensures
            final(self)@ == old(self)@.cancel(),
            pid == old(self)@.confirmed_pid(),
            final(self).wf(),
    {
        let mut pid: Option<u32> = None;
        if let ConfirmDialog::KillProcess { selected_yes, .. } = &self.confirm_dialog {
            if *selected_yes && self.selected_port_idx < self.open_ports.len() {
                pid = Some(self.open_ports[self.selected_port_idx].2);
            }
        }
        self.confirm_dialog = ConfirmDialog::Idle;
        pid
    }

    /// Answers an open dialog with "yes" at once, whatever answer is
    /// highlighted: closes it and tells the process under the selection.
    /// Nothing changes while no dialog is open or the port list is empty.
    pub fn quick_confirm(&mut self) -> (pid: Option<u32>)
        requires
            old(self).wf(),
        ensures
            final(self)@ == old(self)@.quick_confirm(),
            pid == old(self)@.quick_pid(),
            final(self).wf(),
    {
        if self.is_dialog_open() && self.selected_port_idx < self.open_ports.len() {
            let pid = self.open_ports[self.selected_port_idx].2;
            self.confirm_dialog = ConfirmDialog::Idle;
            Some(pid)
        } else {
            None
        }
    }

    /// Tells the session to end.
    pub fn force_quit(&mut self)
        requires
            old(self).wf(),
        ensures
            final(self)@ == old(self)@.force_quit(),
            final(self).wf(),
    {
        self.should_quit = true;
    }

    /// The processor-load samples kept, in hundredths of a percent,
    /// oldest first.
    pub fn cpu_history(&self) -> (history: &VecDeque<u32>)
        ensures
            history@ == self@.cpu_history,
    {
        &self.cpu_history
    }

    /// Memory in use, in bytes.
    pub fn memory_used(&self) -> (bytes: u64)
        ensures
            bytes == self@.memory_used,
    {
        self.memory_used
    }

    /// Memory installed, in bytes.
    pub fn memory_total(&self) -> (bytes: u64)
        ensures
            bytes == self@.memory_total,
    {
        self.memory_total
    }

    /// Bytes read from disk in the last interval.
    pub fn disk_read(&self) -> (bytes: u64)
        ensures
            bytes == self@.disk_read,
    {
        self.disk_read
    }

    /// Bytes written to disk in the last interval.
    pub fn disk_write(&self) -> (bytes: u64)
        ensures
            bytes == self@.disk_write,
    {
        self.disk_write
    }

    /// Bytes received from the network in the last interval.
    pub fn network_rx(&self) -> (bytes: u64)
        ensures
            bytes == self@.network_rx,
    {
        self.network_rx
    }

    /// Bytes sent to the network in the last interval.
    pub fn network_tx(&self) -> (bytes: u64)
        ensures
            bytes == self@.network_tx,
    {
        self.network_tx
    }

    /// The open ports: port, process name, process id.
    pub fn open_ports(&self) -> (ports: &Vec<(u16, String, u32)>)
        ensures
            entry_views(ports@) == self@.open_ports,
    {
        &self.open_ports
    }

    /// Whether the session is to end.
    pub fn should_quit(&self) -> (quit: bool)
        ensures
            quit == self@.should_quit,
    {
        self.should_quit
    }

    /// Index of the selected port. It lies in the port list unless the
    /// list is empty.
    pub fn selected_port_idx(&self) -> (index: usize)
        ensures
            index == self@.selected_port_idx,
    {
        self.selected_port_idx
    }

    /// The confirmation dialog.
    pub fn confirm_dialog(&self) -> (dialog: &ConfirmDialog)
        ensures
            dialog@ == self@.confirm_dialog,
    {
        &self.confirm_dialog
    }

    /// Whether a dialog is open.
    pub fn is_dialog_open(&self) -> (open: bool)
        ensures
            open == self@.dialog_open(),
    {
        match self.confirm_dialog {
            ConfirmDialog::Idle => false,
            ConfirmDialog::KillProcess { .. } => true,
        }
    }
}

/// A counter family that was never sampled reports no traffic on its
/// first tick: a fresh session shows zero rates after one update,
/// whatever the counters hold.
pub proof fn lemma_first_tick_reports_nothing(
    cpu: u32,
    memory: (u64, u64),
    disk: (u64, u64),
    network: (u64, u64),
    ports: Seq<(u16, Seq<char>, u32)>,
)
    ensures
        ({
            let first = AppView::initial().update(cpu, memory, disk, network, ports);
            &&& first.disk_read == 0
            &&& first.disk_write == 0
            &&& first.network_rx == 0
            &&& first.network_tx == 0
            &&& first.prev_disk_read == disk.0
            &&& first.prev_disk_write == disk.1
            &&& first.prev_network_rx == network.0
            &&& first.prev_network_tx == network.1
        }),
{
}

/// While the counter that marks a family as sampled is zero, a tick
/// leaves the rates of that family as they are; the disk family does not
/// touch the network family, nor the other way round.
pub proof fn lemma_unsampled_family_keeps_rates(
    state: AppView,
    cpu: u32,
    memory: (u64, u64),
    disk: (u64, u64),
    network: (u64, u64),
    ports: Seq<(u16, Seq<char>, u32)>,
)
    ensures
        ({
            let next = state.update(cpu, memory, disk, network, ports);
            &&& state.prev_disk_read == 0 ==> next.disk_read == state.disk_read && next.disk_write
                == state.disk_write
            &&& state.prev_network_rx == 0 ==> next.network_rx == state.network_rx
                && next.network_tx == state.network_tx
        }),
{
}

/// Once a family was sampled, each tick reports the traffic since the
/// tick before: the difference of the two samples where the counter
/// rose or stayed, zero where it fell back.
pub proof fn lemma_next_tick_reports_delta(
    state: AppView,
    cpu: u32,
    memory: (u64, u64),
    disk: (u64, u64),
    network: (u64, u64),
    ports: Seq<(u16, Seq<char>, u32)>,
)
    ensures
        ({
            let next = state.update(cpu, memory, disk, network, ports);
            &&& state.prev_disk_read > 0 ==> {
                &&& disk.0 >= state.prev_disk_read ==> next.disk_read == disk.0
                    - state.prev_disk_read
                &&& disk.0 < state.prev_disk_read ==> next.disk_read == 0
                &&& disk.1 >= state.prev_disk_write ==> next.disk_write == disk.1
                    - state.prev_disk_write
                &&& disk.1 < state.prev_disk_write ==> next.disk_write == 0
            }
            &&& state.prev_network_rx > 0 ==> {
                &&& network.0 >= state.prev_network_rx ==> next.network_rx == network.0
                    - state.prev_network_rx
                &&& network.0 < state.prev_network_rx ==> next.network_rx == 0
                &&& network.1 >= state.prev_network_tx ==> next.network_tx == network.1
                    - state.prev_network_tx
                &&& network.1 < state.prev_network_tx ==> next.network_tx == 0
            }
        }),
{
}

/// Two ticks on a fresh session: the first reports nothing, the second
/// reports the traffic between the two samples, provided that the first
/// sample of the counter that marks the family was above zero.
pub proof fn lemma_two_ticks(
    cpu: u32,
    memory: (u64, u64),
    first: (u64, u64),
    second: (u64, u64),
    ports: Seq<(u16, Seq<char>, u32)>,
)
    requires
        first.0 > 0,
    ensures
        ({
            let one = AppView::initial().update(cpu, memory, first, first, ports);
            let two = one.update(cpu, memory, second, second, ports);
            &&& one.disk_read == 0 && one.network_rx == 0
            &&& two.disk_read == interval_delta(first.0, second.0)
            &&& two.disk_write == interval_delta(first.1, second.1)
            &&& two.network_rx == interval_delta(first.0, second.0)
            &&& two.network_tx == interval_delta(first.1, second.1)
            &&& second.0 >= first.0 ==> two.disk_read == second.0 - first.0
            &&& second.0 < first.0 ==> two.disk_read == 0
        }),
{
}

/// After every replacement of the port list, by a tick or outside one,
/// the selection lies in the list unless the list is empty, whatever the
/// selection was; and a selection that lay in the new list stays.
pub proof fn lemma_replacement_repairs_selection(
    state: AppView,
    cpu: u32,
    memory: (u64, u64),
    disk: (u64, u64),
    network: (u64, u64),
    ports: Seq<(u16, Seq<char>, u32)>,
)
    requires
        ports.len() <= usize::MAX,
    ensures
        ({
            let ticked = state.update(cpu, memory, disk, network, ports);
            let replaced = state.replace_ports(ports);
            &&& ticked.selected_port_idx == replaced.selected_port_idx
            &&& ports.len() > 0 ==> replaced.selected_port_idx < ports.len()
            &&& ports.len() > 0 && state.selected_port_idx >= ports.len()
                ==> replaced.selected_port_idx == ports.len() - 1
            &&& state.selected_port_idx < ports.len() ==> replaced.selected_port_idx
                == state.selected_port_idx
            &&& ticked.confirm_dialog == state.confirm_dialog
        }),
{
}

/// Every operation keeps a session state well formed.
pub proof fn lemma_operations_keep_wf(
    state: AppView,
    cpu: u32,
    memory: (u64, u64),
    disk: (u64, u64),
    network: (u64, u64),
    ports: Seq<(u16, Seq<char>, u32)>,
)
    requires
        state.wf(),
        ports.len() <= usize::MAX,
    ensures
        AppView::initial().wf(),
        state.update(cpu, memory, disk, network, ports).wf(),
        state.replace_ports(ports).wf(),
        state.select_next().wf(),
        state.select_prev().wf(),
        state.request_kill().wf(),
        state.toggle_confirm().wf(),
        state.cancel().wf(),
        state.quick_confirm().wf(),
        state.force_quit().wf(),
{
}

/// The way through the dialog: asking to terminate the selected process
/// opens the dialog on its port and name with the answer "no"; a toggle
/// turns the answer to "yes"; confirming then names the process under
/// the selection and closes the dialog. Confirming without the toggle
/// names no process.
pub proof fn lemma_dialog_round_trip(state: AppView)
    requires
        state.wf(),
        state.open_ports.len() > 0,
    ensures
        ({
            let entry = state.open_ports[state.selected_port_idx as int];
            let asked = state.request_kill();
            let toggled = asked.toggle_confirm();
            &&& asked.confirm_dialog == DialogView::KillProcess {
                port: entry.0,
                process_name: entry.1,
                selected_yes: false,
            }
            &&& toggled.confirm_dialog == DialogView::KillProcess {
                port: entry.0,
                process_name: entry.1,
                selected_yes: true,
            }
            &&& toggled.confirmed_pid() == Some(entry.2)
            &&& toggled.cancel().confirm_dialog == DialogView::Idle
            &&& asked.confirmed_pid() is None
            &&& asked.toggle_confirm().toggle_confirm() == asked
            &&& asked.quick_pid() == Some(entry.2)
            &&& asked.quick_confirm().confirm_dialog == DialogView::Idle
        }),
{
}

/// With an empty port list, moving the selection and asking to terminate
/// change nothing, and name no process; a toggle changes nothing unless a
/// dialog was left open from before the list emptied.
pub proof fn lemma_empty_list_is_safe(state: AppView)
    requires
        state.open_ports.len() == 0,
    ensures
        state.select_next() == state,
        state.select_prev() == state,
        state.request_kill() == state,
        state.quick_confirm() == state,
        state.confirmed_pid() is None,
        state.quick_pid() is None,
        !state.dialog_open() ==> state.toggle_confirm() == state,
{
}

} // verus!
