//! Processes of the browser, the messages between them, and memory that
//! they share.

use vstd::prelude::*;
use std::collections::HashMap;

verus! {

broadcast use vstd::std_specs::hash::group_hash_axioms;

/// Process ID type
pub type ProcessId = u64;

/// The most messages that the queue of a process holds.
pub const MESSAGE_QUEUE_LIMIT: usize = 1000;

/// The largest shared memory region, in bytes.
pub const REGION_SIZE_LIMIT: usize = 104_857_600;

/// Process type
#[derive(Debug, Clone, Copy, PartialEq, Eq, Hash, Structural)]
pub enum ProcessType {
    /// Browser/main process
    Browser,
    /// Renderer process (per tab)
    Renderer,
    /// GPU process
    Gpu,
    /// Network service process
    Network,
}

/// Process state
#[derive(Debug, Clone, Copy, PartialEq, Eq, Structural)]
pub enum ProcessState {
    /// Process is starting
    Starting,
    /// Process is running
    Running,
    /// Process has crashed
    Crashed,
    /// Process was terminated
    Terminated,
}

/// Inter-Process Communication message
#[derive(Debug, Clone)]
pub enum IpcMessage {
    /// Ping message
    Ping,
    /// Pong response
    Pong,
    /// Render frame request
    RenderFrame { width: u32, height: u32 },
    /// Render frame response
    RenderFrameResponse { frame_data: Vec<u8> },
    /// Navigate to URL
    Navigate { url: String },
    /// JavaScript evaluation request
    EvalScript { script: String },
    /// JavaScript evaluation response
    EvalScriptResponse { result: String },
    /// Process crash notification
    ProcessCrashed { process_id: ProcessId },
    /// Shutdown process
    Shutdown,
}

/// Process info
#[derive(Debug, Clone, Copy)]
pub struct ProcessInfo {
    /// Process ID
    pub id: ProcessId,
    /// Process type
    pub process_type: ProcessType,
    /// Process state
    pub state: ProcessState,
    /// Parent process ID (if any)
    pub parent_id: Option<ProcessId>,
    /// Associated tab ID (for renderer processes)
    pub tab_id: Option<u64>,
}

/// Multi-process error types
#[derive(Debug, Clone, Copy, PartialEq, Eq, Structural)]
pub enum MultiprocessError {
    /// Process not found
    ProcessNotFound,
    /// Process limit reached
    ProcessLimitReached,
    /// Message queue full
    MessageQueueFull,
    /// Lock error
    LockError,
    /// Memory limit exceeded
    MemoryLimitExceeded,
    /// Out of bounds access
    OutOfBounds,
    /// IPC error
    IpcError,
}

impl MultiprocessError {
    /// The text of the error.
    pub fn to_string(&self) -> (text: String)
        ensures
            text@ == match *self {
                MultiprocessError::ProcessNotFound => "Process not found"@,
                MultiprocessError::ProcessLimitReached => "Process limit reached"@,
                MultiprocessError::MessageQueueFull => "Message queue full"@,
                MultiprocessError::LockError => "Lock error"@,
                MultiprocessError::MemoryLimitExceeded => "Memory limit exceeded"@,
                MultiprocessError::OutOfBounds => "Out of bounds access"@,
                MultiprocessError::IpcError => "IPC error"@,
            },
    {
        match self {
            MultiprocessError::ProcessNotFound => String::from_str("Process not found"),
            MultiprocessError::ProcessLimitReached => String::from_str("Process limit reached"),
            MultiprocessError::MessageQueueFull => String::from_str("Message queue full"),
            MultiprocessError::LockError => String::from_str("Lock error"),
            MultiprocessError::MemoryLimitExceeded => String::from_str("Memory limit exceeded"),
            MultiprocessError::OutOfBounds => String::from_str("Out of bounds access"),
            MultiprocessError::IpcError => String::from_str("IPC error"),
        }
    }
}

/// A process as a mathematical value: its info and the messages that wait
/// for it, oldest first.
pub struct ProcessView {
    pub info: ProcessInfo,
    pub queue: Seq<IpcMessage>,
}

/// Process handle
pub struct Process {
    /// Process info
    info: ProcessInfo,
    /// Message queue
    message_queue: Vec<IpcMessage>,
}

impl View for Process {
    type V = ProcessView;

    closed spec fn view(&self) -> ProcessView {
        ProcessView { info: self.info, queue: self.message_queue@ }
    }
}

impl Process {
    /// Create a new process. It is starting, belongs to no tab, and no
    /// message waits for it.
    pub fn new(id: ProcessId, process_type: ProcessType, parent_id: Option<ProcessId>) -> (p: Self)
        ensures
            p@.info == (ProcessInfo {
                id,
                process_type,
                state: ProcessState::Starting,
                parent_id,
                tab_id: None,
            }),
            p@.queue == Seq::<IpcMessage>::empty(),
    {
        Process {
            info: ProcessInfo {
                id,
                process_type,
                state: ProcessState::Starting,
                parent_id,
                tab_id: None,
            },
            message_queue: Vec::new(),
        }
    }

    /// Get process ID
    pub fn id(&self) -> (id: ProcessId)
        ensures
            id == self@.info.id,
    {
        self.info.id
    }

    /// Get process type
    pub fn process_type(&self) -> (t: ProcessType)
        ensures
            t == self@.info.process_type,
    {
        self.info.process_type
    }

    /// Get state
    pub fn state(&self) -> (s: ProcessState)
        ensures
            s == self@.info.state,
    {
        self.info.state
    }

    /// Set state
    pub fn set_state(&mut self, state: ProcessState)
        ensures
            final(self)@.info == (ProcessInfo { state, ..old(self)@.info }),
            final(self)@.queue == old(self)@.queue,
    {
        self.info.state = state;
    }

    /// Set tab ID
    pub fn set_tab_id(&mut self, tab_id: u64)
        ensures
            final(self)@.info == (ProcessInfo { tab_id: Some(tab_id), ..old(self)@.info }),
            final(self)@.queue == old(self)@.queue,
    {
        self.info.tab_id = Some(tab_id);
    }

    /// Send message to process. The message joins the end of the queue,
    /// unless the queue is full.
    pub fn send_message(&mut self, message: IpcMessage) -> (sent: Result<(), MultiprocessError>)
        ensures
            final(self)@.info == old(self)@.info,
            match sent {
                Ok(_) => old(self)@.queue.len() < MESSAGE_QUEUE_LIMIT && final(self)@.queue == old(self)@.queue.push(message),
                Err(e) => e == MultiprocessError::MessageQueueFull && old(self)@.queue.len()
                    >= MESSAGE_QUEUE_LIMIT && final(self)@.queue == old(self)@.queue,
            },
    {
        if self.message_queue.len() >= MESSAGE_QUEUE_LIMIT {
            return Err(MultiprocessError::MessageQueueFull);
        }
        self.message_queue.push(message);
        Ok(())
    }

    /// Receive message from process: the oldest message that waits, if any.
    pub fn receive_message(&mut self) -> (message: Option<IpcMessage>)
        ensures
            final(self)@.info == old(self)@.info,
            match message {
                Some(m) => old(self)@.queue.len() > 0 && m == old(self)@.queue[0] && final(self)@.queue == old(self)@.queue.subrange(1, old(self)@.queue.len() as int),
                None => old(self)@.queue.len() == 0 && final(self)@.queue == old(self)@.queue,
            },
    {
        if self.message_queue.len() > 0 {
            let first = self.message_queue.remove(0);
            assert(self.message_queue@ =~= old(self).message_queue@.subrange(
                1,
                old(self).message_queue@.len() as int,
            ));
            Some(first)
        } else {
            None
        }
    }

    /// Check message queue size
    pub fn message_queue_size(&self) -> (n: usize)
        ensures
            n == self@.queue.len(),
    {
        self.message_queue.len()
    }
}

/// The number of processes of one type among the first `k`.
pub open spec fn count_of_type(processes: Seq<ProcessView>, process_type: ProcessType, k: int) -> nat
    decreases k,
{
    if k <= 0 || k > processes.len() {
        0
    } else {
        count_of_type(processes, process_type, k - 1) + if processes[k - 1].info.process_type
            == process_type {
            1nat
        } else {
            0nat
        }
    }
}

/// The ids of the processes of one type among the first `k`, in order.
pub open spec fn ids_of_type(processes: Seq<ProcessView>, process_type: ProcessType, k: int) -> Seq<
    ProcessId,
>
    decreases k,
{
    if k <= 0 || k > processes.len() {
        Seq::empty()
    } else if processes[k - 1].info.process_type == process_type {
        ids_of_type(processes, process_type, k - 1).push(processes[k - 1].info.id)
    } else {
        ids_of_type(processes, process_type, k - 1)
    }
}

/// Those of the first `k` processes that have not crashed, in order.
pub open spec fn survivors(processes: Seq<ProcessView>, k: int) -> Seq<ProcessView>
    decreases k,
{
    if k <= 0 || k > processes.len() {
        Seq::empty()
    } else if processes[k - 1].info.state == ProcessState::Crashed {
        survivors(processes, k - 1)
    } else {
        survivors(processes, k - 1).push(processes[k - 1])
    }
}

/// The tab mapping without the tabs of those of the first `k` processes
/// that have crashed.
pub open spec fn tabs_without_crashed(
    tabs: Map<u64, ProcessId>,
    processes: Seq<ProcessView>,
    k: int,
) -> Map<u64, ProcessId>
    decreases k,
{
    if k <= 0 || k > processes.len() {
        tabs
    } else {
        let before = tabs_without_crashed(tabs, processes, k - 1);
        if processes[k - 1].info.state == ProcessState::Crashed {
            match processes[k - 1].info.tab_id {
                Some(tab) => before.remove(tab),
                None => before,
            }
        } else {
            before
        }
    }
}

/// The most processes of one type that live at a time.
pub open spec fn process_limit(process_type: ProcessType) -> usize {
    match process_type {
        ProcessType::Browser => 1,
        ProcessType::Gpu => 1,
        ProcessType::Network => 1,
        ProcessType::Renderer => 100,
    }
}

/// Whether a process with that id is among the processes.
pub open spec fn has_process(processes: Seq<ProcessView>, id: ProcessId) -> bool {
    exists|i: int| 0 <= i < processes.len() && (#[trigger] processes[i]).info.id == id
}

/// The index of the process with that id.
pub open spec fn index_of_process(processes: Seq<ProcessView>, id: ProcessId) -> int {
    choose|i: int| 0 <= i < processes.len() && (#[trigger] processes[i]).info.id == id
}

/// The views of a list of processes.
pub open spec fn process_views(processes: Seq<Process>) -> Seq<ProcessView> {
    Seq::new(processes.len(), |i: int| processes[i]@)
}

/// A process manager as a mathematical value: the id that the next process
/// gets, the live processes in the order in which they were spawned, and
/// the renderer process of each tab.
pub struct ManagerView {
    pub next_id: ProcessId,
    pub processes: Seq<ProcessView>,
    pub tabs: Map<u64, ProcessId>,
}

/// Process manager
pub struct ProcessManager {
    /// Next process ID
    next_process_id: ProcessId,
    /// Active processes
    processes: Vec<Process>,
    /// Tab to renderer process mapping
    tab_to_process: HashMap<u64, ProcessId>,
}

impl View for ProcessManager {
    type V = ManagerView;

    closed spec fn view(&self) -> ManagerView {
        ManagerView {
            next_id: self.next_process_id,
            processes: process_views(self.processes@),
            tabs: self.tab_to_process@,
        }
    }
}

/// No two processes share an id, and every id is below the next id.
pub open spec fn manager_wf(m: ManagerView) -> bool {
    &&& forall|i: int, j: int|
        0 <= i < j < m.processes.len() ==> m.processes[i].info.id != m.processes[j].info.id
    &&& forall|i: int| 0 <= i < m.processes.len() ==> (#[trigger] m.processes[i]).info.id < m.next_id
}

impl ProcessManager {
    /// The invariant of the manager.
    pub open spec fn wf(&self) -> bool {
        manager_wf(self@)
    }

    /// Create a new process manager, with no process and 1 as the next id.
    pub fn new() -> (m: Self)
        ensures
            m.wf(),
            m@.next_id == 1,
            m@.processes == Seq::<ProcessView>::empty(),
            m@.tabs == Map::<u64, ProcessId>::empty(),
    {
        let m = ProcessManager {
            next_process_id: 1,
            processes: Vec::new(),
            tab_to_process: HashMap::new(),
        };
        assert(m@.processes =~= Seq::<ProcessView>::empty());
        m
    }

    /// The index of the process with that id.
    fn find(&self, process_id: ProcessId) -> (found: Option<usize>)
        requires
            self.wf(),
        ensures
            match found {
                Some(i) => i < self@.processes.len() && self@.processes[i as int].info.id
                    == process_id && has_process(self@.processes, process_id) && index_of_process(
                    self@.processes,
                    process_id,
                ) == i,
                None => !has_process(self@.processes, process_id),
            },
    {
        let mut i: usize = 0;
        while i < self.processes.len()
            invariant
                self.wf(),
                i <= self.processes.len(),
                forall|j: int| 0 <= j < i ==> (#[trigger] self@.processes[j]).info.id != process_id,
            decreases self.processes.len() - i,
        {
            if self.processes[i].id() == process_id {
                proof {
                    assert(self@.processes[i as int].info.id == process_id);
                    let c = index_of_process(self@.processes, process_id);
                    assert(0 <= c < self@.processes.len() && self@.processes[c].info.id
                        == process_id);
                    if c < i {
                        assert(self@.processes[c].info.id != self@.processes[i as int].info.id);
                    }
                    if i < c {
                        assert(self@.processes[i as int].info.id != self@.processes[c].info.id);
                    }
                }
                return Some(i);
            }
            i = i + 1;
        }
        None
    }

    /// The number of live processes of one type.
    fn count_type(&self, process_type: ProcessType) -> (n: usize)
        ensures
            n == count_of_type(self@.processes, process_type, self@.processes.len() as int),
    {
        let mut n: usize = 0;
        let mut i: usize = 0;
        while i < self.processes.len()
            invariant
                i <= self.processes.len(),
                n <= i,
                n == count_of_type(self@.processes, process_type, i as int),
            decreases self.processes.len() - i,
        {
            if self.processes[i].process_type() == process_type {
                n = n + 1;
            }
            i = i + 1;
        }
        n
    }

    /// Spawn a new process. It gets the next id and is running. Fails where
    /// as many processes of the type live as the type allows.
    pub fn spawn_process(&mut self, process_type: ProcessType, parent_id: Option<ProcessId>) -> (id:
        Result<ProcessId, MultiprocessError>)
        requires
            old(self).wf(),
            old(self)@.next_id < u64::MAX,
        ensures
            final(self).wf(),
            final(self)@.tabs == old(self)@.tabs,
            match id {
                Ok(process_id) => {
                    &&& count_of_type(
                        old(self)@.processes,
                        process_type,
                        old(self)@.processes.len() as int,
                    ) < process_limit(process_type)
                    &&& process_id == old(self)@.next_id
                    &&& final(self)@.next_id == process_id + 1
                    &&& final(self)@.processes == old(self)@.processes.push(
                        ProcessView {
                            info: ProcessInfo {
                                id: process_id,
                                process_type,
                                state: ProcessState::Running,
                                parent_id,
                                tab_id: None,
                            },
                            queue: Seq::empty(),
                        },
                    )
                },
                Err(e) => {
                    &&& e == MultiprocessError::ProcessLimitReached
                    &&& count_of_type(
                        old(self)@.processes,
                        process_type,
                        old(self)@.processes.len() as int,
                    ) >= process_limit(process_type)
                    &&& final(self)@ == old(self)@
                },
            },
    {
        let type_count = self.count_type(process_type);
        if type_count >= self.max_processes_for_type(process_type) {
            return Err(MultiprocessError::ProcessLimitReached);
        }
        let process_id = self.next_process_id;
        self.next_process_id = self.next_process_id + 1;
        let mut process = Process::new(process_id, process_type, parent_id);
        process.set_state(ProcessState::Running);
        self.processes.push(process);
        assert(self@.processes =~= old(self)@.processes.push(process@));
        Ok(process_id)
    }

    /// Get max processes for a type
    pub fn max_processes_for_type(&self, process_type: ProcessType) -> (limit: usize)
        ensures
            limit == process_limit(process_type),
    {
        match process_type {
            ProcessType::Browser => 1,
            ProcessType::Gpu => 1,
            ProcessType::Network => 1,
            ProcessType::Renderer => 100,
        }
    }

    /// Spawn renderer process for tab: a renderer whose parent is process 1
    /// and that belongs to the tab. The tab then maps to the new process.
    pub fn spawn_renderer_for_tab(&mut self, tab_id: u64) -> (id: Result<
        ProcessId,
        MultiprocessError,
    >)
        requires
            old(self).wf(),
            old(self)@.next_id < u64::MAX,
        ensures
            final(self).wf(),
            match id {
                Ok(process_id) => {
                    &&& count_of_type(
                        old(self)@.processes,
                        ProcessType::Renderer,
                        old(self)@.processes.len() as int,
                    ) < process_limit(ProcessType::Renderer)
                    &&& process_id == old(self)@.next_id
                    &&& final(self)@.next_id == process_id + 1
                    &&& final(self)@.processes == old(self)@.processes.push(
                        ProcessView {
                            info: ProcessInfo {
                                id: process_id,
                                process_type: ProcessType::Renderer,
                                state: ProcessState::Running,
                                parent_id: Some(1),
                                tab_id: Some(tab_id),
                            },
                            queue: Seq::empty(),
                        },
                    )
                    &&& final(self)@.tabs == old(self)@.tabs.insert(tab_id, process_id)
                },
                Err(e) => {
                    &&& e == MultiprocessError::ProcessLimitReached
                    &&& count_of_type(
                        old(self)@.processes,
                        ProcessType::Renderer,
                        old(self)@.processes.len() as int,
                    ) >= process_limit(ProcessType::Renderer)
                    &&& final(self)@ == old(self)@
                },
            },
    {
        let process_id = match self.spawn_process(ProcessType::Renderer, Some(1)) {
            Ok(id) => id,
            Err(e) => {
                return Err(e);
            },
        };
        let ghost spawned = self@.processes;
        assert(spawned.len() == self.processes@.len());
        let last = self.processes.len() - 1;
        let ghost spawned_processes = self.processes@;
        let mut process = self.processes.remove(last);
        assert(process@ == spawned[last as int]);
        process.set_tab_id(tab_id);
        self.processes.push(process);
        self.tab_to_process.insert(tab_id, process_id);
        proof {
            let now = self@.processes;
            let expected = old(self)@.processes.push(process@);
            assert(now.len() == expected.len());
            assert forall|j: int| 0 <= j < now.len() implies now[j] == expected[j] by {
                if j < last {
                    assert(self.processes@[j] == spawned_processes[j]);
                    assert(spawned[j] == old(self)@.processes[j]);
                }
            }
            assert(now =~= expected);
        }
        Ok(process_id)
    }

    /// Get renderer process for tab
    pub fn get_renderer_for_tab(&self, tab_id: u64) -> (id: Option<ProcessId>)
        ensures
            id == if self@.tabs.contains_key(tab_id) {
                Some(self@.tabs[tab_id])
            } else {
                None
            },
    {
        match self.tab_to_process.get(&tab_id) {
            Some(id) => Some(*id),
            None => None,
        }
    }

    /// Terminate process: the process leaves the manager, and the tab that
    /// it belongs to loses its mapping. Fails where no process has the id.
    pub fn terminate_process(&mut self, process_id: ProcessId) -> (done: Result<
        (),
        MultiprocessError,
    >)
        requires
            old(self).wf(),
        ensures
            final(self).wf(),
            final(self)@.next_id == old(self)@.next_id,
            match done {
                Ok(_) => {
                    let i = index_of_process(old(self)@.processes, process_id);
                    &&& has_process(old(self)@.processes, process_id)
                    &&& final(self)@.processes == old(self)@.processes.remove(i)
                    &&& final(self)@.tabs == match old(self)@.processes[i].info.tab_id {
                        Some(tab) => old(self)@.tabs.remove(tab),
                        None => old(self)@.tabs,
                    }
                },
                Err(e) => {
                    &&& e == MultiprocessError::ProcessNotFound
                    &&& !has_process(old(self)@.processes, process_id)
                    &&& final(self)@ == old(self)@
                },
            },
    {
        let index = match self.find(process_id) {
            Some(i) => i,
            None => {
                return Err(MultiprocessError::ProcessNotFound);
            },
        };
        let process = self.processes.remove(index);
        if let Some(tab_id) = process.info.tab_id {
            self.tab_to_process.remove(&tab_id);
        }
        assert(self@.processes =~= old(self)@.processes.remove(index as int));
        Ok(())
    }

    /// Mark process as crashed. Fails where no process has the id.
    pub fn mark_process_crashed(&mut self, process_id: ProcessId) -> (done: Result<
        (),
        MultiprocessError,
    >)
        requires
            old(self).wf(),
        ensures
            final(self).wf(),
            final(self)@.next_id == old(self)@.next_id,
            final(self)@.tabs == old(self)@.tabs,
            match done {
                Ok(_) => {
                    let i = index_of_process(old(self)@.processes, process_id);
                    &&& has_process(old(self)@.processes, process_id)
                    &&& final(self)@.processes == old(self)@.processes.update(
                        i,
                        ProcessView {
                            info: ProcessInfo {
                                state: ProcessState::Crashed,
                                ..old(self)@.processes[i].info
                            },
                            queue: old(self)@.processes[i].queue,
                        },
                    )
                },
                Err(e) => {
                    &&& e == MultiprocessError::ProcessNotFound
                    &&& !has_process(old(self)@.processes, process_id)
                    &&& final(self)@ == old(self)@
                },
            },
    {
        let index = match self.find(process_id) {
            Some(i) => i,
            None => {
                return Err(MultiprocessError::ProcessNotFound);
            },
        };
        let mut process = self.processes.remove(index);
        process.set_state(ProcessState::Crashed);
        self.processes.insert(index, process);
        assert(self@.processes =~= old(self)@.processes.update(index as int, process@));
        Ok(())
    }

    /// Send IPC message: the message joins the queue of the receiver. Fails
    /// where the sender or the receiver is no live process, or where the
    /// queue of the receiver is full.
    pub fn send_ipc_message(&mut self, from_id: ProcessId, to_id: ProcessId, message: IpcMessage) -> (sent:
        Result<(), MultiprocessError>)
        requires
            old(self).wf(),
        ensures
            final(self).wf(),
            final(self)@.next_id == old(self)@.next_id,
            final(self)@.tabs == old(self)@.tabs,
            match sent {
                Ok(_) => {
                    let i = index_of_process(old(self)@.processes, to_id);
                    &&& has_process(old(self)@.processes, from_id)
                    &&& has_process(old(self)@.processes, to_id)
                    &&& old(self)@.processes[i].queue.len() < MESSAGE_QUEUE_LIMIT
                    &&& final(self)@.processes == old(self)@.processes.update(
                        i,
                        ProcessView {
                            info: old(self)@.processes[i].info,
                            queue: old(self)@.processes[i].queue.push(message),
                        },
                    )
                },
                Err(e) => {
                    &&& final(self)@ == old(self)@
                    &&& if !has_process(old(self)@.processes, from_id) || !has_process(
                        old(self)@.processes,
                        to_id,
                    ) {
                        e == MultiprocessError::ProcessNotFound
                    } else {
                        e == MultiprocessError::MessageQueueFull && old(self)@.processes[index_of_process(
                            old(self)@.processes,
                            to_id,
                        )].queue.len() >= MESSAGE_QUEUE_LIMIT
                    }
                },
            },
    {
        if self.find(from_id).is_none() {
            return Err(MultiprocessError::ProcessNotFound);
        }
        let index = match self.find(to_id) {
            Some(i) => i,
            None => {
                return Err(MultiprocessError::ProcessNotFound);
            },
        };
        let mut process = self.processes.remove(index);
        let ghost before = process@;
        let sent = process.send_message(message);
        self.processes.insert(index, process);
        assert(self@.processes =~= old(self)@.processes.update(index as int, process@));
        proof {
            if sent.is_err() {
                assert(process@ == before);
                assert(self@.processes =~= old(self)@.processes);
            }
        }
        sent
    }

    /// Receive IPC message: the oldest message that waits for the process.
    /// None where no process has the id or no message waits.
    pub fn receive_ipc_message(&mut self, process_id: ProcessId) -> (message: Option<IpcMessage>)
        requires
            old(self).wf(),
        ensures
            final(self).wf(),
            final(self)@.next_id == old(self)@.next_id,
            final(self)@.tabs == old(self)@.tabs,
            match message {
                Some(m) => {
                    let i = index_of_process(old(self)@.processes, process_id);
                    let queue = old(self)@.processes[i].queue;
                    &&& has_process(old(self)@.processes, process_id)
                    &&& queue.len() > 0
                    &&& m == queue[0]
                    &&& final(self)@.processes == old(self)@.processes.update(
                        i,
                        ProcessView {
                            info: old(self)@.processes[i].info,
                            queue: queue.subrange(1, queue.len() as int),
                        },
                    )
                },
                None => {
                    &&& final(self)@ == old(self)@
                    &&& (has_process(old(self)@.processes, process_id) ==> old(self)@.processes[index_of_process(old(self)@.processes, process_id)].queue.len()
                        == 0)
                },
            },
    {
        let index = match self.find(process_id) {
            Some(i) => i,
            None => {
                return None;
            },
        };
        let mut process = self.processes.remove(index);
        let ghost before = process@;
        let message = process.receive_message();
        self.processes.insert(index, process);
        assert(self@.processes =~= old(self)@.processes.update(index as int, process@));
        proof {
            if message.is_none() {
                assert(process@ == before);
                assert(self@.processes =~= old(self)@.processes);
            }
        }
        message
    }

    /// Get process info
    pub fn get_process_info(&self, process_id: ProcessId) -> (info: Option<ProcessInfo>)
        requires
            self.wf(),
        ensures
            info == if has_process(self@.processes, process_id) {
                Some(self@.processes[index_of_process(self@.processes, process_id)].info)
            } else {
                None
            },
    {
        match self.find(process_id) {
            Some(i) => Some(self.processes[i].info),
            None => None,
        }
    }

    /// Get all processes of type, in the order in which they were spawned.
    pub fn get_processes_by_type(&self, process_type: ProcessType) -> (ids: Vec<ProcessId>)
        ensures
            ids@ == ids_of_type(self@.processes, process_type, self@.processes.len() as int),
    {
        let mut ids: Vec<ProcessId> = Vec::new();
        let mut i: usize = 0;
        while i < self.processes.len()
            invariant
                i <= self.processes.len(),
                ids@ == ids_of_type(self@.processes, process_type, i as int),
            decreases self.processes.len() - i,
        {
            if self.processes[i].process_type() == process_type {
                ids.push(self.processes[i].id());
            }
            i = i + 1;
        }
        ids
    }

    /// Get total process count
    pub fn process_count(&self) -> (n: usize)
        ensures
            n == self@.processes.len(),
    {
        self.processes.len()
    }

    /// Clean up crashed processes: every process that has crashed leaves
    /// the manager, and its tab loses its mapping.
    pub fn cleanup_crashed_processes(&mut self)
        requires
            old(self).wf(),
        ensures
            final(self).wf(),
            final(self)@.next_id == old(self)@.next_id,
            final(self)@.processes == survivors(
                old(self)@.processes,
                old(self)@.processes.len() as int,
            ),
            final(self)@.tabs == tabs_without_crashed(
                old(self)@.tabs,
                old(self)@.processes,
                old(self)@.processes.len() as int,
            ),
    {
        let ghost given = self@.processes;
        let ghost tabs = self@.tabs;
        let mut kept: Vec<Process> = Vec::new();
        let mut rest: Vec<Process> = Vec::new();
        core::mem::swap(&mut self.processes, &mut rest);
        let count = rest.len();
        let mut i: usize = 0;
        // The processes are taken from the back, so the kept ones come out
        // reversed and are turned round at the end.
        let mut taken: Vec<Process> = Vec::new();
        while rest.len() > 0
            invariant
                rest@.len() + taken@.len() == count,
                count == given.len(),
                forall|j: int| 0 <= j < rest@.len() ==> (#[trigger] rest@[j])@ == given[j],
                forall|j: int|
                    0 <= j < taken@.len() ==> (#[trigger] taken@[j])@ == given[count - 1 - j],
            decreases rest.len(),
        {
            let process = rest.pop().unwrap();
            taken.push(process);
        }
        while taken.len() > 0
            invariant
                taken@.len() + i == count,
                count == given.len(),
                self.next_process_id == old(self).next_process_id,
                forall|j: int|
                    0 <= j < taken@.len() ==> (#[trigger] taken@[j])@ == given[count - 1 - j],
                process_views(kept@) == survivors(given, i as int),
                self.tab_to_process@ == tabs_without_crashed(tabs, given, i as int),
            decreases taken.len(),
        {
            let process = taken.pop().unwrap();
            assert(process@ == given[i as int]);
            let ghost before = process_views(kept@);
            if process.state() == ProcessState::Crashed {
                if let Some(tab_id) = process.info.tab_id {
                    self.tab_to_process.remove(&tab_id);
                }
            } else {
                kept.push(process);
                assert(process_views(kept@) =~= before.push(process@));
            }
            i = i + 1;
        }
        core::mem::swap(&mut self.processes, &mut kept);
        proof {
            lemma_survivors(given, count as int);
            assert forall|a: int, b: int| 0 <= a < b < self@.processes.len() implies self@.processes[a].info.id
                != self@.processes[b].info.id by {
                lemma_pick_source(given, count as int, a);
                lemma_pick_source(given, count as int, b);
                lemma_pick_source_ordered(given, count as int, a, b);
            }
            assert forall|a: int| 0 <= a < self@.processes.len() implies (
            #[trigger] self@.processes[a]).info.id < self@.next_id by {
                lemma_pick_source(given, count as int, a);
            }
        }
    }
}

/// The index among the first `k` processes of the one that survives as
/// number `a`.
pub open spec fn pick_source(processes: Seq<ProcessView>, k: int, a: int) -> int
    decreases k,
{
    if k <= 0 || k > processes.len() {
        0
    } else if processes[k - 1].info.state != ProcessState::Crashed && a == survivors(
        processes,
        k - 1,
    ).len() {
        k - 1
    } else {
        pick_source(processes, k - 1, a)
    }
}

/// There are no more survivors than processes.
pub proof fn lemma_survivors(processes: Seq<ProcessView>, k: int)
    requires
        0 <= k <= processes.len(),
    ensures
        survivors(processes, k).len() <= k,
    decreases k,
{
    if k > 0 {
        lemma_survivors(processes, k - 1);
    }
}

/// Each survivor is one of the processes.
pub proof fn lemma_pick_source(processes: Seq<ProcessView>, k: int, a: int)
    requires
        0 <= k <= processes.len(),
        0 <= a < survivors(processes, k).len(),
    ensures
        0 <= pick_source(processes, k, a) < k,
        survivors(processes, k)[a] == processes[pick_source(processes, k, a)],
    decreases k,
{
    if k > 0 {
        lemma_survivors(processes, k - 1);
        if processes[k - 1].info.state != ProcessState::Crashed && a == survivors(
            processes,
            k - 1,
        ).len() {
        } else {
            lemma_pick_source(processes, k - 1, a);
        }
    }
}

/// Survivors keep the order of the processes.
pub proof fn lemma_pick_source_ordered(processes: Seq<ProcessView>, k: int, a: int, b: int)
    requires
        0 <= k <= processes.len(),
        0 <= a < b < survivors(processes, k).len(),
    ensures
        pick_source(processes, k, a) < pick_source(processes, k, b),
    decreases k,
{
    if k > 0 {
        lemma_survivors(processes, k - 1);
        if processes[k - 1].info.state != ProcessState::Crashed && b == survivors(
            processes,
            k - 1,
        ).len() {
            lemma_pick_source(processes, k - 1, a);
        } else {
            lemma_pick_source_ordered(processes, k - 1, a, b);
        }
    }
}

impl Default for ProcessManager {
    fn default() -> (m: Self)
        ensures
            m.wf(),
            m@.next_id == 1,
            m@.processes == Seq::<ProcessView>::empty(),
            m@.tabs == Map::<u64, ProcessId>::empty(),
    {
        ProcessManager::new()
    }
}

/// Shared memory region (simplified)
pub struct SharedMemory {
    /// Region ID
    id: u64,
    /// Data
    data: Vec<u8>,
    /// Size
    size: usize,
}

impl View for SharedMemory {
    type V = Seq<u8>;

    closed spec fn view(&self) -> Seq<u8> {
        self.data@
    }
}

impl SharedMemory {
    /// The id of the region.
    pub closed spec fn spec_id(&self) -> u64 {
        self.id
    }

    /// The region holds as many bytes as its size says.
    pub closed spec fn wf(&self) -> bool {
        self.data@.len() == self.size
    }

    /// Create a new shared memory region of `size` zero bytes.
    pub fn new(id: u64, size: usize) -> (m: Self)
        ensures
            m.wf(),
            m.spec_id() == id,
            m@.len() == size,
            forall|i: int| 0 <= i < size ==> m@[i] == 0,
    {
        let mut data: Vec<u8> = Vec::new();
        let mut i: usize = 0;
        while i < size
            invariant
                i <= size,
                data@.len() == i,
                forall|j: int| 0 <= j < i ==> data@[j] == 0,
            decreases size - i,
        {
            data.push(0);
            i = i + 1;
        }
        SharedMemory { id, data, size }
    }

    /// Get region ID
    pub fn id(&self) -> (id: u64)
        ensures
            id == self.spec_id(),
    {
        self.id
    }

    /// Get size
    pub fn size(&self) -> (size: usize)
        requires
            self.wf(),
        ensures
            size == self@.len(),
    {
        self.size
    }

    /// Write data at `offset`. Fails where the data would reach past the
    /// end of the region; the region is then unchanged.
    pub fn write(&mut self, offset: usize, data: &[u8]) -> (done: Result<(), MultiprocessError>)
        requires
            old(self).wf(),
        ensures
            final(self).wf(),
            final(self).spec_id() == old(self).spec_id(),
            final(self)@.len() == old(self)@.len(),
            match done {
                Ok(_) => {
                    &&& offset + data@.len() <= old(self)@.len()
                    &&& forall|i: int|
                        0 <= i < final(self)@.len() ==> final(self)@[i] == if offset <= i < offset
                            + data@.len() {
                            data@[i - offset]
                        } else {
                            old(self)@[i]
                        }
                },
                Err(e) => {
                    &&& e == MultiprocessError::OutOfBounds
                    &&& offset + data@.len() > old(self)@.len()
                    &&& final(self)@ == old(self)@
                },
            },
    {
        if offset > self.size || data.len() > self.size - offset {
            return Err(MultiprocessError::OutOfBounds);
        }
        let mut i: usize = 0;
        while i < data.len()
            invariant
                i <= data@.len(),
                offset + data@.len() <= self.size,
                self.size == old(self).size,
                self.id == old(self).id,
                self.data@.len() == self.size,
                forall|j: int|
                    0 <= j < self.data@.len() ==> self.data@[j] == if offset <= j < offset + i {
                        data@[j - offset]
                    } else {
                        old(self).data@[j]
                    },
            decreases data@.len() - i,
        {
            self.data.set(offset + i, data[i]);
            i = i + 1;
        }
        Ok(())
    }

    /// Read `len` bytes from `offset` on. Fails where they would reach past
    /// the end of the region.
    pub fn read(&self, offset: usize, len: usize) -> (bytes: Result<Vec<u8>, MultiprocessError>)
        requires
            self.wf(),
        ensures
            match bytes {
                Ok(v) => offset + len <= self@.len() && v@ == self@.subrange(
                    offset as int,
                    offset + len,
                ),
                Err(e) => e == MultiprocessError::OutOfBounds && offset + len > self@.len(),
            },
    {
        if offset > self.size || len > self.size - offset {
            return Err(MultiprocessError::OutOfBounds);
        }
        let mut bytes: Vec<u8> = Vec::new();
        let mut i: usize = 0;
        while i < len
            invariant
                i <= len,
                offset + len <= self.size,
                self.data@.len() == self.size,
                bytes@ == self.data@.subrange(offset as int, offset + i),
            decreases len - i,
        {
            bytes.push(self.data[offset + i]);
            assert(bytes@ =~= self.data@.subrange(offset as int, offset + i + 1));
            i = i + 1;
        }
        Ok(bytes)
    }
}

/// Shared memory manager
pub struct SharedMemoryManager {
    /// Next region ID
    next_region_id: u64,
    /// Memory regions
    regions: HashMap<u64, SharedMemory>,
}

impl SharedMemoryManager {
    /// The id that the next region gets.
    pub closed spec fn next_id(&self) -> u64 {
        self.next_region_id
    }

    /// The regions, by id.
    pub closed spec fn regions(&self) -> Map<u64, SharedMemory> {
        self.regions@
    }

    /// Create a new shared memory manager, with no region and 1 as the next
    /// id.
    pub fn new() -> (m: Self)
        ensures
            m.next_id() == 1,
            m.regions() == Map::<u64, SharedMemory>::empty(),
    {
        SharedMemoryManager { next_region_id: 1, regions: HashMap::new() }
    }

    /// Create shared memory region of `size` zero bytes under the next id.
    /// Fails where the size is over the limit.
    pub fn create_region(&mut self, size: usize) -> (id: Result<u64, MultiprocessError>)
        requires
            old(self).next_id() < u64::MAX,
        ensures
            match id {
                Ok(region_id) => {
                    &&& size <= REGION_SIZE_LIMIT
                    &&& region_id == old(self).next_id()
                    &&& final(self).next_id() == region_id + 1
                    &&& final(self).regions().dom() == old(self).regions().dom().insert(region_id)
                    &&& forall|k: u64|
                        old(self).regions().contains_key(k) && k != region_id ==> final(self).regions()[k] == old(self).regions()[k]
                    &&& final(self).regions()[region_id].wf()
                    &&& final(self).regions()[region_id].spec_id() == region_id
                    &&& final(self).regions()[region_id]@.len() == size
                    &&& forall|i: int| 0 <= i < size ==> final(self).regions()[region_id]@[i] == 0
                },
                Err(e) => {
                    &&& e == MultiprocessError::MemoryLimitExceeded
                    &&& size > REGION_SIZE_LIMIT
                    &&& final(self).next_id() == old(self).next_id()
                    &&& final(self).regions() == old(self).regions()
                },
            },
    {
        if size > REGION_SIZE_LIMIT {
            return Err(MultiprocessError::MemoryLimitExceeded);
        }
        let region_id = self.next_region_id;
        self.next_region_id = self.next_region_id + 1;
        let region = SharedMemory::new(region_id, size);
        self.regions.insert(region_id, region);
        assert(self.regions@.dom() =~= old(self).regions@.dom().insert(region_id));
        Ok(region_id)
    }

    /// Get shared memory region
    pub fn get_region(&self, region_id: u64) -> (region: Option<&SharedMemory>)
        ensures
            match region {
                Some(r) => self.regions().contains_key(region_id) && *r == self.regions()[region_id],
                None => !self.regions().contains_key(region_id),
            },
    {
        self.regions.get(&region_id)
    }

    /// Remove shared memory region. Says whether there was one.
    pub fn remove_region(&mut self, region_id: u64) -> (removed: bool)
        ensures
            removed == old(self).regions().contains_key(region_id),
            final(self).regions() == old(self).regions().remove(region_id),
            final(self).next_id() == old(self).next_id(),
    {
        self.regions.remove(&region_id).is_some()
    }
}

impl Default for SharedMemoryManager {
    fn default() -> (m: Self)
        ensures
            m.next_id() == 1,
            m.regions() == Map::<u64, SharedMemory>::empty(),
    {
        SharedMemoryManager::new()
    }
}

} // verus!
