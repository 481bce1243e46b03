// Processes, messages between them and shared memory.

use browser_engine::multiprocess::{
    IpcMessage, MultiprocessError, Process, ProcessManager, ProcessState, ProcessType,
    SharedMemory, SharedMemoryManager,
};

#[test]
fn test_process_creation() {
    let process = Process::new(1, ProcessType::Renderer, None);
    assert_eq!(process.id(), 1);
    assert_eq!(process.process_type(), ProcessType::Renderer);
}

#[test]
fn test_process_manager() {
    let mut manager = ProcessManager::new();
    let pid = manager.spawn_process(ProcessType::Renderer, None).unwrap();

    assert_eq!(manager.process_count(), 1);
    assert!(manager.get_process_info(pid).is_some());
}

#[test]
fn test_spawn_renderer_for_tab() {
    let mut manager = ProcessManager::new();
    let tab_id = 42;

    let pid = manager.spawn_renderer_for_tab(tab_id).unwrap();
    assert_eq!(manager.get_renderer_for_tab(tab_id), Some(pid));
}

#[test]
fn test_terminate_process() {
    let mut manager = ProcessManager::new();
    let pid = manager.spawn_process(ProcessType::Renderer, None).unwrap();

    manager.terminate_process(pid).unwrap();
    assert_eq!(manager.process_count(), 0);
}

#[test]
fn test_ipc_message() {
    let mut manager = ProcessManager::new();
    let pid1 = manager.spawn_process(ProcessType::Browser, None).unwrap();
    let pid2 = manager.spawn_process(ProcessType::Renderer, None).unwrap();

    manager.send_ipc_message(pid1, pid2, IpcMessage::Ping).unwrap();

    let msg = manager.receive_ipc_message(pid2);
    assert!(matches!(msg, Some(IpcMessage::Ping)));
}

#[test]
fn test_process_limit() {
    let mut manager = ProcessManager::new();

    // Try to spawn two browser processes (limit is 1)
    let _ = manager.spawn_process(ProcessType::Browser, None).unwrap();
    let result = manager.spawn_process(ProcessType::Browser, None);

    assert_eq!(result, Err(MultiprocessError::ProcessLimitReached));
}

#[test]
fn test_shared_memory() {
    let mut mem = SharedMemory::new(1, 1024);

    let data = vec![1, 2, 3, 4, 5];
    mem.write(0, &data).unwrap();

    let read_data = mem.read(0, 5).unwrap();
    assert_eq!(read_data, data);
}

#[test]
fn test_shared_memory_bounds() {
    let mut mem = SharedMemory::new(1, 10);

    let result = mem.write(8, &[1, 2, 3, 4]);
    assert_eq!(result, Err(MultiprocessError::OutOfBounds));
}

#[test]
fn test_shared_memory_manager() {
    let mut manager = SharedMemoryManager::new();

    let region_id = manager.create_region(1024).unwrap();
    assert!(manager.get_region(region_id).is_some());

    assert!(manager.remove_region(region_id));
    assert!(manager.get_region(region_id).is_none());
}

#[test]
fn test_process_crash_handling() {
    let mut manager = ProcessManager::new();
    let pid = manager.spawn_process(ProcessType::Renderer, None).unwrap();

    manager.mark_process_crashed(pid).unwrap();

    let info = manager.get_process_info(pid).unwrap();
    assert_eq!(info.state, ProcessState::Crashed);

    manager.cleanup_crashed_processes();
    assert_eq!(manager.process_count(), 0);
}

#[test]
fn test_get_processes_by_type() {
    let mut manager = ProcessManager::new();

    manager.spawn_process(ProcessType::Renderer, None).unwrap();
    manager.spawn_process(ProcessType::Renderer, None).unwrap();
    manager.spawn_process(ProcessType::Browser, None).unwrap();

    let renderers = manager.get_processes_by_type(ProcessType::Renderer);
    assert_eq!(renderers.len(), 2);
}

#[test]
fn test_message_queue_is_first_in_first_out() {
    let mut process = Process::new(7, ProcessType::Gpu, Some(1));
    assert_eq!(process.state(), ProcessState::Starting);
    process.send_message(IpcMessage::Ping).unwrap();
    process.send_message(IpcMessage::Shutdown).unwrap();
    assert_eq!(process.message_queue_size(), 2);
    assert!(matches!(process.receive_message(), Some(IpcMessage::Ping)));
    assert!(matches!(process.receive_message(), Some(IpcMessage::Shutdown)));
    assert!(process.receive_message().is_none());
}

#[test]
fn test_message_queue_limit() {
    let mut process = Process::new(1, ProcessType::Renderer, None);
    for _ in 0..1000 {
        process.send_message(IpcMessage::Ping).unwrap();
    }
    assert_eq!(
        process.send_message(IpcMessage::Pong),
        Err(MultiprocessError::MessageQueueFull)
    );
    assert_eq!(process.message_queue_size(), 1000);
}

#[test]
fn test_unknown_process_is_not_found() {
    let mut manager = ProcessManager::new();
    let pid = manager.spawn_process(ProcessType::Network, None).unwrap();
    assert_eq!(pid, 1);
    assert_eq!(manager.terminate_process(99), Err(MultiprocessError::ProcessNotFound));
    assert_eq!(manager.mark_process_crashed(99), Err(MultiprocessError::ProcessNotFound));
    assert_eq!(
        manager.send_ipc_message(99, pid, IpcMessage::Ping),
        Err(MultiprocessError::ProcessNotFound)
    );
    assert_eq!(
        manager.send_ipc_message(pid, 99, IpcMessage::Ping),
        Err(MultiprocessError::ProcessNotFound)
    );
    assert!(manager.receive_ipc_message(99).is_none());
    assert!(manager.get_process_info(99).is_none());
}

#[test]
fn test_terminate_frees_the_tab_and_the_slot() {
    let mut manager = ProcessManager::new();
    let gpu = manager.spawn_process(ProcessType::Gpu, None).unwrap();
    let pid = manager.spawn_renderer_for_tab(5).unwrap();
    assert_eq!(manager.get_process_info(pid).unwrap().tab_id, Some(5));
    assert_eq!(manager.get_process_info(pid).unwrap().parent_id, Some(1));
    manager.terminate_process(pid).unwrap();
    assert_eq!(manager.get_renderer_for_tab(5), None);
    manager.terminate_process(gpu).unwrap();
    assert!(manager.spawn_process(ProcessType::Gpu, None).is_ok());
    assert_eq!(manager.max_processes_for_type(ProcessType::Renderer), 100);
}

#[test]
fn test_cleanup_keeps_the_others_in_order() {
    let mut manager = ProcessManager::new();
    let a = manager.spawn_process(ProcessType::Renderer, None).unwrap();
    let b = manager.spawn_renderer_for_tab(3).unwrap();
    let c = manager.spawn_process(ProcessType::Renderer, None).unwrap();
    manager.mark_process_crashed(b).unwrap();
    manager.cleanup_crashed_processes();
    assert_eq!(manager.get_processes_by_type(ProcessType::Renderer), vec![a, c]);
    assert_eq!(manager.get_renderer_for_tab(3), None);
}

#[test]
fn test_shared_memory_write_in_the_middle() {
    let mut mem = SharedMemory::new(9, 6);
    assert_eq!(mem.id(), 9);
    assert_eq!(mem.size(), 6);
    mem.write(2, &[7, 8]).unwrap();
    assert_eq!(mem.read(0, 6).unwrap(), vec![0, 0, 7, 8, 0, 0]);
    assert_eq!(mem.read(5, 2), Err(MultiprocessError::OutOfBounds));
    assert_eq!(mem.write(usize::MAX, &[1]), Err(MultiprocessError::OutOfBounds));
}

#[test]
fn test_region_size_limit() {
    let mut manager = SharedMemoryManager::new();
    assert_eq!(
        manager.create_region(100 * 1024 * 1024 + 1),
        Err(MultiprocessError::MemoryLimitExceeded)
    );
    assert_eq!(manager.create_region(16), Ok(1));
    assert_eq!(manager.create_region(16), Ok(2));
    assert!(!manager.remove_region(3));
}

#[test]
fn test_error_text() {
    assert_eq!(MultiprocessError::OutOfBounds.to_string(), "Out of bounds access");
    assert_eq!(MultiprocessError::IpcError.to_string(), "IPC error");
}
