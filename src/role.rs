use vstd::prelude::*;

verus! {

/// Whether this process hands its metrics to another process.
pub struct IpcMode {
    pub need_ipc: bool,
}

/// Undoes a `test_set_need_ipc` when it is restored.
pub struct TestNeedIpcRAII {
    prev_value: bool,
}

impl TestNeedIpcRAII {
    /// The value to go back to.
    pub closed spec fn prev(&self) -> bool {
        self.prev_value
    }

    /// Puts back the value that `mode` had before the override.
    pub fn restore(self, mode: &mut IpcMode)
        ensures
            final(mode).need_ipc == self.prev(),
    {
        mode.need_ipc = self.prev_value;
    }
}

/// Do we need IPC?
pub fn need_ipc(mode: &IpcMode) -> (r: bool)
    ensures
        r == mode.need_ipc,
{
    mode.need_ipc
}

/// Makes `mode` report `need_ipc` until the returned guard is restored, even
/// where the process has only the one role.
pub fn test_set_need_ipc(mode: &mut IpcMode, need_ipc: bool) -> (r: TestNeedIpcRAII)
    ensures
        final(mode).need_ipc == need_ipc,
        r.prev() == old(mode).need_ipc,
{
    let prev_value = mode.need_ipc;
    mode.need_ipc = need_ipc;
    TestNeedIpcRAII { prev_value }
}

/// Whether the process runs under test automation. Without a host to ask,
/// it never does.
pub fn is_in_automation() -> (r: bool)
    ensures
        !r,
{
    false
}

} // verus!
