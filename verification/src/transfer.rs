//! The control of the phone app's transfers: each task runs, pauses or is cancelled; a
//! download may go on only while the camera connection it started under lasts.
use vstd::prelude::*;

verus! {

/// The state of one transfer task.
#[derive(Debug, Clone, Copy, PartialEq, Eq, Structural)]
pub enum TransferState {
    Running,
    Paused,
    Cancelled,
}

/// The state the entries record for `task_id`: the last entry for it counts.
pub open spec fn registry_lookup(entries: Seq<(u64, TransferState)>, task_id: u64) -> Option<TransferState>
    decreases entries.len(),
{
    if entries.len() == 0 {
        None
    } else if entries.last().0 == task_id {
        Some(entries.last().1)
    } else {
        registry_lookup(entries.drop_last(), task_id)
    }
}

/// What a transfer task may do next.
#[derive(Debug, Clone, Copy, PartialEq, Eq, Structural)]
pub enum TransferPermission {
    /// Go on.
    Proceed,
    /// Wait a moment and ask again.
    Wait,
    /// Stop: the task was cancelled.
    Stop,
}

impl TransferPermission {
    /// The message of a stopped task.
    pub fn stop_message() -> (r: &'static str)
        ensures
            r@ == "任务已停止，未完成文件已删除"@,
    {
        "任务已停止，未完成文件已删除"
    }
}

/// What a task in `state` may do: a running task goes on, a paused one waits, a cancelled one
/// stops.
pub fn transfer_permission(state: TransferState) -> (r: TransferPermission)
    ensures
        state == TransferState::Running ==> r == TransferPermission::Proceed,
        state == TransferState::Paused ==> r == TransferPermission::Wait,
        state == TransferState::Cancelled ==> r == TransferPermission::Stop,
{
    match state {
        TransferState::Running => TransferPermission::Proceed,
        TransferState::Paused => TransferPermission::Wait,
        TransferState::Cancelled => TransferPermission::Stop,
    }
}

/// The transfer tasks the app controls.
pub struct TransferRegistry {
    pub entries: Vec<(u64, TransferState)>,
}

impl TransferRegistry {
    /// The state of a task, if it is registered.
    pub open spec fn state_of(&self, task_id: u64) -> Option<TransferState> {
        registry_lookup(self.entries@, task_id)
    }

    /// No task registered.
    pub fn new() -> (r: Self)
        ensures
            forall|t: u64| r.state_of(t) is None,
    {
        TransferRegistry { entries: Vec::new() }
    }

    /// The index of the last entry of `task_id`.
    fn last_index(&self, task_id: u64) -> (r: Option<usize>)
        ensures
            match r {
                Some(i) => i < self.entries@.len() && self.entries@[i as int].0 == task_id
                    && registry_lookup(self.entries@, task_id) == Some(self.entries@[i as int].1)
                    && forall|k: int| i < k < self.entries@.len() ==> self.entries@[k].0 != task_id,
                None => registry_lookup(self.entries@, task_id) is None,
            },
    {
        let n = self.entries.len();
        let mut j = n;
        assert(self.entries@.subrange(0, n as int) =~= self.entries@);
        while j > 0
            invariant
                n == self.entries@.len(),
                j <= n,
                registry_lookup(self.entries@, task_id) == registry_lookup(self.entries@.subrange(0, j as int), task_id),
                forall|k: int| j <= k < n ==> self.entries@[k].0 != task_id,
            decreases j,
        {
            let ghost pre = self.entries@.subrange(0, j as int);
            assert(pre.drop_last() =~= self.entries@.subrange(0, j - 1));
            if self.entries[j - 1].0 == task_id {
                return Some(j - 1);
            }
            j = j - 1;
        }
        None
    }

    /// Sets the state of entry `i` (the last one of `task_id`).
    fn set_state(&mut self, i: usize, task_id: u64, state: TransferState)
        requires
            i < old(self).entries@.len(),
            old(self).entries@[i as int].0 == task_id,
            forall|k: int| i < k < old(self).entries@.len() ==> old(self).entries@[k].0 != task_id,
        ensures
            final(self).state_of(task_id) == Some(state),
            forall|t: u64| t != task_id ==> final(self).state_of(t) == old(self).state_of(t),
    {
        let ghost before = self.entries@;
        self.entries.set(i, (task_id, state));
        proof {
            lemma_lookup_after_set(before, i as int, task_id, state);
        }
    }

    /// Carries out a transfer control action: 0 registers the task as running (again), 1
    /// pauses it, 2 resumes it, 3 cancels it, 4 forgets it. Pausing, resuming and cancelling
    /// answer whether the task is registered; registering and forgetting answer true; any other
    /// action answers false and changes nothing.
    pub fn control(&mut self, task_id: u64, action: i32) -> (r: bool)
        ensures
            action == 0 ==> r && final(self).state_of(task_id) == Some(TransferState::Running),
            1 <= action <= 3 ==> r == old(self).state_of(task_id) is Some,
            1 <= action <= 3 && old(self).state_of(task_id) is Some ==> final(self).state_of(task_id) == Some(
                if action == 1 {
                    TransferState::Paused
                } else if action == 2 {
                    TransferState::Running
                } else {
                    TransferState::Cancelled
                },
            ),
            1 <= action <= 3 && old(self).state_of(task_id) is None ==> final(self).state_of(task_id) is None,
            action == 4 ==> r && final(self).state_of(task_id) is None,
            !(0 <= action <= 4) ==> !r && final(self).entries@ == old(self).entries@,
            forall|t: u64| t != task_id ==> final(self).state_of(t) == old(self).state_of(t),
    {
        if action == 0 {
            match self.last_index(task_id) {
                Some(i) => self.set_state(i, task_id, TransferState::Running),
                None => {
                    let ghost before = self.entries@;
                    self.entries.push((task_id, TransferState::Running));
                    assert(self.entries@.drop_last() =~= before);
                },
            }
            true
        } else if action == 1 || action == 2 || action == 3 {
            let state = if action == 1 {
                TransferState::Paused
            } else if action == 2 {
                TransferState::Running
            } else {
                TransferState::Cancelled
            };
            match self.last_index(task_id) {
                Some(i) => {
                    self.set_state(i, task_id, state);
                    true
                },
                None => false,
            }
        } else if action == 4 {
            self.forget(task_id);
            true
        } else {
            false
        }
    }

    /// Forgets every entry of `task_id`.
    fn forget(&mut self, task_id: u64)
        ensures
            final(self).state_of(task_id) is None,
            forall|t: u64| t != task_id ==> final(self).state_of(t) == old(self).state_of(t),
    {
        let ghost before = self.entries@;
        let n = self.entries.len();
        let mut kept: Vec<(u64, TransferState)> = Vec::new();
        let mut i: usize = 0;
        while i < n
            invariant
                n == before.len(),
                self.entries@ == before,
                i <= n,
                registry_lookup(kept@, task_id) is None,
                forall|t: u64| t != task_id ==> registry_lookup(kept@, t) == registry_lookup(before.subrange(0, i as int), t),
            decreases n - i,
        {
            let e = self.entries[i];
            let ghost next = before.subrange(0, i + 1);
            assert(next.drop_last() =~= before.subrange(0, i as int));
            assert(next.last() == e);
            let ghost prev = kept@;
            if e.0 != task_id {
                kept.push(e);
                assert(kept@.drop_last() =~= prev);
            }
            assert forall|t: u64| t != task_id implies #[trigger] registry_lookup(kept@, t) == registry_lookup(next, t) by {
                assert(registry_lookup(prev, t) == registry_lookup(before.subrange(0, i as int), t));
            }
            i = i + 1;
        }
        assert(before.subrange(0, n as int) =~= before);
        self.entries = kept;
    }

    /// The state of a task, registering it as running when it is not yet known.
    pub fn state_for(&mut self, task_id: u64) -> (r: TransferState)
        ensures
            match old(self).state_of(task_id) {
                Some(s) => r == s && final(self).entries@ == old(self).entries@,
                None => r == TransferState::Running && final(self).state_of(task_id) == Some(TransferState::Running),
            },
            forall|t: u64| t != task_id ==> final(self).state_of(t) == old(self).state_of(t),
    {
        match self.last_index(task_id) {
            Some(i) => self.entries[i].1,
            None => {
                let ghost before = self.entries@;
                self.entries.push((task_id, TransferState::Running));
                assert(self.entries@.drop_last() =~= before);
                TransferState::Running
            },
        }
    }

    /// Cancels every registered task.
    pub fn cancel_all(&mut self)
        ensures
            forall|t: u64| #[trigger] final(self).state_of(t) == match old(self).state_of(t) {
                Some(_) => Some(TransferState::Cancelled),
                None => None,
            },
    {
        let ghost before = self.entries@;
        let n = self.entries.len();
        let mut i: usize = 0;
        while i < n
            invariant
                n == self.entries@.len(),
                n == before.len(),
                i <= n,
                forall|k: int| 0 <= k < n ==> self.entries@[k].0 == before[k].0,
                forall|k: int| 0 <= k < i ==> self.entries@[k].1 == TransferState::Cancelled,
                forall|k: int| i <= k < n ==> self.entries@[k] == before[k],
            decreases n - i,
        {
            let id = self.entries[i].0;
            self.entries.set(i, (id, TransferState::Cancelled));
            i = i + 1;
        }
        proof {
            assert forall|t: u64| #[trigger] self.state_of(t) == match registry_lookup(before, t) {
                Some(_) => Some(TransferState::Cancelled),
                None => None,
            } by {
                lemma_lookup_cancelled(before, self.entries@, t);
            }
        }
    }
}

proof fn lemma_lookup_after_set(s: Seq<(u64, TransferState)>, i: int, id: u64, st: TransferState)
    requires
        0 <= i < s.len(),
        s[i].0 == id,
        forall|k: int| i < k < s.len() ==> s[k].0 != id,
    ensures
        registry_lookup(s.update(i, (id, st)), id) == Some(st),
        forall|t: u64| t != id ==> registry_lookup(s.update(i, (id, st)), t) == registry_lookup(s, t),
    decreases s.len(),
{
    let u = s.update(i, (id, st));
    if i == s.len() - 1 {
        assert(u.drop_last() =~= s.drop_last());
        assert(u.last() == (id, st));
        assert forall|t: u64| t != id implies registry_lookup(u, t) == registry_lookup(s, t) by {
            assert(registry_lookup(u, t) == registry_lookup(u.drop_last(), t));
            assert(registry_lookup(s, t) == registry_lookup(s.drop_last(), t));
        }
    } else {
        lemma_lookup_after_set(s.drop_last(), i, id, st);
        assert(u.drop_last() =~= s.drop_last().update(i, (id, st)));
        assert(u.last() == s.last());
        assert forall|t: u64| t != id implies registry_lookup(u, t) == registry_lookup(s, t) by {
            if s.last().0 != t {
                assert(registry_lookup(u, t) == registry_lookup(u.drop_last(), t));
                assert(registry_lookup(s, t) == registry_lookup(s.drop_last(), t));
            }
        }
    }
}

proof fn lemma_lookup_cancelled(before: Seq<(u64, TransferState)>, after: Seq<(u64, TransferState)>, t: u64)
    requires
        before.len() == after.len(),
        forall|k: int| 0 <= k < before.len() ==> after[k].0 == before[k].0,
        forall|k: int| 0 <= k < before.len() ==> after[k].1 == TransferState::Cancelled,
    ensures
        registry_lookup(after, t) == match registry_lookup(before, t) {
            Some(_) => Some(TransferState::Cancelled),
            None => None,
        },
    decreases before.len(),
{
    if before.len() > 0 {
        lemma_lookup_cancelled(before.drop_last(), after.drop_last(), t);
    }
}

/// The camera connection as the transfers see it: whether a camera is connected, and the
/// number of the connection, which grows each time a connection starts or ends.
pub struct ConnectionEpoch {
    pub connected: bool,
    pub epoch: u64,
}

impl ConnectionEpoch {
    /// No camera connected yet.
    pub fn new() -> (r: Self)
        ensures
            !r.connected,
            r.epoch == 0,
    {
        ConnectionEpoch { connected: false, epoch: 0 }
    }

    /// A camera connected: a new connection starts unless one is already on.
    pub fn mark_connected(&mut self)
        ensures
            final(self).connected,
            old(self).connected ==> final(self).epoch == old(self).epoch,
            !old(self).connected ==> final(self).epoch == old(self).epoch.wrapping_add(1),
    {
        if !self.connected {
            self.connected = true;
            self.epoch = self.epoch.wrapping_add(1);
        }
    }

    /// The camera disconnected: the connection ends.
    pub fn mark_disconnected(&mut self)
        ensures
            !final(self).connected,
            final(self).epoch == old(self).epoch.wrapping_add(1),
    {
        self.connected = false;
        self.epoch = self.epoch.wrapping_add(1);
    }

    /// Whether a transfer that started under connection `epoch` may go on: the camera is
    /// still connected under that same connection, and a control or media session for the
    /// transfer's camera is active.
    pub fn transfer_active(&self, epoch: u64, session_active: bool) -> (r: Result<(), TransferStop>)
        ensures
            !self.connected || self.epoch != epoch ==> r == Err::<(), TransferStop>(TransferStop::Disconnected),
            self.connected && self.epoch == epoch && !session_active ==> r == Err::<(), TransferStop>(
                TransferStop::SessionLost,
            ),
            self.connected && self.epoch == epoch && session_active ==> r is Ok,
    {
        if !self.connected || self.epoch != epoch {
            return Err(TransferStop::Disconnected);
        }
        if !session_active {
            return Err(TransferStop::SessionLost);
        }
        Ok(())
    }
}

/// Why a transfer stopped with the connection.
#[derive(Debug, Clone, Copy, PartialEq, Eq, Structural)]
pub enum TransferStop {
    /// The camera disconnected, or reconnected, since the transfer started.
    Disconnected,
    /// No session with the transfer's camera is active.
    SessionLost,
}

impl TransferStop {
    /// The message shown to the user.
    pub fn message(self) -> (r: &'static str)
        ensures
            match self {
                TransferStop::Disconnected => r@ == "相机连接已断开，下载已取消"@,
                TransferStop::SessionLost => r@ == "相机控制连接已失效，下载已取消"@,
            },
    {
        match self {
            TransferStop::Disconnected => "相机连接已断开，下载已取消",
            TransferStop::SessionLost => "相机控制连接已失效，下载已取消",
        }
    }
}

/// The label of a watermark position in the desktop tool; unknown positions read as the
/// bottom centre.
pub fn position_label(value: &str) -> (r: &'static str)
    ensures
        value@ == "bottom-left"@ ==> r@ == "左下角"@,
        value@ == "bottom-right"@ ==> r@ == "右下角"@,
        value@ == "top-right"@ ==> r@ == "右上角"@,
        value@ == "top-left"@ ==> r@ == "左上角"@,
        !(value@ == "bottom-left"@ || value@ == "bottom-right"@ || value@ == "top-right"@ || value@
            == "top-left"@) ==> r@ == "底部居中"@,
{
    proof {
        reveal_strlit("bottom-left");
        reveal_strlit("bottom-center");
        reveal_strlit("bottom-right");
        reveal_strlit("top-right");
        reveal_strlit("top-left");
        assert("bottom-left"@[7] != "bottom-right"@[7]);
        assert("top-left"@[4] != "top-right"@[4]);
        assert("bottom-left"@[0] != "top-left"@[0]);
        assert("bottom-left"@[0] != "top-right"@[0]);
        assert("bottom-right"@[0] != "top-left"@[0]);
        assert("bottom-right"@[0] != "top-right"@[0]);
        assert("bottom-center"@.len() != "bottom-right"@.len());
    }
    if crate::text::str_eq(value, "bottom-left") {
        "左下角"
    } else if crate::text::str_eq(value, "bottom-center") {
        "底部居中"
    } else if crate::text::str_eq(value, "bottom-right") {
        "右下角"
    } else if crate::text::str_eq(value, "top-right") {
        "右上角"
    } else if crate::text::str_eq(value, "top-left") {
        "左上角"
    } else {
        "底部居中"
    }
}

/// The answer of the platforms without a virtual camera installer: there is nothing to
/// install, so no exit code.
pub fn handle_installer_mode() -> (r: Option<i32>)
    ensures
        r is None,
{
    None
}

} // verus!
