//! The collector's lifecycle: the stop signal and the start/stop phases that
//! decide which requests are accepted. The task handles themselves are kept by
//! the caller.
use vstd::prelude::*;
use crate::text::{concat, owned};

verus! {

/// What the collector has been asked to do.
#[derive(Debug, Clone, Copy, PartialEq, Eq, Structural)]
pub enum CollectorShutdown {
    Run,
    Stop,
    StopAndCloseActive,
}

impl CollectorShutdown {
    /// Whether the collector should stop.
    pub fn should_stop(self) -> (r: bool)
        ensures
            r == !(self is Run),
    {
        !matches!(self, CollectorShutdown::Run)
    }

    /// Whether open connections should be recorded as closed on the way out;
    /// only an application exit asks for that.
    pub fn should_close_active(self) -> (r: bool)
        ensures
            r == (self is StopAndCloseActive),
    {
        matches!(self, CollectorShutdown::StopAndCloseActive)
    }
}

impl Default for CollectorShutdown {
    /// A fresh collector runs.
    fn default() -> (r: Self)
        ensures
            r is Run,
    {
        CollectorShutdown::Run
    }
}

/// Errors returned by collector commands and background tasks.
#[derive(Debug)]
pub enum CollectorError {
    AlreadyRunning,
    NotRunning,
    StateLock(String),
    StateTransition(String),
    InvalidApiAddress(String),
    SnapshotParse(String),
    ProxyChainSerialize(String),
    EvalScript(String),
    StoreReadTimedOut,
    StoreReadFailed(String),
    TaskJoin(String),
}

/// The message of a collector error.
pub open spec fn collector_error_text(e: CollectorError) -> Seq<char> {
    match e {
        CollectorError::AlreadyRunning => "采集服务已在运行"@,
        CollectorError::NotRunning => "采集服务未在运行"@,
        CollectorError::StateLock(s) => "采集状态锁失败: "@ + s@,
        CollectorError::StateTransition(s) => "采集状态转换失败: "@ + s@,
        CollectorError::InvalidApiAddress(s) => "构建 WebSocket 地址失败: "@ + s@,
        CollectorError::SnapshotParse(s) => "解析连接快照失败: "@ + s@,
        CollectorError::ProxyChainSerialize(s) => "序列化代理链失败: "@ + s@,
        CollectorError::EvalScript(s) => "执行 app-store 读取脚本失败: "@ + s@,
        CollectorError::StoreReadTimedOut => "读取 app-store 超时"@,
        CollectorError::StoreReadFailed(s) => "读取 app-store 失败: "@ + s@,
        CollectorError::TaskJoin(s) => "等待采集任务结束失败: "@ + s@,
    }
}

impl CollectorError {
    /// The message shown to the user.
    pub fn to_string(&self) -> (r: String)
        ensures
            r@ == collector_error_text(*self),
    {
        match self {
            CollectorError::AlreadyRunning => owned("采集服务已在运行"),
            CollectorError::NotRunning => owned("采集服务未在运行"),
            CollectorError::StateLock(s) => concat("采集状态锁失败: ", s.as_str()),
            CollectorError::StateTransition(s) => concat("采集状态转换失败: ", s.as_str()),
            CollectorError::InvalidApiAddress(s) => concat("构建 WebSocket 地址失败: ", s.as_str()),
            CollectorError::SnapshotParse(s) => concat("解析连接快照失败: ", s.as_str()),
            CollectorError::ProxyChainSerialize(s) => concat("序列化代理链失败: ", s.as_str()),
            CollectorError::EvalScript(s) => concat("执行 app-store 读取脚本失败: ", s.as_str()),
            CollectorError::StoreReadTimedOut => owned("读取 app-store 超时"),
            CollectorError::StoreReadFailed(s) => concat("读取 app-store 失败: ", s.as_str()),
            CollectorError::TaskJoin(s) => concat("等待采集任务结束失败: ", s.as_str()),
        }
    }
}

/// The phase of the collector's lifecycle.
#[derive(Debug, Clone, Copy, PartialEq, Eq)]
pub enum CollectorPhase {
    Idle,
    Starting,
    Running,
    Stopping,
}

/// The lifecycle of one collector service.
#[derive(Debug)]
pub struct CollectorLifecycle {
    pub phase: CollectorPhase,
}

impl CollectorLifecycle {
    /// A collector that is not running.
    pub fn new() -> (r: Self)
        ensures
            r.phase is Idle,
    {
        CollectorLifecycle { phase: CollectorPhase::Idle }
    }

    /// Whether the collector task is running (or still winding down).
    pub fn is_running(&self) -> (r: bool)
        ensures
            r == (self.phase is Running || self.phase is Stopping),
    {
        matches!(self.phase, CollectorPhase::Running | CollectorPhase::Stopping)
    }

    /// Claims the right to start: only an idle collector may start, and at
    /// most one start is under way at a time.
    pub fn begin_start(&mut self) -> (r: Result<(), CollectorError>)
        ensures
            old(self).phase is Idle ==> r is Ok && final(self).phase is Starting,
            !(old(self).phase is Idle) ==> (r matches Err(CollectorError::AlreadyRunning))
                && final(self).phase == old(self).phase,
    {
        match self.phase {
            CollectorPhase::Idle => {
                self.phase = CollectorPhase::Starting;
                Ok(())
            },
            _ => Err(CollectorError::AlreadyRunning),
        }
    }

    /// Gives up a start that did not get as far as launching the task.
    pub fn abort_start(&mut self) -> (r: Result<(), CollectorError>)
        ensures
            r is Ok,
            old(self).phase is Starting ==> final(self).phase is Idle,
            !(old(self).phase is Starting) ==> final(self).phase == old(self).phase,
    {
        if matches!(self.phase, CollectorPhase::Starting) {
            self.phase = CollectorPhase::Idle;
        }
        Ok(())
    }

    /// Records that the collector task was launched.
    pub fn start_runtime(&mut self) -> (r: Result<(), CollectorError>)
        ensures
            old(self).phase is Starting ==> r is Ok && final(self).phase is Running,
            !(old(self).phase is Starting) ==> (r matches Err(CollectorError::StateTransition(_)))
                && final(self).phase == old(self).phase,
    {
        match self.phase {
            CollectorPhase::Starting => {
                self.phase = CollectorPhase::Running;
                Ok(())
            },
            _ => Err(CollectorError::StateTransition(crate::text::owned("collector is not starting"))),
        }
    }

    /// Asks a running collector to stop; it stays busy until its task has
    /// finished.
    pub fn begin_stop(&mut self) -> (r: Result<(), CollectorError>)
        ensures
            (old(self).phase is Running || old(self).phase is Stopping) ==> r is Ok
                && final(self).phase is Stopping,
            !(old(self).phase is Running || old(self).phase is Stopping) ==> (r matches Err(
                CollectorError::NotRunning,
            )) && final(self).phase == old(self).phase,
    {
        match self.phase {
            CollectorPhase::Running | CollectorPhase::Stopping => {
                self.phase = CollectorPhase::Stopping;
                Ok(())
            },
            _ => Err(CollectorError::NotRunning),
        }
    }

    /// Records that the collector task has finished; a collector whose task
    /// ended becomes idle.
    pub fn finish(&mut self, task_finished: bool) -> (r: bool)
        ensures
            r == (task_finished && (old(self).phase is Running || old(self).phase is Stopping)),
            r ==> final(self).phase is Idle,
            !r ==> final(self).phase == old(self).phase,
    {
        if task_finished && matches!(self.phase, CollectorPhase::Running | CollectorPhase::Stopping) {
            self.phase = CollectorPhase::Idle;
            true
        } else {
            false
        }
    }
}

} // verus!
