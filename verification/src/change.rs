//! Applying a configuration change or restoring a snapshot: the checks
//! before the file is touched, and the write, reload and rollback that
//! follow, as steps that the caller performs one at a time.
use vstd::prelude::*;
use crate::ai::{normalize_line_endings, AiConfigChangeError};
use crate::text::{owned, replace_all};

verus! {

/// Whether an assistant's change may be applied: the running configuration
/// could be read (`runtime_error` when not), the change's base parsed
/// (`base_error` when not), and the running configuration still equals that
/// base (`base_matches`). The running configuration is read first.
pub fn check_change_base(runtime_error: Option<String>, base_error: Option<String>, base_matches: bool) -> (r: Result<(), AiConfigChangeError>)
    ensures
        runtime_error matches Some(e) ==> (r matches Err(AiConfigChangeError::ReadRuntimeFailed(m)) && m@ == e@),
        runtime_error is None ==> (base_error matches Some(e) ==> (r matches Err(AiConfigChangeError::InvalidOriginalConfig(m))
            && m@ == e@)),
        runtime_error is None && base_error is None && !base_matches ==> r == Err::<(), AiConfigChangeError>(
            AiConfigChangeError::StaleBase,
        ),
        runtime_error is None && base_error is None && base_matches ==> r is Ok,
{
    match runtime_error {
        Some(e) => Err(AiConfigChangeError::ReadRuntimeFailed(e)),
        None => match base_error {
            Some(e) => Err(AiConfigChangeError::InvalidOriginalConfig(e)),
            None => if base_matches {
                Ok(())
            } else {
                Err(AiConfigChangeError::StaleBase)
            },
        },
    }
}

/// Where writing a new configuration stands.
#[derive(Debug, Clone, Copy, PartialEq, Eq, Structural)]
pub enum WritePhase {
    /// The new text is being written.
    Writing,
    /// The core is reloading the new file.
    Reloading,
    /// The reload failed; the old text is being written back.
    RestoringFile,
    /// The core is reloading the old file.
    ReloadingRestored,
    /// Finished.
    Done,
}

/// A configuration write in progress: its phase, the text to roll back to,
/// and why the reload failed once it has.
#[derive(Debug)]
pub struct ConfigWrite {
    pub phase: WritePhase,
    pub rollback_text: String,
    pub reload_error: String,
}

/// What happened to the last step.
#[derive(Debug)]
pub enum WriteEvent {
    /// The file was written, or the error.
    Written(Result<(), String>),
    /// The core reloaded, or the error.
    Reloaded(Result<(), String>),
}

/// What the caller does next.
#[derive(Debug)]
pub enum WriteAction {
    /// Write this text to the configuration file.
    WriteFile(String),
    /// Ask the core to reload its configuration file.
    Reload,
    /// The write is over, with this outcome.
    Finish(Result<(), AiConfigChangeError>),
    /// The event does not belong to this phase; nothing to do.
    Ignore,
}

/// Starts writing `next_config` (its Windows line endings made `\n`) over
/// the file whose current text is `rollback_config`.
pub fn begin_config_write(next_config: &str, rollback_config: &str) -> (r: (ConfigWrite, WriteAction))
    ensures
        r.0.phase == WritePhase::Writing,
        r.0.rollback_text@ == rollback_config@,
        r.1 matches WriteAction::WriteFile(t) && t@ == replace_all(next_config@, "\r\n"@, "\n"@),
{
    (
        ConfigWrite { phase: WritePhase::Writing, rollback_text: owned(rollback_config), reload_error: owned("") },
        WriteAction::WriteFile(normalize_line_endings(next_config)),
    )
}

/// The next state of a configuration write and what to do after `e`. A
/// failed write ends it; a failed reload writes the old text back and
/// reloads again, and the outcome names the reload's failure, and the
/// rollback's when that failed too.
pub fn config_write_step(s: ConfigWrite, e: WriteEvent) -> (r: (ConfigWrite, WriteAction))
    ensures
        r.0.rollback_text@ == s.rollback_text@,
        match (s.phase, e) {
            (WritePhase::Writing, WriteEvent::Written(Ok(()))) => r.0.phase == WritePhase::Reloading && r.1 is Reload,
            (WritePhase::Writing, WriteEvent::Written(Err(m))) => r.0.phase == WritePhase::Done && (r.1 matches WriteAction::Finish(
                Err(AiConfigChangeError::WriteFailed(n)),
            ) && n@ == m@),
            (WritePhase::Reloading, WriteEvent::Reloaded(Ok(()))) => r.0.phase == WritePhase::Done && (r.1 matches WriteAction::Finish(
                Ok(()),
            )),
            (WritePhase::Reloading, WriteEvent::Reloaded(Err(m))) => r.0.phase == WritePhase::RestoringFile && r.0.reload_error@
                == m@ && (r.1 matches WriteAction::WriteFile(t) && t@ == s.rollback_text@),
            (WritePhase::RestoringFile, WriteEvent::Written(Ok(()))) => r.0.phase == WritePhase::ReloadingRestored
                && r.0.reload_error@ == s.reload_error@ && r.1 is Reload,
            (WritePhase::RestoringFile, WriteEvent::Written(Err(m))) => r.0.phase == WritePhase::Done && (r.1 matches WriteAction::Finish(
                Err(AiConfigChangeError::ReloadFailedRollbackFailed { reload_error, rollback_error }),
            ) && reload_error@ == s.reload_error@ && rollback_error@ == m@),
            (WritePhase::ReloadingRestored, WriteEvent::Reloaded(Ok(()))) => r.0.phase == WritePhase::Done && (r.1 matches WriteAction::Finish(
                Err(AiConfigChangeError::ReloadFailedRolledBack(m)),
            ) && m@ == s.reload_error@),
            (WritePhase::ReloadingRestored, WriteEvent::Reloaded(Err(m))) => r.0.phase == WritePhase::Done && (r.1 matches WriteAction::Finish(
                Err(AiConfigChangeError::ReloadFailedRollbackFailed { reload_error, rollback_error }),
            ) && reload_error@ == s.reload_error@ && rollback_error@ == m@),
            _ => r.0.phase == s.phase && r.0.reload_error@ == s.reload_error@ && r.1 is Ignore,
        },
{
    let ConfigWrite { phase, rollback_text, reload_error } = s;
    match (phase, e) {
        (WritePhase::Writing, WriteEvent::Written(Ok(()))) => (
            ConfigWrite { phase: WritePhase::Reloading, rollback_text, reload_error },
            WriteAction::Reload,
        ),
        (WritePhase::Writing, WriteEvent::Written(Err(m))) => (
            ConfigWrite { phase: WritePhase::Done, rollback_text, reload_error },
            WriteAction::Finish(Err(AiConfigChangeError::WriteFailed(m))),
        ),
        (WritePhase::Reloading, WriteEvent::Reloaded(Ok(()))) => (
            ConfigWrite { phase: WritePhase::Done, rollback_text, reload_error },
            WriteAction::Finish(Ok(())),
        ),
        (WritePhase::Reloading, WriteEvent::Reloaded(Err(m))) => {
            let text = owned(rollback_text.as_str());
            (ConfigWrite { phase: WritePhase::RestoringFile, rollback_text, reload_error: m }, WriteAction::WriteFile(text))
        },
        (WritePhase::RestoringFile, WriteEvent::Written(Ok(()))) => (
            ConfigWrite { phase: WritePhase::ReloadingRestored, rollback_text, reload_error },
            WriteAction::Reload,
        ),
        (WritePhase::RestoringFile, WriteEvent::Written(Err(m))) => {
            let first = owned(reload_error.as_str());
            (
                ConfigWrite { phase: WritePhase::Done, rollback_text, reload_error },
                WriteAction::Finish(Err(AiConfigChangeError::ReloadFailedRollbackFailed { reload_error: first, rollback_error: m })),
            )
        },
        (WritePhase::ReloadingRestored, WriteEvent::Reloaded(Ok(()))) => {
            let first = owned(reload_error.as_str());
            (
                ConfigWrite { phase: WritePhase::Done, rollback_text, reload_error },
                WriteAction::Finish(Err(AiConfigChangeError::ReloadFailedRolledBack(first))),
            )
        },
        (WritePhase::ReloadingRestored, WriteEvent::Reloaded(Err(m))) => {
            let first = owned(reload_error.as_str());
            (
                ConfigWrite { phase: WritePhase::Done, rollback_text, reload_error },
                WriteAction::Finish(Err(AiConfigChangeError::ReloadFailedRollbackFailed { reload_error: first, rollback_error: m })),
            )
        },
        (phase, _) => (ConfigWrite { phase, rollback_text, reload_error }, WriteAction::Ignore),
    }
}

} // verus!
