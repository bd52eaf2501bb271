//! Folder watching: the watch state (whether a watcher runs, on which folder,
//! with which default entities) and what happens to a new file in the folder.

use vstd::prelude::*;

use crate::commands::{import_plan, plan_matches, ImportPlan};
use crate::entities::opt_chars;
use crate::parse::{Kind, ParseError};

verus! {

/// The watch state.
#[derive(Debug, Clone)]
pub struct WatchState {
    /// A watcher is installed.
    pub running: bool,
    /// The watched folder, as last given.
    pub path: Option<String>,
    /// Owning entities of files stored from the folder (none: not assigned).
    pub default_entities: Vec<i64>,
}

impl WatchState {
    /// No watch.
    pub fn new() -> (s: Self)
        ensures
            !s.running,
            s.path is None,
            s.default_entities@.len() == 0,
    {
        WatchState { running: false, path: None, default_entities: Vec::new() }
    }

    /// A watch is requested on `path`: folder and entities are recorded before
    /// the watcher is installed.
    pub fn begin(&mut self, path: &str, entities: Vec<i64>)
        ensures
            final(self).running == old(self).running,
            opt_chars(final(self).path) == Some(path@),
            final(self).default_entities@ == entities@,
    {
        self.path = Some(path.to_string());
        self.default_entities = entities;
    }

    /// The watcher is installed.
    pub fn started(&mut self)
        ensures
            final(self).running,
            final(self).path == old(self).path,
            final(self).default_entities@ == old(self).default_entities@,
    {
        self.running = true;
    }

    /// Stopping: the watcher is released, and the folder it watched, if any,
    /// must be unwatched.
    pub fn stop_watch(&mut self) -> (unwatch: Option<String>)
        ensures
            !final(self).running,
            final(self).path == old(self).path,
            final(self).default_entities@ == old(self).default_entities@,
            old(self).running ==> opt_chars(unwatch) == opt_chars(old(self).path),
            !old(self).running ==> unwatch is None,
    {
        let was = self.running;
        self.running = false;
        if was {
            match &self.path {
                Some(p) => Some(p.clone()),
                None => None,
            }
        } else {
            None
        }
    }

    /// Stopping finished: the folder is forgotten once unwatching succeeded;
    /// a failure is reported and the folder kept.
    pub fn stop_end(&mut self, unwatched: Result<(), String>) -> (r: Result<(), String>)
        ensures
            final(self).running == old(self).running,
            final(self).default_entities@ == old(self).default_entities@,
            match unwatched {
                Ok(()) => final(self).path is None && r is Ok,
                Err(e) => final(self).path == old(self).path && (r matches Err(m) && m@ == "停止监控失败: "@ + e@),
            },
    {
        match unwatched {
            Ok(()) => {
                self.path = None;
                Ok(())
            },
            Err(e) => {
                let mut m = crate::text::chars_of("停止监控失败: ");
                crate::text::push_text(&mut m, e.as_str());
                Err(crate::text::string_of(m.as_slice()))
            },
        }
    }

    /// Whether a watcher runs, and the folder.
    pub fn is_watching(&self) -> (r: (bool, Option<String>))
        ensures
            r.0 == self.running,
            opt_chars(r.1) == opt_chars(self.path),
    {
        (
            self.running,
            match &self.path {
                Some(p) => Some(p.clone()),
                None => None,
            },
        )
    }
}

/// What the watch does with a new file's extraction outcome: like an import,
/// except that a file without text is recorded as failed rather than refused.
pub fn watch_plan(kind: Kind, extracted: Result<Option<String>, ParseError>) -> (p: ImportPlan)
    ensures
        match extracted {
            Ok(None) => if kind == Kind::Image || kind == Kind::Pdf {
                p matches ImportPlan::AwaitOcr(m) && m@ == "无文本层，待 OCR"@
            } else {
                p matches ImportPlan::RecordFailure(m) && m@ == "文件无文本内容"@
            },
            _ => plan_matches(kind, extracted, p),
        },
{
    let plan = import_plan(kind, extracted);
    match plan {
        ImportPlan::Refuse(m) => ImportPlan::RecordFailure(m),
        other => other,
    }
}

} // verus!
