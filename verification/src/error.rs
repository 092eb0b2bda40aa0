//! The main error enum of the library.

use vstd::prelude::*;
use crate::text::{spec_u64_string, u32_string};

verus! {

/// Every failure the engine reports, from plugin lookup to path resolution.
#[derive(Debug)]
pub enum RustructError {
    /// No plugin of that name is registered.
    PluginNotFound { name: String },
    /// A task with the same plugin and argument is already tracked.
    PluginAlreadyRunned,
    /// A plugin reported an error of its own.
    PluginError(&'static str, &'static str),
    /// The task exists but has not reached the finished state.
    TaskNotFinished(u32),
    /// No task with that id is tracked.
    TaskNotFound(u32),
    /// The task finished but left no result.
    ResultNotFound(u32),
    /// A required argument is missing.
    ArgumentNotFound(&'static str),
    /// A named value is missing.
    ValueNotFound(&'static str),
    /// A value was read through an accessor of another tag.
    ValueTypeMismatch,
    /// A child was added under a removed or never-created parent id.
    StaleParent,
    /// A child was added under a parent that already has a child of that name.
    DuplicateNodeName,
    /// A byte-stream source path did not resolve.
    VFileBuilderPathNotFound { path: &'static str },
    /// A file could not be opened.
    OpenFile(String),
    /// Any other failure, carried as text.
    Unknown(String),
}

/// The spec-level shape of an error: the same variants over mathematical
/// values.
pub enum RustructErrorView {
    PluginNotFound { name: Seq<char> },
    PluginAlreadyRunned,
    PluginError(Seq<char>, Seq<char>),
    TaskNotFinished(u32),
    TaskNotFound(u32),
    ResultNotFound(u32),
    ArgumentNotFound(Seq<char>),
    ValueNotFound(Seq<char>),
    ValueTypeMismatch,
    StaleParent,
    DuplicateNodeName,
    VFileBuilderPathNotFound { path: Seq<char> },
    OpenFile(Seq<char>),
    Unknown(Seq<char>),
}

impl View for RustructError {
    type V = RustructErrorView;

    open spec fn view(&self) -> RustructErrorView {
        match self {
            RustructError::PluginNotFound { name } => RustructErrorView::PluginNotFound {
                name: name@,
            },
            RustructError::PluginAlreadyRunned => RustructErrorView::PluginAlreadyRunned,
            RustructError::PluginError(p, m) => RustructErrorView::PluginError(p@, m@),
            RustructError::TaskNotFinished(id) => RustructErrorView::TaskNotFinished(*id),
            RustructError::TaskNotFound(id) => RustructErrorView::TaskNotFound(*id),
            RustructError::ResultNotFound(id) => RustructErrorView::ResultNotFound(*id),
            RustructError::ArgumentNotFound(a) => RustructErrorView::ArgumentNotFound(a@),
            RustructError::ValueNotFound(v) => RustructErrorView::ValueNotFound(v@),
            RustructError::ValueTypeMismatch => RustructErrorView::ValueTypeMismatch,
            RustructError::StaleParent => RustructErrorView::StaleParent,
            RustructError::DuplicateNodeName => RustructErrorView::DuplicateNodeName,
            RustructError::VFileBuilderPathNotFound { path } => RustructErrorView::VFileBuilderPathNotFound {
                path: path@,
            },
            RustructError::OpenFile(f) => RustructErrorView::OpenFile(f@),
            RustructError::Unknown(m) => RustructErrorView::Unknown(m@),
        }
    }
}

impl Clone for RustructError {
    /// A clone reads back as the same error.
    fn clone(&self) -> (r: Self)
        ensures
            r@ == self@,
    {
        match self {
            RustructError::PluginNotFound { name } => RustructError::PluginNotFound {
                name: name.clone(),
            },
            RustructError::PluginAlreadyRunned => RustructError::PluginAlreadyRunned,
            RustructError::PluginError(p, m) => RustructError::PluginError(p, m),
            RustructError::TaskNotFinished(id) => RustructError::TaskNotFinished(*id),
            RustructError::TaskNotFound(id) => RustructError::TaskNotFound(*id),
            RustructError::ResultNotFound(id) => RustructError::ResultNotFound(*id),
            RustructError::ArgumentNotFound(a) => RustructError::ArgumentNotFound(a),
            RustructError::ValueNotFound(v) => RustructError::ValueNotFound(v),
            RustructError::ValueTypeMismatch => RustructError::ValueTypeMismatch,
            RustructError::StaleParent => RustructError::StaleParent,
            RustructError::DuplicateNodeName => RustructError::DuplicateNodeName,
            RustructError::VFileBuilderPathNotFound { path } => RustructError::VFileBuilderPathNotFound {
                path,
            },
            RustructError::OpenFile(f) => RustructError::OpenFile(f.clone()),
            RustructError::Unknown(m) => RustructError::Unknown(m.clone()),
        }
    }
}

/// The rendering of an error, one line of text.
pub open spec fn spec_error_message(e: RustructError) -> Seq<char> {
    match e {
        RustructError::PluginNotFound { name } => "Plugin "@ + name@ + " not found"@,
        RustructError::PluginAlreadyRunned => "Same plugin with same argument already runned"@,
        RustructError::PluginError(p, m) => "Plugin "@ + p@ + " error "@ + m@,
        RustructError::TaskNotFinished(id) => "Task "@ + spec_u64_string(id as int)
            + " not finished yet"@,
        RustructError::TaskNotFound(id) => "Task "@ + spec_u64_string(id as int) + " not found"@,
        RustructError::ResultNotFound(id) => "Result for task "@ + spec_u64_string(id as int)
            + " not found"@,
        RustructError::ArgumentNotFound(a) => "Argument "@ + a@ + " not found"@,
        RustructError::ValueNotFound(v) => "Value "@ + v@ + " not found"@,
        RustructError::ValueTypeMismatch => "Value Type mismatch"@,
        RustructError::StaleParent => "Parent node removed or never created"@,
        RustructError::DuplicateNodeName => "A child of that name already exists"@,
        RustructError::VFileBuilderPathNotFound { path } => "Path "@ + path@ + " not found"@,
        RustructError::OpenFile(f) => "Error opening file "@ + f@,
        RustructError::Unknown(m) => "Error "@ + m@,
    }
}

impl RustructError {
    /// One line of text describing the error.
    pub fn message(&self) -> (r: String)
        ensures
            r@ == spec_error_message(*self),
    {
        match self {
            RustructError::PluginNotFound { name } => {
                let mut s = String::new();
                s.append("Plugin ");
                s.append(name.as_str());
                s.append(" not found");
                s
            },
            RustructError::PluginAlreadyRunned => {
                let mut s = String::new();
                s.append("Same plugin with same argument already runned");
                s
            },
            RustructError::PluginError(p, m) => {
                let mut s = String::new();
                s.append("Plugin ");
                s.append(p);
                s.append(" error ");
                s.append(m);
                s
            },
            RustructError::TaskNotFinished(id) => {
                let mut s = String::new();
                s.append("Task ");
                s.append(u32_string(*id).as_str());
                s.append(" not finished yet");
                s
            },
            RustructError::TaskNotFound(id) => {
                let mut s = String::new();
                s.append("Task ");
                s.append(u32_string(*id).as_str());
                s.append(" not found");
                s
            },
            RustructError::ResultNotFound(id) => {
                let mut s = String::new();
                s.append("Result for task ");
                s.append(u32_string(*id).as_str());
                s.append(" not found");
                s
            },
            RustructError::ArgumentNotFound(a) => {
                let mut s = String::new();
                s.append("Argument ");
                s.append(a);
                s.append(" not found");
                s
            },
            RustructError::ValueNotFound(v) => {
                let mut s = String::new();
                s.append("Value ");
                s.append(v);
                s.append(" not found");
                s
            },
            RustructError::ValueTypeMismatch => {
                let mut s = String::new();
                s.append("Value Type mismatch");
                s
            },
            RustructError::StaleParent => {
                let mut s = String::new();
                s.append("Parent node removed or never created");
                s
            },
            RustructError::DuplicateNodeName => {
                let mut s = String::new();
                s.append("A child of that name already exists");
                s
            },
            RustructError::VFileBuilderPathNotFound { path } => {
                let mut s = String::new();
                s.append("Path ");
                s.append(path);
                s.append(" not found");
                s
            },
            RustructError::OpenFile(f) => {
                let mut s = String::new();
                s.append("Error opening file ");
                s.append(f.as_str());
                s
            },
            RustructError::Unknown(m) => {
                let mut s = String::new();
                s.append("Error ");
                s.append(m.as_str());
                s
            },
        }
    }
}

} // verus!
