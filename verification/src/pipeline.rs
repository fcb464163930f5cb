//! A pipeline: commands whose outputs feed the next one's input.
use vstd::prelude::*;
use crate::command::{CommandView, ShellCommand};

verus! {

/// Whether the shell waits for a pipeline.
#[derive(Debug, Clone, Copy, PartialEq, Eq, Structural)]
pub enum ExecutionMode {
    Foreground,
    Background,
}

/// Commands joined by `|`, in order.
#[derive(Debug)]
pub struct Pipeline {
    pub commands: Vec<ShellCommand>,
    pub exec_mode: ExecutionMode,
}

/// The mathematical value of a `Pipeline`.
pub struct PipelineView {
    pub commands: Seq<CommandView>,
    pub exec_mode: ExecutionMode,
}

/// The views of a list of commands.
pub open spec fn commands_view(v: Seq<ShellCommand>) -> Seq<CommandView> {
    v.map_values(|c: ShellCommand| c@)
}

impl View for Pipeline {
    type V = PipelineView;

    open spec fn view(&self) -> PipelineView {
        PipelineView { commands: commands_view(self.commands@), exec_mode: self.exec_mode }
    }
}

impl Pipeline {
    /// An empty pipeline, run in the foreground.
    pub fn new() -> (p: Pipeline)
        ensures
            p@.commands == Seq::<CommandView>::empty(),
            p@.exec_mode == ExecutionMode::Foreground,
    {
        Pipeline { commands: Vec::new(), exec_mode: ExecutionMode::Foreground }
    }

    /// Adds `cmd` at the end of the pipeline.
    pub fn add_command(&mut self, cmd: ShellCommand)
        ensures
            final(self)@.commands == old(self)@.commands.push(cmd@),
            final(self)@.exec_mode == old(self)@.exec_mode,
    {
        let ghost c = cmd@;
        self.commands.push(cmd);
        assert(commands_view(self.commands@) =~= commands_view(old(self).commands@).push(c));
    }
}

} // verus!
