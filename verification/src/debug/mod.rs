//! Debug information: source maps, variable tracking and DWARF-style records.

use vstd::prelude::*;
use crate::mir::nodes::{callable_name, callable_text};
use crate::mir::MirProgram;

pub mod dwarf;
pub mod source_map;
pub mod var_tracking;

pub use dwarf::{
    emit_function_dwarf, emit_function_dwarf_with_sources, emit_program_dwarf, emit_program_dwarf_with_sources,
    DwarfFunction, DwarfLineRow, DwarfUnit, DwarfVariable,
};
pub use source_map::{SourceFile, SourceFileId, SourceLocation, SourceMap, SourceRange};
pub use var_tracking::{
    track_variables, ProgramPoint, VariableReport, VariableSummary, VariableUse, VariableUseKind,
};

verus! {

#[derive(Debug, Clone, PartialEq, Eq)]
pub struct FunctionDebugInfo {
    pub name: String,
    pub variables: VariableReport,
    pub dwarf: DwarfFunction,
}

#[derive(Debug, Clone, PartialEq, Eq)]
pub struct ProgramDebugInfo {
    pub dwarf: DwarfUnit,
    pub functions: Vec<FunctionDebugInfo>,
}

/// The debug information of every function: its callable name, its variable report and
/// its debug record, beside the unit of all records.
pub fn build_program_debug_info(program: &MirProgram) -> (info: ProgramDebugInfo)
    requires
        dwarf::events_fit(*program),
    ensures
        info.dwarf.name@ == "inscribe"@,
        info.dwarf.functions@.len() == program.functions@.len(),
        forall|i: int| 0 <= i < info.dwarf.functions@.len() ==> #[trigger] dwarf::function_described(
            info.dwarf.functions@[i],
            program.functions@[i],
            None,
            None,
        ),
        info.functions@.len() == program.functions@.len(),
        forall|i: int| 0 <= i < info.functions@.len() ==> {
            let f = program.functions@[i];
            &&& (#[trigger] info.functions@[i]).name@ == callable_text(f)
            &&& var_tracking::summary_views(info.functions@[i].variables.summaries@) == var_tracking::apply_events(
                var_tracking::initial_summaries(f.locals@),
                var_tracking::function_events(f),
            )
            &&& var_tracking::use_views(info.functions@[i].variables.uses@) == var_tracking::recorded(
                var_tracking::names_of(var_tracking::initial_summaries(f.locals@)),
                var_tracking::function_events(f),
            )
            &&& dwarf::function_described(info.functions@[i].dwarf, f, None, None)
        },
{
    let unit = emit_program_dwarf(program);
    let mut functions: Vec<FunctionDebugInfo> = Vec::new();
    let mut i: usize = 0;
    while i < program.functions.len()
        invariant
            dwarf::events_fit(*program),
            i <= program.functions@.len(),
            functions@.len() == i,
            forall|k: int| 0 <= k < i ==> {
                let f = program.functions@[k];
                &&& (#[trigger] functions@[k]).name@ == callable_text(f)
                &&& var_tracking::summary_views(functions@[k].variables.summaries@) == var_tracking::apply_events(
                    var_tracking::initial_summaries(f.locals@),
                    var_tracking::function_events(f),
                )
                &&& var_tracking::use_views(functions@[k].variables.uses@) == var_tracking::recorded(
                    var_tracking::names_of(var_tracking::initial_summaries(f.locals@)),
                    var_tracking::function_events(f),
                )
                &&& dwarf::function_described(functions@[k].dwarf, f, None, None)
            },
        decreases program.functions@.len() - i,
    {
        let function = &program.functions[i];
        assert(var_tracking::function_events(program.functions@[i as int]).len() < usize::MAX);
        functions.push(FunctionDebugInfo {
            name: callable_name(function),
            variables: track_variables(function),
            dwarf: emit_function_dwarf(function),
        });
        i += 1;
    }
    ProgramDebugInfo { dwarf: unit, functions }
}

} // verus!
