//! Tool definitions in the format of the Messages API.

use crate::anthropic_types::{AnthropicTool, AnthropicToolView};
use crate::error::{CodexErr, CodexErrView};
use crate::tools::spec::ToolSpec;
use vstd::prelude::*;

verus! {

/// The definitions of the function tools among `tools`, in order. The first of them whose schema
/// could not be serialised makes the whole list fail.
pub open spec fn anthropic_tools(tools: Seq<ToolSpec>) -> Result<
    Seq<AnthropicToolView>,
    CodexErrView,
>
    decreases tools.len(),
{
    if tools.len() == 0 {
        Ok(seq![])
    } else {
        match anthropic_tools(tools.drop_last()) {
            Err(e) => Err(e),
            Ok(defs) => match tools.last() {
                ToolSpec::Function(f) => match f.parameters {
                    Ok(schema) => Ok(
                        defs.push(
                            AnthropicToolView {
                                name: f.name@,
                                description: f.description@,
                                input_schema: schema.tree(),
                            },
                        ),
                    ),
                    Err(message) => Err(CodexErrView::Json(message@)),
                },
                _ => Ok(defs),
            },
        }
    }
}

proof fn lemma_error_stays(tools: Seq<ToolSpec>, k: int)
    requires
        0 <= k <= tools.len(),
        anthropic_tools(tools.take(k)) is Err,
    ensures
        anthropic_tools(tools) == anthropic_tools(tools.take(k)),
    decreases tools.len(),
{
    if k == tools.len() {
        assert(tools.take(k) =~= tools);
    } else {
        assert(tools.drop_last().take(k) =~= tools.take(k));
        lemma_error_stays(tools.drop_last(), k);
    }
}

/// The tool definitions for the Messages API.
///
/// Only function tools are converted. The others are left out: the API does not support them.
pub fn create_tools_json_for_anthropic_api(tools: &[ToolSpec]) -> (res: Result<
    Vec<AnthropicTool>,
    CodexErr,
>)
    ensures
        match res {
            Ok(defs) => anthropic_tools(tools@) == Ok::<Seq<AnthropicToolView>, CodexErrView>(
                defs.deep_view(),
            ),
            Err(e) => anthropic_tools(tools@) == Err::<Seq<AnthropicToolView>, CodexErrView>(
                e.deep_view(),
            ),
        },
{
    let mut result: Vec<AnthropicTool> = Vec::new();
    let mut i: usize = 0;
    assert(result.deep_view() =~= seq![]);
    while i < tools.len()
        invariant
            i <= tools@.len(),
            anthropic_tools(tools@.take(i as int)) == Ok::<Seq<AnthropicToolView>, CodexErrView>(
                result.deep_view(),
            ),
        decreases tools.len() - i,
    {
        let ghost before = result.deep_view();
        assert(tools@.take(i + 1).drop_last() =~= tools@.take(i as int));
        if let ToolSpec::Function(func) = &tools[i] {
            match &func.parameters {
                Ok(schema) => {
                    result.push(
                        AnthropicTool {
                            name: func.name.clone(),
                            description: func.description.clone(),
                            input_schema: schema.duplicate(),
                        },
                    );
                    assert(result.deep_view() =~= before.push(result@.last().deep_view()));
                },
                Err(message) => {
                    proof {
                        lemma_error_stays(tools@, i + 1);
                    }
                    return Err(CodexErr::Json(message.clone()));
                },
            }
        }
        i += 1;
    }
    assert(tools@.take(i as int) =~= tools@);
    Ok(result)
}

} // verus!
