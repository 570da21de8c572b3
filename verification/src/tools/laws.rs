//! What holds of the tool definitions of both providers.

use crate::anthropic_types::AnthropicToolView;
use crate::error::CodexErrView;
use crate::nemotron_types::{ChatToolFunctionView, ChatToolView};
use crate::tools::anthropic_tools;
use crate::tools::nemotron_tools;
use crate::tools::spec::{ResponsesApiTool, ToolSpec};
use vstd::prelude::*;

verus! {

/// The function tools among the tools, in order.
pub open spec fn function_tools(tools: Seq<ToolSpec>) -> Seq<ResponsesApiTool>
    decreases tools.len(),
{
    if tools.len() == 0 {
        seq![]
    } else {
        let before = function_tools(tools.drop_last());
        match tools.last() {
            ToolSpec::Function(f) => before.push(f),
            _ => before,
        }
    }
}

/// The tool is a function tool whose schema could not be serialised.
pub open spec fn unusable(tool: ToolSpec) -> bool {
    tool matches ToolSpec::Function(f) && f.parameters is Err
}

/// Every function tool is offered under its name, with its description and its schema as it is,
/// in order; no other tool is.
pub proof fn law_anthropic_offers_the_function_tools(tools: Seq<ToolSpec>)
    ensures
        anthropic_tools::anthropic_tools(tools) matches Ok(defs) ==> defs == function_tools(
            tools,
        ).map_values(
            |f: ResponsesApiTool|
                AnthropicToolView {
                    name: f.name@,
                    description: f.description@,
                    input_schema: f.parameters->Ok_0.tree(),
                },
        ),
    decreases tools.len(),
{
    if tools.len() > 0 {
        law_anthropic_offers_the_function_tools(tools.drop_last());
    }
    if let Ok(defs) = anthropic_tools::anthropic_tools(tools) {
        assert(defs =~= function_tools(tools).map_values(
            |f: ResponsesApiTool|
                AnthropicToolView {
                    name: f.name@,
                    description: f.description@,
                    input_schema: f.parameters->Ok_0.tree(),
                },
        ));
    }
}

/// The definitions fail exactly where a function tool has a schema that could not be serialised,
/// with the complaint about the first of them.
pub proof fn law_anthropic_fails_on_the_first_unusable_tool(tools: Seq<ToolSpec>)
    ensures
        anthropic_tools::anthropic_tools(tools) is Err <==> exists|i: int|
            0 <= i < tools.len() && unusable(#[trigger] tools[i]),
        anthropic_tools::anthropic_tools(tools) matches Err(e) ==> exists|i: int|
            0 <= i < tools.len() && unusable(#[trigger] tools[i]) && e == CodexErrView::Json(
                tools[i]->Function_0.parameters->Err_0@,
            ) && forall|j: int| 0 <= j < i ==> !unusable(#[trigger] tools[j]),
    decreases tools.len(),
{
    if tools.len() > 0 {
        let front = tools.drop_last();
        law_anthropic_fails_on_the_first_unusable_tool(front);
        assert forall|j: int| 0 <= j < front.len() implies front[j] == #[trigger] tools[j] by {}
        assert(tools[tools.len() - 1] == tools.last());
        if let Err(e) = anthropic_tools::anthropic_tools(front) {
            let i = choose|i: int|
                0 <= i < front.len() && unusable(#[trigger] front[i]) && e == CodexErrView::Json(
                    front[i]->Function_0.parameters->Err_0@,
                ) && forall|j: int| 0 <= j < i ==> !unusable(#[trigger] front[j]);
            assert(unusable(tools[i]));
            assert forall|j: int| 0 <= j < i implies !unusable(#[trigger] tools[j]) by {
                assert(!unusable(front[j]));
            }
        } else {
            assert forall|j: int| 0 <= j < front.len() implies !unusable(#[trigger] tools[j]) by {
                assert(!unusable(front[j]));
            }
        }
    }
}

/// Every function tool is offered under its name, with its description and its flattened schema,
/// in order; no other tool is, and no union is left in a schema.
pub proof fn law_nemotron_offers_the_function_tools(tools: Seq<ToolSpec>)
    ensures
        nemotron_tools::nemotron_tools(tools) matches Ok(defs) ==> defs == function_tools(
            tools,
        ).map_values(
            |f: ResponsesApiTool|
                ChatToolView {
                    kind: "function"@,
                    function: ChatToolFunctionView {
                        name: f.name@,
                        description: f.description@,
                        parameters: nemotron_tools::flattened(f.parameters->Ok_0.tree()),
                    },
                },
        ) && forall|i: int|
            0 <= i < defs.len() ==> nemotron_tools::flat(
                (#[trigger] defs[i]).function.parameters,
            ),
    decreases tools.len(),
{
    if tools.len() > 0 {
        law_nemotron_offers_the_function_tools(tools.drop_last());
    }
    if let Ok(defs) = nemotron_tools::nemotron_tools(tools) {
        assert(defs =~= function_tools(tools).map_values(
            |f: ResponsesApiTool|
                ChatToolView {
                    kind: "function"@,
                    function: ChatToolFunctionView {
                        name: f.name@,
                        description: f.description@,
                        parameters: nemotron_tools::flattened(f.parameters->Ok_0.tree()),
                    },
                },
        ));
        assert forall|i: int| 0 <= i < defs.len() implies nemotron_tools::flat(
            (#[trigger] defs[i]).function.parameters,
        ) by {
            let f = function_tools(tools)[i];
            nemotron_tools::law_flattened_is_flat(f.parameters->Ok_0.tree());
        }
    }
}

/// The definitions fail exactly where a function tool has a schema that could not be serialised,
/// with the complaint about the first of them.
pub proof fn law_nemotron_fails_on_the_first_unusable_tool(tools: Seq<ToolSpec>)
    ensures
        nemotron_tools::nemotron_tools(tools) is Err <==> exists|i: int|
            0 <= i < tools.len() && unusable(#[trigger] tools[i]),
        nemotron_tools::nemotron_tools(tools) matches Err(e) ==> exists|i: int|
            0 <= i < tools.len() && unusable(#[trigger] tools[i]) && e == CodexErrView::Json(
                tools[i]->Function_0.parameters->Err_0@,
            ) && forall|j: int| 0 <= j < i ==> !unusable(#[trigger] tools[j]),
    decreases tools.len(),
{
    if tools.len() > 0 {
        let front = tools.drop_last();
        law_nemotron_fails_on_the_first_unusable_tool(front);
        assert forall|j: int| 0 <= j < front.len() implies front[j] == #[trigger] tools[j] by {}
        assert(tools[tools.len() - 1] == tools.last());
        if let Err(e) = nemotron_tools::nemotron_tools(front) {
            let i = choose|i: int|
                0 <= i < front.len() && unusable(#[trigger] front[i]) && e == CodexErrView::Json(
                    front[i]->Function_0.parameters->Err_0@,
                ) && forall|j: int| 0 <= j < i ==> !unusable(#[trigger] front[j]);
            assert(unusable(tools[i]));
            assert forall|j: int| 0 <= j < i implies !unusable(#[trigger] tools[j]) by {
                assert(!unusable(front[j]));
            }
        } else {
            assert forall|j: int| 0 <= j < front.len() implies !unusable(#[trigger] tools[j]) by {
                assert(!unusable(front[j]));
            }
        }
    }
}

} // verus!
