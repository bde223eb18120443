//! The two Markdown templates: one for an endpoint, one for a function.
//! Each is a pure function of the document record.

use crate::model::{
    texts, EndpointDoc, EndpointDocView, FunctionDoc, FunctionDocView, Parameter, ParameterView,
    Response, ResponseView,
};
use crate::text::join;
use vstd::prelude::*;
use vstd::string::*;

verus! {

/// A labelled line that lists `items`, or nothing when there are none.
pub open spec fn labelled_list(label: Seq<char>, items: Seq<Seq<char>>) -> Seq<char> {
    if items.len() == 0 {
        Seq::empty()
    } else {
        label + join(items, ", "@) + "\n"@
    }
}

/// The text `true` or `false`.
pub open spec fn bool_text(b: bool) -> Seq<char> {
    if b {
        "true"@
    } else {
        "false"@
    }
}

/// The list entry of one parameter.
pub open spec fn parameter_entry(p: ParameterView) -> Seq<char> {
    "- **"@ + p.name + "** ("@ + p.location + ", "@ + p.type_ + ")\n  - Type: "@ + p.type_
        + "\n  - Description: "@ + p.description + "\n  - Required: "@ + bool_text(p.required)
        + "\n\n"@
}

/// The entries of the parameters, in their order.
pub open spec fn parameter_entries(ps: Seq<ParameterView>) -> Seq<char>
    decreases ps.len(),
{
    if ps.len() == 0 {
        Seq::empty()
    } else {
        parameter_entries(ps.drop_last()) + parameter_entry(ps.last())
    }
}

/// The Parameters section, or nothing when there are no parameters.
pub open spec fn parameters_section(ps: Seq<ParameterView>) -> Seq<char> {
    if ps.len() == 0 {
        Seq::empty()
    } else {
        "\n## Parameters\n\n"@ + parameter_entries(ps)
    }
}

/// The entry of one response.
pub open spec fn response_entry(r: ResponseView) -> Seq<char> {
    "### "@ + r.code + "\n- Description: "@ + r.description + "\n- Schema: "@ + r.schema
        + "\n\n"@
}

/// The entries of the responses, in their order.
pub open spec fn response_entries(rs: Seq<ResponseView>) -> Seq<char>
    decreases rs.len(),
{
    if rs.len() == 0 {
        Seq::empty()
    } else {
        response_entries(rs.drop_last()) + response_entry(rs.last())
    }
}

/// The Responses section, or nothing when there are no responses.
pub open spec fn responses_section(rs: Seq<ResponseView>) -> Seq<char> {
    if rs.len() == 0 {
        Seq::empty()
    } else {
        "\n## Responses\n\n"@ + response_entries(rs)
    }
}

/// The Request Body section, or nothing when the body is empty.
pub open spec fn body_section(body: Seq<char>) -> Seq<char> {
    if body.len() == 0 {
        Seq::empty()
    } else {
        "\n## Request Body\n\n"@ + "```json\n"@ + body + "\n```\n"@
    }
}

/// The title of an endpoint block, followed by the deprecation banner when
/// the endpoint is deprecated.
pub open spec fn endpoint_heading(d: EndpointDocView) -> Seq<char> {
    "# "@ + d.base_url + d.path + "\n\n"@ + if d.deprecated {
        "**DEPRECATED**\n\n"@
    } else {
        Seq::empty()
    }
}

/// The method, format and description lines of an endpoint block.
pub open spec fn endpoint_summary(d: EndpointDocView) -> Seq<char> {
    "**Method**: "@ + d.method + "\n"@ + "**Format**: "@ + d.format + "\n"@
        + "\n**Description**: "@ + d.description + "\n"@
}

/// The Markdown block of an endpoint: heading, summary, the sections that
/// are not empty, and the closing rule.
pub open spec fn endpoint_markdown(d: EndpointDocView) -> Seq<char> {
    endpoint_heading(d) + endpoint_summary(d) + labelled_list("\n**Tags**: "@, d.tags)
        + labelled_list("\n**Security**: "@, d.security) + labelled_list(
        "\n**Consumes**: "@,
        d.consumes,
    ) + labelled_list("\n**Produces**: "@, d.produces) + parameters_section(d.parameters)
        + responses_section(d.responses) + body_section(d.body) + "\n---\n\n"@
}

/// The line that tells when the documentation was last updated, or nothing
/// when no time is given.
pub open spec fn last_updated_line(last_updated: Seq<char>) -> Seq<char> {
    if last_updated.len() == 0 {
        Seq::empty()
    } else {
        "_Last updated: "@ + last_updated + "_\n\n"@
    }
}

/// The Markdown block of a function: title, description, author, the time
/// of the last update when one is given, and the closing rule.
pub open spec fn function_markdown(d: FunctionDocView, last_updated: Seq<char>) -> Seq<char> {
    "# "@ + d.title + "\n\n"@ + "## Description\n\n"@ + d.description + "\n\n"@
        + "## Developed by\n\n"@ + d.developed_by + "\n\n"@ + last_updated_line(last_updated)
        + "---\n\n"@
}

fn push_joined(out: &mut String, items: &Vec<String>, sep: &str)
    ensures
        final(out)@ == old(out)@ + join(texts(items@), sep@),
{
    let ghost all = texts(items@);
    let mut i: usize = 0;
    while i < items.len()
        invariant
            i <= items.len(),
            all == texts(items@),
            out@ == old(out)@ + join(all.take(i as int), sep@),
        decreases items.len() - i,
    {
        let ghost before = all.take(i as int);
        let ghost now = all.take(i + 1);
        proof {
            assert(now.drop_last() =~= before);
            assert(now.last() == items@[i as int]@);
        }
        if i > 0 {
            out.append(sep);
        }
        out.append(items[i].as_str());
        proof {
            assert(out@ =~= old(out)@ + join(now, sep@));
        }
        i += 1;
    }
    proof {
        assert(all.take(items.len() as int) =~= all);
    }
}

fn push_labelled_list(out: &mut String, label: &str, items: &Vec<String>)
    ensures
        final(out)@ == old(out)@ + labelled_list(label@, texts(items@)),
{
    if items.len() > 0 {
        out.append(label);
        push_joined(out, items, ", ");
        out.append("\n");
        proof {
            assert(out@ =~= old(out)@ + labelled_list(label@, texts(items@)));
        }
    } else {
        proof {
            assert(out@ =~= old(out)@ + labelled_list(label@, texts(items@)));
        }
    }
}

fn push_parameter(out: &mut String, p: &Parameter)
    ensures
        final(out)@ == old(out)@ + parameter_entry(p@),
{
    out.append("- **");
    out.append(p.name.as_str());
    out.append("** (");
    out.append(p.location.as_str());
    out.append(", ");
    out.append(p.type_.as_str());
    out.append(")\n  - Type: ");
    out.append(p.type_.as_str());
    out.append("\n  - Description: ");
    out.append(p.description.as_str());
    out.append("\n  - Required: ");
    if p.required {
        out.append("true");
    } else {
        out.append("false");
    }
    out.append("\n\n");
    proof {
        assert(out@ =~= old(out)@ + parameter_entry(p@));
    }
}

fn push_parameters(out: &mut String, parameters: &Vec<Parameter>)
    ensures
        final(out)@ == old(out)@ + parameters_section(
            Seq::new(parameters@.len(), |i: int| parameters@[i]@),
        ),
{
    let ghost all = Seq::new(parameters@.len(), |i: int| parameters@[i]@);
    if parameters.len() > 0 {
        out.append("\n## Parameters\n\n");
        let ghost start = out@;
        let mut i: usize = 0;
        while i < parameters.len()
            invariant
                i <= parameters.len(),
                all == Seq::new(parameters@.len(), |i: int| parameters@[i]@),
                out@ == start + parameter_entries(all.take(i as int)),
            decreases parameters.len() - i,
        {
            proof {
                assert(all.take(i + 1).drop_last() =~= all.take(i as int));
            }
            push_parameter(out, &parameters[i]);
            proof {
                assert(out@ =~= start + parameter_entries(all.take(i + 1)));
            }
            i += 1;
        }
        proof {
            assert(all.take(parameters.len() as int) =~= all);
            assert(out@ =~= old(out)@ + parameters_section(all));
        }
    } else {
        proof {
            assert(out@ =~= old(out)@ + parameters_section(all));
        }
    }
}

fn push_response(out: &mut String, r: &Response)
    ensures
        final(out)@ == old(out)@ + response_entry(r@),
{
    out.append("### ");
    out.append(r.code.as_str());
    out.append("\n- Description: ");
    out.append(r.description.as_str());
    out.append("\n- Schema: ");
    out.append(r.schema.as_str());
    out.append("\n\n");
    proof {
        assert(out@ =~= old(out)@ + response_entry(r@));
    }
}

fn push_responses(out: &mut String, responses: &Vec<Response>)
    ensures
        final(out)@ == old(out)@ + responses_section(
            Seq::new(responses@.len(), |i: int| responses@[i]@),
        ),
{
    let ghost all = Seq::new(responses@.len(), |i: int| responses@[i]@);
    if responses.len() > 0 {
        out.append("\n## Responses\n\n");
        let ghost start = out@;
        let mut i: usize = 0;
        while i < responses.len()
            invariant
                i <= responses.len(),
                all == Seq::new(responses@.len(), |i: int| responses@[i]@),
                out@ == start + response_entries(all.take(i as int)),
            decreases responses.len() - i,
        {
            proof {
                assert(all.take(i + 1).drop_last() =~= all.take(i as int));
            }
            push_response(out, &responses[i]);
            proof {
                assert(out@ =~= start + response_entries(all.take(i + 1)));
            }
            i += 1;
        }
        proof {
            assert(all.take(responses.len() as int) =~= all);
            assert(out@ =~= old(out)@ + responses_section(all));
        }
    } else {
        proof {
            assert(out@ =~= old(out)@ + responses_section(all));
        }
    }
}

fn push_body(out: &mut String, body: &String)
    ensures
        final(out)@ == old(out)@ + body_section(body@),
{
    if !body.as_str().is_empty() {
        out.append("\n## Request Body\n\n");
        out.append("```json\n");
        out.append(body.as_str());
        out.append("\n```\n");
    }
    proof {
        assert(out@ =~= old(out)@ + body_section(body@));
    }
}

fn push_heading(out: &mut String, doc: &EndpointDoc)
    ensures
        final(out)@ == old(out)@ + endpoint_heading(doc@),
{
    out.append("# ");
    out.append(doc.base_url.as_str());
    out.append(doc.path.as_str());
    out.append("\n\n");
    if doc.deprecated {
        out.append("**DEPRECATED**\n\n");
    }
    proof {
        assert(out@ =~= old(out)@ + endpoint_heading(doc@));
    }
}

fn push_summary(out: &mut String, doc: &EndpointDoc)
    ensures
        final(out)@ == old(out)@ + endpoint_summary(doc@),
{
    out.append("**Method**: ");
    out.append(doc.method.as_str());
    out.append("\n");
    out.append("**Format**: ");
    out.append(doc.format.as_str());
    out.append("\n");
    out.append("\n**Description**: ");
    out.append(doc.description.as_str());
    out.append("\n");
    proof {
        assert(out@ =~= old(out)@ + endpoint_summary(doc@));
    }
}

/// Renders the Markdown block of an endpoint.
///
/// The block opens with the URL as its title, followed by the deprecation
/// banner if the endpoint is deprecated, then the method, format and
/// description. Tags, security, consumes, produces, parameters, responses
/// and request body each appear only when they are not empty, with their
/// items in the order of the record. A horizontal rule closes the block.
pub fn generate_markdown(doc: &EndpointDoc) -> (md: String)
    ensures
        md@ == endpoint_markdown(doc@),
{
    let mut md = String::new();
    push_heading(&mut md, doc);
    push_summary(&mut md, doc);
    push_labelled_list(&mut md, "\n**Tags**: ", &doc.tags);
    push_labelled_list(&mut md, "\n**Security**: ", &doc.security);
    push_labelled_list(&mut md, "\n**Consumes**: ", &doc.consumes);
    push_labelled_list(&mut md, "\n**Produces**: ", &doc.produces);
    push_parameters(&mut md, &doc.parameters);
    push_responses(&mut md, &doc.responses);
    push_body(&mut md, &doc.body);
    md.append("\n---\n\n");
    proof {
        assert(md@ =~= endpoint_markdown(doc@));
    }
    md
}

/// Renders the Markdown block of a function: its title, its description,
/// its author, the time of the last update unless `last_updated` is empty,
/// and a closing horizontal rule.
pub fn render_function_doc(doc: &FunctionDoc, last_updated: &str) -> (md: String)
    ensures
        md@ == function_markdown(doc@, last_updated@),
{
    let mut md = String::new();
    md.append("# ");
    md.append(doc.title.as_str());
    md.append("\n\n");
    md.append("## Description\n\n");
    md.append(doc.description.as_str());
    md.append("\n\n");
    md.append("## Developed by\n\n");
    md.append(doc.developed_by.as_str());
    md.append("\n\n");
    if !last_updated.is_empty() {
        md.append("_Last updated: ");
        md.append(last_updated);
        md.append("_\n\n");
    }
    md.append("---\n\n");
    proof {
        assert(md@ =~= function_markdown(doc@, last_updated@));
    }
    md
}

} // verus!
