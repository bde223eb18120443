//! Reading the texts of a record off its block: where the texts stand on
//! one line each, they are lines of the Markdown at fixed places.

use crate::model::{EndpointDocView, FunctionDocView};
use crate::render::{
    body_section, endpoint_heading, endpoint_markdown, endpoint_summary, function_markdown,
    labelled_list, last_updated_line, parameters_section, responses_section,
};
use crate::text::{lemma_lines_after_line, lines, single_line};
use vstd::prelude::*;

verus! {

/// The lines of the block of a function: the title as a heading, the
/// description and the author each under a heading of its own, the time of
/// the last update if one is given, and the closing rule, with an empty
/// line behind each.
pub open spec fn function_block_lines(d: FunctionDocView, last_updated: Seq<char>) -> Seq<
    Seq<char>,
> {
    seq![
        "# "@ + d.title,
        Seq::empty(),
        "## Description"@,
        Seq::empty(),
        d.description,
        Seq::empty(),
        "## Developed by"@,
        Seq::empty(),
        d.developed_by,
        Seq::empty(),
    ] + (if last_updated.len() == 0 {
        Seq::empty()
    } else {
        seq!["_Last updated: "@ + last_updated + "_"@, Seq::empty()]
    }) + seq!["---"@, Seq::empty(), Seq::empty()]
}

/// The texts of a record are lines of its block. Where title, description,
/// author and time stand on one line each, the block of a function has
/// exactly the lines of `function_block_lines`: each text can be read off
/// the Markdown as the line at its place.
pub proof fn law_function_block_lines(d: FunctionDocView, last_updated: Seq<char>)
    requires
        single_line(d.title),
        single_line(d.description),
        single_line(d.developed_by),
        single_line(last_updated),
    ensures
        lines(function_markdown(d, last_updated)) == function_block_lines(d, last_updated),
{
    let n = seq!['\n'];
    let e = Seq::<char>::empty();
    reveal_strlit("# ");
    reveal_strlit("\n\n");
    reveal_strlit("## Description\n\n");
    reveal_strlit("## Description");
    reveal_strlit("## Developed by\n\n");
    reveal_strlit("## Developed by");
    reveal_strlit("_Last updated: ");
    reveal_strlit("_\n\n");
    reveal_strlit("_");
    reveal_strlit("---\n\n");
    reveal_strlit("---");
    assert("\n\n"@ =~= n + n);
    assert("## Description\n\n"@ =~= "## Description"@ + n + n);
    assert("## Developed by\n\n"@ =~= "## Developed by"@ + n + n);
    assert("_\n\n"@ =~= "_"@ + n + n);
    assert("---\n\n"@ =~= "---"@ + n + n);
    let heading = "# "@ + d.title;
    let stamp = "_Last updated: "@ + last_updated + "_"@;
    assert(single_line(heading));
    assert(single_line(stamp));
    assert(single_line("## Description"@));
    assert(single_line("## Developed by"@));
    assert(single_line("---"@));
    assert(single_line(e));
    // the block, read from its end
    let s13 = e;
    assert(lines(s13) =~= seq![e]) by {
        assert(s13.subrange(0, 0) =~= e);
    }
    let s12 = e + n + s13;
    lemma_lines_after_line(e, s13);
    let s11 = "---"@ + n + s12;
    lemma_lines_after_line("---"@, s12);
    assert(lines(s11) =~= seq!["---"@, e, e]);
    assert("---\n\n"@ =~= s11);
    let with_stamp = if last_updated.len() == 0 {
        s11
    } else {
        stamp + n + (e + n + s11)
    };
    if last_updated.len() > 0 {
        lemma_lines_after_line(e, s11);
        lemma_lines_after_line(stamp, e + n + s11);
        assert(lines(with_stamp) =~= seq![stamp, e] + seq!["---"@, e, e]);
        assert(with_stamp =~= last_updated_line(last_updated) + "---\n\n"@);
    } else {
        assert(lines(with_stamp) =~= Seq::<Seq<char>>::empty() + seq!["---"@, e, e]);
        assert(with_stamp =~= last_updated_line(last_updated) + "---\n\n"@);
    }
    let tail = lines(with_stamp);
    let s10 = e + n + with_stamp;
    lemma_lines_after_line(e, with_stamp);
    let s9 = d.developed_by + n + s10;
    lemma_lines_after_line(d.developed_by, s10);
    let s8 = e + n + s9;
    lemma_lines_after_line(e, s9);
    let s7 = "## Developed by"@ + n + s8;
    lemma_lines_after_line("## Developed by"@, s8);
    assert(lines(s7) =~= seq!["## Developed by"@, e, d.developed_by, e] + tail);
    assert(s7 =~= "## Developed by\n\n"@ + d.developed_by + "\n\n"@ + with_stamp);
    let s6 = e + n + s7;
    lemma_lines_after_line(e, s7);
    let s5 = d.description + n + s6;
    lemma_lines_after_line(d.description, s6);
    let s4 = e + n + s5;
    lemma_lines_after_line(e, s5);
    let s3 = "## Description"@ + n + s4;
    lemma_lines_after_line("## Description"@, s4);
    assert(lines(s3) =~= seq!["## Description"@, e, d.description, e] + lines(s7));
    assert(s3 =~= "## Description\n\n"@ + d.description + "\n\n"@ + s7);
    let s2 = e + n + s3;
    lemma_lines_after_line(e, s3);
    let s1 = heading + n + s2;
    lemma_lines_after_line(heading, s2);
    assert(lines(s1) =~= seq![heading, e] + lines(s3));
    assert(s1 =~= "# "@ + d.title + "\n\n"@ + s3);
    assert(function_markdown(d, last_updated) =~= s1);
    assert(lines(s1) =~= function_block_lines(d, last_updated));
}

/// The first lines of the block of an endpoint: the URL as a heading, the
/// banner if the endpoint is deprecated, then method, format and
/// description.
pub open spec fn endpoint_head_lines(d: EndpointDocView) -> Seq<Seq<char>> {
    seq!["# "@ + d.base_url + d.path, Seq::empty()] + (if d.deprecated {
        seq!["**DEPRECATED**"@, Seq::empty()]
    } else {
        Seq::empty()
    }) + seq![
        "**Method**: "@ + d.method,
        "**Format**: "@ + d.format,
        Seq::empty(),
        "**Description**: "@ + d.description,
    ]
}

proof fn lemma_summary_lines(d: EndpointDocView, rest: Seq<char>)
    requires
        single_line(d.method),
        single_line(d.format),
        single_line(d.description),
    ensures
        lines(endpoint_summary(d) + rest) == seq![
            "**Method**: "@ + d.method,
            "**Format**: "@ + d.format,
            Seq::empty(),
            "**Description**: "@ + d.description,
        ] + lines(rest),
{
    let n = seq!['\n'];
    let e = Seq::<char>::empty();
    let method = "**Method**: "@ + d.method;
    let format = "**Format**: "@ + d.format;
    let description = "**Description**: "@ + d.description;
    assert(single_line(method) && single_line(format) && single_line(description)) by {
        reveal_strlit("**Method**: ");
        reveal_strlit("**Format**: ");
        reveal_strlit("**Description**: ");
    }
    assert("\n"@ =~= n && "\n**Description**: "@ =~= n + "**Description**: "@) by {
        reveal_strlit("\n");
        reveal_strlit("\n**Description**: ");
        reveal_strlit("**Description**: ");
    }
    let s4 = description + n + rest;
    lemma_lines_after_line(description, rest);
    let s3 = e + n + s4;
    lemma_lines_after_line(e, s4);
    let s2 = format + n + s3;
    lemma_lines_after_line(format, s3);
    let s1 = method + n + s2;
    lemma_lines_after_line(method, s2);
    assert(lines(s1) =~= seq![method, format, e, description] + lines(rest));
    assert(s1 =~= endpoint_summary(d) + rest);
}

proof fn lemma_heading_lines(d: EndpointDocView, rest: Seq<char>)
    requires
        single_line(d.base_url),
        single_line(d.path),
    ensures
        lines(endpoint_heading(d) + rest) == seq!["# "@ + d.base_url + d.path, Seq::empty()] + (
        if d.deprecated {
            seq!["**DEPRECATED**"@, Seq::empty()]
        } else {
            Seq::empty()
        }) + lines(rest),
{
    let n = seq!['\n'];
    let e = Seq::<char>::empty();
    let heading = "# "@ + d.base_url + d.path;
    assert(single_line(heading) && single_line("**DEPRECATED**"@)) by {
        reveal_strlit("# ");
        reveal_strlit("**DEPRECATED**");
    }
    assert("\n\n"@ =~= n + n && "**DEPRECATED**\n\n"@ =~= "**DEPRECATED**"@ + n + n) by {
        reveal_strlit("\n\n");
        reveal_strlit("**DEPRECATED**\n\n");
        reveal_strlit("**DEPRECATED**");
    }
    let banner = if d.deprecated {
        "**DEPRECATED**"@ + n + (e + n + rest)
    } else {
        rest
    };
    if d.deprecated {
        lemma_lines_after_line(e, rest);
        lemma_lines_after_line("**DEPRECATED**"@, e + n + rest);
        assert(lines(banner) =~= seq!["**DEPRECATED**"@, e] + lines(rest));
    } else {
        assert(lines(banner) =~= Seq::<Seq<char>>::empty() + lines(rest));
    }
    lemma_lines_after_line(e, banner);
    lemma_lines_after_line(heading, e + n + banner);
    assert(heading + n + (e + n + banner) =~= endpoint_heading(d) + rest);
}

proof fn lemma_regroup(
    h: Seq<char>,
    m: Seq<char>,
    t1: Seq<char>,
    t2: Seq<char>,
    t3: Seq<char>,
    t4: Seq<char>,
    t5: Seq<char>,
    t6: Seq<char>,
    t7: Seq<char>,
    t8: Seq<char>,
)
    ensures
        h + m + t1 + t2 + t3 + t4 + t5 + t6 + t7 + t8 == h + (m + (t1 + t2 + t3 + t4 + t5 + t6 + t7
            + t8)),
{
    assert(h + m + t1 + t2 + t3 + t4 + t5 + t6 + t7 + t8 =~= h + (m + (t1 + t2 + t3 + t4 + t5 + t6
        + t7 + t8)));
}

proof fn lemma_head_of_lines(
    a: Seq<Seq<char>>,
    b: Seq<Seq<char>>,
    c: Seq<Seq<char>>,
    rest: Seq<Seq<char>>,
)
    ensures
        (a + b + (c + rest)).take((a + b + c).len() as int) == a + b + c,
        (a + b + c).len() <= (a + b + (c + rest)).len(),
{
    assert((a + b + (c + rest)).take((a + b + c).len() as int) =~= a + b + c);
}

/// The leading texts of a record are lines of its block. Where URL, path,
/// method, format and description stand on one line each, the block of an
/// endpoint starts with exactly the lines of `endpoint_head_lines`.
pub proof fn law_endpoint_block_head_lines(d: EndpointDocView)
    requires
        single_line(d.base_url),
        single_line(d.path),
        single_line(d.method),
        single_line(d.format),
        single_line(d.description),
    ensures
        endpoint_head_lines(d).len() <= lines(endpoint_markdown(d)).len(),
        lines(endpoint_markdown(d)).take(endpoint_head_lines(d).len() as int)
            == endpoint_head_lines(d),
{
    let t1 = labelled_list("\n**Tags**: "@, d.tags);
    let t2 = labelled_list("\n**Security**: "@, d.security);
    let t3 = labelled_list("\n**Consumes**: "@, d.consumes);
    let t4 = labelled_list("\n**Produces**: "@, d.produces);
    let t5 = parameters_section(d.parameters);
    let t6 = responses_section(d.responses);
    let t7 = body_section(d.body);
    let t8 = "\n---\n\n"@;
    let rest = t1 + t2 + t3 + t4 + t5 + t6 + t7 + t8;
    lemma_summary_lines(d, rest);
    lemma_heading_lines(d, endpoint_summary(d) + rest);
    lemma_regroup(endpoint_heading(d), endpoint_summary(d), t1, t2, t3, t4, t5, t6, t7, t8);
    lemma_head_of_lines(
        seq!["# "@ + d.base_url + d.path, Seq::empty()],
        if d.deprecated {
            seq!["**DEPRECATED**"@, Seq::empty()]
        } else {
            Seq::empty()
        },
        seq![
            "**Method**: "@ + d.method,
            "**Format**: "@ + d.format,
            Seq::empty(),
            "**Description**: "@ + d.description,
        ],
        lines(rest),
    );
}

} // verus!
