//! Prompt rendering: turns a sequence of skill sources into one
//! `<available_skills>` markup document, one element per line, with the
//! name and description escaped.

use vstd::prelude::*;
use vstd::string::StringExecFns;
use crate::error::{SkillError, SkillErrorV};
use crate::parser::{read_properties, spec_read_content};
use crate::text::{chars_vec, lemma_deep_is_strs, push_char, strs_view};

verus! {

/// The escaped form of one character: the five markup-special characters
/// become their named entities, every other character stands unchanged.
pub open spec fn escape_char(c: char) -> Seq<char> {
    if c == '&' {
        "&amp;"@
    } else if c == '<' {
        "&lt;"@
    } else if c == '>' {
        "&gt;"@
    } else if c == '"' {
        "&quot;"@
    } else if c == '\'' {
        "&#x27;"@
    } else {
        seq![c]
    }
}

/// The escaped form of a text, character by character; the ampersand is
/// escaped only where it stood in the input, never inside an entity that
/// escaping itself produced.
pub open spec fn spec_escape(s: Seq<char>) -> Seq<char>
    decreases s.len(),
{
    if s.len() == 0 {
        Seq::empty()
    } else {
        spec_escape(s.drop_last()) + escape_char(s.last())
    }
}

/// Escape the five markup-special characters as named entities.
pub fn html_escape(s: &str) -> (r: String)
    ensures
        r@ == spec_escape(s@),
{
    let v = chars_vec(s);
    let mut out = String::new();
    let mut i: usize = 0;
    proof {
        assert(v@.take(0) =~= Seq::<char>::empty());
    }
    while i < v.len()
        invariant
            i <= v.len(),
            v@ == s@,
            out@ == spec_escape(v@.take(i as int)),
        decreases v.len() - i,
    {
        assert(v@.take(i + 1).drop_last() =~= v@.take(i as int));
        assert(v@.take(i + 1).last() == v@[i as int]);
        let c = v[i];
        if c == '&' {
            out.append("&amp;");
        } else if c == '<' {
            out.append("&lt;");
        } else if c == '>' {
            out.append("&gt;");
        } else if c == '"' {
            out.append("&quot;");
        } else if c == '\'' {
            out.append("&#x27;");
        } else {
            let ghost o0 = out@;
            push_char(&mut out, c);
            assert(out@ =~= o0 + seq![c]);
        }
        i = i + 1;
        assert(out@ =~= spec_escape(v@.take(i as int)));
    }
    proof {
        assert(v@.take(i as int) =~= v@);
    }
    out
}

/// Escaped text never holds a raw `<`, `>`, `"` or `'`: each of the four
/// is always replaced by its entity.
pub proof fn lemma_escape_no_raw_specials(s: Seq<char>)
    ensures
        forall|i: int|
            0 <= i < spec_escape(s).len() ==> #[trigger] spec_escape(s)[i] != '<' && spec_escape(
                s,
            )[i] != '>' && spec_escape(s)[i] != '"' && spec_escape(s)[i] != '\'',
    decreases s.len(),
{
    reveal_strlit("&amp;");
    reveal_strlit("&lt;");
    reveal_strlit("&gt;");
    reveal_strlit("&quot;");
    reveal_strlit("&#x27;");
    if s.len() > 0 {
        lemma_escape_no_raw_specials(s.drop_last());
        let pre = spec_escape(s.drop_last());
        let tail = escape_char(s.last());
        assert forall|i: int| 0 <= i < spec_escape(s).len() implies #[trigger] spec_escape(s)[i]
            != '<' && spec_escape(s)[i] != '>' && spec_escape(s)[i] != '"' && spec_escape(s)[i]
            != '\'' by {
            if i < pre.len() {
                assert(spec_escape(s)[i] == pre[i]);
            } else {
                assert(spec_escape(s)[i] == tail[i - pre.len()]);
            }
        }
    }
}

/// What probing one skill location observed: no descriptor document in
/// the directory, a descriptor that could not be read, or the document's
/// text together with the re-located descriptor path for reporting.
#[derive(Debug)]
pub enum SkillSource {
    NoDescriptor { dir: String },
    Unreadable { error: String },
    Found { content: String, location: Option<String> },
}

/// Mathematical form of a `SkillSource`.
pub enum SkillSourceV {
    NoDescriptor { dir: Seq<char> },
    Unreadable { error: Seq<char> },
    Found { content: Seq<char>, location: Option<Seq<char>> },
}

impl View for SkillSource {
    type V = SkillSourceV;

    open spec fn view(&self) -> SkillSourceV {
        match self {
            SkillSource::NoDescriptor { dir } => (SkillSourceV::NoDescriptor { dir: dir@ }),
            SkillSource::Unreadable { error } => (SkillSourceV::Unreadable { error: error@ }),
            SkillSource::Found { content, location } => (SkillSourceV::Found {
                content: content@,
                location: match location {
                    Some(l) => Some(l@),
                    None => None,
                },
            }),
        }
    }
}

/// The view of a sequence of skill sources.
pub open spec fn srcs_view(s: Seq<SkillSource>) -> Seq<SkillSourceV> {
    s.map_values(|x: SkillSource| x@)
}

/// The lines one source contributes, or the failure that aborts the whole
/// render: a missing descriptor and an unreadable one fail as the reader
/// would, and a read document yields one `<skill>` block, with the
/// location element only where the descriptor was re-located.
pub open spec fn spec_render_source(src: SkillSourceV) -> Result<Seq<Seq<char>>, SkillErrorV> {
    match src {
        SkillSourceV::NoDescriptor { dir } => Err(
            SkillErrorV::Parse("SKILL.md not found in "@ + dir),
        ),
        SkillSourceV::Unreadable { error } => Err(SkillErrorV::Io(error)),
        SkillSourceV::Found { content, location } => match spec_read_content(content) {
            Err(e) => Err(e),
            Ok(p) => Ok(
                seq![
                    "<skill>"@,
                    "<name>"@,
                    spec_escape(p.name),
                    "</name>"@,
                    "<description>"@,
                    spec_escape(p.description),
                    "</description>"@,
                ] + (match location {
                    Some(l) => seq!["<location>"@, l, "</location>"@],
                    None => Seq::empty(),
                }) + seq!["</skill>"@],
            ),
        },
    }
}

/// Render the lines of one skill entry, or fail as the reader fails.
pub fn render_skill_block(source: &SkillSource) -> (r: Result<Vec<String>, SkillError>)
    ensures
        match r {
            Ok(v) => spec_render_source(source@) == Ok::<Seq<Seq<char>>, SkillErrorV>(
                v.deep_view(),
            ),
            Err(e) => spec_render_source(source@) == Err::<Seq<Seq<char>>, SkillErrorV>(e@),
        },
{
    match source {
        SkillSource::NoDescriptor { dir } => {
            let mut msg = String::from_str("SKILL.md not found in ");
            msg.append(dir.as_str());
            Err(SkillError::parse(msg))
        },
        SkillSource::Unreadable { error } => Err(SkillError::Io(error.clone())),
        SkillSource::Found { content, location } => {
            let props = match read_properties(content.as_str()) {
                Ok(p) => p,
                Err(e) => {
                    return Err(e);
                },
            };
            let mut lines: Vec<String> = Vec::new();
            lines.push(String::from_str("<skill>"));
            lines.push(String::from_str("<name>"));
            lines.push(html_escape(props.name.as_str()));
            lines.push(String::from_str("</name>"));
            lines.push(String::from_str("<description>"));
            lines.push(html_escape(props.description.as_str()));
            lines.push(String::from_str("</description>"));
            match location {
                Some(l) => {
                    lines.push(String::from_str("<location>"));
                    lines.push(l.clone());
                    lines.push(String::from_str("</location>"));
                },
                None => {},
            }
            lines.push(String::from_str("</skill>"));
            proof {
                lemma_deep_is_strs(lines);
                assert(spec_render_source(source@) matches Ok(ls) && lines.deep_view() =~= ls);
            }
            Ok(lines)
        },
    }
}

/// The lines of all sources in order, or the first failure; a failure
/// aborts the whole render, and no later source contributes.
pub open spec fn spec_blocks(srcs: Seq<SkillSourceV>) -> Result<Seq<Seq<char>>, SkillErrorV>
    decreases srcs.len(),
{
    if srcs.len() == 0 {
        Ok(Seq::empty())
    } else {
        match spec_render_source(srcs[0]) {
            Err(e) => Err(e),
            Ok(ls) => match spec_blocks(srcs.drop_first()) {
                Err(e) => Err(e),
                Ok(rest) => Ok(ls + rest),
            },
        }
    }
}

/// The lines joined with a newline between each pair.
pub open spec fn join_nl(parts: Seq<Seq<char>>) -> Seq<char>
    decreases parts.len(),
{
    if parts.len() == 0 {
        Seq::empty()
    } else if parts.len() == 1 {
        parts[0]
    } else {
        join_nl(parts.drop_last()) + "\n"@ + parts.last()
    }
}

/// The whole rendered document: the fixed skeleton for no sources, and
/// otherwise the skeleton holding each source's block in input order, one
/// element per line.
pub open spec fn spec_to_prompt(srcs: Seq<SkillSourceV>) -> Result<Seq<char>, SkillErrorV> {
    if srcs.len() == 0 {
        Ok("<available_skills>\n</available_skills>"@)
    } else {
        match spec_blocks(srcs) {
            Err(e) => Err(e),
            Ok(lines) => Ok(
                join_nl(seq!["<available_skills>"@] + lines + seq!["</available_skills>"@]),
            ),
        }
    }
}

/// Join lines with newlines.
fn join_nl_exec(parts: &Vec<String>) -> (r: String)
    ensures
        r@ == join_nl(parts.deep_view()),
{
    let ghost dv = parts.deep_view();
    proof {
        lemma_deep_is_strs(*parts);
        assert(dv.take(0) =~= Seq::empty());
    }
    let mut s = String::new();
    let mut i: usize = 0;
    while i < parts.len()
        invariant
            i <= parts.len(),
            dv == parts.deep_view(),
            dv.len() == parts@.len(),
            s@ == join_nl(dv.take(i as int)),
        decreases parts.len() - i,
    {
        assert(dv[i as int] == parts@[i as int]@);
        assert(dv.take(i + 1).drop_last() =~= dv.take(i as int));
        assert(dv.take(i + 1).last() == dv[i as int]);
        if i > 0 {
            s.append("\n");
        }
        s.append(parts[i].as_str());
        i = i + 1;
        if i == 1 {
            assert(dv.take(1).len() == 1);
            assert(s@ =~= join_nl(dv.take(1)));
        } else {
            assert(s@ =~= join_nl(dv.take(i as int)));
        }
    }
    proof {
        assert(dv.take(i as int) =~= dv);
    }
    s
}

/// Render the `<available_skills>` block for the given skill sources.
///
/// The first source that fails aborts the whole render with its failure;
/// no partial document is produced.
pub fn to_prompt(sources: &Vec<SkillSource>) -> (r: Result<String, SkillError>)
    ensures
        match r {
            Ok(s) => spec_to_prompt(srcs_view(sources@)) == Ok::<Seq<char>, SkillErrorV>(s@),
            Err(e) => spec_to_prompt(srcs_view(sources@)) == Err::<Seq<char>, SkillErrorV>(e@),
        },
{
    if sources.len() == 0 {
        return Ok(String::from_str("<available_skills>\n</available_skills>"));
    }
    let ghost sv = srcs_view(sources@);
    let mut blocks: Vec<String> = Vec::new();
    let mut i: usize = 0;
    proof {
        lemma_deep_is_strs(blocks);
        assert(sv.skip(0) =~= sv);
        assert(blocks.deep_view() =~= Seq::<Seq<char>>::empty());
        assert(spec_blocks(sv) == (match spec_blocks(sv.skip(0)) {
            Err(e) => Err::<Seq<Seq<char>>, SkillErrorV>(e),
            Ok(rest) => Ok::<Seq<Seq<char>>, SkillErrorV>(blocks.deep_view() + rest),
        })) by {
            match spec_blocks(sv) {
                Err(_) => {},
                Ok(rest) => {
                    assert(blocks.deep_view() + rest =~= rest);
                },
            }
        }
    }
    while i < sources.len()
        invariant
            i <= sources.len(),
            sv == srcs_view(sources@),
            sv.len() == sources@.len(),
            spec_blocks(sv) == (match spec_blocks(sv.skip(i as int)) {
                Err(e) => Err::<Seq<Seq<char>>, SkillErrorV>(e),
                Ok(rest) => Ok::<Seq<Seq<char>>, SkillErrorV>(blocks.deep_view() + rest),
            }),
        decreases sources.len() - i,
    {
        assert(sv[i as int] == sources@[i as int]@);
        assert(sv.skip(i as int)[0] == sv[i as int]);
        assert(sv.skip(i as int).drop_first() =~= sv.skip(i + 1));
        let ghost b0 = blocks@;
        let ghost bv0 = blocks.deep_view();
        match render_skill_block(&sources[i]) {
            Err(e) => {
                return Err(e);
            },
            Ok(mut ls) => {
                let ghost lsv = ls.deep_view();
                let ghost lsb = ls@;
                proof {
                    lemma_deep_is_strs(blocks);
                    lemma_deep_is_strs(ls);
                }
                blocks.append(&mut ls);
                proof {
                    assert(blocks@ == b0 + lsb);
                    crate::text::lemma_strs_view_concat(b0, lsb);
                    lemma_deep_is_strs(blocks);
                    assert(blocks.deep_view() =~= bv0 + lsv);
                    assert forall|rest: Seq<Seq<char>>| #[trigger] ((bv0 + lsv) + rest) =~= bv0 + (
                    lsv + rest) by {}
                }
            },
        }
        i = i + 1;
    }
    proof {
        assert(sv.skip(i as int).len() == 0);
        assert(spec_blocks(sv.skip(i as int)) == Ok::<Seq<Seq<char>>, SkillErrorV>(Seq::empty()));
        match spec_blocks(sv) {
            Err(_) => {
                assert(false);
            },
            Ok(rest) => {},
        }
        assert(spec_blocks(sv) == Ok::<Seq<Seq<char>>, SkillErrorV>(blocks.deep_view()
            + Seq::<Seq<char>>::empty()));
        assert(blocks.deep_view() + Seq::<Seq<char>>::empty() =~= blocks.deep_view());
    }
    let mut all: Vec<String> = Vec::new();
    all.push(String::from_str("<available_skills>"));
    let ghost a0 = all@;
    let ghost bb = blocks@;
    let ghost bbv = blocks.deep_view();
    proof {
        lemma_deep_is_strs(all);
        lemma_deep_is_strs(blocks);
        assert(all.deep_view() =~= seq!["<available_skills>"@]);
    }
    let mut blocks = blocks;
    all.append(&mut blocks);
    proof {
        assert(all@ == a0 + bb);
        crate::text::lemma_strs_view_concat(a0, bb);
        lemma_deep_is_strs(all);
        assert(all.deep_view() =~= seq!["<available_skills>"@] + bbv);
    }
    let ghost a1 = all@;
    let ghost av1 = all.deep_view();
    all.push(String::from_str("</available_skills>"));
    proof {
        assert(all@ == a1.push(all@.last()));
        crate::text::lemma_strs_view_push(a1, all@.last());
        lemma_deep_is_strs(all);
        assert(all.deep_view() =~= av1.push("</available_skills>"@));
        assert(all.deep_view() =~= seq!["<available_skills>"@] + bbv + seq![
            "</available_skills>"@,
        ]);
    }
    let out = join_nl_exec(&all);
    Ok(out)
}

} // verus!
