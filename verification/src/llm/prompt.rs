//! What is said to the language model.

use vstd::prelude::*;
use vstd::string::StringExecFns;

use crate::llm::{ChunkContext, ChunkView};
use crate::text::{join, joined};

verus! {

/// What the model is told before every chunk.
pub const SYSTEM_PROMPT: &'static str = "You author concise flashcards from study material. Given a chunk of source text, produce 1-5 self-contained Q&A cards.\n\nRules:\n- Each card must be self-contained: a learner should be able to answer it without seeing the source material.\n- Front: one concise question.\n- Back: a complete, minimal answer (1-3 sentences).\n- Prefer atomic facts: one concept per card.\n- Don't invent content not present in the source.\n- If the chunk is unsuitable (table of contents, navigation, code-only with no explanation), return an empty cards array.\n\nRespond with JSON matching this schema:\n{\n  \"cards\": [\n    { \"front\": \"<question>\", \"back\": \"<answer>\", \"rationale\": \"<optional brief reason>\" }\n  ]\n}";

/// What the model is told before every answer that it grades.
pub const EVALUATION_PROMPT: &'static str = "You grade a student's answer to a flashcard.\n\nRules:\n- Judge the answer against the card's expected answer, not against world knowledge.\n- Accept paraphrasing: an answer that says the same in other words is correct.\n- correct: the answer covers the expected answer. partial: it covers a part of it. incorrect: it misses or contradicts it.\n- Explain the verdict in one or two sentences.\n\nRespond with JSON matching this schema:\n{ \"verdict\": \"correct\" | \"partial\" | \"incorrect\", \"explanation\": \"<brief reason>\" }";

// ---------- the model ----------

/// The lines about a chunk that stand before its text.
pub open spec fn metadata(chunk: ChunkView) -> Seq<char> {
    (match chunk.source_heading {
        Some(h) => "Heading: "@ + h + seq!['\n'],
        None => seq![],
    }) + (if chunk.tags.len() == 0 {
        seq![]
    } else {
        "Tags: "@ + join(chunk.tags, ", "@) + seq!['\n']
    })
}

/// What the model is told about a chunk: the metadata and an empty line, where
/// there is any metadata, and the text.
pub open spec fn user_prompt(chunk: ChunkView) -> Seq<char> {
    let about = metadata(chunk);
    if about.len() == 0 {
        chunk.text
    } else {
        about + seq!['\n'] + chunk.text
    }
}

/// What the model is told about an answer: the card's question, the expected
/// answer, and the student's.
pub open spec fn answer_prompt(
    front: Seq<char>,
    back: Seq<char>,
    answer: Seq<char>,
) -> Seq<char> {
    "Question: "@ + front + "\nExpected answer: "@ + back + "\nStudent's answer: "@ + answer
}

// ---------- the code ----------

/// What the model is told about a chunk.
pub fn render_user(chunk: &ChunkContext) -> (out: String)
    ensures
        out@ == user_prompt(chunk@),
{
    let mut out = String::new();
    match &chunk.source_heading {
        Some(heading) => {
            out.append("Heading: ");
            out.append(heading.as_str());
            out.push('\n');
            assert(out@ =~= "Heading: "@ + heading@ + seq!['\n']);
        },
        None => {
            assert(out@ =~= seq![]);
        },
    }
    let ghost head = out@;
    if chunk.tags.len() != 0 {
        out.append("Tags: ");
        out.append(joined(&chunk.tags, ", ").as_str());
        out.push('\n');
        assert(out@ =~= head + ("Tags: "@ + join(chunk@.tags, ", "@) + seq!['\n']));
    }
    assert(out@ =~= metadata(chunk@));
    if !out.as_str().is_empty() {
        out.push('\n');
    }
    out.append(chunk.text.as_str());
    assert(out@ =~= user_prompt(chunk@));
    out
}

/// What the model is told about an answer.
pub fn render_answer(front: &str, back: &str, answer: &str) -> (out: String)
    ensures
        out@ == answer_prompt(front@, back@, answer@),
{
    let mut out = "Question: ".to_string();
    out.append(front);
    out.append("\nExpected answer: ");
    out.append(back);
    out.append("\nStudent's answer: ");
    out.append(answer);
    out
}

// ---------- laws ----------

/// The heading, the tags and the text stand in the prompt as they are: the
/// prompt ends in the text, and what stands before it is the metadata alone.
pub proof fn law_prompt_ends_in_the_text(chunk: ChunkView)
    ensures
        user_prompt(chunk).skip(user_prompt(chunk).len() - chunk.text.len()) == chunk.text,
        metadata(chunk).is_prefix_of(user_prompt(chunk)),
{
    let p = user_prompt(chunk);
    assert(p.skip(p.len() - chunk.text.len()) =~= chunk.text);
}

/// A chunk without heading and tags is shown as its text alone.
pub proof fn law_bare_chunk_is_its_text(chunk: ChunkView)
    requires
        chunk.source_heading is None,
        chunk.tags.len() == 0,
    ensures
        user_prompt(chunk) == chunk.text,
{
}

/// The heading and the tags of a chunk stand before its text, each on its own line
/// and all of them, with an empty line between them and the text.
pub proof fn law_prompt_tells_heading_and_tags(
    file: Seq<char>,
    heading: Seq<char>,
    tags: Seq<Seq<char>>,
    text: Seq<char>,
)
    requires
        tags.len() > 0,
    ensures
        user_prompt(
            ChunkView { source_file: file, source_heading: Some(heading), tags, text },
        ) == "Heading: "@ + heading + "\nTags: "@ + join(tags, ", "@) + "\n\n"@ + text,
        user_prompt(
            ChunkView { source_file: file, source_heading: None, tags, text },
        ) == "Tags: "@ + join(tags, ", "@) + "\n\n"@ + text,
        user_prompt(
            ChunkView {
                source_file: file,
                source_heading: Some(heading),
                tags: seq![],
                text,
            },
        ) == "Heading: "@ + heading + "\n\n"@ + text,
{
    reveal_strlit("Heading: ");
    reveal_strlit("Tags: ");
    reveal_strlit("\nTags: ");
    reveal_strlit("\n\n");
    assert("\nTags: "@ =~= seq!['\n'] + "Tags: "@);
    assert("\n\n"@ =~= seq!['\n'] + seq!['\n']);
    let both = ChunkView { source_file: file, source_heading: Some(heading), tags, text };
    let few = ChunkView { source_file: file, source_heading: None, tags, text };
    let bare = ChunkView {
        source_file: file,
        source_heading: Some(heading),
        tags: seq![],
        text,
    };
    assert(metadata(both).len() > 0 && metadata(few).len() > 0 && metadata(bare).len() > 0);
    assert(user_prompt(both) =~= "Heading: "@ + heading + "\nTags: "@ + join(tags, ", "@)
        + "\n\n"@ + text);
    assert(user_prompt(few) =~= "Tags: "@ + join(tags, ", "@) + "\n\n"@ + text);
    assert(user_prompt(bare) =~= "Heading: "@ + heading + "\n\n"@ + text);
}

/// A grader is told the question, the expected answer and the student's, each under
/// its own name.
pub proof fn law_grader_is_told_all_three(front: Seq<char>, back: Seq<char>, answer: Seq<char>)
    ensures
        answer_prompt(front, back, answer) == "Question: "@ + front + "\nExpected answer: "@ + back
            + "\nStudent's answer: "@ + answer,
{
}

} // verus!
